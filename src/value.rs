//! Parameter values: literals and percentages, held in thousandths, and their
//! conversions given a parameter's range.
use vstd::prelude::*;
use crate::dmx::{Dmx, dmx_of_ratio};
use crate::parameter::{Parameter, THOUSANDTHS};

verus! {

/// Thousandths of a percent in a whole range.
pub const FULL_RANGE: i64 = 100_000;

/// `x / d` rounded toward zero, for `d > 0`.
pub open spec fn div_toward_zero(x: int, d: int) -> int {
    if x >= 0 {
        x / d
    } else {
        -((-x) / d)
    }
}

/// `x` held to the range of `i64`.
pub open spec fn saturate(x: int) -> int {
    if x > i64::MAX {
        i64::MAX as int
    } else if x < i64::MIN {
        i64::MIN as int
    } else {
        x
    }
}

/// `v` held to `lo..=hi` (`lo` wins should the bounds cross).
pub open spec fn clamp(v: int, lo: int, hi: int) -> int {
    if v < lo {
        lo
    } else if v > hi {
        hi
    } else {
        v
    }
}

/// The literal that `percentage` (thousandths of a percent) stands for in
/// `parameter`'s range: `min + (max - min) * percentage / 100`.
pub open spec fn literal_of_percentage(percentage: int, parameter: Parameter) -> int {
    saturate(
        parameter.min + div_toward_zero(
            (parameter.max - parameter.min) * percentage,
            FULL_RANGE as int,
        ),
    )
}

/// The DMX byte for a literal: its distance from `min` as a fraction of the
/// range. An empty range gives 0 at `min` and 255 elsewhere; a reversed one 0.
pub open spec fn literal_dmx(value: int, parameter: Parameter) -> int {
    let distance = if value >= parameter.min {
        value - parameter.min
    } else {
        parameter.min - value
    };
    let range = parameter.max - parameter.min;
    if range > 0 {
        dmx_of_ratio(distance, range)
    } else if range == 0 && distance > 0 {
        255
    } else {
        0
    }
}

/// The DMX byte for a percentage: that fraction of full scale, none below zero.
pub open spec fn percentage_dmx(percentage: int) -> int {
    if percentage <= 0 {
        0
    } else {
        dmx_of_ratio(percentage, FULL_RANGE as int)
    }
}

/// An absolute value, in thousandths of the parameter's unit.
#[derive(Clone, Copy, Debug, PartialEq, Eq, Structural)]
pub struct Literal {
    pub value: i64,
}

/// A share of a parameter's range, in thousandths of a percent.
#[derive(Clone, Copy, Debug, PartialEq, Eq, Structural)]
pub struct Percentage {
    pub percentage: i64,
}

impl Literal {
    /// A literal of `value` whole units.
    pub fn new(value: i32) -> (r: Literal)
        ensures
            r.value == value * THOUSANDTHS,
    {
        Literal { value: value as i64 * THOUSANDTHS }
    }

    pub fn from_thousandths(value: i64) -> (r: Literal)
        ensures
            r.value == value,
    {
        Literal { value }
    }

    pub fn value(&self) -> (r: i64)
        ensures
            r == self.value,
    {
        self.value
    }

    pub fn set(&mut self, value: i64)
        ensures
            final(self).value == value,
    {
        self.value = value;
    }

    pub fn to_dmx(&self, parameter: &Parameter) -> (r: Dmx)
        ensures
            r.0 == literal_dmx(self.value as int, *parameter),
    {
        let distance: u128 = if self.value >= parameter.min {
            (self.value as i128 - parameter.min as i128) as u128
        } else {
            (parameter.min as i128 - self.value as i128) as u128
        };
        if parameter.max > parameter.min {
            let range = (parameter.max as i128 - parameter.min as i128) as u128;
            Dmx::from_ratio(distance, range)
        } else if parameter.max == parameter.min && distance > 0 {
            Dmx::new(255)
        } else {
            Dmx::new(0)
        }
    }
}

impl Percentage {
    /// A percentage of `percentage` whole percent.
    pub fn new(percentage: i32) -> (r: Percentage)
        ensures
            r.percentage == percentage * THOUSANDTHS,
    {
        Percentage { percentage: percentage as i64 * THOUSANDTHS }
    }

    pub fn from_thousandths(percentage: i64) -> (r: Percentage)
        ensures
            r.percentage == percentage,
    {
        Percentage { percentage }
    }

    pub fn value(&self) -> (r: i64)
        ensures
            r == self.percentage,
    {
        self.percentage
    }

    pub fn set(&mut self, percentage: i64)
        ensures
            final(self).percentage == percentage,
    {
        self.percentage = percentage;
    }

    /// The literal this percentage stands for in `parameter`'s range.
    pub fn to_literal(&self, parameter: &Parameter) -> (r: Literal)
        ensures
            r.value == literal_of_percentage(self.percentage as int, *parameter),
    {
        let range: i128 = parameter.max as i128 - parameter.min as i128;
        let p: i128 = self.percentage as i128;
        let range_size: u128 = if range >= 0 {
            range as u128
        } else {
            (-range) as u128
        };
        let p_size: u128 = if p >= 0 {
            p as u128
        } else {
            (-p) as u128
        };
        assert(range_size * p_size <= 0x1_0000_0000_0000_0000u128 * 0x8000_0000_0000_0000u128)
            by (nonlinear_arith)
            requires
                range_size <= 0x1_0000_0000_0000_0000u128,
                p_size <= 0x8000_0000_0000_0000u128,
        ;
        let step_size: u128 = (range_size * p_size) / (FULL_RANGE as u128);
        let product_negative = (range < 0) != (p < 0) && range != 0 && p != 0;
        proof {
            let prod = (range as int) * (p as int);
            assert(range_size * p_size == if prod >= 0 {
                prod
            } else {
                -prod
            }) by (nonlinear_arith)
                requires
                    range_size == if range >= 0 {
                        range as int
                    } else {
                        -range
                    },
                    p_size == if p >= 0 {
                        p as int
                    } else {
                        -p
                    },
                    prod == (range as int) * (p as int),
            ;
            assert(product_negative <==> prod < 0) by (nonlinear_arith)
                requires
                    prod == (range as int) * (p as int),
                    product_negative == ((range < 0) != (p < 0) && range != 0 && p != 0),
            ;
        }
        let step: i128 = if product_negative {
            -(step_size as i128)
        } else {
            step_size as i128
        };
        let result: i128 = parameter.min as i128 + step;
        if result > i64::MAX as i128 {
            Literal { value: i64::MAX }
        } else if result < i64::MIN as i128 {
            Literal { value: i64::MIN }
        } else {
            Literal { value: result as i64 }
        }
    }

    pub fn to_dmx(&self, _parameter: &Parameter) -> (r: Dmx)
        ensures
            r.0 == percentage_dmx(self.percentage as int),
    {
        if self.percentage <= 0 {
            Dmx::new(0)
        } else {
            Dmx::from_ratio(self.percentage as u128, FULL_RANGE as u128)
        }
    }
}

/// A parameter value, absolute or relative to the parameter's range.
#[derive(Clone, Copy, Debug, PartialEq, Eq, Structural)]
pub enum Values {
    Literal(Literal),
    Percentage(Percentage),
}

impl Values {
    /// The number a value holds, in thousandths, whatever its kind.
    pub open spec fn magnitude(self) -> int {
        match self {
            Values::Literal(l) => l.value as int,
            Values::Percentage(p) => p.percentage as int,
        }
    }

    /// This value as a literal in `parameter`'s range.
    pub open spec fn as_literal(self, parameter: Parameter) -> int {
        match self {
            Values::Literal(l) => l.value as int,
            Values::Percentage(p) => literal_of_percentage(p.percentage as int, parameter),
        }
    }

    /// This value as a percentage: a literal's number is taken as it stands.
    pub open spec fn as_percentage(self) -> int {
        self.magnitude()
    }

    pub open spec fn spec_to_dmx(self, parameter: Parameter) -> int {
        match self {
            Values::Literal(l) => literal_dmx(l.value as int, parameter),
            Values::Percentage(p) => percentage_dmx(p.percentage as int),
        }
    }

    /// A literal of `value` whole units.
    pub fn make_literal(value: i32) -> (r: Values)
        ensures
            r == Values::Literal(Literal { value: (value * THOUSANDTHS) as i64 }),
    {
        Values::Literal(Literal::new(value))
    }

    /// A percentage of `percentage` whole percent.
    pub fn make_percentage(percentage: i32) -> (r: Values)
        ensures
            r == Values::Percentage(Percentage { percentage: (percentage * THOUSANDTHS) as i64 }),
    {
        Values::Percentage(Percentage::new(percentage))
    }

    /// A literal of `value` thousandths.
    pub fn literal_thousandths(value: i64) -> (r: Values)
        ensures
            r == Values::Literal(Literal { value }),
    {
        Values::Literal(Literal { value })
    }

    /// A percentage of `percentage` thousandths of a percent.
    pub fn percentage_thousandths(percentage: i64) -> (r: Values)
        ensures
            r == Values::Percentage(Percentage { percentage }),
    {
        Values::Percentage(Percentage { percentage })
    }

    pub fn to_dmx(&self, parameter: &Parameter) -> (r: Dmx)
        ensures
            r.0 == self.spec_to_dmx(*parameter),
    {
        match self {
            Values::Literal(literal) => literal.to_dmx(parameter),
            Values::Percentage(percentage) => percentage.to_dmx(parameter),
        }
    }

    /// This value as a literal in `parameter`'s range.
    pub fn to_literal(&self, parameter: &Parameter) -> (r: Literal)
        ensures
            r.value == self.as_literal(*parameter),
    {
        match self {
            Values::Literal(literal) => *literal,
            Values::Percentage(percentage) => percentage.to_literal(parameter),
        }
    }

    /// This value as a percentage. A literal's number is carried over as it
    /// stands: no inverse of the parameter's range is applied.
    pub fn to_percentage(&self) -> (r: Percentage)
        ensures
            r.percentage == self.as_percentage(),
    {
        match self {
            Values::Literal(literal) => Percentage { percentage: literal.value },
            Values::Percentage(percentage) => *percentage,
        }
    }
}

} // verus!

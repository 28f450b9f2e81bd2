//! Colour spaces, and the colour a fixture resolves to within one.
use vstd::prelude::*;
use crate::parameter::Param;
use crate::value::Values;

verus! {

#[derive(Clone, Copy, Debug, PartialEq, Eq, Structural)]
pub enum Colorspace {
    RGB,
}

/// The parameters that make up a colour in `colorspace`.
pub open spec fn colorspace_params(colorspace: Colorspace) -> Seq<Param> {
    match colorspace {
        Colorspace::RGB => seq![Param::Red, Param::Green, Param::Blue],
    }
}

impl Colorspace {
    /// The colour space a fixture's parameters are written in. Only RGB is
    /// known, so every fixture is taken to be RGB.
    pub fn detect() -> (r: Colorspace)
        ensures
            r == Colorspace::RGB,
    {
        Colorspace::RGB
    }

    pub fn params_for_colorspace(colorspace: &Colorspace) -> (r: Vec<Param>)
        ensures
            r@ == colorspace_params(*colorspace),
    {
        match colorspace {
            Colorspace::RGB => {
                let v = vec![Param::Red, Param::Green, Param::Blue];
                assert(v@ =~= colorspace_params(*colorspace));
                v
            },
        }
    }

    /// Whether `param` is one of the parameters of this colour space.
    pub fn contains(&self, param: &Param) -> (r: bool)
        ensures
            r == colorspace_params(*self).contains(*param),
    {
        proof {
            assert(colorspace_params(*self)[0] == Param::Red);
            assert(colorspace_params(*self)[1] == Param::Green);
            assert(colorspace_params(*self)[2] == Param::Blue);
        }
        match param {
            Param::Red | Param::Green | Param::Blue => true,
            _ => {
                assert(!colorspace_params(*self).contains(*param));
                false
            },
        }
    }
}

/// A colour: a value for each of its colour space's parameters that has one.
#[derive(Clone, Debug)]
pub struct Color {
    pub values: Vec<(Param, Values)>,
    pub colorspace: Colorspace,
}

/// The value `param` has in `values`: the last entry for it.
pub open spec fn entry_value(values: Seq<(Param, Values)>, param: Param) -> Option<Values>
    decreases values.len(),
{
    if values.len() == 0 {
        None
    } else if values.last().0 == param {
        Some(values.last().1)
    } else {
        entry_value(values.drop_last(), param)
    }
}

impl Color {
    pub open spec fn value_of(self, param: Param) -> Option<Values> {
        entry_value(self.values@, param)
    }

    pub fn new(colorspace: Colorspace) -> (r: Color)
        ensures
            r.colorspace == colorspace,
            forall|p: Param| r.value_of(p) == None::<Values>,
    {
        Color { values: Vec::new(), colorspace }
    }

    /// This colour in `target`: the values are kept as they are, since the
    /// one colour space known needs no conversion.
    pub fn convert_to(self, _target: &Colorspace) -> (r: Color)
        ensures
            r == self,
    {
        self
    }

    pub fn set(&mut self, parameter: Param, value: Values)
        ensures
            final(self).colorspace == old(self).colorspace,
            final(self).value_of(parameter) == Some(value),
            forall|p: Param| p != parameter ==> final(self).value_of(p) == old(self).value_of(p),
    {
        self.values.push((parameter, value));
        proof {
            assert(self.values@.drop_last() =~= old(self).values@);
        }
    }

    /// The values set, oldest first; the last entry for a parameter counts.
    pub fn values(&self) -> (r: &Vec<(Param, Values)>)
        ensures
            *r == self.values,
    {
        &self.values
    }

    pub fn get_value(&self, parameter: &Param) -> (r: Option<Values>)
        ensures
            r == self.value_of(*parameter),
    {
        let mut i: usize = self.values.len();
        assert(self.values@.subrange(0, i as int) =~= self.values@);
        while i > 0
            invariant
                i <= self.values@.len(),
                entry_value(self.values@, *parameter) == entry_value(
                    self.values@.subrange(0, i as int),
                    *parameter,
                ),
            decreases i,
        {
            let entry = self.values[i - 1];
            proof {
                let prefix = self.values@.subrange(0, i as int);
                assert(prefix.drop_last() =~= self.values@.subrange(0, i - 1));
            }
            if entry.0 == *parameter {
                return Some(entry.1);
            }
            i = i - 1;
        }
        None
    }
}

} // verus!

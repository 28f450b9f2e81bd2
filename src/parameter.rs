//! Parameters: the named dimensions of a fixture, and the range and DMX slot
//! a profile gives each of them.
use vstd::prelude::*;

verus! {

/// Thousandths in one unit: values, percentages and parameter ranges are
/// held as whole thousandths.
pub const THOUSANDTHS: i64 = 1000;

/// The number of distinct `Param`s.
pub const PARAM_COUNT: usize = 9;

#[derive(Clone, Copy, Debug, PartialEq, Eq, Hash, Structural)]
pub enum Param {
    Intensity,
    Pan,
    Tilt,
    Red,
    Green,
    Blue,
    Cyan,
    Magenta,
    Yellow,
}

/// The parameter a lower-case name stands for.
pub open spec fn param_named(name: Seq<char>) -> Option<Param> {
    if name == "intensity"@ {
        Some(Param::Intensity)
    } else if name == "pan"@ {
        Some(Param::Pan)
    } else if name == "tilt"@ {
        Some(Param::Tilt)
    } else if name == "red"@ {
        Some(Param::Red)
    } else if name == "green"@ {
        Some(Param::Green)
    } else if name == "blue"@ {
        Some(Param::Blue)
    } else if name == "cyan"@ {
        Some(Param::Cyan)
    } else if name == "magenta"@ {
        Some(Param::Magenta)
    } else if name == "yellow"@ {
        Some(Param::Yellow)
    } else {
        None
    }
}

/// Whether two strings hold the same characters.
fn same_text(a: &str, b: &str) -> (r: bool)
    ensures
        r == (a@ == b@),
{
    let n = a.unicode_len();
    if n != b.unicode_len() {
        return false;
    }
    let mut i: usize = 0;
    while i < n
        invariant
            n == a@.len(),
            n == b@.len(),
            i <= n,
            forall|j: int| 0 <= j < i ==> a@[j] == b@[j],
        decreases n - i,
    {
        if a.get_char(i) != b.get_char(i) {
            return false;
        }
        i = i + 1;
    }
    assert(a@ =~= b@);
    true
}

/// Distinct parameters have distinct slots.
pub proof fn lemma_index_injective(p: Param, q: Param)
    ensures
        p.spec_index() == q.spec_index() ==> p == q,
{
}

impl Param {
    pub open spec fn spec_index(self) -> int {
        match self {
            Param::Intensity => 0,
            Param::Pan => 1,
            Param::Tilt => 2,
            Param::Red => 3,
            Param::Green => 4,
            Param::Blue => 5,
            Param::Cyan => 6,
            Param::Magenta => 7,
            Param::Yellow => 8,
        }
    }

    pub open spec fn spec_is_color(self) -> bool {
        match self {
            Param::Intensity | Param::Pan | Param::Tilt => false,
            _ => true,
        }
    }

    /// A distinct slot number for each parameter, below `PARAM_COUNT`.
    pub fn index(&self) -> (r: usize)
        ensures
            r == self.spec_index(),
            r < PARAM_COUNT,
    {
        match self {
            Param::Intensity => 0,
            Param::Pan => 1,
            Param::Tilt => 2,
            Param::Red => 3,
            Param::Green => 4,
            Param::Blue => 5,
            Param::Cyan => 6,
            Param::Magenta => 7,
            Param::Yellow => 8,
        }
    }

    /// The parameter at slot `index`, for `index < PARAM_COUNT`.
    pub fn from_index(index: usize) -> (r: Param)
        requires
            index < PARAM_COUNT,
        ensures
            r.spec_index() == index,
    {
        if index == 0 {
            Param::Intensity
        } else if index == 1 {
            Param::Pan
        } else if index == 2 {
            Param::Tilt
        } else if index == 3 {
            Param::Red
        } else if index == 4 {
            Param::Green
        } else if index == 5 {
            Param::Blue
        } else if index == 6 {
            Param::Cyan
        } else if index == 7 {
            Param::Magenta
        } else {
            Param::Yellow
        }
    }

    /// The parameter named by `string` ("intensity", "pan", ...), if any.
    pub fn from_string(string: &str) -> (r: Option<Param>)
        ensures
            r == param_named(string@),
    {
        proof {
            reveal_strlit("intensity");
            reveal_strlit("pan");
            reveal_strlit("tilt");
            reveal_strlit("red");
            reveal_strlit("green");
            reveal_strlit("blue");
            reveal_strlit("cyan");
            reveal_strlit("magenta");
            reveal_strlit("yellow");
        }
        if same_text(string, "intensity") {
            Some(Param::Intensity)
        } else if same_text(string, "pan") {
            Some(Param::Pan)
        } else if same_text(string, "tilt") {
            Some(Param::Tilt)
        } else if same_text(string, "red") {
            Some(Param::Red)
        } else if same_text(string, "green") {
            Some(Param::Green)
        } else if same_text(string, "blue") {
            Some(Param::Blue)
        } else if same_text(string, "cyan") {
            Some(Param::Cyan)
        } else if same_text(string, "magenta") {
            Some(Param::Magenta)
        } else if same_text(string, "yellow") {
            Some(Param::Yellow)
        } else {
            None
        }
    }

    /// Whether `param` is one of the colour parameters (RGB or CMY).
    pub fn is_color(param: &Param) -> (r: bool)
        ensures
            r == param.spec_is_color(),
    {
        match param {
            Param::Intensity | Param::Pan | Param::Tilt => false,
            _ => true,
        }
    }
}

/// What a fixture profile says of one parameter: its DMX slot and the range
/// of literal values that slot spans, in thousandths.
#[derive(Clone, Copy, Debug, PartialEq, Eq, Structural)]
pub struct Parameter {
    pub min: i64,
    pub max: i64,
    pub offset: usize,
}

impl Parameter {
    /// A parameter at `offset` spanning `min..=max` whole units.
    pub fn new(offset: usize, min: i32, max: i32) -> (r: Parameter)
        ensures
            r.offset == offset,
            r.min == min * THOUSANDTHS,
            r.max == max * THOUSANDTHS,
    {
        Parameter { min: min as i64 * THOUSANDTHS, max: max as i64 * THOUSANDTHS, offset }
    }

    /// A parameter at `offset` spanning 0 to 100 units.
    pub fn simple(offset: usize) -> (r: Parameter)
        ensures
            r.offset == offset,
            r.min == 0,
            r.max == 100 * THOUSANDTHS,
    {
        Parameter { min: 0, max: 100 * THOUSANDTHS, offset }
    }

    pub fn min(&self) -> (r: i64)
        ensures
            r == self.min,
    {
        self.min
    }

    pub fn max(&self) -> (r: i64)
        ensures
            r == self.max,
    {
        self.max
    }

    pub fn offset(&self) -> (r: usize)
        ensures
            r == self.offset,
    {
        self.offset
    }

    /// The value a parameter takes before anything drives it: zero.
    pub fn default(&self) -> (r: i64)
        ensures
            r == 0,
    {
        0
    }
}

} // verus!

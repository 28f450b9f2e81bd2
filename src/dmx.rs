//! DMX slot values and strings of them.
use vstd::prelude::*;

verus! {

/// The byte nearest to `255 * num / den` (halves round up), capped at 255.
pub open spec fn dmx_of_ratio(num: int, den: int) -> int {
    let r = (2 * 255 * num + den) / (2 * den);
    if r > 255 {
        255
    } else {
        r
    }
}

/// One DMX slot value.
#[derive(Clone, Copy, Debug, PartialEq, Eq, Structural)]
pub struct Dmx(pub u8);

impl Dmx {
    pub fn new(value: u8) -> (r: Dmx)
        ensures
            r.0 == value,
    {
        Dmx(value)
    }

    /// The slot value for the fraction `num / den` of full scale: `255 * num / den`
    /// rounded to the nearest byte (halves up) and capped at 255.
    pub fn from_ratio(num: u128, den: u128) -> (r: Dmx)
        requires
            0 < den,
            num <= u64::MAX,
            den <= u64::MAX,
        ensures
            r.0 == dmx_of_ratio(num as int, den as int),
    {
        assert(510 * num <= 510 * 0xffff_ffff_ffff_ffffu128);
        let scaled: u128 = 510 * num;
        let r = (scaled + den) / (2 * den);
        if r > 255 {
            Dmx(255)
        } else {
            Dmx(r as u8)
        }
    }

    pub fn byte(&self) -> (r: u8)
        ensures
            r == self.0,
    {
        self.0
    }
}

/// The DMX slots of one fixture, in footprint order.
#[derive(Clone, Debug)]
pub struct DmxString {
    pub string: Vec<Dmx>,
}

impl DmxString {
    /// `size` slots, all zero.
    pub fn new(size: usize) -> (r: DmxString)
        ensures
            r.string@ == Seq::new(size as nat, |i: int| Dmx(0)),
    {
        let mut string: Vec<Dmx> = Vec::new();
        let mut i: usize = 0;
        while i < size
            invariant
                i <= size,
                string@ == Seq::new(i as nat, |j: int| Dmx(0)),
            decreases size - i,
        {
            string.push(Dmx(0));
            i = i + 1;
            assert(string@ =~= Seq::new(i as nat, |j: int| Dmx(0)));
        }
        DmxString { string }
    }

    /// Sets the slot at `offset`.
    pub fn set(&mut self, offset: usize, dmx: Dmx)
        requires
            offset < old(self).string@.len(),
        ensures
            final(self).string@ == old(self).string@.update(offset as int, dmx),
    {
        self.string.set(offset, dmx);
    }

    pub fn len(&self) -> (r: usize)
        ensures
            r == self.string@.len(),
    {
        self.string.len()
    }

    pub fn is_empty(&self) -> (r: bool)
        ensures
            r == (self.string@.len() == 0),
    {
        self.string.len() == 0
    }

    /// The slot at `offset`.
    pub fn get(&self, offset: usize) -> (r: Dmx)
        requires
            offset < self.string@.len(),
        ensures
            r == self.string@[offset as int],
    {
        self.string[offset]
    }
}

} // verus!

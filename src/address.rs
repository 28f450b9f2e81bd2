//! DMX addresses: a universe and a slot within it, both counted from 1.
use vstd::prelude::*;

verus! {

/// The last slot of a universe.
pub const DMX_MAX_ADDRESS: u16 = 512;

#[derive(Clone, Copy, Debug, PartialEq, Eq, Structural)]
pub struct Address {
    pub universe: u16,
    pub address: u16,
}

/// The sum of two addresses: universes add, slots add, and a slot past the
/// last of its universe moves to slot 1 of the next universe.
pub open spec fn address_sum(a: Address, b: Address) -> Address {
    let universe = a.universe + b.universe;
    let address = a.address + b.address;
    if address > DMX_MAX_ADDRESS {
        Address { universe: (universe + 1) as u16, address: 1 }
    } else {
        Address { universe: universe as u16, address: address as u16 }
    }
}

/// Whether adding `b` to `a` stays within `u16` for both parts.
pub open spec fn address_sum_fits(a: Address, b: Address) -> bool {
    &&& a.universe + b.universe + 1 <= u16::MAX
    &&& a.address + b.address <= u16::MAX
}

impl Address {
    pub fn new(universe: u16, address: u16) -> (r: Address)
        ensures
            r.universe == universe,
            r.address == address,
    {
        Address { universe, address }
    }

    /// The universe counted from 0.
    pub fn universe_index(&self) -> (r: usize)
        requires
            self.universe >= 1,
        ensures
            r == self.universe - 1,
    {
        (self.universe - 1) as usize
    }

    /// The slot counted from 0.
    pub fn address_index(&self) -> (r: usize)
        requires
            self.address >= 1,
        ensures
            r == self.address - 1,
    {
        (self.address - 1) as usize
    }
}

impl std::ops::Add<Address> for Address {
    type Output = Address;

    fn add(self, rhs: Address) -> (r: Address) {
        let mut universe = self.universe + rhs.universe;
        let mut address = self.address + rhs.address;
        if address > DMX_MAX_ADDRESS {
            universe = universe + 1;
            address = 1;
        }
        Address { universe, address }
    }
}

impl vstd::std_specs::ops::AddSpecImpl<Address> for Address {
    open spec fn obeys_add_spec() -> bool {
        true
    }

    open spec fn add_req(self, rhs: Address) -> bool {
        address_sum_fits(self, rhs)
    }

    open spec fn add_spec(self, rhs: Address) -> Address {
        address_sum(self, rhs)
    }
}

} // verus!

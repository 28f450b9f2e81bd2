//! DMX universes: 512 slots each, filled from the DMX strings of the
//! fixtures patched into them.
use vstd::prelude::*;
use crate::address::Address;
use crate::dmx::{Dmx, DmxString};
use crate::fixture::ResolvedFixture;
use crate::fixture_set::ResolvedFixtureMap;
use crate::parameter::PARAM_COUNT;
use crate::patch::Patch;

verus! {

/// The slots in a universe.
pub const UNIVERSE_SIZE: usize = 512;

/// `values` with `string` written from slot `start` on.
pub open spec fn written(values: Seq<Dmx>, start: int, string: Seq<Dmx>) -> Seq<Dmx> {
    Seq::new(
        values.len(),
        |i: int|
            if start <= i < start + string.len() {
                string[i - start]
            } else {
                values[i]
            },
    )
}

/// A universe with every slot zero.
pub open spec fn zeros() -> Seq<Dmx> {
    Seq::new(UNIVERSE_SIZE as nat, |i: int| Dmx(0))
}

/// Universes by index after writing `string` at `address`: its universe is
/// made (all zero) when missing, and a string that would run past the last
/// slot is not written.
pub open spec fn with_string(m: Map<usize, Seq<Dmx>>, address: Address, string: Seq<Dmx>) -> Map<
    usize,
    Seq<Dmx>,
> {
    let index = (address.universe - 1) as usize;
    let base = if m.contains_key(index) {
        m[index]
    } else {
        zeros()
    };
    m.insert(
        index,
        if address.address - 1 + string.len() <= UNIVERSE_SIZE {
            written(base, address.address - 1, string)
        } else {
            base
        },
    )
}

/// Universes by index after writing the DMX string of each of the first `n`
/// resolved fixtures, from the profile it is patched with, at its address.
pub open spec fn rendered(fixtures: Seq<ResolvedFixture>, patch: Patch, n: nat) -> Map<
    usize,
    Seq<Dmx>,
>
    decreases n,
{
    if n == 0 || n > fixtures.len() {
        Map::empty()
    } else {
        let f = fixtures[n - 1];
        with_string(
            rendered(fixtures, patch, (n - 1) as nat),
            patch.mapping_of(f.id).unwrap().address,
            patch.profile_of(f.id).dmx_after(f, PARAM_COUNT as nat),
        )
    }
}

#[derive(Clone, Copy, Debug)]
pub struct Universe {
    pub index: usize,
    pub values: [Dmx; 512],
}

impl Universe {
    /// An all-zero universe at `index` (counted from 0).
    pub fn new(index: usize) -> (r: Universe)
        ensures
            r.index == index,
            r.values@ == Seq::new(UNIVERSE_SIZE as nat, |i: int| Dmx(0)),
    {
        let values = [Dmx(0); 512];
        assert(values@ =~= Seq::new(UNIVERSE_SIZE as nat, |i: int| Dmx(0)));
        Universe { index, values }
    }

    /// Writes `dmx_string` from `address`'s slot on; a string that would run
    /// past the last slot is not written at all.
    pub fn map_string(&mut self, address: &Address, dmx_string: &DmxString)
        requires
            address.address >= 1,
        ensures
            final(self).index == old(self).index,
            address.address - 1 + dmx_string.string@.len() <= UNIVERSE_SIZE ==> final(self).values@
                == written(old(self).values@, address.address - 1, dmx_string.string@),
            address.address - 1 + dmx_string.string@.len() > UNIVERSE_SIZE ==> final(self).values@
                == old(self).values@,
    {
        let start = address.address_index();
        if start > UNIVERSE_SIZE || dmx_string.len() > UNIVERSE_SIZE - start {
            return;
        }
        let mut i: usize = 0;
        while i < dmx_string.len()
            invariant
                start + dmx_string.string@.len() <= UNIVERSE_SIZE,
                start == address.address - 1,
                i <= dmx_string.string@.len(),
                self.index == old(self).index,
                self.values@.len() == UNIVERSE_SIZE,
                forall|j: int|
                    0 <= j < UNIVERSE_SIZE ==> self.values@[j] == if start <= j < start + i {
                        dmx_string.string@[j - start]
                    } else {
                        old(self).values@[j]
                    },
            decreases dmx_string.string@.len() - i,
        {
            self.values[start + i] = dmx_string.get(i);
            i = i + 1;
        }
        assert(self.values@ =~= written(old(self).values@, start as int, dmx_string.string@));
    }

    /// The slot values as bytes.
    pub fn bytes(&self) -> (r: [u8; 512])
        ensures
            forall|i: int| 0 <= i < UNIVERSE_SIZE ==> r@[i] == self.values@[i].0,
    {
        let mut out = [0u8; 512];
        let mut i: usize = 0;
        while i < UNIVERSE_SIZE
            invariant
                i <= UNIVERSE_SIZE,
                forall|j: int| 0 <= j < i ==> out@[j] == self.values@[j].0,
            decreases UNIVERSE_SIZE - i,
        {
            out[i] = self.values[i].byte();
            i = i + 1;
        }
        out
    }

    /// The universe number as people count it, from 1.
    pub fn universe_number(&self) -> (r: usize)
        requires
            self.index < usize::MAX,
        ensures
            r == self.index + 1,
    {
        self.index + 1
    }
}

/// Every universe that has something mapped into it, each index once.
#[derive(Clone, Debug)]
pub struct Multiverse {
    pub universes: Vec<Universe>,
}

impl Multiverse {
    pub open spec fn wf(self) -> bool {
        forall|a: int, b: int|
            0 <= a < b < self.universes@.len() ==> self.universes@[a].index
                != self.universes@[b].index
    }

    /// Whether some universe has `index`.
    pub open spec fn has(self, index: usize) -> bool {
        exists|k: int| 0 <= k < self.universes@.len() && self.universes@[k].index == index
    }

    /// The slots of the universe with `index`.
    pub open spec fn values_of(self, index: usize) -> Seq<Dmx> {
        self.universes@[choose|k: int|
            0 <= k < self.universes@.len() && self.universes@[k].index == index].values@
    }

    /// The universes by index.
    pub open spec fn spec_map(self) -> Map<usize, Seq<Dmx>> {
        Map::new(|i: usize| self.has(i), |i: usize| self.values_of(i))
    }

    /// In a well-formed multiverse the universe at `k` is the one `values_of` finds.
    proof fn lemma_values_at(self, k: int)
        requires
            self.wf(),
            0 <= k < self.universes@.len(),
        ensures
            self.has(self.universes@[k].index),
            self.values_of(self.universes@[k].index) == self.universes@[k].values@,
    {
        let index = self.universes@[k].index;
        let j = choose|j: int| 0 <= j < self.universes@.len() && self.universes@[j].index == index;
        if j != k {
            if j < k {
                assert(self.universes@[j].index != self.universes@[k].index);
            } else {
                assert(self.universes@[k].index != self.universes@[j].index);
            }
        }
    }

    pub fn new() -> (r: Multiverse)
        ensures
            r.wf(),
            r.universes@.len() == 0,
    {
        Multiverse { universes: Vec::new() }
    }

    /// Writes `dmx_string` at `address`, making its universe (all zero) when
    /// it is not there yet.
    pub fn map_string(&mut self, address: &Address, dmx_string: &DmxString)
        requires
            old(self).wf(),
            address.universe >= 1,
            address.address >= 1,
        ensures
            final(self).wf(),
            final(self).spec_map() == with_string(old(self).spec_map(), *address, dmx_string.string@),
            final(self).has((address.universe - 1) as usize),
            forall|index: usize| old(self).has(index) ==> final(self).has(index),
            forall|k: int|
                0 <= k < final(self).universes@.len() && final(self).universes@[k].index
                    == address.universe - 1 ==> {
                    let base = if old(self).has((address.universe - 1) as usize) {
                        old(self).universes@[k].values@
                    } else {
                        Seq::new(UNIVERSE_SIZE as nat, |i: int| Dmx(0))
                    };
                    if address.address - 1 + dmx_string.string@.len() <= UNIVERSE_SIZE {
                        final(self).universes@[k].values@ == written(
                            base,
                            address.address - 1,
                            dmx_string.string@,
                        )
                    } else {
                        final(self).universes@[k].values@ == base
                    }
                },
    {
        let index = address.universe_index();
        let mut k: usize = 0;
        while k < self.universes.len()
            invariant
                k <= self.universes@.len(),
                self.universes@ == old(self).universes@,
                old(self).wf(),
                address.address >= 1,
                address.universe >= 1,
                index == address.universe - 1,
                forall|j: int| 0 <= j < k ==> self.universes@[j].index != index,
            decreases self.universes@.len() - k,
        {
            if self.universes[k].index == index {
                let mut universe = self.universes[k];
                universe.map_string(address, dmx_string);
                self.universes.set(k, universe);
                proof {
                    assert forall|x: usize| old(self).has(x) implies self.has(x) by {
                        let j = choose|j: int| 0 <= j < old(self).universes@.len() && old(self).universes@[j].index == x;
                        assert(self.universes@[j].index == x);
                    }
                    assert(self.universes@[k as int].index == index);
                    old(self).lemma_values_at(k as int);
                    self.lemma_values_at(k as int);
                    assert forall|x: usize| self.has(x) implies old(self).has(x) by {
                        let j = choose|j: int| 0 <= j < self.universes@.len() && self.universes@[j].index == x;
                        assert(old(self).universes@[j].index == x);
                    }
                    assert forall|x: usize| #[trigger] self.has(x) && x != index implies self.values_of(x)
                        == old(self).values_of(x) by {
                        let j = choose|j: int| 0 <= j < self.universes@.len() && self.universes@[j].index == x;
                        self.lemma_values_at(j);
                        old(self).lemma_values_at(j);
                    }
                    assert(self.spec_map() =~= with_string(old(self).spec_map(), *address, dmx_string.string@));
                }
                return;
            }
            k = k + 1;
        }
        let mut universe = Universe::new(index);
        universe.map_string(address, dmx_string);
        self.universes.push(universe);
        proof {
            let n = old(self).universes@.len();
            assert(self.universes@[n as int].index == index);
            assert forall|x: usize| old(self).has(x) implies self.has(x) by {
                let j = choose|j: int| 0 <= j < old(self).universes@.len() && old(self).universes@[j].index == x;
                assert(self.universes@[j].index == x);
            }
            assert(!old(self).has(index));
            self.lemma_values_at(n as int);
            assert forall|x: usize| self.has(x) implies old(self).has(x) || x == index by {
                let j = choose|j: int| 0 <= j < self.universes@.len() && self.universes@[j].index == x;
                if j < n {
                    assert(old(self).universes@[j].index == x);
                }
            }
            assert forall|x: usize| #[trigger] self.has(x) && x != index implies self.values_of(x)
                == old(self).values_of(x) by {
                let j = choose|j: int| 0 <= j < self.universes@.len() && self.universes@[j].index == x;
                if j == n {
                } else {
                    self.lemma_values_at(j);
                    old(self).lemma_values_at(j);
                }
            }
            assert(self.spec_map() =~= with_string(old(self).spec_map(), *address, dmx_string.string@));
        }
    }

    /// The DMX universes of one moment: each resolved fixture's DMX string,
    /// built by the profile it is patched with, written at its patch address,
    /// fixture by fixture.
    pub fn render(resolved: &ResolvedFixtureMap, patch: &Patch) -> (r: Multiverse)
        requires
            forall|k: int|
                0 <= k < resolved.fixtures@.len() ==> {
                    let f = #[trigger] resolved.fixtures@[k];
                    &&& f.wf()
                    &&& patch.patched(f.id)
                    &&& patch.mapping_of(f.id).unwrap().address.universe >= 1
                    &&& patch.mapping_of(f.id).unwrap().address.address >= 1
                    &&& patch.profile_of(f.id).footprint < usize::MAX
                },
        ensures
            r.wf(),
            r.spec_map() == rendered(resolved.fixtures@, *patch, resolved.fixtures@.len()),
    {
        let mut multiverse = Multiverse::new();
        assert(multiverse.spec_map() =~= Map::<usize, Seq<Dmx>>::empty());
        let mut k: usize = 0;
        while k < resolved.fixtures.len()
            invariant
                k <= resolved.fixtures@.len(),
                multiverse.wf(),
                multiverse.spec_map() == rendered(resolved.fixtures@, *patch, k as nat),
                forall|j: int|
                    0 <= j < resolved.fixtures@.len() ==> {
                        let f = #[trigger] resolved.fixtures@[j];
                        &&& f.wf()
                        &&& patch.patched(f.id)
                        &&& patch.mapping_of(f.id).unwrap().address.universe >= 1
                        &&& patch.mapping_of(f.id).unwrap().address.address >= 1
                        &&& patch.profile_of(f.id).footprint < usize::MAX
                    },
            decreases resolved.fixtures@.len() - k,
        {
            let fixture = &resolved.fixtures[k];
            let id = fixture.id;
            let profile = patch.get_profile(&id);
            let address = patch.get_address(&id);
            let dmx_string = profile.to_dmx(fixture);
            multiverse.map_string(&address, &dmx_string);
            k = k + 1;
        }
        multiverse
    }

    /// Every universe, in the order they were first written.
    pub fn universes(&self) -> (r: &Vec<Universe>)
        ensures
            *r == self.universes,
    {
        &self.universes
    }
}

} // verus!

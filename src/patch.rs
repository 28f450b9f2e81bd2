//! Fixture profiles (which parameters a fixture type has, and where they sit in
//! its DMX footprint) and the patch that maps fixtures to profiles and addresses.
use vstd::prelude::*;
use crate::address::Address;
use crate::color::Colorspace;
use crate::dmx::{Dmx, DmxString};
use crate::fixture::{FixtureID, ResolvedFixture};
use crate::parameter::{Param, Parameter, PARAM_COUNT};
use crate::value::{Literal, Values};

verus! {

/// The descriptor `param` has in `entries`: the last entry for it.
pub open spec fn parameter_entry(entries: Seq<(Param, Parameter)>, param: Param) -> Option<
    Parameter,
>
    decreases entries.len(),
{
    if entries.len() == 0 {
        None
    } else if entries.last().0 == param {
        Some(entries.last().1)
    } else {
        parameter_entry(entries.drop_last(), param)
    }
}

#[derive(Clone, Debug)]
pub struct FixtureProfile {
    pub parameters: Vec<(Param, Parameter)>,
    pub colorspace: Option<Colorspace>,
    pub footprint: usize,
}

impl FixtureProfile {
    pub open spec fn parameter_of(self, param: Param) -> Option<Parameter> {
        parameter_entry(self.parameters@, param)
    }

    /// The DMX bytes of `resolved` after writing the first `n` parameters (in
    /// `Param` slot order): each one present in the profile writes its
    /// resolved value, or its default, at its offset.
    pub open spec fn dmx_after(self, resolved: ResolvedFixture, n: nat) -> Seq<Dmx>
        decreases n,
    {
        if n == 0 {
            Seq::new((self.footprint + 1) as nat, |i: int| Dmx(0))
        } else {
            let before = self.dmx_after(resolved, (n - 1) as nat);
            let param = param_at((n - 1) as int);
            match self.parameter_of(param) {
                Some(parameter) => if parameter.offset < before.len() {
                    let value = match resolved.value_of(param) {
                        Some(v) => v,
                        None => Values::Literal(Literal { value: 0 }),
                    };
                    before.update(parameter.offset as int, Dmx(value.spec_to_dmx(parameter) as u8))
                } else {
                    before
                },
                None => before,
            }
        }
    }

    pub fn new() -> (r: FixtureProfile)
        ensures
            r.parameters@.len() == 0,
            r.colorspace == None::<Colorspace>,
            r.footprint == 0,
    {
        FixtureProfile { parameters: Vec::new(), colorspace: None, footprint: 0 }
    }

    /// Gives `param` the descriptor `parameter`; the footprint grows to reach
    /// its offset.
    pub fn set_parameter(&mut self, param: Param, parameter: Parameter)
        ensures
            final(self).parameter_of(param) == Some(parameter),
            forall|p: Param|
                p != param ==> final(self).parameter_of(p) == old(self).parameter_of(p),
            final(self).colorspace == old(self).colorspace,
            final(self).footprint == if parameter.offset > old(self).footprint {
                parameter.offset
            } else {
                old(self).footprint
            },
    {
        if parameter.offset > self.footprint {
            self.footprint = parameter.offset;
        }
        self.parameters.push((param, parameter));
        proof {
            assert(self.parameters@.drop_last() =~= old(self).parameters@);
        }
    }

    pub fn get_parameter(&self, param: &Param) -> (r: Option<Parameter>)
        ensures
            r == self.parameter_of(*param),
    {
        let mut i: usize = self.parameters.len();
        assert(self.parameters@.subrange(0, i as int) =~= self.parameters@);
        while i > 0
            invariant
                i <= self.parameters@.len(),
                parameter_entry(self.parameters@, *param) == parameter_entry(
                    self.parameters@.subrange(0, i as int),
                    *param,
                ),
            decreases i,
        {
            let entry = self.parameters[i - 1];
            proof {
                let prefix = self.parameters@.subrange(0, i as int);
                assert(prefix.drop_last() =~= self.parameters@.subrange(0, i - 1));
            }
            if entry.0 == *param {
                return Some(entry.1);
            }
            i = i - 1;
        }
        None
    }

    pub fn set_colorspace(&mut self, colorspace: Colorspace)
        ensures
            final(self).colorspace == Some(colorspace),
            final(self).parameters == old(self).parameters,
            final(self).footprint == old(self).footprint,
    {
        self.colorspace = Some(colorspace);
    }

    pub fn colorspace(&self) -> (r: Option<Colorspace>)
        ensures
            r == self.colorspace,
    {
        self.colorspace
    }

    /// The number of DMX slots the profile spans: one past its largest offset.
    pub fn footprint(&self) -> (r: usize)
        requires
            self.footprint < usize::MAX,
        ensures
            r == self.footprint + 1,
    {
        self.footprint + 1
    }

    /// The DMX bytes of a resolved fixture: each parameter of the profile
    /// writes its resolved value at its offset, or its default where the
    /// fixture has no value for it.
    pub fn to_dmx(&self, resolved_fixture: &ResolvedFixture) -> (r: DmxString)
        requires
            self.footprint < usize::MAX,
            resolved_fixture.wf(),
        ensures
            r.string@ == self.dmx_after(*resolved_fixture, PARAM_COUNT as nat),
    {
        let mut dmx_string = DmxString::new(self.footprint + 1);
        let mut i: usize = 0;
        while i < PARAM_COUNT
            invariant
                i <= PARAM_COUNT,
                resolved_fixture.wf(),
                self.footprint < usize::MAX,
                dmx_string.string@ == self.dmx_after(*resolved_fixture, i as nat),
            decreases PARAM_COUNT - i,
        {
            let param = Param::from_index(i);
            proof {
                lemma_param_at(param);
            }
            assert(self.dmx_after(*resolved_fixture, i as nat).len() == self.footprint + 1) by {
                self.lemma_dmx_len(*resolved_fixture, i as nat);
            }
            match self.get_parameter(&param) {
                Some(parameter) => {
                    if parameter.offset < dmx_string.len() {
                        let value = match resolved_fixture.get_value(&param) {
                            Some(v) => *v,
                            None => Values::Literal(Literal { value: 0 }),
                        };
                        dmx_string.set(parameter.offset, value.to_dmx(&parameter));
                    }
                },
                None => {},
            }
            i = i + 1;
        }
        dmx_string
    }

    proof fn lemma_dmx_len(self, resolved: ResolvedFixture, n: nat)
        ensures
            self.dmx_after(resolved, n).len() == self.footprint + 1,
        decreases n,
    {
        if n > 0 {
            self.lemma_dmx_len(resolved, (n - 1) as nat);
        }
    }
}

/// The parameter in slot `i`.
pub open spec fn param_at(i: int) -> Param {
    if i == 0 {
        Param::Intensity
    } else if i == 1 {
        Param::Pan
    } else if i == 2 {
        Param::Tilt
    } else if i == 3 {
        Param::Red
    } else if i == 4 {
        Param::Green
    } else if i == 5 {
        Param::Blue
    } else if i == 6 {
        Param::Cyan
    } else if i == 7 {
        Param::Magenta
    } else {
        Param::Yellow
    }
}

pub proof fn lemma_param_at(p: Param)
    ensures
        param_at(p.spec_index()) == p,
{
}

/// Where a fixture is patched: its address and its profile.
#[derive(Clone, Copy, Debug)]
pub struct ProfileMapping<'a> {
    pub address: Address,
    pub profile: &'a FixtureProfile,
}

impl<'a> ProfileMapping<'a> {
    pub fn new(address: Address, profile: &'a FixtureProfile) -> (r: ProfileMapping<'a>)
        ensures
            r.address == address,
            *r.profile == *profile,
    {
        ProfileMapping { address, profile }
    }

    pub fn profile(&self) -> (r: &'a FixtureProfile)
        ensures
            *r == *self.profile,
    {
        self.profile
    }

    pub fn address(&self) -> (r: Address)
        ensures
            r == self.address,
    {
        self.address
    }
}

/// The mapping `id` has in `entries`: the last entry for it.
pub open spec fn mapping_entry<'a>(entries: Seq<(FixtureID, ProfileMapping<'a>)>, id: FixtureID) -> Option<
    ProfileMapping<'a>,
>
    decreases entries.len(),
{
    if entries.len() == 0 {
        None
    } else if entries.last().0 == id {
        Some(entries.last().1)
    } else {
        mapping_entry(entries.drop_last(), id)
    }
}

/// Which profile and address each fixture is patched to.
#[derive(Clone, Debug)]
pub struct Patch<'a> {
    pub patch: Vec<(FixtureID, ProfileMapping<'a>)>,
}

impl<'a> Patch<'a> {
    pub open spec fn mapping_of(self, id: FixtureID) -> Option<ProfileMapping<'a>> {
        mapping_entry(self.patch@, id)
    }

    pub open spec fn patched(self, id: FixtureID) -> bool {
        self.mapping_of(id).is_some()
    }

    pub open spec fn profile_of(self, id: FixtureID) -> FixtureProfile {
        *self.mapping_of(id).unwrap().profile
    }

    /// The profile fixture `id` is patched with, if it is patched.
    pub open spec fn profile_if_patched(self, id: FixtureID) -> Option<FixtureProfile> {
        match self.mapping_of(id) {
            Some(m) => Some(*m.profile),
            None => None,
        }
    }

    pub fn new() -> (r: Patch<'a>)
        ensures
            forall|id: FixtureID| !r.patched(id),
    {
        Patch { patch: Vec::new() }
    }

    /// Patches fixture `id` at `address` with `profile`, replacing any earlier patch of it.
    pub fn patch(&mut self, id: FixtureID, address: Address, profile: &'a FixtureProfile)
        ensures
            final(self).mapping_of(id) == Some(ProfileMapping { address, profile }),
            forall|other: FixtureID|
                other != id ==> final(self).mapping_of(other) == old(self).mapping_of(other),
    {
        self.patch.push((id, ProfileMapping::new(address, profile)));
        proof {
            assert(self.patch@.drop_last() =~= old(self).patch@);
        }
    }

    /// Removes fixture `id` from the patch.
    pub fn unpatch(&mut self, id: &FixtureID)
        ensures
            !final(self).patched(*id),
            forall|other: FixtureID|
                other != *id ==> final(self).mapping_of(other) == old(self).mapping_of(other),
    {
        let mut kept: Vec<(FixtureID, ProfileMapping<'a>)> = Vec::new();
        let mut i: usize = 0;
        while i < self.patch.len()
            invariant
                i <= self.patch@.len(),
                mapping_entry(kept@, *id) == None::<ProfileMapping<'a>>,
                forall|other: FixtureID|
                    other != *id ==> mapping_entry(kept@, other) == mapping_entry(
                        self.patch@.subrange(0, i as int),
                        other,
                    ),
            decreases self.patch@.len() - i,
        {
            let entry = self.patch[i];
            let ghost before = kept@;
            if entry.0 != *id {
                kept.push(entry);
            }
            proof {
                let s = self.patch@.subrange(0, i + 1);
                assert(s.drop_last() =~= self.patch@.subrange(0, i as int));
                assert(s.last() == entry);
                if entry.0 != *id {
                    assert(kept@.drop_last() =~= before);
                    assert(kept@.last() == entry);
                }
                assert forall|other: FixtureID| other != *id implies mapping_entry(kept@, other)
                    == mapping_entry(s, other) by {
                    assert(mapping_entry(before, other) == mapping_entry(
                        self.patch@.subrange(0, i as int),
                        other,
                    ));
                    if entry.0 != *id {
                        assert(mapping_entry(kept@, other) == if entry.0 == other {
                            Some(entry.1)
                        } else {
                            mapping_entry(before, other)
                        });
                    }
                }
            }
            i = i + 1;
        }
        proof {
            assert(self.patch@.subrange(0, self.patch@.len() as int) =~= self.patch@);
        }
        self.patch = kept;
    }

    fn mapping(&self, id: &FixtureID) -> (r: Option<ProfileMapping<'a>>)
        ensures
            r == self.mapping_of(*id),
    {
        let mut i: usize = self.patch.len();
        assert(self.patch@.subrange(0, i as int) =~= self.patch@);
        while i > 0
            invariant
                i <= self.patch@.len(),
                mapping_entry(self.patch@, *id) == mapping_entry(
                    self.patch@.subrange(0, i as int),
                    *id,
                ),
            decreases i,
        {
            let entry = self.patch[i - 1];
            proof {
                let prefix = self.patch@.subrange(0, i as int);
                assert(prefix.drop_last() =~= self.patch@.subrange(0, i - 1));
            }
            if entry.0 == *id {
                return Some(entry.1);
            }
            i = i - 1;
        }
        None
    }

    /// Whether fixture `id` is patched.
    pub fn is_patched(&self, id: &FixtureID) -> (r: bool)
        ensures
            r == self.patched(*id),
    {
        self.mapping(id).is_some()
    }

    pub fn get_profile(&self, id: &FixtureID) -> (r: &'a FixtureProfile)
        requires
            self.patched(*id),
        ensures
            *r == self.profile_of(*id),
    {
        self.mapping(id).unwrap().profile
    }

    pub fn get_address(&self, id: &FixtureID) -> (r: Address)
        requires
            self.patched(*id),
        ensures
            r == self.mapping_of(*id).unwrap().address,
    {
        self.mapping(id).unwrap().address
    }
}

} // verus!

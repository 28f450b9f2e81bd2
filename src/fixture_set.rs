//! The set of all fixtures, keyed by id.
use vstd::prelude::*;
use crate::action::{Action, Apply, ApplyGroup};
use crate::fixture::{Fixture, FixtureID, ResolvedFixture, resolve_stack, resolves_param};
use crate::generator::{CurrentValue, Generator, Static};
use crate::parameter::{Param, PARAM_COUNT};
use crate::patch::{FixtureProfile, Patch};
use crate::query::{Query, QueryResult};
use crate::time::Time;
use crate::value::{Literal, Values};

verus! {

/// A generator as an apply hands it to a fixture at `time`: started then,
/// and, when the parameter had a value then, having seen it.
pub open spec fn prepared(generator: Generator, time: Time, value: Option<Values>) -> Generator {
    match value {
        Some(v) => generator.started_at(time).resolved(v, time),
        None => generator.started_at(time),
    }
}

/// The generators one group pushes onto parameter `p` of a fixture it
/// selects: each apply for `p`, in order, prepared at `time` with `value`.
pub open spec fn applies_pushed(
    applies: Seq<Apply>,
    p: Param,
    time: Time,
    value: Option<Values>,
) -> Seq<Generator>
    decreases applies.len(),
{
    if applies.len() == 0 {
        Seq::empty()
    } else {
        let before = applies_pushed(applies.drop_last(), p, time, value);
        if applies.last().parameter == p {
            before.push(prepared(applies.last().generator, time, value))
        } else {
            before
        }
    }
}

/// Parameter `p`'s generators after one group is applied to a fixture it
/// selects: the fixture is first resolved at `time` against its profile (if
/// it is patched), then the group's generators for `p` go on top, having
/// seen the value `p` resolved to.
pub open spec fn group_step(
    stack: Seq<Generator>,
    p: Param,
    applies: Seq<Apply>,
    profile: Option<FixtureProfile>,
    time: Time,
) -> Seq<Generator> {
    match profile {
        Some(prof) => if resolves_param(p, prof) {
            let outcome = resolve_stack(stack, prof.parameter_of(p).unwrap(), time);
            outcome.generators + applies_pushed(applies, p, time, outcome.value)
        } else {
            stack + applies_pushed(applies, p, time, None)
        },
        None => stack + applies_pushed(applies, p, time, None),
    }
}

/// Parameter `p`'s generators of fixture `id` after an action's groups are
/// applied in order, each group selecting from `ids`.
pub open spec fn action_stack(
    stack: Seq<Generator>,
    groups: Seq<ApplyGroup>,
    ids: Set<FixtureID>,
    id: FixtureID,
    p: Param,
    profile: Option<FixtureProfile>,
    time: Time,
) -> Seq<Generator>
    decreases groups.len(),
{
    if groups.len() == 0 {
        stack
    } else {
        let before = action_stack(stack, groups.drop_last(), ids, id, p, profile, time);
        if groups.last().query.spec_evaluate(ids).contains(id) {
            group_step(before, p, groups.last().applies@, profile, time)
        } else {
            before
        }
    }
}

/// A current value applied by an action over a static literal within the
/// parameter's range captures that literal when it is applied, and the
/// parameter then resolves to it at every later time.
pub proof fn law_current_value_applied(
    value: i64,
    p: Param,
    profile: FixtureProfile,
    applied_at: Time,
    later: Time,
)
    requires
        resolves_param(p, profile),
        profile.parameter_of(p).unwrap().min <= value <= profile.parameter_of(p).unwrap().max,
    ensures
        resolve_stack(
            group_step(
                seq![Generator::Static(Static { value: Values::Literal(Literal { value }) })],
                p,
                seq![Apply { parameter: p, generator: Generator::CurrentValue(CurrentValue { captured: None }) }],
                Some(profile),
                applied_at,
            ),
            profile.parameter_of(p).unwrap(),
            later,
        ).value == Some(Values::Literal(Literal { value })),
{
    reveal_with_fuel(resolve_stack, 3);
    reveal_with_fuel(applies_pushed, 2);
    let parameter = profile.parameter_of(p).unwrap();
    let st = Generator::Static(Static { value: Values::Literal(Literal { value }) });
    let one = seq![st];
    assert(one.drop_last() =~= Seq::<Generator>::empty());
    let outcome = resolve_stack(one, parameter, applied_at);
    assert(outcome.value == Some(Values::Literal(Literal { value })));
    assert(outcome.generators =~= one);
    let applies = seq![Apply { parameter: p, generator: Generator::CurrentValue(CurrentValue { captured: None }) }];
    assert(applies.drop_last() =~= Seq::<Apply>::empty());
    let captured = Generator::CurrentValue(CurrentValue { captured: Some(Values::Literal(Literal { value })) });
    assert(applies_pushed(applies, p, applied_at, outcome.value) =~= seq![captured]);
    let stack = group_step(one, p, applies, Some(profile), applied_at);
    assert(stack =~= seq![st, captured]);
    assert(stack.drop_last() =~= one);
}

pub struct FixtureSet {
    pub fixtures: Vec<Fixture>,
}

/// The resolved fixtures of one moment.
pub struct ResolvedFixtureMap {
    pub fixtures: Vec<ResolvedFixture>,
}

impl ResolvedFixtureMap {
    /// The snapshot of fixture `id`, if it was resolved.
    pub fn get(&self, id: &FixtureID) -> (r: Option<&ResolvedFixture>)
        ensures
            r.is_some() <==> exists|k: int|
                0 <= k < self.fixtures@.len() && self.fixtures@[k].id == *id,
            r.is_some() ==> exists|k: int|
                0 <= k < self.fixtures@.len() && self.fixtures@[k].id == *id && *r.unwrap()
                    == self.fixtures@[k],
    {
        let mut i: usize = 0;
        while i < self.fixtures.len()
            invariant
                i <= self.fixtures@.len(),
                forall|k: int| 0 <= k < i ==> self.fixtures@[k].id != *id,
            decreases self.fixtures@.len() - i,
        {
            if self.fixtures[i].id == *id {
                return Some(&self.fixtures[i]);
            }
            i = i + 1;
        }
        None
    }

    pub fn len(&self) -> (r: usize)
        ensures
            r == self.fixtures@.len(),
    {
        self.fixtures.len()
    }
}

impl FixtureSet {
    pub open spec fn wf(self) -> bool {
        &&& forall|k: int| 0 <= k < self.fixtures@.len() ==> (#[trigger] self.fixtures@[k]).wf()
        &&& forall|j: int, k: int|
            0 <= j < self.fixtures@.len() && 0 <= k < self.fixtures@.len() && j != k
                ==> self.fixtures@[j].id != self.fixtures@[k].id
    }

    pub open spec fn spec_ids(self) -> Set<FixtureID> {
        Set::new(|id: FixtureID| exists|k: int| 0 <= k < self.fixtures@.len() && self.fixtures@[k].id == id)
    }

    /// Every fixture has no generators.
    pub open spec fn pristine(self) -> bool {
        forall|k: int, p: Param|
            0 <= k < self.fixtures@.len() ==> (#[trigger] self.fixtures@[k].stack(p)).len() == 0
    }

    /// The same fixtures, by id and position, as `other`.
    pub open spec fn same_ids(self, other: FixtureSet) -> bool {
        &&& self.fixtures@.len() == other.fixtures@.len()
        &&& forall|k: int|
            0 <= k < self.fixtures@.len() ==> (#[trigger] self.fixtures@[k]).id
                == other.fixtures@[k].id
    }

    /// The same fixtures with the same generators as `other`.
    pub open spec fn same_state(self, other: FixtureSet) -> bool {
        &&& self.same_ids(other)
        &&& forall|k: int, p: Param|
            0 <= k < self.fixtures@.len() ==> #[trigger] self.fixtures@[k].stack(p)
                == other.fixtures@[k].stack(p)
    }

    pub fn new() -> (r: FixtureSet)
        ensures
            r.wf(),
            r.fixtures@.len() == 0,
    {
        FixtureSet { fixtures: Vec::new() }
    }

    pub fn len(&self) -> (r: usize)
        ensures
            r == self.fixtures@.len(),
    {
        self.fixtures.len()
    }

    fn position(&self, id: &FixtureID) -> (r: Option<usize>)
        ensures
            r.is_none() <==> !self.spec_ids().contains(*id),
            r.is_some() ==> r.unwrap() < self.fixtures@.len() && self.fixtures@[r.unwrap() as int].id
                == *id,
    {
        let mut i: usize = 0;
        while i < self.fixtures.len()
            invariant
                i <= self.fixtures@.len(),
                forall|k: int| 0 <= k < i ==> self.fixtures@[k].id != *id,
            decreases self.fixtures@.len() - i,
        {
            if self.fixtures[i].id == *id {
                return Some(i);
            }
            i = i + 1;
        }
        None
    }

    /// Adds a fixture `id` with no generators, replacing any fixture with that id.
    pub fn create_with_id(&mut self, id: FixtureID)
        requires
            old(self).wf(),
        ensures
            final(self).wf(),
            final(self).spec_ids() == old(self).spec_ids().insert(id),
            exists|k: int|
                0 <= k < final(self).fixtures@.len() && final(self).fixtures@[k].id == id && forall|
                    p: Param,
                | (#[trigger] final(self).fixtures@[k].stack(p)).len() == 0,
    {
        self.add_fixture(id, Fixture::new(id));
    }

    /// Adds `fixture` under `id`, replacing any fixture with that id.
    pub fn add_fixture(&mut self, id: FixtureID, fixture: Fixture)
        requires
            old(self).wf(),
            fixture.wf(),
            fixture.id == id,
        ensures
            final(self).wf(),
            final(self).spec_ids() == old(self).spec_ids().insert(id),
            exists|k: int|
                0 <= k < final(self).fixtures@.len() && final(self).fixtures@[k] == fixture,
    {
        match self.position(&id) {
            Some(i) => {
                self.fixtures.set(i, fixture);
                proof {
                    assert forall|x: FixtureID| self.spec_ids().contains(x) == old(
                        self,
                    ).spec_ids().insert(id).contains(x) by {
                        if old(self).spec_ids().contains(x) {
                            let k = choose|k: int|
                                0 <= k < old(self).fixtures@.len() && old(self).fixtures@[k].id
                                    == x;
                            assert(self.fixtures@[k].id == x);
                        }
                        if self.spec_ids().contains(x) {
                            let k = choose|k: int|
                                0 <= k < self.fixtures@.len() && self.fixtures@[k].id == x;
                            if k != i {
                                assert(old(self).fixtures@[k].id == x);
                            }
                        }
                    }
                    assert(self.spec_ids() =~= old(self).spec_ids().insert(id));
                    assert(self.fixtures@[i as int] == fixture);
                }
            },
            None => {
                self.fixtures.push(fixture);
                proof {
                    let n = old(self).fixtures@.len();
                    assert forall|x: FixtureID| self.spec_ids().contains(x) == old(
                        self,
                    ).spec_ids().insert(id).contains(x) by {
                        if old(self).spec_ids().contains(x) {
                            let k = choose|k: int|
                                0 <= k < old(self).fixtures@.len() && old(self).fixtures@[k].id
                                    == x;
                            assert(self.fixtures@[k].id == x);
                        }
                        if x == id {
                            assert(self.fixtures@[n as int].id == x);
                        }
                        if self.spec_ids().contains(x) {
                            let k = choose|k: int|
                                0 <= k < self.fixtures@.len() && self.fixtures@[k].id == x;
                            if k < n {
                                assert(old(self).fixtures@[k].id == x);
                            }
                        }
                    }
                    assert(self.spec_ids() =~= old(self).spec_ids().insert(id));
                    assert(self.fixtures@[n as int] == fixture);
                }
            },
        }
    }

    /// The fixture with id `id`, if there is one.
    pub fn get(&self, id: &FixtureID) -> (r: Option<&Fixture>)
        ensures
            r.is_none() <==> !self.spec_ids().contains(*id),
            r.is_some() ==> exists|k: int|
                0 <= k < self.fixtures@.len() && self.fixtures@[k].id == *id && *r.unwrap()
                    == self.fixtures@[k],
    {
        match self.position(id) {
            Some(i) => Some(&self.fixtures[i]),
            None => None,
        }
    }

    pub fn fixture_exists(&self, id: &FixtureID) -> (r: bool)
        ensures
            r == self.spec_ids().contains(*id),
    {
        self.position(id).is_some()
    }

    /// The ids of all fixtures.
    pub fn ids(&self) -> (r: QueryResult)
        ensures
            r@ == self.spec_ids(),
    {
        let mut ids = QueryResult::new();
        let mut i: usize = 0;
        while i < self.fixtures.len()
            invariant
                i <= self.fixtures@.len(),
                ids@ == Set::new(
                    |id: FixtureID| exists|k: int| 0 <= k < i && self.fixtures@[k].id == id,
                ),
            decreases self.fixtures@.len() - i,
        {
            ids.insert(self.fixtures[i].id);
            i = i + 1;
            proof {
                assert forall|x: FixtureID| ids@.contains(x) == (exists|k: int|
                    0 <= k < i && self.fixtures@[k].id == x) by {
                    if x == self.fixtures@[i - 1].id {
                        assert(self.fixtures@[i - 1].id == x);
                    }
                    if exists|k: int| 0 <= k < i && self.fixtures@[k].id == x {
                        let k = choose|k: int| 0 <= k < i && self.fixtures@[k].id == x;
                        if k < i - 1 {
                            assert(exists|k2: int| 0 <= k2 < i - 1 && self.fixtures@[k2].id == x);
                        }
                    }
                }
                assert(ids@ =~= Set::new(
                    |id: FixtureID| exists|k: int| 0 <= k < i && self.fixtures@[k].id == id,
                ));
            }
        }
        assert(ids@ =~= self.spec_ids());
        ids
    }

    /// The ids of the fixtures `query` selects.
    pub fn query(&self, query: &Query) -> (r: QueryResult)
        ensures
            r@ == query.spec_evaluate(self.spec_ids()),
    {
        query.evaluate(&self.ids())
    }

    /// The same fixtures with no generators: the state before anything ran.
    pub fn clean_clone(&self) -> (r: FixtureSet)
        requires
            self.wf(),
        ensures
            r.wf(),
            r.same_ids(*self),
            r.pristine(),
    {
        let mut fixtures: Vec<Fixture> = Vec::new();
        let mut i: usize = 0;
        while i < self.fixtures.len()
            invariant
                i <= self.fixtures@.len(),
                self.wf(),
                fixtures@.len() == i,
                forall|k: int|
                    0 <= k < i ==> (#[trigger] fixtures@[k]).wf() && fixtures@[k].id
                        == self.fixtures@[k].id,
                forall|k: int, p: Param|
                    0 <= k < i ==> (#[trigger] fixtures@[k].stack(p)).len() == 0,
            decreases self.fixtures@.len() - i,
        {
            let f = Fixture::new(self.fixtures[i].id);
            fixtures.push(f);
            i = i + 1;
        }
        FixtureSet { fixtures }
    }

    /// A copy of the set: the same fixtures with the same generators.
    pub fn duplicate(&self) -> (r: FixtureSet)
        requires
            self.wf(),
        ensures
            r.wf(),
            r.same_state(*self),
    {
        let mut fixtures: Vec<Fixture> = Vec::new();
        let mut i: usize = 0;
        while i < self.fixtures.len()
            invariant
                i <= self.fixtures@.len(),
                self.wf(),
                fixtures@.len() == i,
                forall|k: int|
                    0 <= k < i ==> (#[trigger] fixtures@[k]).wf() && fixtures@[k].id
                        == self.fixtures@[k].id,
                forall|k: int, p: Param|
                    0 <= k < i ==> #[trigger] fixtures@[k].stack(p)
                        == self.fixtures@[k].stack(p),
            decreases self.fixtures@.len() - i,
        {
            let f = self.fixtures[i].duplicate();
            proof {
                assert(self.fixtures@[i as int].wf());
                assert forall|p: Param| #[trigger] f.stack(p) == self.fixtures@[i as int].stack(
                    p,
                ) by {
                    assert(0 <= p.spec_index() < PARAM_COUNT);
                }
            }
            fixtures.push(f);
            i = i + 1;
        }
        FixtureSet { fixtures }
    }

    /// Applies `action` at `time`: for each group in order, every fixture its
    /// query selects from all fixture ids is resolved at `time` against the
    /// profile it is patched with (when it is patched), and gets each apply's
    /// generator, started at `time` and having seen the parameter's value, on
    /// top of the apply's parameter.
    pub fn apply_action(&mut self, action: &Action, time: Time, patch: &Patch)
        requires
            old(self).wf(),
        ensures
            final(self).wf(),
            final(self).same_ids(*old(self)),
            forall|k: int, p: Param|
                0 <= k < old(self).fixtures@.len() ==> #[trigger] final(self).fixtures@[k].stack(p)
                    == action_stack(
                    old(self).fixtures@[k].stack(p),
                    action.apply_groups@,
                    old(self).spec_ids(),
                    old(self).fixtures@[k].id,
                    p,
                    patch.profile_if_patched(old(self).fixtures@[k].id),
                    time,
                ),
    {
        let ids = self.ids();
        let ghost start = *self;
        let mut g: usize = 0;
        while g < action.apply_groups.len()
            invariant
                g <= action.apply_groups@.len(),
                self.wf(),
                self.same_ids(start),
                ids@ == start.spec_ids(),
                forall|k: int, p: Param|
                    0 <= k < start.fixtures@.len() ==> #[trigger] self.fixtures@[k].stack(p)
                        == action_stack(
                        start.fixtures@[k].stack(p),
                        action.apply_groups@.subrange(0, g as int),
                        start.spec_ids(),
                        start.fixtures@[k].id,
                        p,
                        patch.profile_if_patched(start.fixtures@[k].id),
                        time,
                    ),
            decreases action.apply_groups@.len() - g,
        {
            let group = &action.apply_groups[g];
            let selected = group.query.evaluate(&ids);
            let ghost before = *self;
            let mut k: usize = 0;
            while k < self.fixtures.len()
                invariant
                    g < action.apply_groups@.len(),
                    *group == action.apply_groups@[g as int],
                    k <= self.fixtures@.len(),
                    self.wf(),
                    self.same_ids(before),
                    before.wf(),
                    selected@ == group.query.spec_evaluate(start.spec_ids()),
                    forall|j: int, p: Param|
                        0 <= j < k ==> #[trigger] self.fixtures@[j].stack(p) == if selected@.contains(
                            before.fixtures@[j].id,
                        ) {
                            group_step(
                                before.fixtures@[j].stack(p),
                                p,
                                group.applies@,
                                patch.profile_if_patched(before.fixtures@[j].id),
                                time,
                            )
                        } else {
                            before.fixtures@[j].stack(p)
                        },
                    forall|j: int, p: Param|
                        k <= j < self.fixtures@.len() ==> #[trigger] self.fixtures@[j].stack(p)
                            == before.fixtures@[j].stack(p),
                decreases self.fixtures@.len() - k,
            {
                let id = self.fixtures[k].id;
                if selected.contains(&id) {
                    let mut fixture = Fixture::new(0);
                    self.fixtures.set_and_swap(k, &mut fixture);
                    let profile = if patch.is_patched(&id) {
                        Some(patch.get_profile(&id))
                    } else {
                        None
                    };
                    apply_group_to(&mut fixture, group, time, profile);
                    self.fixtures.set(k, fixture);
                }
                k = k + 1;
            }
            proof {
                let sub = action.apply_groups@.subrange(0, g + 1);
                assert(sub.drop_last() =~= action.apply_groups@.subrange(0, g as int));
                assert(sub.last() == *group);
                assert forall|j: int, p: Param|
                    0 <= j < start.fixtures@.len() implies #[trigger] self.fixtures@[j].stack(p)
                    == action_stack(
                    start.fixtures@[j].stack(p),
                    sub,
                    start.spec_ids(),
                    start.fixtures@[j].id,
                    p,
                    patch.profile_if_patched(start.fixtures@[j].id),
                    time,
                ) by {
                    assert(before.fixtures@[j].id == start.fixtures@[j].id);
                }
            }
            g = g + 1;
        }
        proof {
            assert(action.apply_groups@.subrange(0, action.apply_groups@.len() as int)
                =~= action.apply_groups@);
        }
    }

    /// Resolves every fixture at `time` against the profile it is patched with.
    pub fn resolve(&mut self, time: Time, patch: &Patch) -> (r: ResolvedFixtureMap)
        requires
            old(self).wf(),
            forall|k: int|
                0 <= k < old(self).fixtures@.len() ==> patch.patched(
                    #[trigger] old(self).fixtures@[k].id,
                ),
        ensures
            final(self).wf(),
            final(self).same_ids(*old(self)),
            r.fixtures@.len() == old(self).fixtures@.len(),
            forall|k: int, p: Param|
                0 <= k < old(self).fixtures@.len() ==> #[trigger] r.fixtures@[k].value_of(p) == old(
                    self,
                ).fixtures@[k].resolved_value(p, time, patch.profile_of(old(self).fixtures@[k].id)),
            forall|k: int|
                0 <= k < old(self).fixtures@.len() ==> (#[trigger] r.fixtures@[k]).id == old(
                    self,
                ).fixtures@[k].id && r.fixtures@[k].wf(),
            forall|k: int, p: Param|
                0 <= k < old(self).fixtures@.len() ==> #[trigger] final(self).fixtures@[k].stack(p)
                    == old(self).fixtures@[k].stack_after(
                    p,
                    time,
                    patch.profile_of(old(self).fixtures@[k].id),
                ),
    {
        let ghost start = *self;
        let mut out: Vec<ResolvedFixture> = Vec::new();
        let mut k: usize = 0;
        while k < self.fixtures.len()
            invariant
                k <= self.fixtures@.len(),
                self.wf(),
                self.same_ids(start),
                out@.len() == k,
                forall|j: int| 0 <= j < start.fixtures@.len() ==> patch.patched(#[trigger] start.fixtures@[j].id),
                forall|j: int|
                    0 <= j < k ==> (#[trigger] out@[j]).id == start.fixtures@[j].id && out@[j].wf(),
                forall|j: int, p: Param|
                    0 <= j < k ==> #[trigger] out@[j].value_of(p) == start.fixtures@[j].resolved_value(
                        p,
                        time,
                        patch.profile_of(start.fixtures@[j].id),
                    ),
                forall|j: int, p: Param|
                    0 <= j < k ==> #[trigger] self.fixtures@[j].stack(p)
                        == start.fixtures@[j].stack_after(
                        p,
                        time,
                        patch.profile_of(start.fixtures@[j].id),
                    ),
                forall|j: int, p: Param|
                    k <= j < self.fixtures@.len() ==> #[trigger] self.fixtures@[j].stack(p)
                        == start.fixtures@[j].stack(p),
            decreases self.fixtures@.len() - k,
        {
            let id = self.fixtures[k].id;
            assert(patch.patched(start.fixtures@[k as int].id));
            let profile = patch.get_profile(&id);
            let mut fixture = Fixture::new(0);
            self.fixtures.set_and_swap(k, &mut fixture);
            let resolved = fixture.resolve(&time, profile);
            self.fixtures.set(k, fixture);
            out.push(resolved);
            k = k + 1;
        }
        ResolvedFixtureMap { fixtures: out }
    }
}

/// The value `p` resolved to, when there was a resolution.
pub open spec fn value_seen(resolved: Option<ResolvedFixture>, p: Param) -> Option<Values> {
    match resolved {
        Some(rf) => rf.value_of(p),
        None => None,
    }
}

/// Applies one group to `fixture` at `time`: the fixture is resolved against
/// `profile` (when given), then each apply's generator, started at `time` and
/// having seen its parameter's value, goes on top of its parameter.
fn apply_group_to(
    fixture: &mut Fixture,
    group: &ApplyGroup,
    time: Time,
    profile: Option<&FixtureProfile>,
)
    requires
        old(fixture).wf(),
    ensures
        final(fixture).wf(),
        final(fixture).id == old(fixture).id,
        forall|p: Param| #[trigger]
            final(fixture).stack(p) == group_step(
                old(fixture).stack(p),
                p,
                group.applies@,
                match profile {
                    Some(prof) => Some(*prof),
                    None => None,
                },
                time,
            ),
{
    let ghost profile_value: Option<FixtureProfile> = match profile {
        Some(prof) => Some(*prof),
        None => None,
    };
    let ghost start = *fixture;
    let resolved = match profile {
        Some(prof) => Some(fixture.resolve(&time, prof)),
        None => None,
    };
    let ghost after_resolve = *fixture;
    let mut a: usize = 0;
    while a < group.applies.len()
        invariant
            a <= group.applies@.len(),
            fixture.wf(),
            fixture.id == start.id,
            resolved.is_some() ==> resolved.unwrap().wf(),
            resolved.is_some() == profile.is_some(),
            forall|p: Param| #[trigger]
                fixture.stack(p) == after_resolve.stack(p) + applies_pushed(
                    group.applies@.subrange(0, a as int),
                    p,
                    time,
                    value_seen(resolved, p),
                ),
        decreases group.applies@.len() - a,
    {
        let apply = &group.applies[a];
        let mut generator = apply.generator.duplicate();
        generator.set_start_time(time);
        match &resolved {
            Some(rf) => match rf.get_value(&apply.parameter) {
                Some(v) => generator.resolve(v, &time),
                None => {},
            },
            None => {},
        }
        let ghost value = value_seen(resolved, apply.parameter);
        assert(generator == prepared(apply.generator, time, value));
        fixture.set(apply.parameter, generator);
        proof {
            let sub = group.applies@.subrange(0, a + 1);
            assert(sub.drop_last() =~= group.applies@.subrange(0, a as int));
            assert(sub.last() == *apply);
            assert forall|p: Param| #[trigger] fixture.stack(p) == after_resolve.stack(p)
                + applies_pushed(
                sub,
                p,
                time,
                value_seen(resolved, p),
            ) by {
                let v = value_seen(resolved, p);
                let prev = applies_pushed(group.applies@.subrange(0, a as int), p, time, v);
                if p == apply.parameter {
                    assert(after_resolve.stack(p) + prev.push(generator) =~= (after_resolve.stack(p)
                        + prev).push(generator));
                }
            }
        }
        a = a + 1;
    }
    proof {
        assert(group.applies@.subrange(0, group.applies@.len() as int) =~= group.applies@);
        assert forall|p: Param| #[trigger] fixture.stack(p) == group_step(
            start.stack(p),
            p,
            group.applies@,
            profile_value,
            time,
        ) by {
            match profile {
                Some(prof) => {
                    if resolves_param(p, *prof) {
                    } else {
                    }
                },
                None => {},
            }
        }
    }
}

} // verus!

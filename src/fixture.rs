//! Fixtures: per parameter, a stack of generators in the order they were
//! applied; and the snapshot of values a fixture resolves to at a time.
use vstd::prelude::*;
use crate::action::Apply;
use crate::color::{Colorspace, colorspace_params};
use crate::generator::{CurrentValue, Generator, Static, lemma_resolved_idempotent};
use crate::parameter::{Param, Parameter, PARAM_COUNT, lemma_index_injective};
use crate::patch::FixtureProfile;
use crate::time::Time;
use crate::value::{Literal, Values};

verus! {

pub type FixtureID = usize;

/// What resolving a stack of generators comes to: the value chosen (if any),
/// the start time of the generator that gave it, and the generators as they
/// stand after each has seen the value chosen before it.
pub struct StackOutcome {
    pub value: Option<Values>,
    pub latest: Time,
    pub generators: Seq<Generator>,
}

/// The value a generator sees when nothing has been chosen yet: the
/// parameter's default, as a literal.
pub open spec fn seen_value(chosen: Option<Values>) -> Values {
    match chosen {
        Some(v) => v,
        None => Values::Literal(Literal { value: 0 }),
    }
}

/// Resolves a parameter's generators in order. Each first sees the value
/// chosen so far, then gives its own; a value given is chosen when its
/// generator started no earlier (to the millisecond) than the one chosen
/// before, so the latest start wins and, among equal starts, the last applied.
pub open spec fn resolve_stack(gs: Seq<Generator>, parameter: Parameter, time: Time) -> StackOutcome
    decreases gs.len(),
{
    if gs.len() == 0 {
        StackOutcome { value: None, latest: Time { nanoseconds: 0 }, generators: Seq::empty() }
    } else {
        let before = resolve_stack(gs.drop_last(), parameter, time);
        let g = gs.last().resolved(seen_value(before.value), time);
        match g.spec_generate(time, parameter) {
            Some(v) => if g.spec_start_time().ms() >= before.latest.ms() {
                StackOutcome {
                    value: Some(v),
                    latest: g.spec_start_time(),
                    generators: before.generators.push(g),
                }
            } else {
                StackOutcome { generators: before.generators.push(g), ..before }
            },
            None => StackOutcome { generators: before.generators.push(g), ..before },
        }
    }
}

/// Whether a fixture resolves `param` against `profile`: the profile must
/// have it, and a colour parameter only counts when the profile has a colour
/// space and the parameter belongs to the (RGB) colour space detected.
pub open spec fn resolves_param(param: Param, profile: FixtureProfile) -> bool {
    &&& profile.parameter_of(param).is_some()
    &&& (!param.spec_is_color() || (profile.colorspace.is_some() && colorspace_params(
        Colorspace::RGB,
    ).contains(param)))
}

pub struct Fixture {
    pub id: FixtureID,
    /// The generator stack of each parameter, by `Param::index`.
    pub parameters: Vec<Vec<Generator>>,
}

impl Fixture {
    pub open spec fn wf(self) -> bool {
        self.parameters@.len() == PARAM_COUNT
    }

    /// The generators applied to `param`, oldest first.
    pub open spec fn stack(self, param: Param) -> Seq<Generator> {
        self.parameters@[param.spec_index()]@
    }

    /// What resolving `param` at `time` against `profile` gives.
    pub open spec fn outcome(self, param: Param, time: Time, profile: FixtureProfile) -> StackOutcome {
        resolve_stack(self.stack(param), profile.parameter_of(param).unwrap(), time)
    }

    /// The value `param` resolves to at `time` against `profile`.
    pub open spec fn resolved_value(self, param: Param, time: Time, profile: FixtureProfile) -> Option<
        Values,
    > {
        if resolves_param(param, profile) {
            self.outcome(param, time, profile).value
        } else {
            None
        }
    }

    /// `param`'s generators once resolving at `time` against `profile` has run.
    pub open spec fn stack_after(self, param: Param, time: Time, profile: FixtureProfile) -> Seq<
        Generator,
    > {
        if resolves_param(param, profile) {
            self.outcome(param, time, profile).generators
        } else {
            self.stack(param)
        }
    }

    pub fn new(id: FixtureID) -> (r: Fixture)
        ensures
            r.wf(),
            r.id == id,
            forall|p: Param| #[trigger] r.stack(p) == Seq::<Generator>::empty(),
    {
        let mut parameters: Vec<Vec<Generator>> = Vec::new();
        let mut i: usize = 0;
        while i < PARAM_COUNT
            invariant
                i <= PARAM_COUNT,
                parameters@.len() == i,
                forall|j: int| 0 <= j < i ==> (#[trigger] parameters@[j])@ == Seq::<
                    Generator,
                >::empty(),
            decreases PARAM_COUNT - i,
        {
            parameters.push(Vec::new());
            i = i + 1;
        }
        let r = Fixture { id, parameters };
        assert forall|p: Param| #[trigger] r.stack(p) == Seq::<Generator>::empty() by {
            assert(0 <= p.spec_index() < PARAM_COUNT);
        }
        r
    }

    pub fn id(&self) -> (r: FixtureID)
        ensures
            r == self.id,
    {
        self.id
    }

    /// A copy of this fixture.
    pub fn duplicate(&self) -> (r: Fixture)
        ensures
            r.id == self.id,
            r.parameters@.len() == self.parameters@.len(),
            forall|i: int|
                0 <= i < self.parameters@.len() ==> (#[trigger] r.parameters@[i])@
                    == self.parameters@[i]@,
    {
        let mut parameters: Vec<Vec<Generator>> = Vec::new();
        let mut i: usize = 0;
        while i < self.parameters.len()
            invariant
                i <= self.parameters@.len(),
                parameters@.len() == i,
                forall|j: int|
                    0 <= j < i ==> (#[trigger] parameters@[j])@ == self.parameters@[j]@,
            decreases self.parameters@.len() - i,
        {
            let stack = copy_stack(&self.parameters[i]);
            parameters.push(stack);
            i = i + 1;
        }
        Fixture { id: self.id, parameters }
    }

    /// Pushes `generator` onto `parameter`'s stack.
    pub fn set(&mut self, parameter: Param, generator: Generator)
        requires
            old(self).wf(),
        ensures
            final(self).wf(),
            final(self).id == old(self).id,
            final(self).stack(parameter) == old(self).stack(parameter).push(generator),
            forall|p: Param|
                p != parameter ==> #[trigger] final(self).stack(p) == old(self).stack(p),
    {
        let i = parameter.index();
        let mut stack: Vec<Generator> = Vec::new();
        self.parameters.set_and_swap(i, &mut stack);
        stack.push(generator);
        self.parameters.set(i, stack);
        proof {
            assert forall|p: Param| p != parameter implies #[trigger] self.stack(p) == old(
                self,
            ).stack(p) by {
                assert(p.spec_index() != parameter.spec_index());
            }
        }
    }

    /// Applies `apply`: a copy of its generator goes on top of its parameter's stack.
    pub fn apply(&mut self, apply: &Apply)
        requires
            old(self).wf(),
        ensures
            final(self).wf(),
            final(self).id == old(self).id,
            final(self).stack(apply.parameter) == old(self).stack(apply.parameter).push(
                apply.generator,
            ),
            forall|p: Param|
                p != apply.parameter ==> #[trigger] final(self).stack(p) == old(self).stack(p),
    {
        self.set(apply.parameter, apply.generator.duplicate());
    }

    /// Removes every generator of `parameter`.
    pub fn clear_parameter(&mut self, parameter: &Param)
        requires
            old(self).wf(),
        ensures
            final(self).wf(),
            final(self).id == old(self).id,
            final(self).stack(*parameter) == Seq::<Generator>::empty(),
            forall|p: Param|
                p != *parameter ==> #[trigger] final(self).stack(p) == old(self).stack(p),
    {
        let i = parameter.index();
        self.parameters.set(i, Vec::new());
        proof {
            assert forall|p: Param| p != *parameter implies #[trigger] self.stack(p) == old(
                self,
            ).stack(p) by {
                assert(p.spec_index() != parameter.spec_index());
            }
        }
    }

    /// The generators of `parameter`, oldest first; `None` when it has none.
    pub fn get_parameter(&self, parameter: Param) -> (r: Option<&Vec<Generator>>)
        requires
            self.wf(),
        ensures
            self.stack(parameter).len() == 0 ==> r.is_none(),
            self.stack(parameter).len() > 0 ==> r.is_some() && r.unwrap()@ == self.stack(
                parameter,
            ),
    {
        let stack = &self.parameters[parameter.index()];
        if stack.len() == 0 {
            None
        } else {
            Some(stack)
        }
    }

    /// Every parameter's generators, by `Param::index`.
    pub fn parameters(&self) -> (r: &Vec<Vec<Generator>>)
        ensures
            *r == self.parameters,
    {
        &self.parameters
    }

    /// The generator most recently applied to `parameter`, if any.
    pub fn param(&self, parameter: Param) -> (r: Option<Generator>)
        requires
            self.wf(),
        ensures
            self.stack(parameter).len() == 0 ==> r.is_none(),
            self.stack(parameter).len() > 0 ==> r == Some(self.stack(parameter).last()),
    {
        let stack = &self.parameters[parameter.index()];
        if stack.len() == 0 {
            None
        } else {
            Some(stack[stack.len() - 1].duplicate())
        }
    }

    /// Resolves every parameter the profile maps (see `resolves_param`) at
    /// `time`. Generators keep what they saw, so a current value captured
    /// here stays captured.
    pub fn resolve(&mut self, time: &Time, profile: &FixtureProfile) -> (r: ResolvedFixture)
        requires
            old(self).wf(),
        ensures
            final(self).wf(),
            final(self).id == old(self).id,
            r.wf(),
            r.id == old(self).id,
            forall|p: Param| #[trigger]
                r.value_of(p) == old(self).resolved_value(p, *time, *profile),
            forall|p: Param| #[trigger]
                final(self).stack(p) == old(self).stack_after(p, *time, *profile),
    {
        let mut resolved = ResolvedFixture::new(self.id);
        let ghost start = *self;
        let mut i: usize = 0;
        while i < PARAM_COUNT
            invariant
                i <= PARAM_COUNT,
                self.wf(),
                self.id == start.id,
                resolved.wf(),
                resolved.id == start.id,
                forall|p: Param|
                    p.spec_index() < i ==> #[trigger] resolved.value_of(p) == start.resolved_value(
                        p,
                        *time,
                        *profile,
                    ),
                forall|p: Param|
                    p.spec_index() >= i ==> #[trigger] resolved.value_of(p) == None::<Values>,
                forall|p: Param|
                    p.spec_index() < i ==> #[trigger] self.stack(p) == start.stack_after(
                        p,
                        *time,
                        *profile,
                    ),
                forall|p: Param| p.spec_index() >= i ==> #[trigger] self.stack(p) == start.stack(p),
            decreases PARAM_COUNT - i,
        {
            let param = Param::from_index(i);
            let ghost prev = *self;
            let ghost prev_resolved = resolved;
            if self.resolves(&param, profile) {
                let parameter = profile.get_parameter(&param).unwrap();
                assert(self.stack(param) == start.stack(param));
                let mut stack: Vec<Generator> = Vec::new();
                self.parameters.set_and_swap(i, &mut stack);
                let (value, done) = resolve_generators(&stack, &parameter, time);
                assert(stack@ == start.stack(param));
                self.parameters.set(i, done);
                match value {
                    Some(v) => resolved.set(param, v),
                    None => {},
                }
            }
            assert(resolved.value_of(param) == start.resolved_value(param, *time, *profile));
            assert(self.stack(param) == start.stack_after(param, *time, *profile));
            proof {
                assert forall|p: Param| p != param implies #[trigger] self.stack(p) == prev.stack(
                    p,
                ) && resolved.value_of(p) == prev_resolved.value_of(p) by {
                    lemma_index_injective(p, param);
                }
                assert forall|p: Param| p.spec_index() == i implies p == param by {
                    lemma_index_injective(p, param);
                }
            }
            i = i + 1;
        }
        resolved
    }

    /// Whether `param` is resolved against `profile`.
    fn resolves(&self, param: &Param, profile: &FixtureProfile) -> (r: bool)
        ensures
            r == resolves_param(*param, *profile),
    {
        match profile.get_parameter(param) {
            None => false,
            Some(_) => {
                if !Param::is_color(param) {
                    true
                } else {
                    match profile.colorspace() {
                        None => false,
                        Some(_) => Colorspace::detect().contains(param),
                    }
                }
            },
        }
    }
}

/// A stack resolved once is settled: resolving what came out again at the
/// same time gives the same outcome.
pub proof fn lemma_resolve_stack_settled(gs: Seq<Generator>, parameter: Parameter, time: Time)
    ensures
        resolve_stack(resolve_stack(gs, parameter, time).generators, parameter, time)
            == resolve_stack(gs, parameter, time),
    decreases gs.len(),
{
    if gs.len() > 0 {
        let before = resolve_stack(gs.drop_last(), parameter, time);
        let g = gs.last().resolved(seen_value(before.value), time);
        let out = resolve_stack(gs, parameter, time);
        lemma_resolve_stack_settled(gs.drop_last(), parameter, time);
        assert(out.generators.drop_last() =~= before.generators);
        assert(out.generators.last() == g);
        lemma_resolved_idempotent(gs.last(), seen_value(before.value), seen_value(before.value), time);
    }
}

/// Resolution is deterministic: resolving a fixture again at the same time,
/// with nothing changed in between, gives the same value for every parameter
/// and leaves its generators as the first resolution left them.
pub proof fn law_resolution_deterministic(
    first: Fixture,
    second: Fixture,
    time: Time,
    profile: FixtureProfile,
)
    requires
        forall|p: Param| #[trigger] second.stack(p) == first.stack_after(p, time, profile),
    ensures
        forall|p: Param| #[trigger]
            second.resolved_value(p, time, profile) == first.resolved_value(p, time, profile),
        forall|p: Param| #[trigger] second.stack_after(p, time, profile) == second.stack(p),
{
    assert forall|p: Param| #[trigger]
        second.resolved_value(p, time, profile) == first.resolved_value(p, time, profile) by {
        assert(second.stack(p) == first.stack_after(p, time, profile));
        if resolves_param(p, profile) {
            lemma_resolve_stack_settled(first.stack(p), profile.parameter_of(p).unwrap(), time);
        }
    }
    assert forall|p: Param| #[trigger] second.stack_after(p, time, profile) == second.stack(p) by {
        assert(second.stack(p) == first.stack_after(p, time, profile));
        if resolves_param(p, profile) {
            lemma_resolve_stack_settled(first.stack(p), profile.parameter_of(p).unwrap(), time);
        }
    }
}

/// A current value applied over a static literal within the parameter's
/// range, whenever each was applied, resolves to that literal at every time,
/// and keeps it at every later time: it never falls back to the default.
pub proof fn law_current_value_keeps_static(
    value: i64,
    static_start: Time,
    capture_start: Time,
    parameter: Parameter,
    time: Time,
    later: Time,
)
    requires
        parameter.min <= value <= parameter.max,
    ensures
        ({
            let gs = seq![
                Generator::Static(Static { value: Values::Literal(Literal { value }) }).started_at(
                    static_start,
                ),
                Generator::CurrentValue(CurrentValue { captured: None }).started_at(capture_start),
            ];
            let out = resolve_stack(gs, parameter, time);
            &&& out.value == Some(Values::Literal(Literal { value }))
            &&& resolve_stack(out.generators, parameter, later).value == Some(
                Values::Literal(Literal { value }),
            )
        }),
{
    let gs = seq![
        Generator::Static(Static { value: Values::Literal(Literal { value }) }).started_at(
            static_start,
        ),
        Generator::CurrentValue(CurrentValue { captured: None }).started_at(capture_start),
    ];
    reveal_with_fuel(resolve_stack, 3);
    assert(gs.drop_last() =~= seq![gs[0]]);
    assert(seq![gs[0]].drop_last() =~= Seq::<Generator>::empty());
    let out = resolve_stack(gs, parameter, time);
    let first = resolve_stack(seq![gs[0]], parameter, time);
    assert(first.value == Some(Values::Literal(Literal { value })));
    assert(out.generators =~= first.generators.push(gs[1].resolved(seen_value(first.value), time)));
    assert(first.generators =~= seq![gs[0]]);
    let gs2 = out.generators;
    assert(gs2.drop_last() =~= seq![gs2[0]]);
    assert(seq![gs2[0]].drop_last() =~= Seq::<Generator>::empty());
}

/// A copy of a stack of generators.
pub fn copy_stack(stack: &Vec<Generator>) -> (r: Vec<Generator>)
    ensures
        r@ == stack@,
{
    let mut copy: Vec<Generator> = Vec::new();
    let mut i: usize = 0;
    while i < stack.len()
        invariant
            i <= stack@.len(),
            copy@ == stack@.subrange(0, i as int),
        decreases stack@.len() - i,
    {
        copy.push(stack[i].duplicate());
        i = i + 1;
        assert(copy@ =~= stack@.subrange(0, i as int));
    }
    assert(stack@.subrange(0, stack@.len() as int) =~= stack@);
    copy
}

/// Resolves a stack of generators at `time` (see `resolve_stack`): the value
/// chosen and the generators after resolving.
pub fn resolve_generators(stack: &Vec<Generator>, parameter: &Parameter, time: &Time) -> (r: (
    Option<Values>,
    Vec<Generator>,
))
    ensures
        r.0 == resolve_stack(stack@, *parameter, *time).value,
        r.1@ == resolve_stack(stack@, *parameter, *time).generators,
{
    let mut value: Option<Values> = None;
    let mut latest = Time { nanoseconds: 0 };
    let mut done: Vec<Generator> = Vec::new();
    let mut i: usize = 0;
    assert(stack@.subrange(0, 0) =~= Seq::<Generator>::empty());
    while i < stack.len()
        invariant
            i <= stack@.len(),
            value == resolve_stack(stack@.subrange(0, i as int), *parameter, *time).value,
            latest == resolve_stack(stack@.subrange(0, i as int), *parameter, *time).latest,
            done@ == resolve_stack(stack@.subrange(0, i as int), *parameter, *time).generators,
        decreases stack@.len() - i,
    {
        proof {
            assert(stack@.subrange(0, i + 1).drop_last() =~= stack@.subrange(0, i as int));
            assert(stack@.subrange(0, i + 1).last() == stack@[i as int]);
        }
        let seen = match value {
            Some(v) => v,
            None => Values::Literal(Literal { value: 0 }),
        };
        let mut g = stack[i].duplicate();
        g.resolve(&seen, time);
        match g.generate(time, parameter) {
            Some(v) => {
                let start = g.start_time();
                if latest.is_at_or_before(&start) {
                    value = Some(v);
                    latest = start;
                }
            },
            None => {},
        }
        done.push(g);
        i = i + 1;
    }
    assert(stack@.subrange(0, stack@.len() as int) =~= stack@);
    (value, done)
}

/// The values a fixture resolved to at one time, by parameter.
pub struct ResolvedFixture {
    pub id: FixtureID,
    /// The value of each parameter, by `Param::index`.
    pub parameters: Vec<Option<Values>>,
}

impl ResolvedFixture {
    pub open spec fn wf(self) -> bool {
        self.parameters@.len() == PARAM_COUNT
    }

    pub open spec fn value_of(self, param: Param) -> Option<Values> {
        self.parameters@[param.spec_index()]
    }

    pub fn new(id: FixtureID) -> (r: ResolvedFixture)
        ensures
            r.wf(),
            r.id == id,
            forall|p: Param| #[trigger] r.value_of(p) == None::<Values>,
    {
        let mut parameters: Vec<Option<Values>> = Vec::new();
        let mut i: usize = 0;
        while i < PARAM_COUNT
            invariant
                i <= PARAM_COUNT,
                parameters@.len() == i,
                forall|j: int| 0 <= j < i ==> parameters@[j] == None::<Values>,
            decreases PARAM_COUNT - i,
        {
            parameters.push(None);
            i = i + 1;
        }
        ResolvedFixture { id, parameters }
    }

    pub fn id(&self) -> (r: FixtureID)
        ensures
            r == self.id,
    {
        self.id
    }

    pub fn set(&mut self, parameter: Param, value: Values)
        requires
            old(self).wf(),
        ensures
            final(self).wf(),
            final(self).id == old(self).id,
            final(self).value_of(parameter) == Some(value),
            forall|p: Param|
                p != parameter ==> #[trigger] final(self).value_of(p) == old(self).value_of(p),
    {
        self.parameters.set(parameter.index(), Some(value));
        proof {
            assert forall|p: Param| p != parameter implies #[trigger] self.value_of(p) == old(
                self,
            ).value_of(p) by {
                assert(p.spec_index() != parameter.spec_index());
            }
        }
    }

    pub fn get_value(&self, parameter: &Param) -> (r: Option<&Values>)
        requires
            self.wf(),
        ensures
            r.is_some() == self.value_of(*parameter).is_some(),
            r.is_some() ==> *r.unwrap() == self.value_of(*parameter).unwrap(),
    {
        match &self.parameters[parameter.index()] {
            Some(v) => Some(v),
            None => None,
        }
    }

    /// The parameters that have a value, with it, in `Param` slot order.
    pub fn values(&self) -> (r: Vec<(Param, Values)>)
        requires
            self.wf(),
        ensures
            forall|k: int|
                0 <= k < r@.len() ==> self.value_of(#[trigger] r@[k].0) == Some(r@[k].1),
            forall|p: Param|
                #[trigger] self.value_of(p).is_some() ==> exists|k: int|
                    0 <= k < r@.len() && r@[k].0 == p,
    {
        let mut out: Vec<(Param, Values)> = Vec::new();
        let mut i: usize = 0;
        while i < PARAM_COUNT
            invariant
                i <= PARAM_COUNT,
                self.wf(),
                forall|k: int|
                    0 <= k < out@.len() ==> self.value_of(#[trigger] out@[k].0) == Some(
                        out@[k].1,
                    ),
                forall|p: Param|
                    p.spec_index() < i && #[trigger] self.value_of(p).is_some() ==> exists|k: int|
                        0 <= k < out@.len() && out@[k].0 == p,
            decreases PARAM_COUNT - i,
        {
            let param = Param::from_index(i);
            let ghost before = out@;
            match self.parameters[i] {
                Some(v) => {
                    out.push((param, v));
                    assert(out@[out@.len() - 1].0 == param);
                },
                None => {},
            }
            proof {
                assert forall|p: Param|
                    p.spec_index() < i + 1 && #[trigger] self.value_of(p).is_some() implies exists|k: int|
                    0 <= k < out@.len() && out@[k].0 == p by {
                    lemma_index_injective(p, param);
                    if p.spec_index() < i {
                        let k = choose|k: int| 0 <= k < before.len() && before[k].0 == p;
                        assert(out@[k] == before[k]);
                    } else {
                        assert(out@[out@.len() - 1].0 == p);
                    }
                }
            }
            i = i + 1;
        }
        out
    }
}

} // verus!

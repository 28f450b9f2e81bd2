//! Value generators: rules that give a parameter's value at a point in time.
use vstd::prelude::*;
use crate::parameter::Parameter;
use crate::time::{NANOS_PER_MS, Time};
use crate::value::{clamp, literal_of_percentage, Literal, Percentage, Values};

verus! {

/// `x` held to at most `u64::MAX`: spans longer than that are taken as that long.
pub open spec fn span(x: int) -> int {
    if x > u64::MAX {
        u64::MAX as int
    } else {
        x
    }
}

/// The point `elapsed / duration` of the way from `from` to `to`, rounded
/// toward `from`; `to` itself once `elapsed` reaches `duration`.
pub open spec fn fade_point(from: int, to: int, elapsed: int, duration: int) -> int {
    if elapsed >= duration {
        to
    } else if to >= from {
        from + (to - from) * elapsed / duration
    } else {
        from - (from - to) * elapsed / duration
    }
}

/// The nanoseconds from `start` to `time`, both taken to the millisecond;
/// zero when `time` is earlier.
pub open spec fn elapsed_nanos(time: Time, start: Time) -> int {
    if time.ms() >= start.ms() {
        (time.ms() - start.ms()) * NANOS_PER_MS
    } else {
        0
    }
}

/// `time` moved later by `offset`, held to the largest time.
pub open spec fn later_by(time: Time, offset: Time) -> Time {
    if time.nanoseconds + offset.nanoseconds > u128::MAX {
        Time { nanoseconds: u128::MAX }
    } else {
        Time { nanoseconds: (time.nanoseconds + offset.nanoseconds) as u128 }
    }
}

pub open spec fn start_or_zero(start: Option<Time>) -> Time {
    match start {
        Some(t) => t,
        None => Time { nanoseconds: 0 },
    }
}

/// What a static value generates: a literal held to the parameter's range, a
/// percentage as it is.
pub open spec fn static_output(value: Values, parameter: Parameter) -> Values {
    match value {
        Values::Literal(l) => Values::Literal(
            Literal { value: clamp(l.value as int, parameter.min as int, parameter.max as int) as i64 },
        ),
        Values::Percentage(_) => value,
    }
}

/// Always the same value.
#[derive(Clone, Copy, Debug, PartialEq, Eq, Structural)]
pub struct Static {
    pub value: Values,
}

/// A linear change from what `start` gives to what `end` gives over
/// `duration`, counted from `start_time` (zero when unset).
#[derive(Debug)]
pub struct Fade {
    pub start: Box<Generator>,
    pub end: Box<Generator>,
    pub duration: Time,
    pub start_time: Option<Time>,
}

/// `generator`, held back until `delay` has passed since `start_time`.
#[derive(Debug)]
pub struct Delay {
    pub delay: Time,
    pub generator: Box<Generator>,
    pub start_time: Option<Time>,
}

/// The value the parameter had when this generator was first resolved.
#[derive(Clone, Copy, Debug, PartialEq, Eq, Structural)]
pub struct CurrentValue {
    pub captured: Option<Values>,
}

#[derive(Debug)]
pub enum Generator {
    Static(Static),
    Fade(Fade),
    Delay(Delay),
    CurrentValue(CurrentValue),
}

/// A generator that is never inspected: it fills a slot while its owner is
/// being rebuilt.
pub open spec fn placeholder() -> Generator {
    Generator::CurrentValue(CurrentValue { captured: None })
}

fn make_placeholder() -> (r: Generator)
    ensures
        r == placeholder(),
{
    Generator::CurrentValue(CurrentValue { captured: None })
}

impl Delay {
    pub open spec fn spec_active(self, time: Time) -> bool {
        elapsed_nanos(time, start_or_zero(self.start_time)) >= self.delay.nanoseconds
    }
}

impl Generator {
    /// What the generator gives for `parameter` at `time`; `None` while it
    /// holds back (an inactive delay, or a fade over one).
    pub open spec fn spec_generate(self, time: Time, parameter: Parameter) -> Option<Values>
        decreases self,
    {
        match self {
            Generator::Static(s) => Some(static_output(s.value, parameter)),
            Generator::Fade(f) => {
                match (f.start.spec_generate(time, parameter), f.end.spec_generate(time, parameter)) {
                    (Some(from), Some(to)) => {
                        let elapsed = span(elapsed_nanos(time, start_or_zero(f.start_time)));
                        let duration = span(f.duration.nanoseconds as int);
                        match from {
                            Values::Literal(l) => Some(
                                Values::Literal(
                                    Literal {
                                        value: fade_point(
                                            l.value as int,
                                            to.as_literal(parameter),
                                            elapsed,
                                            duration,
                                        ) as i64,
                                    },
                                ),
                            ),
                            Values::Percentage(p) => Some(
                                Values::Percentage(
                                    Percentage {
                                        percentage: fade_point(
                                            p.percentage as int,
                                            to.as_percentage(),
                                            elapsed,
                                            duration,
                                        ) as i64,
                                    },
                                ),
                            ),
                        }
                    },
                    _ => None,
                }
            },
            Generator::Delay(d) => if d.spec_active(time) {
                d.generator.spec_generate(time, parameter)
            } else {
                None
            },
            Generator::CurrentValue(c) => match c.captured {
                Some(v) => Some(static_output(v, parameter)),
                None => Some(Values::Literal(Literal { value: parameter.min })),
            },
        }
    }

    /// The value shown when the generator is inspected.
    pub open spec fn spec_value(self) -> Values
        decreases self,
    {
        match self {
            Generator::Static(s) => s.value,
            Generator::Fade(f) => f.end.spec_value(),
            Generator::Delay(d) => d.generator.spec_value(),
            Generator::CurrentValue(c) => match c.captured {
                Some(v) => v,
                None => Values::Literal(Literal { value: 0 }),
            },
        }
    }

    /// When the generator takes effect: the latest of a parameter's active
    /// generators wins.
    pub open spec fn spec_start_time(self) -> Time {
        match self {
            Generator::Fade(f) => start_or_zero(f.start_time),
            Generator::Delay(d) => match d.start_time {
                Some(t) => t,
                None => later_by(Time { nanoseconds: 0 }, d.delay),
            },
            _ => Time { nanoseconds: 0 },
        }
    }

    /// The generator started at `time`. A delay starts what it holds `delay` later.
    pub open spec fn started_at(self, time: Time) -> Generator
        decreases self,
    {
        match self {
            Generator::Fade(f) => Generator::Fade(Fade { start_time: Some(time), ..f }),
            Generator::Delay(d) => Generator::Delay(
                Delay {
                    delay: d.delay,
                    generator: Box::new(d.generator.started_at(later_by(time, d.delay))),
                    start_time: Some(time),
                },
            ),
            _ => self,
        }
    }

    /// The generator after seeing `value`, the parameter's value so far, at
    /// `time`: a current value not yet captured captures it.
    pub open spec fn resolved(self, value: Values, time: Time) -> Generator
        decreases self,
    {
        match self {
            Generator::Fade(f) => Generator::Fade(
                Fade {
                    start: Box::new(f.start.resolved(value, time)),
                    end: Box::new(f.end.resolved(value, time)),
                    duration: f.duration,
                    start_time: f.start_time,
                },
            ),
            Generator::Delay(d) => if d.spec_active(time) {
                Generator::Delay(
                    Delay {
                        delay: d.delay,
                        generator: Box::new(d.generator.resolved(value, time)),
                        start_time: d.start_time,
                    },
                )
            } else {
                self
            },
            Generator::CurrentValue(c) => match c.captured {
                Some(_) => self,
                None => Generator::CurrentValue(CurrentValue { captured: Some(value) }),
            },
            Generator::Static(_) => self,
        }
    }
}

/// Resolving twice at one time changes nothing the second time, whatever the
/// second value seen.
pub proof fn lemma_resolved_idempotent(g: Generator, v1: Values, v2: Values, time: Time)
    ensures
        g.resolved(v1, time).resolved(v2, time) == g.resolved(v1, time),
    decreases g,
{
    match g {
        Generator::Fade(f) => {
            lemma_resolved_idempotent(*f.start, v1, v2, time);
            lemma_resolved_idempotent(*f.end, v1, v2, time);
        },
        Generator::Delay(d) => {
            if d.spec_active(time) {
                lemma_resolved_idempotent(*d.generator, v1, v2, time);
            }
        },
        _ => {},
    }
}

/// A fade between two static literals, started at `start`.
pub open spec fn literal_fade(from: i64, to: i64, duration: Time, start: Time) -> Generator {
    Generator::Fade(
        Fade {
            start: Box::new(Generator::Static(Static { value: Values::Literal(Literal { value: from }) })),
            end: Box::new(Generator::Static(Static { value: Values::Literal(Literal { value: to }) })),
            duration,
            start_time: Some(start),
        },
    )
}

/// A fade between two literals within the parameter's range gives its start
/// value when it starts and its end value from the moment its duration has
/// passed on, never going beyond it.
pub proof fn law_fade_boundaries(
    from: i64,
    to: i64,
    duration: Time,
    start: Time,
    time: Time,
    parameter: Parameter,
)
    requires
        parameter.min <= from <= parameter.max,
        parameter.min <= to <= parameter.max,
    ensures
        elapsed_nanos(time, start) >= duration.nanoseconds ==> literal_fade(
            from,
            to,
            duration,
            start,
        ).spec_generate(time, parameter) == Some(Values::Literal(Literal { value: to })),
        elapsed_nanos(time, start) == 0 && duration.nanoseconds > 0 ==> literal_fade(
            from,
            to,
            duration,
            start,
        ).spec_generate(time, parameter) == Some(Values::Literal(Literal { value: from })),
{
    reveal_with_fuel(Generator::spec_generate, 2);
    let g = literal_fade(from, to, duration, start);
    let from_g = Generator::Static(Static { value: Values::Literal(Literal { value: from }) });
    let to_g = Generator::Static(Static { value: Values::Literal(Literal { value: to }) });
    assert(from_g.spec_generate(time, parameter) == Some(Values::Literal(Literal { value: from })));
    assert(to_g.spec_generate(time, parameter) == Some(Values::Literal(Literal { value: to })));
    let e = span(elapsed_nanos(time, start));
    let d = span(duration.nanoseconds as int);
    if elapsed_nanos(time, start) >= duration.nanoseconds {
        assert(e >= d);
        assert(fade_point(from as int, to as int, e, d) == to);
    }
    if elapsed_nanos(time, start) == 0 && duration.nanoseconds > 0 {
        assert(e == 0);
        assert(d > 0);
        assert((to - from) * 0 == 0);
        assert((from - to) * 0 == 0);
        assert(fade_point(from as int, to as int, e, d) == from);
    }
}

/// A cross-kind fade from a static literal to a static percentage gives
/// literals: the percentage is taken into the parameter's range, and the fade
/// runs from the literal to that point, holding it once the duration has passed.
pub proof fn law_cross_kind_fade(
    from: i64,
    to: i64,
    duration: Time,
    start: Time,
    time: Time,
    parameter: Parameter,
)
    requires
        parameter.min <= from <= parameter.max,
    ensures
        Generator::Fade(
            Fade {
                start: Box::new(Generator::Static(Static { value: Values::Literal(Literal { value: from }) })),
                end: Box::new(Generator::Static(Static { value: Values::Percentage(Percentage { percentage: to }) })),
                duration,
                start_time: Some(start),
            },
        ).spec_generate(time, parameter) == Some(
            Values::Literal(
                Literal {
                    value: fade_point(
                        from as int,
                        literal_of_percentage(to as int, parameter),
                        span(elapsed_nanos(time, start)),
                        span(duration.nanoseconds as int),
                    ) as i64,
                },
            ),
        ),
        elapsed_nanos(time, start) >= duration.nanoseconds ==> Generator::Fade(
            Fade {
                start: Box::new(Generator::Static(Static { value: Values::Literal(Literal { value: from }) })),
                end: Box::new(Generator::Static(Static { value: Values::Percentage(Percentage { percentage: to }) })),
                duration,
                start_time: Some(start),
            },
        ).spec_generate(time, parameter) == Some(
            Values::Literal(Literal { value: literal_of_percentage(to as int, parameter) as i64 }),
        ),
{
    reveal_with_fuel(Generator::spec_generate, 2);
    let e = span(elapsed_nanos(time, start));
    let d = span(duration.nanoseconds as int);
    if elapsed_nanos(time, start) >= duration.nanoseconds {
        assert(e >= d);
    }
}

fn elapsed_since(time: Time, start: Time) -> (r: u128)
    ensures
        r == elapsed_nanos(time, start),
{
    let now = time.total_milliseconds();
    let from = start.total_milliseconds();
    if now >= from {
        assert((now - from) * NANOS_PER_MS <= time.nanoseconds) by (nonlinear_arith)
            requires
                now == time.nanoseconds as int / NANOS_PER_MS as int,
                from >= 0,
                now >= from,
        ;
        (now - from) * NANOS_PER_MS
    } else {
        0
    }
}

fn time_later_by(time: Time, offset: Time) -> (r: Time)
    ensures
        r == later_by(time, offset),
{
    if time.nanoseconds > u128::MAX - offset.nanoseconds {
        Time { nanoseconds: u128::MAX }
    } else {
        Time { nanoseconds: time.nanoseconds + offset.nanoseconds }
    }
}

fn span_of(x: u128) -> (r: u64)
    ensures
        r == span(x as int),
{
    if x > u64::MAX as u128 {
        u64::MAX
    } else {
        x as u64
    }
}

fn fade_between(from: i64, to: i64, elapsed: u64, duration: u64) -> (r: i64)
    ensures
        r == fade_point(from as int, to as int, elapsed as int, duration as int),
{
    if elapsed >= duration {
        to
    } else if to >= from {
        let gap = (to as i128 - from as i128) as u128;
        proof {
            lemma_step_within(gap as int, elapsed as int, duration as int);
        }
        let step = gap * (elapsed as u128) / (duration as u128);
        (from as i128 + step as i128) as i64
    } else {
        let gap = (from as i128 - to as i128) as u128;
        proof {
            lemma_step_within(gap as int, elapsed as int, duration as int);
        }
        let step = gap * (elapsed as u128) / (duration as u128);
        (from as i128 - step as i128) as i64
    }
}

/// A step of `elapsed / duration` of a gap stays within the gap and its product fits.
proof fn lemma_step_within(gap: int, elapsed: int, duration: int)
    requires
        0 <= gap <= u64::MAX,
        0 <= elapsed < duration <= u64::MAX,
    ensures
        gap * elapsed <= u128::MAX,
        0 <= gap * elapsed / duration <= gap,
{
    assert(gap * elapsed <= u64::MAX * u64::MAX) by (nonlinear_arith)
        requires
            0 <= gap <= u64::MAX,
            0 <= elapsed <= u64::MAX,
    ;
    assert(gap * elapsed <= gap * duration) by (nonlinear_arith)
        requires
            0 <= gap,
            0 <= elapsed < duration,
    ;
    assert(gap * elapsed / duration <= gap) by (nonlinear_arith)
        requires
            gap * elapsed <= gap * duration,
            0 < duration,
            0 <= gap,
    ;
    assert(0 <= gap * elapsed / duration) by (nonlinear_arith)
        requires
            0 <= gap,
            0 <= elapsed,
            0 < duration,
    ;
}

fn static_generate(value: &Values, parameter: &Parameter) -> (r: Values)
    ensures
        r == static_output(*value, *parameter),
{
    match value {
        Values::Literal(l) => {
            let v = if l.value < parameter.min {
                parameter.min
            } else if l.value > parameter.max {
                parameter.max
            } else {
                l.value
            };
            Values::Literal(Literal { value: v })
        },
        Values::Percentage(_) => *value,
    }
}

impl Static {
    pub fn new(value: Values) -> (r: Static)
        ensures
            r.value == value,
    {
        Static { value }
    }

    pub fn generate(&self, _time: &Time, parameter: &Parameter) -> (r: Option<Values>)
        ensures
            r == Some(static_output(self.value, *parameter)),
    {
        Some(static_generate(&self.value, parameter))
    }

    pub fn value(&self) -> (r: Values)
        ensures
            r == self.value,
    {
        self.value
    }
}

impl Fade {
    pub fn new(start: Generator, end: Generator, duration: Time) -> (r: Fade)
        ensures
            *r.start == start,
            *r.end == end,
            r.duration == duration,
            r.start_time == None::<Time>,
    {
        Fade { start: Box::new(start), end: Box::new(end), duration, start_time: None }
    }

    pub fn set_start_time(&mut self, time: Time)
        ensures
            final(self).start == old(self).start,
            final(self).end == old(self).end,
            final(self).duration == old(self).duration,
            final(self).start_time == Some(time),
    {
        self.start_time = Some(time);
    }

    pub fn start_time(&self) -> (r: Time)
        ensures
            r == start_or_zero(self.start_time),
    {
        match self.start_time {
            Some(t) => t,
            None => Time { nanoseconds: 0 },
        }
    }
}

impl Delay {
    pub fn new(delay: Time, generator: Generator) -> (r: Delay)
        ensures
            r.delay == delay,
            *r.generator == generator,
            r.start_time == None::<Time>,
    {
        Delay { delay, generator: Box::new(generator), start_time: None }
    }

    /// Whether the delay has passed at `time`.
    pub fn active(&self, time: &Time) -> (r: bool)
        ensures
            r == self.spec_active(*time),
    {
        let start = match self.start_time {
            Some(t) => t,
            None => Time { nanoseconds: 0 },
        };
        elapsed_since(*time, start) >= self.delay.nanoseconds
    }
}

impl CurrentValue {
    pub fn new() -> (r: CurrentValue)
        ensures
            r.captured == None::<Values>,
    {
        CurrentValue { captured: None }
    }
}

impl Generator {
    /// A copy of this generator.
    pub fn duplicate(&self) -> (r: Generator)
        ensures
            r == *self,
        decreases self,
    {
        match self {
            Generator::Static(s) => Generator::Static(*s),
            Generator::Fade(f) => Generator::Fade(
                Fade {
                    start: Box::new(f.start.duplicate()),
                    end: Box::new(f.end.duplicate()),
                    duration: f.duration,
                    start_time: f.start_time,
                },
            ),
            Generator::Delay(d) => Generator::Delay(
                Delay {
                    delay: d.delay,
                    generator: Box::new(d.generator.duplicate()),
                    start_time: d.start_time,
                },
            ),
            Generator::CurrentValue(c) => Generator::CurrentValue(*c),
        }
    }

    pub fn generate(&self, time: &Time, parameter: &Parameter) -> (r: Option<Values>)
        ensures
            r == self.spec_generate(*time, *parameter),
        decreases self,
    {
        match self {
            Generator::Static(s) => Some(static_generate(&s.value, parameter)),
            Generator::Fade(f) => {
                let from = f.start.generate(time, parameter);
                let to = f.end.generate(time, parameter);
                match (from, to) {
                    (Some(from), Some(to)) => {
                        let start = f.start_time();
                        let elapsed = span_of(elapsed_since(*time, start));
                        let duration = span_of(f.duration.nanoseconds);
                        match from {
                            Values::Literal(l) => {
                                let target = to.to_literal(parameter);
                                let v = fade_between(l.value, target.value, elapsed, duration);
                                Some(Values::Literal(Literal { value: v }))
                            },
                            Values::Percentage(p) => {
                                let target = to.to_percentage();
                                let v = fade_between(
                                    p.percentage,
                                    target.percentage,
                                    elapsed,
                                    duration,
                                );
                                Some(Values::Percentage(Percentage { percentage: v }))
                            },
                        }
                    },
                    _ => None,
                }
            },
            Generator::Delay(d) => {
                if d.active(time) {
                    d.generator.generate(time, parameter)
                } else {
                    None
                }
            },
            Generator::CurrentValue(c) => match c.captured {
                Some(v) => Some(static_generate(&v, parameter)),
                None => Some(Values::Literal(Literal { value: parameter.min })),
            },
        }
    }

    pub fn value(&self) -> (r: Values)
        ensures
            r == self.spec_value(),
        decreases self,
    {
        match self {
            Generator::Static(s) => s.value,
            Generator::Fade(f) => f.end.value(),
            Generator::Delay(d) => d.generator.value(),
            Generator::CurrentValue(c) => match c.captured {
                Some(v) => v,
                None => Values::Literal(Literal { value: 0 }),
            },
        }
    }

    pub fn start_time(&self) -> (r: Time)
        ensures
            r == self.spec_start_time(),
    {
        match self {
            Generator::Fade(f) => f.start_time(),
            Generator::Delay(d) => match d.start_time {
                Some(t) => t,
                None => time_later_by(Time { nanoseconds: 0 }, d.delay),
            },
            _ => Time { nanoseconds: 0 },
        }
    }

    /// This generator, started at `time`.
    pub fn into_started(self, time: Time) -> (r: Generator)
        ensures
            r == self.started_at(time),
        decreases self,
    {
        match self {
            Generator::Fade(f) => Generator::Fade(
                Fade { start: f.start, end: f.end, duration: f.duration, start_time: Some(time) },
            ),
            Generator::Delay(d) => {
                let inner_start = time_later_by(time, d.delay);
                let inner = (*d.generator).into_started(inner_start);
                Generator::Delay(
                    Delay { delay: d.delay, generator: Box::new(inner), start_time: Some(time) },
                )
            },
            _ => self,
        }
    }

    /// This generator after seeing `value` at `time`.
    pub fn into_resolved(self, value: &Values, time: &Time) -> (r: Generator)
        ensures
            r == self.resolved(*value, *time),
        decreases self,
    {
        match self {
            Generator::Fade(f) => {
                let start = (*f.start).into_resolved(value, time);
                let end = (*f.end).into_resolved(value, time);
                Generator::Fade(
                    Fade {
                        start: Box::new(start),
                        end: Box::new(end),
                        duration: f.duration,
                        start_time: f.start_time,
                    },
                )
            },
            Generator::Delay(d) => {
                if d.active(time) {
                    let inner = (*d.generator).into_resolved(value, time);
                    Generator::Delay(
                        Delay {
                            delay: d.delay,
                            generator: Box::new(inner),
                            start_time: d.start_time,
                        },
                    )
                } else {
                    Generator::Delay(d)
                }
            },
            Generator::CurrentValue(c) => match c.captured {
                Some(_) => Generator::CurrentValue(c),
                None => Generator::CurrentValue(CurrentValue { captured: Some(*value) }),
            },
            Generator::Static(s) => Generator::Static(s),
        }
    }

    /// Starts the generator at `time`.
    pub fn set_start_time(&mut self, time: Time)
        ensures
            *final(self) == old(self).started_at(time),
    {
        let mut taken = make_placeholder();
        std::mem::swap(self, &mut taken);
        *self = taken.into_started(time);
    }

    /// Lets the generator see `value`, the parameter's value so far, at `time`.
    pub fn resolve(&mut self, value: &Values, time: &Time)
        ensures
            *final(self) == old(self).resolved(*value, *time),
    {
        let mut taken = make_placeholder();
        std::mem::swap(self, &mut taken);
        *self = taken.into_resolved(value, time);
    }
}

impl Clone for Generator {
    fn clone(&self) -> (r: Generator)
        ensures
            r == *self,
    {
        self.duplicate()
    }
}

} // verus!

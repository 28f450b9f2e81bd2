//! A timecode source: a clock that can be started, paused, resumed, stopped
//! and sought, read as show time.
use vstd::prelude::*;
use std::time::{Duration, Instant};
use crate::time::{FrameRate, NANOS_PER_MS, Time};

verus! {

#[verifier::external_type_specification]
#[verifier::external_body]
pub struct ExInstant(std::time::Instant);

/// Relies on `Instant::now`: a reading of the monotonic clock.
#[verifier::external_body]
fn clock_now() -> (r: Instant) {
    Instant::now()
}

/// Relies on `Instant::elapsed`: the time since `instant` on the monotonic
/// clock. It depends on the clock, so nothing is promised of it.
#[verifier::external_body]
fn clock_elapsed(instant: &Instant) -> (r: Duration) {
    instant.elapsed()
}

/// Relies on `Duration::as_nanos`: the whole nanoseconds of `duration`.
#[verifier::external_body]
fn duration_nanos(duration: &Duration) -> (r: u128) {
    duration.as_nanos()
}

/// Relies on `Instant::checked_add`: `instant` moved later by `duration`, or
/// `None` where the clock cannot hold the result.
#[verifier::external_body]
fn clock_checked_add(instant: Instant, duration: Duration) -> (r: Option<Instant>) {
    instant.checked_add(duration)
}

#[derive(Clone, Copy, Debug, PartialEq, Eq, Structural)]
pub enum State {
    Stopped,
    Running,
    Paused,
}

/// `x` held to the range of `u128`.
pub open spec fn saturate_u128(x: int) -> int {
    if x > u128::MAX {
        u128::MAX as int
    } else {
        x
    }
}

/// The show time, in nanoseconds, a source reads given how long ago it was
/// started and paused: zero when stopped; the sought time (to the
/// millisecond) plus the time since starting when running; that less the
/// time since pausing, but not below zero, when paused.
pub open spec fn source_nanos(state: State, seek: Option<Time>, since_start: int, since_pause: int) -> int {
    let from_seek = match seek {
        Some(t) => saturate_u128(t.ms() * NANOS_PER_MS + since_start),
        None => since_start,
    };
    match state {
        State::Stopped => 0,
        State::Running => from_seek,
        State::Paused => if from_seek >= since_pause {
            from_seek - since_pause
        } else {
            0
        },
    }
}

/// The show time of a source in `state`, sought to `seek`, started
/// `since_start` and paused `since_pause` nanoseconds ago.
pub fn time_from_clock(state: State, seek: Option<Time>, since_start: u128, since_pause: u128) -> (r: Time)
    ensures
        r.nanoseconds == source_nanos(state, seek, since_start as int, since_pause as int),
{
    let from_seek: u128 = match seek {
        Some(t) => {
            let ms = t.total_milliseconds();
            assert(ms * NANOS_PER_MS <= t.nanoseconds) by (nonlinear_arith)
                requires
                    ms == t.nanoseconds as int / NANOS_PER_MS as int,
            ;
            let base = ms * NANOS_PER_MS;
            if base > u128::MAX - since_start {
                u128::MAX
            } else {
                base + since_start
            }
        },
        None => since_start,
    };
    match state {
        State::Stopped => Time::new(0),
        State::Running => Time::new(from_seek),
        State::Paused => {
            if from_seek >= since_pause {
                Time::new(from_seek - since_pause)
            } else {
                Time::new(0)
            }
        },
    }
}

#[derive(Clone, Copy, Debug)]
pub struct Source {
    pub start_time: Option<Instant>,
    pub pause_time: Option<Instant>,
    pub seek_time: Option<Time>,
    pub frame_rate: FrameRate,
    pub state: State,
}

impl Source {
    pub fn new(frame_rate: FrameRate) -> (r: Source)
        ensures
            r.state == State::Stopped,
            r.frame_rate == frame_rate,
            r.seek_time.is_none(),
            r.start_time.is_none(),
            r.pause_time.is_none(),
    {
        Source { start_time: None, pause_time: None, seek_time: None, frame_rate, state: State::Stopped }
    }

    /// The nanoseconds since `instant` was read, or zero when there is none.
    fn since(instant: &Option<Instant>) -> (r: u128)
        ensures
            instant.is_none() ==> r == 0,
    {
        match instant {
            Some(i) => {
                let elapsed = clock_elapsed(i);
                duration_nanos(&elapsed)
            },
            None => 0,
        }
    }

    /// The show time now (see `source_nanos`), from fresh clock readings.
    pub fn time(&self) -> (r: Time)
        ensures
            self.state == State::Stopped ==> r.nanoseconds == 0,
            exists|since_start: u128, since_pause: u128|
                r.nanoseconds == source_nanos(
                    self.state,
                    self.seek_time,
                    since_start as int,
                    since_pause as int,
                ),
    {
        let since_start = Self::since(&self.start_time);
        let since_pause = match self.state {
            State::Paused => Self::since(&self.pause_time),
            _ => 0,
        };
        time_from_clock(self.state, self.seek_time, since_start, since_pause)
    }

    /// The time since the source was started, counted on from the sought time.
    pub fn duration_from_seek(&self) -> (r: Time)
        ensures
            exists|since_start: u128|
                r.nanoseconds == source_nanos(State::Running, self.seek_time, since_start as int, 0),
    {
        let since_start = Self::since(&self.start_time);
        time_from_clock(State::Running, self.seek_time, since_start, 0)
    }

    /// Starts the clock now.
    pub fn start(&mut self)
        ensures
            final(self).state == State::Running,
            final(self).start_time.is_some(),
            final(self).pause_time == old(self).pause_time,
            final(self).seek_time == old(self).seek_time,
            final(self).frame_rate == old(self).frame_rate,
    {
        self.start_time = Some(clock_now());
        self.state = State::Running;
    }

    /// Starts the clock as if it had been started at `time`.
    pub fn start_at_time(&mut self, time: Instant)
        ensures
            final(self).state == State::Running,
            final(self).start_time == Some(time),
            final(self).pause_time == old(self).pause_time,
            final(self).seek_time == old(self).seek_time,
            final(self).frame_rate == old(self).frame_rate,
    {
        self.start_time = Some(time);
        self.state = State::Running;
    }

    /// Pauses the clock now.
    pub fn pause(&mut self)
        ensures
            final(self).state == State::Paused,
            final(self).pause_time.is_some(),
            final(self).start_time == old(self).start_time,
            final(self).seek_time == old(self).seek_time,
            final(self).frame_rate == old(self).frame_rate,
    {
        self.pause_time = Some(clock_now());
        self.state = State::Paused;
    }

    /// Runs a paused clock on from where it was paused: the start moves later
    /// by the time spent paused. Nothing changes unless it is paused.
    pub fn resume(&mut self)
        ensures
            final(self).seek_time == old(self).seek_time,
            final(self).frame_rate == old(self).frame_rate,
            old(self).state != State::Paused ==> *final(self) == *old(self),
            old(self).state == State::Paused && old(self).pause_time.is_some() ==> final(self).state
                == State::Running && final(self).pause_time.is_none(),
    {
        if self.state != State::Paused {
            return;
        }
        match self.pause_time {
            Some(pause_time) => {
                match self.start_time {
                    Some(start_time) => {
                        let paused_for = clock_elapsed(&pause_time);
                        match clock_checked_add(start_time, paused_for) {
                            Some(later) => {
                                self.start_time = Some(later);
                            },
                            None => {},
                        }
                    },
                    None => {},
                }
                self.pause_time = None;
                self.state = State::Running;
            },
            None => {},
        }
    }

    /// Stops the clock: it reads zero until started again.
    pub fn stop(&mut self)
        ensures
            final(self).state == State::Stopped,
            final(self).start_time.is_none(),
            final(self).pause_time.is_none(),
            final(self).seek_time == old(self).seek_time,
            final(self).frame_rate == old(self).frame_rate,
    {
        self.start_time = None;
        self.pause_time = None;
        self.state = State::Stopped;
    }

    /// Moves the clock to `time`; a paused clock stays paused there.
    pub fn seek(&mut self, time: Time)
        ensures
            final(self).seek_time == Some(time),
            final(self).state == old(self).state,
            final(self).frame_rate == old(self).frame_rate,
            final(self).start_time.is_some(),
            old(self).state == State::Paused ==> final(self).pause_time.is_some()
                && final(self).pause_time == final(self).start_time,
            old(self).state != State::Paused ==> final(self).pause_time == old(self).pause_time,
    {
        self.seek_time = Some(time);
        let now = clock_now();
        match self.state {
            State::Paused => {
                self.start_time = Some(now);
                self.pause_time = Some(now);
            },
            _ => {
                self.start_time = Some(now);
            },
        }
    }

    pub fn fps(&self) -> (r: FrameRate)
        ensures
            r == self.frame_rate,
    {
        self.frame_rate
    }

    pub fn paused(&self) -> (r: bool)
        ensures
            r == (self.state == State::Paused),
    {
        self.state == State::Paused
    }
}

} // verus!

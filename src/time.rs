//! Show time: a nanosecond count since the start of the show, compared at
//! millisecond resolution.
use vstd::prelude::*;
use vstd::string::StringExecFns;

verus! {

pub const NANOS_PER_MS: u128 = 1_000_000;

pub const NANOS_PER_SECOND: u128 = 1_000_000_000;

pub const NANOS_PER_MINUTE: u128 = 60_000_000_000;

pub const NANOS_PER_HOUR: u128 = 3_600_000_000_000;

/// The frame rates a timecode can be displayed at.
#[derive(Clone, Copy, Debug, PartialEq, Eq, Structural)]
pub enum FrameRate {
    TwentyFour,
    TwentFive,
    Thirty,
}

impl FrameRate {
    pub open spec fn spec_fps(self) -> int {
        match self {
            FrameRate::TwentyFour => 24,
            FrameRate::TwentFive => 25,
            FrameRate::Thirty => 30,
        }
    }

    pub open spec fn spec_nanos_per_frame(self) -> int {
        NANOS_PER_SECOND as int / self.spec_fps()
    }

    pub fn fps(&self) -> (r: u128)
        ensures
            r == self.spec_fps(),
    {
        match self {
            FrameRate::TwentyFour => 24,
            FrameRate::TwentFive => 25,
            FrameRate::Thirty => 30,
        }
    }

    pub fn nanos_per_frame(&self) -> (r: u128)
        ensures
            r == self.spec_nanos_per_frame(),
            r > 0,
    {
        NANOS_PER_SECOND / self.fps()
    }
}

/// The decimal digit `d`, for `d < 10`.
pub open spec fn digit(d: nat) -> char {
    if d == 0 {
        '0'
    } else if d == 1 {
        '1'
    } else if d == 2 {
        '2'
    } else if d == 3 {
        '3'
    } else if d == 4 {
        '4'
    } else if d == 5 {
        '5'
    } else if d == 6 {
        '6'
    } else if d == 7 {
        '7'
    } else if d == 8 {
        '8'
    } else {
        '9'
    }
}

/// `n` written in decimal, without leading zeros.
pub open spec fn decimal(n: nat) -> Seq<char>
    decreases n,
{
    if n < 10 {
        seq![digit(n)]
    } else {
        decimal(n / 10) + seq![digit(n % 10)]
    }
}

/// The label `h:m:s:f @<fps>fps`, each number in decimal.
pub open spec fn timecode_label(hours: nat, minutes: nat, seconds: nat, frames: nat, fps: nat) -> Seq<
    char,
> {
    decimal(hours) + seq![':'] + decimal(minutes) + seq![':'] + decimal(seconds) + seq![':']
        + decimal(frames) + seq![' ', '@'] + decimal(fps) + seq!['f', 'p', 's']
}

/// Appends `n` in decimal to `out`.
fn push_decimal(out: &mut String, n: u128)
    ensures
        final(out)@ == old(out)@ + decimal(n as nat),
    decreases n,
{
    if n >= 10 {
        push_decimal(out, n / 10);
    }
    let d = n % 10;
    proof {
        reveal_strlit("0");
        reveal_strlit("1");
        reveal_strlit("2");
        reveal_strlit("3");
        reveal_strlit("4");
        reveal_strlit("5");
        reveal_strlit("6");
        reveal_strlit("7");
        reveal_strlit("8");
        reveal_strlit("9");
    }
    if d == 0 {
        out.append("0");
    } else if d == 1 {
        out.append("1");
    } else if d == 2 {
        out.append("2");
    } else if d == 3 {
        out.append("3");
    } else if d == 4 {
        out.append("4");
    } else if d == 5 {
        out.append("5");
    } else if d == 6 {
        out.append("6");
    } else if d == 7 {
        out.append("7");
    } else if d == 8 {
        out.append("8");
    } else {
        out.append("9");
    }
    proof {
        assert(seq![digit(d as nat)] =~= seq![digit((n as nat) % 10)]);
        if n >= 10 {
            assert(old(out)@ + decimal((n / 10) as nat) + seq![digit((n as nat) % 10)] =~= old(out)@
                + decimal(n as nat));
        } else {
            assert(old(out)@ + seq![digit(n as nat)] =~= old(out)@ + decimal(n as nat));
        }
    }
}

/// A point on the show's timeline (or a span of time), in nanoseconds.
///
/// Two times are the same when they agree to the millisecond.
#[derive(Clone, Copy, Debug)]
pub struct Time {
    pub nanoseconds: u128,
}

/// The nanosecond count of `h:m:s.ms`.
pub open spec fn nanos_at(hours: int, minutes: int, seconds: int, milliseconds: int) -> int {
    hours * NANOS_PER_HOUR + minutes * NANOS_PER_MINUTE + seconds * NANOS_PER_SECOND
        + milliseconds * NANOS_PER_MS
}

impl Time {
    /// The whole milliseconds in this time: the resolution at which times
    /// are compared.
    pub open spec fn ms(self) -> int {
        self.nanoseconds as int / NANOS_PER_MS as int
    }

    pub fn new(nanoseconds: u128) -> (r: Time)
        ensures
            r.nanoseconds == nanoseconds,
    {
        Time { nanoseconds }
    }

    /// The time `hours:minutes:seconds.milliseconds`.
    pub fn at(hours: u128, minutes: u128, seconds: u128, milliseconds: u128) -> (r: Time)
        requires
            nanos_at(hours as int, minutes as int, seconds as int, milliseconds as int)
                <= u128::MAX,
        ensures
            r.nanoseconds == nanos_at(
                hours as int,
                minutes as int,
                seconds as int,
                milliseconds as int,
            ),
    {
        proof {
            assert(hours * NANOS_PER_HOUR <= nanos_at(
                hours as int,
                minutes as int,
                seconds as int,
                milliseconds as int,
            )) by (nonlinear_arith)
                requires
                    minutes >= 0,
                    seconds >= 0,
                    milliseconds >= 0,
            ;
            assert(minutes * NANOS_PER_MINUTE <= nanos_at(
                hours as int,
                minutes as int,
                seconds as int,
                milliseconds as int,
            )) by (nonlinear_arith)
                requires
                    hours >= 0,
                    seconds >= 0,
                    milliseconds >= 0,
            ;
            assert(seconds * NANOS_PER_SECOND <= nanos_at(
                hours as int,
                minutes as int,
                seconds as int,
                milliseconds as int,
            )) by (nonlinear_arith)
                requires
                    hours >= 0,
                    minutes >= 0,
                    milliseconds >= 0,
            ;
            assert(milliseconds * NANOS_PER_MS <= nanos_at(
                hours as int,
                minutes as int,
                seconds as int,
                milliseconds as int,
            )) by (nonlinear_arith)
                requires
                    hours >= 0,
                    minutes >= 0,
                    seconds >= 0,
            ;
        }
        let mut nanoseconds: u128 = hours * NANOS_PER_HOUR;
        nanoseconds = nanoseconds + minutes * NANOS_PER_MINUTE;
        nanoseconds = nanoseconds + seconds * NANOS_PER_SECOND;
        nanoseconds = nanoseconds + milliseconds * NANOS_PER_MS;
        Time { nanoseconds }
    }

    pub fn is_zero(&self) -> (r: bool)
        ensures
            r == (self.ms() == 0),
    {
        self.nanoseconds / NANOS_PER_MS == 0
    }

    /// The frame within the current second at the given frame rate.
    pub fn frames(&self, frame_rate: FrameRate) -> (r: u8)
        ensures
            r == (self.nanoseconds as int / frame_rate.spec_nanos_per_frame())
                % frame_rate.spec_fps(),
    {
        let r = self.nanoseconds / frame_rate.nanos_per_frame() % frame_rate.fps();
        r as u8
    }

    /// The millisecond within the current second.
    pub fn milliseconds(&self) -> (r: u16)
        ensures
            r == (self.nanoseconds as int / NANOS_PER_MS as int) % 1000,
    {
        ((self.nanoseconds / NANOS_PER_MS) % 1000) as u16
    }

    /// The second within the current minute.
    pub fn seconds(&self) -> (r: u8)
        ensures
            r == (self.nanoseconds as int / NANOS_PER_SECOND as int) % 60,
    {
        ((self.nanoseconds / NANOS_PER_SECOND) % 60) as u8
    }

    /// The minute within the current hour.
    pub fn minutes(&self) -> (r: u8)
        ensures
            r == (self.nanoseconds as int / NANOS_PER_MINUTE as int) % 60,
    {
        ((self.nanoseconds / NANOS_PER_MINUTE) % 60) as u8
    }

    /// The whole hours.
    pub fn hours(&self) -> (r: u64)
        requires
            self.nanoseconds / NANOS_PER_HOUR <= u64::MAX,
        ensures
            r == self.nanoseconds as int / NANOS_PER_HOUR as int,
    {
        (self.nanoseconds / NANOS_PER_HOUR) as u64
    }

    /// The timecode label `h:m:s:f @<fps>fps` at `frame_rate`.
    pub fn tc_string(&self, frame_rate: FrameRate) -> (r: String)
        requires
            self.nanoseconds / NANOS_PER_HOUR <= u64::MAX,
        ensures
            r@ == timecode_label(
                (self.nanoseconds as int / NANOS_PER_HOUR as int) as nat,
                ((self.nanoseconds as int / NANOS_PER_MINUTE as int) % 60) as nat,
                ((self.nanoseconds as int / NANOS_PER_SECOND as int) % 60) as nat,
                ((self.nanoseconds as int / frame_rate.spec_nanos_per_frame())
                    % frame_rate.spec_fps()) as nat,
                frame_rate.spec_fps() as nat,
            ),
    {
        let mut out = String::new();
        proof {
            reveal_strlit(":");
            reveal_strlit(" @");
            reveal_strlit("fps");
        }
        push_decimal(&mut out, self.hours() as u128);
        out.append(":");
        push_decimal(&mut out, self.minutes() as u128);
        out.append(":");
        push_decimal(&mut out, self.seconds() as u128);
        out.append(":");
        push_decimal(&mut out, self.frames(frame_rate) as u128);
        out.append(" @");
        push_decimal(&mut out, frame_rate.fps());
        out.append("fps");
        proof {
            assert(out@ =~= timecode_label(
                (self.nanoseconds as int / NANOS_PER_HOUR as int) as nat,
                ((self.nanoseconds as int / NANOS_PER_MINUTE as int) % 60) as nat,
                ((self.nanoseconds as int / NANOS_PER_SECOND as int) % 60) as nat,
                ((self.nanoseconds as int / frame_rate.spec_nanos_per_frame())
                    % frame_rate.spec_fps()) as nat,
                frame_rate.spec_fps() as nat,
            ));
        }
        out
    }

    /// The whole milliseconds since zero.
    pub fn total_milliseconds(&self) -> (r: u128)
        ensures
            r == self.ms(),
    {
        self.nanoseconds / NANOS_PER_MS
    }

    /// This time moved later by `offset`.
    pub fn plus(&self, offset: Time) -> (r: Time)
        requires
            self.nanoseconds + offset.nanoseconds <= u128::MAX,
        ensures
            r.nanoseconds == self.nanoseconds + offset.nanoseconds,
    {
        Time { nanoseconds: self.nanoseconds + offset.nanoseconds }
    }

    /// The span from `earlier` to this time, or zero when `earlier` is later.
    pub fn since(&self, earlier: Time) -> (r: Time)
        ensures
            r.nanoseconds == if self.nanoseconds >= earlier.nanoseconds {
                self.nanoseconds - earlier.nanoseconds
            } else {
                0
            },
    {
        if self.nanoseconds >= earlier.nanoseconds {
            Time { nanoseconds: self.nanoseconds - earlier.nanoseconds }
        } else {
            Time { nanoseconds: 0 }
        }
    }

    /// Whether this time is before `other`, to the millisecond.
    pub fn is_before(&self, other: &Time) -> (r: bool)
        ensures
            r == (self.ms() < other.ms()),
    {
        self.total_milliseconds() < other.total_milliseconds()
    }

    /// Whether this time is at or before `other`, to the millisecond.
    pub fn is_at_or_before(&self, other: &Time) -> (r: bool)
        ensures
            r == (self.ms() <= other.ms()),
    {
        self.total_milliseconds() <= other.total_milliseconds()
    }

    /// Whether the two times agree to the millisecond.
    pub fn same_as(&self, other: &Time) -> (r: bool)
        ensures
            r == (self.ms() == other.ms()),
    {
        self.total_milliseconds() == other.total_milliseconds()
    }
}

impl PartialEq for Time {
    fn eq(&self, other: &Time) -> (r: bool)
        ensures
            r == (self.ms() == other.ms()),
    {
        self.same_as(other)
    }
}

impl vstd::std_specs::cmp::PartialEqSpecImpl for Time {
    open spec fn obeys_eq_spec() -> bool {
        true
    }

    open spec fn eq_spec(&self, other: &Time) -> bool {
        self.ms() == other.ms()
    }
}

} // verus!

use lumen::time::{FrameRate, Time};

fn assert_correct_time(time: &Time, h: u64, m: u8, s: u8, ms: u16) {
    assert_eq!(time.hours(), h);
    assert_eq!(time.minutes(), m);
    assert_eq!(time.seconds(), s);
    assert_eq!(time.milliseconds(), ms);
}

#[test]
fn half_a_second() {
    let time = Time::at(0, 0, 0, 500);
    assert_correct_time(&time, 0, 0, 0, 500);
}

#[test]
fn ten_and_a_third_seconds() {
    let time = Time::at(0, 0, 10, 10);
    assert_correct_time(&time, 0, 0, 10, 10);
}

#[test]
fn three_minutes_eight_seconds_six_milliseconds() {
    let time = Time::at(0, 3, 8, 6);
    assert_correct_time(&time, 0, 3, 8, 6);
}

#[test]
fn nine_hours_twenty_minutes_eighteen_seconds_twentythree_milliseconds() {
    let time = Time::at(9, 20, 18, 23);
    assert_correct_time(&time, 9, 20, 18, 23);
}

#[test]
fn frames_count_within_the_second() {
    let time = Time::at(1, 2, 8, 500);
    assert_eq!(time.frames(FrameRate::Thirty), 15);
    assert_eq!(time.frames(FrameRate::TwentyFour), 12);
    assert_eq!(time.frames(FrameRate::TwentFive), 12);
}

#[test]
fn times_compare_to_the_millisecond() {
    let a = Time::new(1_000_000);
    let b = Time::new(1_999_999);
    let c = Time::new(2_000_000);
    assert!(a == b);
    assert!(a != c);
    assert!(a.is_before(&c));
    assert!(!a.is_before(&b));
    assert!(a.is_at_or_before(&b));
    assert_eq!(c.total_milliseconds(), 2);
}

#[test]
fn frame_rate_figures() {
    assert_eq!(FrameRate::Thirty.fps(), 30);
    assert_eq!(FrameRate::TwentyFour.nanos_per_frame(), 41_666_666);
    assert_eq!(FrameRate::TwentFive.nanos_per_frame(), 40_000_000);
}

#[test]
fn timecode_label() {
    let time = Time::at(1, 2, 8, 500);
    assert_eq!(time.tc_string(FrameRate::Thirty), "1:2:8:15 @30fps");
    assert_eq!(Time::at(0, 0, 0, 0).tc_string(FrameRate::TwentFive), "0:0:0:0 @25fps");
    assert_eq!(Time::at(12, 34, 56, 0).tc_string(FrameRate::TwentyFour), "12:34:56:0 @24fps");
}

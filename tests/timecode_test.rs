use lumen::time::{FrameRate, Time};
use lumen::timecode::{time_from_clock, Source, State};
use std::time::{Duration, Instant};

fn assert_correct_frames(time: &Time, h: u64, m: u8, s: u8, f: u8) {
    assert_eq!(time.hours(), h);
    assert_eq!(time.minutes(), m);
    assert_eq!(time.seconds(), s);
    assert_eq!(time.frames(FrameRate::Thirty), f);
}

#[test]
fn new_source_starts_at_zero() {
    let source = Source::new(FrameRate::Thirty);
    let time = source.time();
    assert_correct_frames(&time, 0, 0, 0, 0);
}

#[test]
fn returns_elapsed_time_once_started() {
    let mut source = Source::new(FrameRate::Thirty);
    let start = Instant::now() - Duration::new(3, 0);

    source.start_at_time(start);

    let time = source.time();
    assert_correct_frames(&time, 0, 0, 3, 0);
}

#[test]
fn stopped_source_reads_zero() {
    let mut source = Source::new(FrameRate::Thirty);
    source.start_at_time(Instant::now() - Duration::new(2, 0));
    source.stop();
    assert_eq!(source.time().nanoseconds, 0);
    assert!(!source.paused());
    assert_eq!(source.fps(), FrameRate::Thirty);
}

#[test]
fn clock_arithmetic() {
    let seek = Time::at(0, 0, 3, 0);
    assert_eq!(time_from_clock(State::Stopped, Some(seek), 5, 1).nanoseconds, 0);
    assert_eq!(time_from_clock(State::Running, None, 500, 0).nanoseconds, 500);
    assert_eq!(
        time_from_clock(State::Running, Some(seek), 500, 0).nanoseconds,
        3_000_000_500
    );
    assert_eq!(
        time_from_clock(State::Paused, Some(seek), 500, 200).nanoseconds,
        3_000_000_300
    );
    assert_eq!(time_from_clock(State::Paused, None, 100, 200).nanoseconds, 0);
    assert_eq!(
        time_from_clock(State::Running, Some(Time::new(1_999_999)), 0, 0).nanoseconds,
        1_000_000
    );
}

#[test]
fn seek_while_paused_stays_paused() {
    let mut source = Source::new(FrameRate::Thirty);
    source.start();
    source.pause();
    source.seek(Time::at(1, 2, 8, 500));
    assert!(source.paused());
    let time = source.time();
    assert_eq!(time.hours(), 1);
    assert_eq!(time.minutes(), 2);
    assert_eq!(time.seconds(), 8);
    source.resume();
    assert!(!source.paused());
}

fn wait(nanos: u32) {
    let start = Instant::now();
    while start.elapsed() < Duration::new(0, nanos) {}
}

#[test]
fn pausing_a_source() {
    let mut source = Source::new(FrameRate::Thirty);
    source.start();
    let time_before_pause = source.time();
    source.pause();
    wait(100_000_000);
    let time_during_pause = source.time();
    source.resume();
    wait(100_000_000);
    let time_after_pause = source.time();

    assert_eq!(time_before_pause, time_during_pause);
    assert_ne!(time_during_pause, time_after_pause);
}

#[test]
fn pausing_multiple_times() {
    let mut source = Source::new(FrameRate::Thirty);
    source.start();
    wait(100_000_000);
    source.pause();
    wait(100_000_000);
    source.resume();
    wait(100_000_000);
    source.pause();
    wait(100_000_000);

    let time = source.time();
    assert_correct_frames(&time, 0, 0, 0, 6);
}

#[test]
fn stop() {
    let mut source = Source::new(FrameRate::Thirty);
    source.start();
    wait(50_000_000);
    source.stop();

    let time = source.time();
    assert_correct_frames(&time, 0, 0, 0, 0);
}

#[test]
fn seek_while_running() {
    let mut source = Source::new(FrameRate::Thirty);
    source.start();
    wait(50_000_000);
    source.seek(Time::at(0, 0, 3, 0));
    let time = source.time();
    assert_correct_frames(&time, 0, 0, 3, 0);
}

#[test]
fn seek_while_paused() {
    let mut source = Source::new(FrameRate::Thirty);
    source.start();
    source.pause();
    source.seek(Time::at(1, 2, 8, 500));
    wait(100_000_000);
    let time = source.time();
    assert_eq!(time.hours(), 1);
    assert_eq!(time.minutes(), 2);
    assert_eq!(time.seconds(), 8);
    assert_eq!(time.milliseconds(), 499);
}

#[test]
fn seek_while_paused_takes_one_clock_reading() {
    let mut source = Source::new(FrameRate::Thirty);
    source.start();
    source.pause();
    source.seek(Time::at(0, 0, 5, 0));
    assert!(source.start_time.is_some());
    assert_eq!(source.start_time, source.pause_time);
}

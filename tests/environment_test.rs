use lumen::action::{Action, Apply, ApplyGroup};
use lumen::address::Address;
use lumen::environment::Environment;
use lumen::fixture::FixtureID;
use lumen::generator::{CurrentValue, Fade, Generator, Static};
use lumen::parameter::{Param, Parameter};
use lumen::patch::{FixtureProfile, Patch};
use lumen::query::QueryBuilder;
use lumen::time::Time;
use lumen::track::Track;
use lumen::value::Values;

fn intensity_profile() -> FixtureProfile {
    let mut profile = FixtureProfile::new();
    profile.set_parameter(Param::Intensity, Parameter::new(0, 0, 100));
    profile
}

fn build_environment(n_fixtures: usize) -> Environment {
    let mut environment = Environment::new();
    for n in 1..=n_fixtures {
        environment.fixtures.create_with_id(n);
    }
    environment
}

fn build_patch(profile: &FixtureProfile, n_fixtures: usize) -> Patch<'_> {
    let mut patch = Patch::new();
    for n in 1..=n_fixtures {
        patch.patch(n, Address::new(1, n as u16), profile);
    }
    patch
}

fn action(value: i32) -> Action {
    let mut action = Action::new();
    let query = QueryBuilder::new().all().build();
    let value = Static::new(Values::make_literal(value));
    let apply = Apply::new(Param::Intensity, Generator::Static(value));
    let mut apply_group = ApplyGroup::new(query);
    apply_group.add_apply(apply);
    action.add_group(apply_group);
    action
}

fn action_for(value: i32, id: FixtureID) -> Action {
    let mut action = Action::new();
    let query = QueryBuilder::new().id(id).build();
    let value = Static::new(Values::make_literal(value));
    let apply = Apply::new(Param::Intensity, Generator::Static(value));
    let mut apply_group = ApplyGroup::new(query);
    apply_group.add_apply(apply);
    action.add_group(apply_group);
    action
}

fn intensity(environment: &Environment, id: FixtureID) -> Option<Values> {
    environment.fixtures.get(&id).unwrap().param(Param::Intensity).map(|g| g.value())
}

fn t(seconds: u128) -> Time {
    Time::at(0, 0, seconds, 0)
}

#[test]
fn one_action_at_t1_generates_one_history() {
    let profile = intensity_profile();
    let patch = build_patch(&profile, 1);
    let mut environment = build_environment(1);
    let mut track = Track::new();
    track.add_action(t(1), action(10));
    environment.add_track(track);

    environment.run_to_time(t(1), &patch);

    assert_eq!(environment.history.len(), 1);
    assert_eq!(intensity(&environment, 1), Some(Values::make_literal(10)));
}

#[test]
fn one_action_then_a_later_run_adds_no_history() {
    let profile = intensity_profile();
    let patch = build_patch(&profile, 1);
    let mut environment = build_environment(1);
    let mut track = Track::new();
    track.add_action(t(1), action(10));
    environment.add_track(track);

    environment.run_to_time(t(1), &patch);
    environment.run_to_time(t(2), &patch);

    assert_eq!(environment.history.len(), 1);
}

#[test]
fn two_action_at_t1_generates_one_history() {
    let profile = intensity_profile();
    let patch = build_patch(&profile, 1);
    let mut environment = build_environment(1);
    let mut track = Track::new();
    track.add_action(t(1), action(10));
    track.add_action(t(1), action(20));
    environment.add_track(track);

    environment.run_to_time(t(1), &patch);

    assert_eq!(environment.history.len(), 1);
    assert_eq!(intensity(&environment, 1), Some(Values::make_literal(20)));
}

#[test]
fn two_action_at_t1_and_two_action_at_t2_generates_two_history() {
    let profile = intensity_profile();
    let patch = build_patch(&profile, 1);
    let mut environment = build_environment(1);
    let mut track = Track::new();
    track.add_action(t(1), action(10));
    track.add_action(t(1), action(20));
    track.add_action(t(2), action(30));
    track.add_action(t(2), action(40));
    environment.add_track(track);

    environment.run_to_time(t(2), &patch);

    assert_eq!(environment.history.len(), 2);
    assert_eq!(intensity(&environment, 1), Some(Values::make_literal(40)));
}

#[test]
fn one_action_at_t1_the_one_action_at_t2_generates_two_history() {
    let profile = intensity_profile();
    let patch = build_patch(&profile, 1);
    let mut environment = build_environment(1);
    let mut track = Track::new();
    track.add_action(t(1), action(10));
    track.add_action(t(2), action(20));
    environment.add_track(track);

    environment.run_to_time(t(1), &patch);
    environment.run_to_time(t(2), &patch);

    assert_eq!(environment.history.len(), 2);
    assert_eq!(intensity(&environment, 1), Some(Values::make_literal(20)));
}

#[test]
fn one_action_at_t1_go_back_to_start_initial_state_restored() {
    let profile = intensity_profile();
    let patch = build_patch(&profile, 1);
    let mut environment = build_environment(1);
    let mut track = Track::new();
    track.add_action(t(1), action(10));
    environment.add_track(track);

    environment.run_to_time(t(1), &patch);
    environment.run_to_time(t(0), &patch);

    assert_eq!(environment.history.len(), 0);
    assert!(intensity(&environment, 1).is_none());
}

#[test]
fn one_action_at_t1_one_at_t3_go_back_t2_and_check_state_is_h1() {
    let profile = intensity_profile();
    let patch = build_patch(&profile, 1);
    let mut environment = build_environment(1);
    let mut track = Track::new();
    track.add_action(t(1), action(10));
    track.add_action(t(3), action(30));
    environment.add_track(track);

    environment.run_to_time(t(3), &patch);
    environment.run_to_time(t(2), &patch);

    assert_eq!(environment.history.len(), 1);
    assert_eq!(intensity(&environment, 1), Some(Values::make_literal(10)));
    let stack = environment.fixtures.get(&1).unwrap().get_parameter(Param::Intensity).unwrap();
    assert_eq!(stack.len(), 1);
}

#[test]
fn one_action_at_t0_one_action_at_t1_go_back_to_t0_and_no_h2_remains() {
    let profile = intensity_profile();
    let patch = build_patch(&profile, 2);
    let mut environment = build_environment(2);
    let mut track = Track::new();
    track.add_action(t(0), action(10));
    track.add_action(t(1), action_for(20, 2));
    environment.add_track(track);

    environment.run_to_time(t(1), &patch);
    environment.run_to_time(t(0), &patch);

    assert_eq!(environment.history.len(), 1);
    assert_eq!(intensity(&environment, 2), Some(Values::make_literal(10)));
}

#[test]
fn two_track_with_one_action_at_t1_create_one_history() {
    let profile = intensity_profile();
    let patch = build_patch(&profile, 1);
    let mut environment = build_environment(1);
    let mut track1 = Track::new();
    let mut track2 = Track::new();
    track1.add_action(t(1), action(10));
    track2.add_action(t(1), action(20));
    environment.add_track(track1);
    environment.add_track(track2);

    environment.run_to_time(t(1), &patch);

    assert_eq!(environment.history.len(), 1);
    assert_eq!(intensity(&environment, 1), Some(Values::make_literal(20)));
}

#[test]
fn two_track_with_two_actions_at_t1_create_one_history() {
    let profile = intensity_profile();
    let patch = build_patch(&profile, 1);
    let mut environment = build_environment(1);
    let mut track1 = Track::new();
    let mut track2 = Track::new();
    track1.add_action(t(1), action(10));
    track1.add_action(t(1), action(20));
    track2.add_action(t(1), action(30));
    track2.add_action(t(1), action(40));
    environment.add_track(track1);
    environment.add_track(track2);

    environment.run_to_time(t(1), &patch);

    assert_eq!(environment.history.len(), 1);
}

#[test]
fn two_track_with_two_actions_at_t1_and_two_actions_at_t2_create_two_history() {
    let profile = intensity_profile();
    let patch = build_patch(&profile, 1);
    let mut environment = build_environment(1);
    let mut track1 = Track::new();
    let mut track2 = Track::new();
    track1.add_action(t(1), action(10));
    track1.add_action(t(1), action(20));
    track2.add_action(t(1), action(30));
    track2.add_action(t(1), action(40));
    track1.add_action(t(2), action(10));
    track1.add_action(t(2), action(20));
    track2.add_action(t(2), action(30));
    track2.add_action(t(2), action(40));
    environment.add_track(track1);
    environment.add_track(track2);

    environment.run_to_time(t(2), &patch);

    assert_eq!(environment.history.len(), 2);
}

#[test]
fn two_track_with_two_actions_to_t1_and_two_actions_to_t2_create_two_history() {
    let profile = intensity_profile();
    let patch = build_patch(&profile, 1);
    let mut environment = build_environment(1);
    let mut track1 = Track::new();
    let mut track2 = Track::new();
    track1.add_action(t(1), action(10));
    track1.add_action(t(1), action(20));
    track2.add_action(t(1), action(30));
    track2.add_action(t(1), action(40));
    track1.add_action(t(2), action(10));
    track1.add_action(t(2), action(20));
    track2.add_action(t(2), action(30));
    track2.add_action(t(2), action(40));
    environment.add_track(track1);
    environment.add_track(track2);

    environment.run_to_time(t(1), &patch);
    environment.run_to_time(t(2), &patch);

    assert_eq!(environment.history.len(), 2);
}

#[test]
fn two_tracks_one_action_at_t1_go_to_end_and_then_return_to_start() {
    let profile = intensity_profile();
    let patch = build_patch(&profile, 1);
    let mut environment = build_environment(1);
    let mut track1 = Track::new();
    let mut track2 = Track::new();
    track1.add_action(t(1), action(10));
    track2.add_action(t(1), action(20));
    environment.add_track(track1);
    environment.add_track(track2);

    environment.run_to_time(t(1), &patch);
    environment.run_to_time(t(0), &patch);

    assert!(intensity(&environment, 1).is_none());
}

#[test]
fn two_tracks_with_actions_at_t1_and_t3_return_to_t2() {
    let profile = intensity_profile();
    let patch = build_patch(&profile, 1);
    let mut environment = build_environment(1);
    let mut track1 = Track::new();
    let mut track2 = Track::new();
    track1.add_action(t(1), action(10));
    track1.add_action(t(1), action(10));
    track2.add_action(t(1), action(20));
    track2.add_action(t(1), action(20));
    track1.add_action(t(3), action(30));
    track1.add_action(t(3), action(30));
    track2.add_action(t(3), action(40));
    track2.add_action(t(3), action(40));
    environment.add_track(track1);
    environment.add_track(track2);

    environment.run_to_time(t(3), &patch);
    environment.run_to_time(t(2), &patch);

    assert_eq!(intensity(&environment, 1), Some(Values::make_literal(20)));
}

#[test]
fn multiple_actions_lots_of_actions() {
    let profile = intensity_profile();
    let patch = build_patch(&profile, 1);
    let mut environment = build_environment(1);
    let mut track1 = Track::new();
    let mut track2 = Track::new();
    let mut track3 = Track::new();

    track1.add_action(t(1), action(10));

    track1.add_action(t(2), action(20));
    track2.add_action(t(2), action(20));
    track3.add_action(t(2), action(20));

    track1.add_action(t(3), action(30));
    track2.add_action(t(3), action(30));

    track1.add_action(t(4), action(40));
    track3.add_action(t(4), action(40));

    track1.add_action(t(5), action(50));

    track3.add_action(t(6), action(60));

    environment.add_track(track1);
    environment.add_track(track2);
    environment.add_track(track3);

    environment.run_to_time(t(6), &patch);
    environment.run_to_time(Time::at(0, 0, 3, 500), &patch);

    assert_eq!(intensity(&environment, 1), Some(Values::make_literal(30)));
    assert_eq!(environment.history.len(), 3);
}

#[test]
fn two_tracks_two_directions() {
    let profile = intensity_profile();
    let patch = build_patch(&profile, 1);
    let mut environment = build_environment(1);
    let mut track1 = Track::new();
    let mut track2 = Track::new();
    track1.add_action(t(1), action(10));
    track2.add_action(t(1), action(20));
    track1.add_action(t(3), action(30));
    track2.add_action(t(3), action(40));
    environment.add_track(track1);
    environment.add_track(track2);

    environment.run_to_time(t(3), &patch);
    environment.run_to_time(t(2), &patch);
    environment.run_to_time(t(3), &patch);
    environment.run_to_time(t(1), &patch);
    environment.run_to_time(t(3), &patch);

    assert_eq!(environment.history.len(), 2);
    assert_eq!(intensity(&environment, 1), Some(Values::make_literal(40)));
}

fn fading_action() -> Action {
    let mut action = Action::new();
    let query = QueryBuilder::new().all().build();
    let value = Fade::new(
        Generator::Static(Static::new(Values::make_literal(0))),
        Generator::Static(Static::new(Values::make_literal(100))),
        Time::at(0, 0, 4, 0),
    );
    let apply = Apply::new(Param::Intensity, Generator::Fade(value));
    let mut apply_group = ApplyGroup::new(query);
    apply_group.add_apply(apply);
    action.add_group(apply_group);
    action
}

fn capture_fading_action() -> Action {
    let mut action = Action::new();
    let query = QueryBuilder::new().all().build();
    let value = Fade::new(
        Generator::CurrentValue(CurrentValue::new()),
        Generator::Static(Static::new(Values::make_literal(100))),
        Time::at(0, 0, 4, 0),
    );
    let apply = Apply::new(Param::Intensity, Generator::Fade(value));
    let mut apply_group = ApplyGroup::new(query);
    apply_group.add_apply(apply);
    action.add_group(apply_group);
    action
}

fn capture() -> Action {
    let mut action = Action::new();
    let query = QueryBuilder::new().all().build();
    let apply = Apply::new(Param::Intensity, Generator::CurrentValue(CurrentValue::new()));
    let mut apply_group = ApplyGroup::new(query);
    apply_group.add_apply(apply);
    action.add_group(apply_group);
    action
}

fn resolved_intensity(environment: &mut Environment, time: Time, patch: &Patch) -> Values {
    let resolved = environment.fixtures.resolve(time, patch);
    *resolved.get(&1).unwrap().get_value(&Param::Intensity).unwrap()
}

#[test]
fn current_value_action_resolution_test_simple() {
    let mut environment = Environment::new();
    environment.fixtures.create_with_id(1);
    let dimmer = intensity_profile();
    let mut patch = Patch::new();
    patch.patch(1, Address::new(1, 1), &dimmer);

    let mut track = Track::new();
    track.add_action(t(0), fading_action());
    track.add_action(t(2), capture());
    environment.add_track(track);

    environment.run_to_time(t(4), &patch);

    assert_eq!(resolved_intensity(&mut environment, t(4), &patch), Values::make_literal(50));
}

#[test]
fn multi_fade() {
    let mut environment = Environment::new();
    environment.fixtures.create_with_id(1);
    let dimmer = intensity_profile();
    let mut patch = Patch::new();
    patch.patch(1, Address::new(1, 1), &dimmer);

    let mut track = Track::new();
    track.add_action(t(0), fading_action());
    track.add_action(t(2), capture_fading_action());
    track.add_action(t(4), capture_fading_action());
    environment.add_track(track);

    environment.run_to_time(t(6), &patch);
    environment.run_to_time(t(1), &patch);
    environment.run_to_time(t(3), &patch);
    environment.run_to_time(t(2), &patch);
    environment.run_to_time(t(6), &patch);

    assert_eq!(
        resolved_intensity(&mut environment, t(6), &patch),
        Values::literal_thousandths(87_500)
    );
}

fn fade_show() -> (Environment, FixtureProfile) {
    let mut environment = build_environment(2);
    let mut track1 = Track::new();
    let mut track2 = Track::new();
    track1.add_action(t(1), fading_action());
    track2.add_action(t(2), capture_fading_action());
    track1.add_action(t(3), action_for(70, 2));
    environment.add_track(track1);
    environment.add_track(track2);
    (environment, intensity_profile())
}

#[test]
fn forward_back_forward_matches_a_single_run() {
    let (mut seeking, profile) = fade_show();
    let (mut straight, _) = fade_show();
    let patch = build_patch(&profile, 2);

    seeking.run_to_time(t(3), &patch);
    seeking.run_to_time(t(1), &patch);
    seeking.run_to_time(t(3), &patch);
    straight.run_to_time(t(3), &patch);

    for ms in [3000, 3500, 4000, 6000, 9000] {
        let time = Time::at(0, 0, 0, ms);
        let a = seeking.fixtures.resolve(time, &patch);
        let b = straight.fixtures.resolve(time, &patch);
        for id in [1, 2] {
            assert_eq!(
                a.get(&id).unwrap().get_value(&Param::Intensity),
                b.get(&id).unwrap().get_value(&Param::Intensity)
            );
        }
    }
    assert_eq!(seeking.history.len(), straight.history.len());
}

#[test]
fn back_to_zero_leaves_fixtures_without_generators() {
    let (mut environment, profile) = fade_show();
    let patch = build_patch(&profile, 2);

    environment.run_to_time(t(5), &patch);
    environment.run_to_time(t(0), &patch);

    assert_eq!(environment.history.len(), 0);
    for id in [1, 2] {
        for param in [Param::Intensity, Param::Pan, Param::Red] {
            assert!(environment.fixtures.get(&id).unwrap().get_parameter(param).is_none());
        }
    }
}

#[test]
fn unpatched_fixtures_still_take_actions() {
    let profile = intensity_profile();
    let patch = build_patch(&profile, 1);
    let mut environment = build_environment(2);
    let mut track = Track::new();
    track.add_action(t(1), action(10));
    environment.add_track(track);

    environment.run_to_time(t(1), &patch);

    assert_eq!(intensity(&environment, 2), Some(Values::make_literal(10)));
}

#[test]
fn reset_empties_the_show() {
    let profile = intensity_profile();
    let patch = build_patch(&profile, 1);
    let mut environment = build_environment(1);
    let mut track = Track::new();
    track.add_action(t(1), action(10));
    environment.add_track(track);
    environment.run_to_time(t(1), &patch);

    environment.reset();

    assert_eq!(environment.history.len(), 0);
    assert!(intensity(&environment, 1).is_none());
    environment.run_to_time(t(2), &patch);
    assert!(intensity(&environment, 1).is_none());
}

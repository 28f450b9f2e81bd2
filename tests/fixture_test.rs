use lumen::action::Apply;
use lumen::color::Colorspace;
use lumen::fixture::Fixture;
use lumen::generator::{CurrentValue, Delay, Fade, Generator, Static};
use lumen::parameter::{Param, Parameter};
use lumen::patch::FixtureProfile;
use lumen::time::Time;
use lumen::value::Values;

fn literal(value: i32) -> Generator {
    Generator::Static(Static::new(Values::make_literal(value)))
}

fn intensity_profile() -> FixtureProfile {
    let mut profile = FixtureProfile::new();
    profile.set_parameter(Param::Intensity, Parameter::new(0, 0, 100));
    profile
}

fn intensity_at(fixture: &mut Fixture, time: Time, profile: &FixtureProfile) -> Values {
    *fixture.resolve(&time, profile).get_value(&Param::Intensity).unwrap()
}

#[test]
fn current_value_test_simple() {
    let mut fixture = Fixture::new(1);
    fixture.apply(&Apply::new(Param::Intensity, literal(10)));
    fixture.apply(&Apply::new(Param::Intensity, Generator::CurrentValue(CurrentValue::new())));
    let profile = intensity_profile();

    assert_eq!(intensity_at(&mut fixture, Time::at(0, 0, 0, 0), &profile), Values::make_literal(10));
}

fn fade_from_current_to_fifty() -> Generator {
    let mut fade = Fade::new(
        Generator::CurrentValue(CurrentValue::new()),
        literal(50),
        Time::at(0, 0, 2, 0),
    );
    fade.set_start_time(Time::at(0, 0, 0, 0));
    Generator::Fade(fade)
}

#[test]
fn current_value_test_fade() {
    let mut fixture = Fixture::new(1);
    fixture.apply(&Apply::new(Param::Intensity, literal(10)));
    fixture.apply(&Apply::new(Param::Intensity, fade_from_current_to_fifty()));
    let profile = intensity_profile();

    assert_eq!(intensity_at(&mut fixture, Time::at(0, 0, 0, 0), &profile), Values::make_literal(10));
    assert_eq!(intensity_at(&mut fixture, Time::at(0, 0, 1, 0), &profile), Values::make_literal(30));
    assert_eq!(intensity_at(&mut fixture, Time::at(0, 0, 2, 0), &profile), Values::make_literal(50));
}

#[test]
fn current_value_from_running_fade() {
    let mut fixture = Fixture::new(1);
    fixture.apply(&Apply::new(Param::Intensity, literal(10)));
    fixture.apply(&Apply::new(Param::Intensity, fade_from_current_to_fifty()));
    fixture.apply(&Apply::new(
        Param::Intensity,
        Generator::Delay(Delay::new(
            Time::at(0, 0, 1, 0),
            Generator::CurrentValue(CurrentValue::new()),
        )),
    ));
    let profile = intensity_profile();

    assert_eq!(intensity_at(&mut fixture, Time::at(0, 0, 0, 0), &profile), Values::make_literal(10));
    assert_eq!(intensity_at(&mut fixture, Time::at(0, 0, 1, 0), &profile), Values::make_literal(30));
    assert_eq!(intensity_at(&mut fixture, Time::at(0, 0, 2, 0), &profile), Values::make_literal(30));
}

#[test]
fn multiple_delayed_static_values() {
    let mut fixture = Fixture::new(1);
    fixture.apply(&Apply::new(Param::Intensity, literal(0)));
    fixture.apply(&Apply::new(
        Param::Intensity,
        Generator::Delay(Delay::new(Time::at(0, 0, 1, 0), literal(10))),
    ));
    fixture.apply(&Apply::new(
        Param::Intensity,
        Generator::Delay(Delay::new(Time::at(0, 0, 2, 0), literal(20))),
    ));
    let profile = intensity_profile();

    assert_eq!(intensity_at(&mut fixture, Time::at(0, 0, 0, 0), &profile), Values::make_literal(0));
    assert_eq!(intensity_at(&mut fixture, Time::at(0, 0, 1, 0), &profile), Values::make_literal(10));
    assert_eq!(intensity_at(&mut fixture, Time::at(0, 0, 2, 0), &profile), Values::make_literal(20));
}

#[test]
fn latest_takes_priority() {
    let mut fixture = Fixture::new(1);
    fixture.apply(&Apply::new(
        Param::Intensity,
        Generator::Delay(Delay::new(Time::at(0, 0, 2, 0), literal(20))),
    ));
    fixture.apply(&Apply::new(
        Param::Intensity,
        Generator::Delay(Delay::new(Time::at(0, 0, 1, 0), literal(10))),
    ));
    let profile = intensity_profile();

    assert_eq!(intensity_at(&mut fixture, Time::at(0, 0, 1, 0), &profile), Values::make_literal(10));
    assert_eq!(intensity_at(&mut fixture, Time::at(0, 0, 2, 0), &profile), Values::make_literal(20));
}

fn rgb_profile() -> FixtureProfile {
    let mut profile = FixtureProfile::new();
    profile.set_colorspace(Colorspace::RGB);
    profile.set_parameter(Param::Red, Parameter::simple(0));
    profile.set_parameter(Param::Blue, Parameter::simple(1));
    profile.set_parameter(Param::Green, Parameter::simple(2));
    profile
}

fn rgb_fixture(r: i32, g: i32, b: i32) -> Fixture {
    let mut fixture = Fixture::new(1);
    fixture.apply(&Apply::new(Param::Red, literal(r)));
    fixture.apply(&Apply::new(Param::Green, literal(g)));
    fixture.apply(&Apply::new(Param::Blue, literal(b)));
    fixture
}

#[test]
fn resolve_rgb() {
    let profile = rgb_profile();
    let mut fixture = rgb_fixture(10, 20, 30);

    let resolved_fixture = fixture.resolve(&Time::at(0, 0, 0, 0), &profile);

    assert_eq!(*resolved_fixture.get_value(&Param::Red).unwrap(), Values::make_literal(10));
    assert_eq!(*resolved_fixture.get_value(&Param::Green).unwrap(), Values::make_literal(20));
    assert_eq!(*resolved_fixture.get_value(&Param::Blue).unwrap(), Values::make_literal(30));
}

#[test]
fn colour_needs_a_colorspace_in_the_profile() {
    let mut profile = FixtureProfile::new();
    profile.set_parameter(Param::Red, Parameter::simple(0));
    let mut fixture = rgb_fixture(10, 20, 30);

    let resolved_fixture = fixture.resolve(&Time::at(0, 0, 0, 0), &profile);

    assert!(resolved_fixture.get_value(&Param::Red).is_none());
}

#[test]
fn parameters_outside_the_profile_are_skipped() {
    let profile = intensity_profile();
    let mut fixture = Fixture::new(1);
    fixture.apply(&Apply::new(Param::Pan, literal(40)));

    let resolved_fixture = fixture.resolve(&Time::at(0, 0, 0, 0), &profile);

    assert!(resolved_fixture.get_value(&Param::Pan).is_none());
    assert!(resolved_fixture.get_value(&Param::Intensity).is_none());
    assert_eq!(fixture.get_parameter(Param::Pan).unwrap().len(), 1);
}

#[test]
fn resolving_twice_at_one_time_gives_the_same_values() {
    let profile = intensity_profile();
    let mut fixture = Fixture::new(1);
    fixture.apply(&Apply::new(Param::Intensity, literal(10)));
    fixture.apply(&Apply::new(Param::Intensity, fade_from_current_to_fifty()));

    let first = intensity_at(&mut fixture, Time::at(0, 0, 1, 500), &profile);
    let second = intensity_at(&mut fixture, Time::at(0, 0, 1, 500), &profile);

    assert_eq!(first, second);
    assert_eq!(first, Values::make_literal(40));
}

#[test]
fn captured_value_survives_later_changes_below_it() {
    let profile = intensity_profile();
    let mut fixture = Fixture::new(1);
    fixture.apply(&Apply::new(Param::Intensity, literal(10)));
    fixture.apply(&Apply::new(Param::Intensity, Generator::CurrentValue(CurrentValue::new())));

    for seconds in [0, 1, 5, 60] {
        assert_eq!(
            intensity_at(&mut fixture, Time::at(0, 0, seconds, 0), &profile),
            Values::make_literal(10)
        );
    }
}

#[test]
fn clear_parameter_empties_its_stack() {
    let mut fixture = Fixture::new(4);
    fixture.apply(&Apply::new(Param::Tilt, literal(3)));
    assert_eq!(fixture.param(Param::Tilt).unwrap().value(), Values::make_literal(3));
    fixture.clear_parameter(&Param::Tilt);
    assert!(fixture.param(Param::Tilt).is_none());
    assert_eq!(fixture.id(), 4);
}

#[test]
fn profile_to_dmx_writes_each_offset() {
    let mut profile = FixtureProfile::new();
    profile.set_parameter(Param::Intensity, Parameter::new(0, 0, 100));
    profile.set_parameter(Param::Pan, Parameter::new(2, -100, 100));
    let mut fixture = Fixture::new(1);
    fixture.apply(&Apply::new(Param::Intensity, literal(50)));

    let resolved = fixture.resolve(&Time::at(0, 0, 0, 0), &profile);
    let dmx = profile.to_dmx(&resolved);

    assert_eq!(dmx.len(), 3);
    assert_eq!(dmx.get(0).byte(), 128);
    assert_eq!(dmx.get(1).byte(), 0);
    assert_eq!(dmx.get(2).byte(), 128);
}

#[test]
fn param_names() {
    assert_eq!(Param::from_string("intensity"), Some(Param::Intensity));
    assert_eq!(Param::from_string("magenta"), Some(Param::Magenta));
    assert_eq!(Param::from_string("Intensity"), None);
    assert_eq!(Param::from_string(""), None);
    assert!(Param::is_color(&Param::Cyan));
    assert!(!Param::is_color(&Param::Pan));
    assert_eq!(
        Colorspace::params_for_colorspace(&Colorspace::RGB),
        vec![Param::Red, Param::Green, Param::Blue]
    );
}

use lumen::action::Apply;
use lumen::fixture::Fixture;
use lumen::fixture_set::FixtureSet;
use lumen::generator::{Generator, Static};
use lumen::parameter::{Param, Parameter};
use lumen::patch::{FixtureProfile, Patch};
use lumen::time::Time;
use lumen::value::Values;
use lumen::address::Address;
use lumen::dmx::{Dmx, DmxString};
use lumen::history::History;
use lumen::universe::{Multiverse, Universe};

fn string_of(bytes: &[u8]) -> DmxString {
    let mut string = DmxString::new(bytes.len());
    for (i, b) in bytes.iter().enumerate() {
        string.set(i, Dmx::new(*b));
    }
    string
}

#[test]
fn universe_writes_a_string_at_its_address() {
    let mut universe = Universe::new(0);
    universe.map_string(&Address::new(1, 10), &string_of(&[1, 2, 3]));
    let bytes = universe.bytes();
    assert_eq!(&bytes[8..13], &[0, 1, 2, 3, 0]);
    assert_eq!(universe.universe_number(), 1);
}

#[test]
fn universe_skips_a_string_that_does_not_fit() {
    let mut universe = Universe::new(0);
    universe.map_string(&Address::new(1, 511), &string_of(&[9, 9, 9]));
    assert!(universe.bytes().iter().all(|b| *b == 0));
    universe.map_string(&Address::new(1, 510), &string_of(&[7, 8, 9]));
    assert_eq!(&universe.bytes()[509..512], &[7, 8, 9]);
}

#[test]
fn multiverse_makes_universes_on_demand() {
    let mut multiverse = Multiverse::new();
    multiverse.map_string(&Address::new(2, 1), &string_of(&[5]));
    multiverse.map_string(&Address::new(2, 2), &string_of(&[6]));
    multiverse.map_string(&Address::new(1, 1), &string_of(&[7]));

    let universes = multiverse.universes();
    assert_eq!(universes.len(), 2);
    assert_eq!(universes[0].universe_number(), 2);
    assert_eq!(&universes[0].bytes()[0..3], &[5, 6, 0]);
    assert_eq!(universes[1].bytes()[0], 7);
}

#[test]
fn dmx_string_basics() {
    let mut string = DmxString::new(4);
    assert_eq!(string.len(), 4);
    assert!(!string.is_empty());
    assert!(DmxString::new(0).is_empty());
    string.set(2, Dmx::new(200));
    assert_eq!(string.get(2), Dmx::new(200));
    assert_eq!(Dmx::from_ratio(1, 2).byte(), 128);
    assert_eq!(Dmx::from_ratio(1, 3).byte(), 85);
}

#[test]
fn history_revert_returns_that_snapshot_and_keeps_earlier_ones() {
    let mut history = History::new();
    let mut one = FixtureSet::new();
    one.create_with_id(1);
    let mut two = FixtureSet::new();
    two.create_with_id(1);
    two.create_with_id(2);
    let mut three = FixtureSet::new();
    three.create_with_id(3);

    assert_eq!(history.record(one), 0);
    assert_eq!(history.record(two), 1);
    assert_eq!(history.record(three), 2);

    let restored = history.revert(1).unwrap();
    assert_eq!(restored.len(), 2);
    assert_eq!(history.len(), 1);
    assert!(history.revert(5).is_none());
    assert_eq!(history.len(), 1);
    history.clear();
    assert!(history.is_empty());
}

#[test]
fn render_writes_each_fixture_at_its_address() {
    let mut profile = FixtureProfile::new();
    profile.set_parameter(Param::Intensity, Parameter::new(0, 0, 100));
    let mut patch = Patch::new();
    patch.patch(1, Address::new(1, 5), &profile);
    patch.patch(2, Address::new(2, 1), &profile);

    let mut fixtures = FixtureSet::new();
    fixtures.create_with_id(1);
    fixtures.create_with_id(2);
    let mut one = Fixture::new(1);
    one.apply(&Apply::new(
        Param::Intensity,
        Generator::Static(Static::new(Values::make_literal(100))),
    ));
    fixtures.add_fixture(1, one);

    let resolved = fixtures.resolve(Time::at(0, 0, 0, 0), &patch);
    let multiverse = Multiverse::render(&resolved, &patch);
    let universes = multiverse.universes();

    assert_eq!(universes.len(), 2);
    let first = universes.iter().find(|u| u.universe_number() == 1).unwrap();
    assert_eq!(&first.bytes()[3..6], &[0, 255, 0]);
    let second = universes.iter().find(|u| u.universe_number() == 2).unwrap();
    assert_eq!(second.bytes()[0], 0);
}

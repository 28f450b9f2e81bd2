use lumen::dmx::Dmx;
use lumen::generator::{CurrentValue, Delay, Fade, Generator, Static};
use lumen::parameter::Parameter;
use lumen::time::Time;
use lumen::value::{Literal, Percentage, Values};

fn fade(start: Values, end: Values, seconds: u128) -> Generator {
    let mut fade = Fade::new(
        Generator::Static(Static::new(start)),
        Generator::Static(Static::new(end)),
        Time::at(0, 0, seconds, 0),
    );
    fade.set_start_time(Time::at(0, 0, 0, 0));
    Generator::Fade(fade)
}

#[test]
fn static_always_returns_same_value() {
    let value = Values::make_literal(50);
    let static_generator = Generator::Static(Static::new(value));
    let parameter = Parameter::new(0, 0, 100);

    assert_eq!(
        static_generator.generate(&Time::at(0, 0, 0, 0), &parameter),
        Some(Values::make_literal(50)),
    );
    assert_eq!(
        static_generator.generate(&Time::at(0, 0, 2, 0), &parameter),
        Some(Values::make_literal(50)),
    );
    assert_eq!(
        static_generator.generate(&Time::at(0, 0, 4, 0), &parameter),
        Some(Values::make_literal(50)),
    );
}

#[test]
fn always_returns_same_value() {
    let static_generator = Generator::Static(Static::new(Values::make_literal(50)));
    let parameter = Parameter::new(0, 0, 100);

    for seconds in [0, 2, 4] {
        assert_eq!(
            static_generator.generate(&Time::at(0, 0, seconds, 0), &parameter),
            Some(Values::make_literal(50))
        );
    }
}

#[test]
fn fade_between_like_values() {
    let fade = fade(Values::make_literal(0), Values::make_literal(100), 2);
    let parameter = Parameter::new(0, 0, 100);

    assert_eq!(fade.generate(&Time::at(0, 0, 0, 0), &parameter), Some(Values::make_literal(0)));
    assert_eq!(fade.generate(&Time::at(0, 0, 1, 0), &parameter), Some(Values::make_literal(50)));
    assert_eq!(fade.generate(&Time::at(0, 0, 2, 0), &parameter), Some(Values::make_literal(100)));
}

#[test]
fn value_generator_fade() {
    let fade = fade(Values::make_literal(0), Values::make_literal(100), 2);
    let parameter = Parameter::new(0, 0, 100);

    assert_eq!(fade.generate(&Time::at(0, 0, 0, 0), &parameter).unwrap(), Values::make_literal(0));
    assert_eq!(fade.generate(&Time::at(0, 0, 1, 0), &parameter).unwrap(), Values::make_literal(50));
    assert_eq!(fade.generate(&Time::at(0, 0, 2, 0), &parameter).unwrap(), Values::make_literal(100));
}

#[test]
fn fade_holds_its_end_value_after_the_duration() {
    let fade = fade(Values::make_literal(0), Values::make_literal(100), 2);
    let parameter = Parameter::new(0, 0, 100);

    assert_eq!(fade.generate(&Time::at(0, 0, 3, 0), &parameter), Some(Values::make_literal(100)));
    assert_eq!(fade.generate(&Time::at(0, 5, 0, 0), &parameter), Some(Values::make_literal(100)));
    assert_eq!(
        fade.generate(&Time::at(0, 0, 0, 500), &parameter),
        Some(Values::make_literal(25))
    );
}

#[test]
fn fade_between_differing_values() {
    let fade = fade(Values::make_literal(25), Values::make_percentage(100), 2);
    let parameter = Parameter::new(0, 25, 75);

    assert_eq!(fade.generate(&Time::at(0, 0, 0, 0), &parameter), Some(Values::make_literal(25)));
    assert_eq!(fade.generate(&Time::at(0, 0, 1, 0), &parameter), Some(Values::make_literal(50)));
    assert_eq!(fade.generate(&Time::at(0, 0, 2, 0), &parameter), Some(Values::make_literal(75)));
}

#[test]
fn fade_from_a_percentage_takes_a_literal_end_as_it_stands() {
    let fade = fade(Values::make_percentage(0), Values::make_literal(40), 2);
    let parameter = Parameter::new(0, 0, 200);

    assert_eq!(
        fade.generate(&Time::at(0, 0, 1, 0), &parameter),
        Some(Values::make_percentage(20))
    );
}

#[test]
fn downward_fade_rounds_toward_its_start() {
    let fade = fade(Values::literal_thousandths(1), Values::literal_thousandths(0), 3);
    let parameter = Parameter::new(0, 0, 100);

    assert_eq!(
        fade.generate(&Time::at(0, 0, 1, 0), &parameter),
        Some(Values::literal_thousandths(1))
    );
}

#[test]
fn static_literal_is_held_to_the_parameter_range() {
    let parameter = Parameter::new(0, 0, 100);
    let high = Generator::Static(Static::new(Values::make_literal(150)));
    let low = Generator::Static(Static::new(Values::make_literal(-5)));
    let percentage = Generator::Static(Static::new(Values::make_percentage(150)));

    assert_eq!(high.generate(&Time::at(0, 0, 0, 0), &parameter), Some(Values::make_literal(100)));
    assert_eq!(low.generate(&Time::at(0, 0, 0, 0), &parameter), Some(Values::make_literal(0)));
    assert_eq!(
        percentage.generate(&Time::at(0, 0, 0, 0), &parameter),
        Some(Values::make_percentage(150))
    );
}

#[test]
fn delay_holds_back_until_it_has_passed() {
    let parameter = Parameter::new(0, 0, 100);
    let mut delay = Generator::Delay(Delay::new(
        Time::at(0, 0, 1, 0),
        Generator::Static(Static::new(Values::make_literal(10))),
    ));
    delay.set_start_time(Time::at(0, 0, 2, 0));

    assert_eq!(delay.generate(&Time::at(0, 0, 2, 999), &parameter), None);
    assert_eq!(delay.generate(&Time::at(0, 0, 3, 0), &parameter), Some(Values::make_literal(10)));
    assert_eq!(delay.start_time(), Time::at(0, 0, 2, 0));
}

#[test]
fn fade_over_an_inactive_delay_holds_back_too() {
    let parameter = Parameter::new(0, 0, 100);
    let mut fade = Fade::new(
        Generator::Delay(Delay::new(
            Time::at(0, 0, 1, 0),
            Generator::Static(Static::new(Values::make_literal(10))),
        )),
        Generator::Static(Static::new(Values::make_literal(20))),
        Time::at(0, 0, 2, 0),
    );
    fade.set_start_time(Time::at(0, 0, 0, 0));
    let fade = Generator::Fade(fade);

    assert_eq!(fade.generate(&Time::at(0, 0, 0, 500), &parameter), None);
}

#[test]
fn current_value_captures_once() {
    let parameter = Parameter::new(0, 5, 100);
    let mut current = Generator::CurrentValue(CurrentValue::new());

    assert_eq!(current.generate(&Time::at(0, 0, 0, 0), &parameter), Some(Values::make_literal(5)));
    current.resolve(&Values::make_literal(42), &Time::at(0, 0, 1, 0));
    current.resolve(&Values::make_literal(7), &Time::at(0, 0, 2, 0));
    assert_eq!(current.generate(&Time::at(0, 0, 3, 0), &parameter), Some(Values::make_literal(42)));
    assert_eq!(current.value(), Values::make_literal(42));
}

#[test]
fn to_literal() {
    let parameter = Parameter::new(0, 25, 75);

    assert_eq!(Percentage::new(0).to_literal(&parameter), Literal::new(25));
    assert_eq!(Percentage::new(50).to_literal(&parameter), Literal::new(50));
    assert_eq!(Percentage::new(100).to_literal(&parameter), Literal::new(75));
}

#[test]
fn literal_to_dmx_simple() {
    let parameter = Parameter::new(0, 0, 100);

    assert_eq!(Literal::new(0).to_dmx(&parameter), Dmx::new(0));
    assert_eq!(Literal::new(50).to_dmx(&parameter), Dmx::new(128));
    assert_eq!(Literal::new(100).to_dmx(&parameter), Dmx::new(255));
}

#[test]
fn literal_to_dmx_complex() {
    let parameter = Parameter::new(0, -100, 100);

    assert_eq!(Literal::new(-100).to_dmx(&parameter), Dmx::new(0));
    assert_eq!(Literal::new(-50).to_dmx(&parameter), Dmx::new(64));
    assert_eq!(Literal::new(0).to_dmx(&parameter), Dmx::new(128));
    assert_eq!(Literal::new(100).to_dmx(&parameter), Dmx::new(255));
}

#[test]
fn percentage_to_dmx_simple() {
    let parameter = Parameter::new(0, 0, 100);

    assert_eq!(Percentage::new(0).to_dmx(&parameter), Dmx::new(0));
    assert_eq!(Percentage::new(50).to_dmx(&parameter), Dmx::new(128));
    assert_eq!(Percentage::new(100).to_dmx(&parameter), Dmx::new(255));
}

#[test]
fn percentage_to_dmx_complex() {
    let parameter = Parameter::new(0, -100, 100);

    assert_eq!(Percentage::new(0).to_dmx(&parameter), Dmx::new(0));
    assert_eq!(Percentage::new(50).to_dmx(&parameter), Dmx::new(128));
    assert_eq!(Percentage::new(100).to_dmx(&parameter), Dmx::new(255));
}

#[test]
fn dmx_edges_saturate() {
    let parameter = Parameter::new(0, 0, 100);
    let empty = Parameter::new(0, 10, 10);

    assert_eq!(Percentage::new(-20).to_dmx(&parameter), Dmx::new(0));
    assert_eq!(Percentage::new(300).to_dmx(&parameter), Dmx::new(255));
    assert_eq!(Literal::new(400).to_dmx(&parameter), Dmx::new(255));
    assert_eq!(Literal::new(10).to_dmx(&empty), Dmx::new(0));
    assert_eq!(Literal::new(11).to_dmx(&empty), Dmx::new(255));
    assert_eq!(Values::make_literal(25).to_dmx(&parameter).byte(), 64);
}

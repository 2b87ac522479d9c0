use shot_profile::number::{Number, SCALE};
use shot_profile::parser::{
    parse, property, step, steps, Prop, PumpType, SensorKind, Step, TransitionType,
};

fn n(units: u64) -> Number {
    Number { micros: units * SCALE }
}

#[test]
fn property_reads_keyword_and_value() {
    let r = property(b"temperature 90 ", 0);
    match r {
        Some((e, Prop::Temperature(v))) => {
            assert_eq!(e, 14);
            assert_eq!(v, n(90));
        }
        other => panic!("unexpected: {:?}", other),
    }
}

#[test]
fn property_requires_separator() {
    assert_eq!(property(b"temperature90", 0), None);
}

#[test]
fn property_rejects_unknown_keyword() {
    assert_eq!(property(b"wattage 90", 0), None);
}

#[test]
fn keyword_disambiguation_prefers_whole_keyword() {
    // the long keyword must win although the short one is its prefix
    let r = property(b"max_flow_or_pressure_range 0.6}", 0);
    match r {
        Some((e, Prop::MaxFlowOrPressureRange(v))) => {
            assert_eq!(e, 30);
            assert_eq!(v, Number { micros: 600_000 });
        }
        other => panic!("unexpected: {:?}", other),
    }
    let r = property(b"max_flow_or_pressure 0.6}", 0);
    match r {
        Some((_, Prop::MaxFlowOrPressure(v))) => assert_eq!(v, Number { micros: 600_000 }),
        other => panic!("unexpected: {:?}", other),
    }
}

#[test]
fn step_collects_properties_in_order() {
    let r = step(b"{temperature 90 seconds 10}", 0).unwrap();
    assert_eq!(r.0, 27);
    assert_eq!(
        r.1,
        Step(vec![Prop::Temperature(n(90)), Prop::Seconds(n(10))])
    );
}

#[test]
fn step_empty_is_legal() {
    assert_eq!(step(b"{}", 0), Some((2, Step(Vec::new()))));
    assert_eq!(step(b"{   }", 0), Some((5, Step(Vec::new()))));
}

#[test]
fn step_tolerates_whitespace_runs() {
    let r = step(b"{  temperature   90\n\tseconds 10 }", 0).unwrap();
    assert_eq!(
        r.1,
        Step(vec![Prop::Temperature(n(90)), Prop::Seconds(n(10))])
    );
}

#[test]
fn step_rejects_missing_close() {
    assert_eq!(step(b"{temperature 90", 0), None);
    assert_eq!(step(b"temperature 90}", 0), None);
}

#[test]
fn steps_stop_at_first_non_step() {
    let (e, v) = steps(b"{} {} trailing");
    assert_eq!(v.len(), 2);
    assert_eq!(e, 6);
}

#[test]
fn parse_requires_full_consumption() {
    let r = parse(b"{temperature 90} leftover");
    assert!(r.is_err());
    let r = parse(b"{temperature 90}   \n ");
    assert!(r.is_ok());
}

#[test]
fn parse_reads_realistic_step() {
    let text = b"{exit_if 1 exit_type pressure_over exit_pressure_over 2.5 pump flow \
                 sensor coffee transition fast name {Pressure Up} volume 100 seconds 12.5}";
    let v = parse(text).unwrap();
    assert_eq!(v.len(), 1);
    let Step(props) = &v[0];
    assert_eq!(props.len(), 9);
    assert_eq!(props[0], Prop::ExitIf(true));
    assert_eq!(props[3], Prop::Pump(PumpType::Flow));
    assert_eq!(props[4], Prop::Sensor(SensorKind::Coffee));
    assert_eq!(props[5], Prop::Transition(TransitionType::Fast));
    assert_eq!(props[6], Prop::Name(b"Pressure Up".to_vec()));
    assert_eq!(props[7], Prop::Volume(100));
    assert_eq!(props[8], Prop::Seconds(Number { micros: 12_500_000 }));
}

#[test]
fn parse_rejects_bad_value() {
    assert!(parse(b"{volume 70000}").is_err());
    assert!(parse(b"{exit_if 2}").is_err());
    assert!(parse(b"{temperature hot}").is_err());
}

#[test]
fn parse_empty_input_is_empty_profile() {
    assert_eq!(parse(b"").unwrap().len(), 0);
    assert_eq!(parse(b"  \n ").unwrap().len(), 0);
}

#[test]
fn step_accessors_take_last_occurrence() {
    let v = parse(b"{seconds 5 seconds 10 transition fast transition smooth pump pressure pump flow}").unwrap();
    assert_eq!(v[0].seconds(), n(10));
    assert_eq!(v[0].transition(), TransitionType::Smooth);
    assert_eq!(v[0].pump(), Some(PumpType::Flow));
}

#[test]
fn step_accessors_defaults() {
    let v = parse(b"{}").unwrap();
    assert_eq!(v[0].seconds(), Number { micros: 0 });
    assert_eq!(v[0].transition(), TransitionType::Fast);
    assert_eq!(v[0].pump(), None);
    assert_eq!(v[0].exit_flow(), None);
}

#[test]
fn step_exit_flow_takes_last_bound() {
    let v = parse(b"{exit_flow_under 1.5 exit_flow_over 6}").unwrap();
    assert_eq!(v[0].exit_flow(), Some(n(6)));
}

#[test]
fn parse_full_advanced_profile() {
    let text = b"{exit_if 1 exit_type pressure_over exit_pressure_over 1.5 flow 8 volume 100 \
                 max_flow_or_pressure 0 transition fast exit_flow_under 0 temperature 92 \
                 name {preinfusion} pressure 1 sensor coffee pump flow exit_pressure_under 0 \
                 max_flow_or_pressure_range 0.6 exit_flow_over 6 seconds 20}\n\
                 {exit_if 0 flow 2.2 transition smooth name {rise and hold} temperature 92 \
                 pump flow sensor coffee seconds 10}\n";
    let v = parse(text).unwrap();
    assert_eq!(v.len(), 2);
    assert_eq!(v[0].0.len(), 17);
    assert_eq!(v[1].0.len(), 8);
    assert_eq!(v[0].seconds(), Number { micros: 20_000_000 });
    assert_eq!(v[0].pump(), Some(PumpType::Flow));
    assert_eq!(v[0].exit_flow(), Some(n(6)));
    assert_eq!(v[1].transition(), TransitionType::Smooth);
}

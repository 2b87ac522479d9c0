use shot_profile::parser::{
    bool_val, string_val, transition_val, sensor_val, pump_val, exit_kind_val, prop_string,
    TransitionType, SensorKind, PumpType, ExitKind, Prop,
};

#[test]
fn bool_reads_one_character() {
    assert_eq!(bool_val(b"0", 0), Some((1, false)));
    assert_eq!(bool_val(b"1", 0), Some((1, true)));
    assert_eq!(bool_val(b"2", 0), None);
    assert_eq!(bool_val(b"", 0), None);
}

#[test]
fn string_brace_quoted_keeps_spaces() {
    assert_eq!(string_val(b"{Pressure Up}", 0), Some((13, b"Pressure Up".to_vec())));
}

#[test]
fn string_bare_runs_to_whitespace() {
    assert_eq!(string_val(b"Fill ", 0), Some((4, b"Fill".to_vec())));
    assert_eq!(string_val(b"Fill", 0), Some((4, b"Fill".to_vec())));
}

#[test]
fn string_empty_braces_yield_empty() {
    assert_eq!(string_val(b"{}", 0), Some((2, Vec::new())));
}

#[test]
fn string_unclosed_brace_fails() {
    assert_eq!(string_val(b"{never closed", 0), None);
    assert_eq!(string_val(b"", 0), None);
}

#[test]
fn transition_literals() {
    assert_eq!(transition_val(b"fast", 0), Some((4, TransitionType::Fast)));
    assert_eq!(transition_val(b"smooth}", 0), Some((6, TransitionType::Smooth)));
    assert_eq!(transition_val(b"slow", 0), None);
}

#[test]
fn sensor_literals() {
    assert_eq!(sensor_val(b"coffee", 0), Some((6, SensorKind::Coffee)));
    assert_eq!(sensor_val(b"water", 0), Some((5, SensorKind::Water)));
    assert_eq!(sensor_val(b"tea", 0), None);
}

#[test]
fn pump_literals() {
    assert_eq!(pump_val(b"flow", 0), Some((4, PumpType::Flow)));
    assert_eq!(pump_val(b"pressure", 0), Some((8, PumpType::Pressure)));
    assert_eq!(pump_val(b"piston", 0), None);
}

#[test]
fn exit_kind_literals() {
    assert_eq!(exit_kind_val(b"pressure_under", 0), Some((14, ExitKind::PressureUnder)));
    assert_eq!(exit_kind_val(b"pressure_over", 0), Some((13, ExitKind::PressureOver)));
    assert_eq!(exit_kind_val(b"flow_under", 0), Some((10, ExitKind::FlowUnder)));
    assert_eq!(exit_kind_val(b"flow_over", 0), Some((9, ExitKind::FlowOver)));
    assert_eq!(exit_kind_val(b"volume_over", 0), None);
}

#[test]
fn prop_string_reads_requested_keyword() {
    let r = prop_string(b"profile_title", b"profile_title {Best ever}", 0);
    match r {
        Some((e, Prop::Unknown(k, v))) => {
            assert_eq!(e, 25);
            assert_eq!(k, b"profile_title".to_vec());
            assert_eq!(v, b"Best ever".to_vec());
        }
        other => panic!("unexpected: {:?}", other),
    }
    assert_eq!(prop_string(b"profile_title", b"profile_notes {x}", 0), None);
}

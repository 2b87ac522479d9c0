use shot_profile::number::{Number, SCALE};
use shot_profile::parser::parse;
use shot_profile::profile::{analyze, Segment};

fn n(units: u64) -> Number {
    Number { micros: units * SCALE }
}

fn seg(x1: u64, y1: u64, x2: u64, y2: u64) -> Segment {
    Segment { x1: n(x1), y1: n(y1), x2: n(x2), y2: n(y2) }
}

#[test]
fn two_temperature_steps_make_three_segments() {
    let profile = parse(b"{temperature 90 seconds 10}\n{temperature 94 seconds 5}").unwrap();
    assert_eq!(profile.len(), 2);
    let (temp, pres, flow, total) = analyze(&profile);
    assert_eq!(temp, vec![seg(0, 90, 10, 90), seg(10, 90, 10, 94), seg(10, 94, 15, 94)]);
    assert_eq!(pres, Vec::new());
    assert_eq!(flow, Vec::new());
    assert_eq!(total, n(15));
}

#[test]
fn analyze_is_deterministic() {
    let profile = parse(
        b"{pump pressure pressure 8 temperature 92 seconds 10}\n\
          {pump flow flow 2 transition smooth seconds 20}",
    )
    .unwrap();
    let first = analyze(&profile);
    let second = analyze(&profile);
    assert_eq!(first, second);
}

#[test]
fn fast_transition_jumps_then_holds() {
    let profile = parse(
        b"{pump pressure pressure 5 seconds 10}\n\
          {pump pressure transition fast pressure 9 seconds 4}",
    )
    .unwrap();
    let (_, pres, _, total) = analyze(&profile);
    // first step starts the channel from its zero baseline
    assert_eq!(pres[0], seg(0, 0, 0, 5));
    assert_eq!(pres[1], seg(0, 5, 10, 5));
    // at elapsed 10, previous value 5, new value 9, duration 4
    assert_eq!(pres[2], seg(10, 5, 10, 9));
    assert_eq!(pres[3], seg(10, 9, 14, 9));
    assert_eq!(pres.len(), 4);
    assert_eq!(total, n(14));
}

#[test]
fn smooth_transition_ramps() {
    let profile = parse(
        b"{pump pressure pressure 5 seconds 10}\n\
          {pump pressure transition smooth pressure 9 seconds 4}",
    )
    .unwrap();
    let (_, pres, _, _) = analyze(&profile);
    assert_eq!(pres[2], seg(10, 5, 14, 9));
    assert_eq!(pres.len(), 3);
}

#[test]
fn handoff_drops_left_channel_to_zero() {
    let profile = parse(
        b"{pump pressure pressure 8 seconds 10}\n\
          {pump flow flow 2 seconds 5}",
    )
    .unwrap();
    let (_, pres, flow, total) = analyze(&profile);
    // the pressure trace ends with the drop at the hand-off instant
    assert_eq!(pres, vec![seg(0, 0, 0, 8), seg(0, 8, 10, 8), seg(10, 8, 10, 0)]);
    // the flow trace starts from its zero baseline
    assert_eq!(flow, vec![seg(10, 0, 10, 2), seg(10, 2, 15, 2)]);
    assert_eq!(total, n(15));
}

#[test]
fn handoff_without_prior_point_emits_no_drop() {
    // the first step drives pressure but never sets one: nothing to drop
    let profile = parse(
        b"{pump pressure seconds 10}\n\
          {pump flow flow 2 seconds 5}",
    )
    .unwrap();
    let (_, pres, flow, _) = analyze(&profile);
    assert_eq!(pres, Vec::new());
    assert_eq!(flow, vec![seg(10, 0, 10, 2), seg(10, 2, 15, 2)]);
}

#[test]
fn flow_to_pressure_handoff_drops_flow() {
    let profile = parse(
        b"{pump flow flow 2 seconds 10}\n\
          {pump pressure pressure 8 seconds 5}",
    )
    .unwrap();
    let (_, pres, flow, _) = analyze(&profile);
    assert_eq!(flow, vec![seg(0, 0, 0, 2), seg(0, 2, 10, 2), seg(10, 2, 10, 0)]);
    assert_eq!(pres, vec![seg(10, 0, 10, 8), seg(10, 8, 15, 8)]);
}

#[test]
fn carried_exit_flow_corrects_origin() {
    let profile = parse(
        b"{pump flow flow 2 exit_flow_over 4 seconds 10}\n\
          {pump flow transition smooth flow 6 seconds 5}",
    )
    .unwrap();
    let (_, _, flow, _) = analyze(&profile);
    assert_eq!(flow[0], seg(0, 0, 0, 2));
    assert_eq!(flow[1], seg(0, 2, 10, 2));
    // the carried exit flow first snaps the trace to 4, then the ramp starts there
    assert_eq!(flow[2], seg(10, 2, 10, 4));
    assert_eq!(flow[3], seg(10, 4, 15, 6));
    assert_eq!(flow.len(), 4);
}

#[test]
fn pressure_without_pump_mode_is_inert() {
    let profile = parse(b"{pressure 8 flow 2 seconds 10}").unwrap();
    let (temp, pres, flow, total) = analyze(&profile);
    assert_eq!(temp, Vec::new());
    assert_eq!(pres, Vec::new());
    assert_eq!(flow, Vec::new());
    assert_eq!(total, n(10));
}

#[test]
fn pressure_ignored_while_pump_drives_flow() {
    let profile = parse(b"{pump flow pressure 8 seconds 10}").unwrap();
    let (_, pres, flow, _) = analyze(&profile);
    assert_eq!(pres, Vec::new());
    assert_eq!(flow, Vec::new());
}

#[test]
fn empty_profile_analyzes_to_nothing() {
    let profile = parse(b"").unwrap();
    let (temp, pres, flow, total) = analyze(&profile);
    assert_eq!(temp, Vec::new());
    assert_eq!(pres, Vec::new());
    assert_eq!(flow, Vec::new());
    assert_eq!(total, Number { micros: 0 });
}

#[test]
fn durations_accumulate_across_inert_steps() {
    let profile = parse(b"{seconds 2.5}{seconds 2.5}{temperature 90 seconds 1}").unwrap();
    let (temp, _, _, total) = analyze(&profile);
    assert_eq!(temp, vec![seg(5, 90, 6, 90)]);
    assert_eq!(total, n(6));
}

#[test]
fn duplicate_temperature_in_one_step_emits_each_time() {
    let profile = parse(b"{temperature 90 temperature 94 seconds 10}").unwrap();
    let (temp, _, _, total) = analyze(&profile);
    // both properties act, in encounter order, at the same elapsed time
    assert_eq!(
        temp,
        vec![seg(0, 90, 10, 90), seg(0, 90, 0, 94), seg(0, 94, 10, 94)]
    );
    assert_eq!(total, n(10));
}

#[test]
fn handoff_needs_a_mode_change() {
    // staying in flow mode appends no drop anywhere
    let profile = parse(b"{pump flow flow 2 seconds 5}{pump flow flow 4 seconds 5}").unwrap();
    let (_, pres, flow, _) = analyze(&profile);
    assert_eq!(pres, Vec::new());
    assert_eq!(flow.len(), 4);
}

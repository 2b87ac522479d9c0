use shot_profile::parser::{parse, step, steps, Prop, Step};
use shot_profile::number::Number;
use shot_profile::text::{serialize_step, serialize_profile, step_is_wf};

fn reparse_one(text: &[u8]) -> Step {
    let (e, st) = step(text, 0).unwrap();
    assert_eq!(e, text.len());
    st
}

#[test]
fn step_survives_write_and_reread() {
    let texts: [&[u8]; 6] = [
        b"{}",
        b"{temperature 90 seconds 10}",
        b"{exit_if 0 name {Pressure Up} pump pressure transition smooth pressure 8.5}",
        b"{  volume  100\nsensor water }",
        b"{name Fill }",
        b"{max_flow_or_pressure_range 0.6 exit_type flow_under exit_flow_under 1.2}",
    ];
    for text in texts {
        let st = reparse_one(text);
        let written = serialize_step(&st);
        let again = reparse_one(&written);
        assert_eq!(st, again);
    }
}

#[test]
fn whitespace_variation_does_not_change_the_step() {
    let a = reparse_one(b"{temperature 90 seconds 10}");
    let b = reparse_one(b"{ temperature\t90\n   seconds  10   }");
    assert_eq!(a, b);
    assert_eq!(serialize_step(&a), serialize_step(&b));
}

#[test]
fn bare_name_with_brace_survives() {
    // a bare name may hold a closing brace when blanks set it off
    let st = reparse_one(b"{name x}y }");
    assert_eq!(st, Step(vec![Prop::Name(b"x}y".to_vec())]));
    let written = serialize_step(&st);
    assert_eq!(reparse_one(&written), st);
}

#[test]
fn wf_check_matches_writer() {
    let st = reparse_one(b"{name {Pressure Up}}");
    assert!(step_is_wf(&st));
    // a hand-built name with both blanks and a closing brace cannot be written
    let bad = Step(vec![Prop::Name(b"x} y".to_vec())]);
    assert!(!step_is_wf(&bad));
    let unknown = Step(vec![Prop::Unknown(b"k".to_vec(), b"v".to_vec())]);
    assert!(!step_is_wf(&unknown));
}

#[test]
fn profile_survives_write_and_reread() {
    let text = b"{temperature 90 seconds 10}\n{pump pressure pressure 8 seconds 5}\n{}";
    let profile = parse(text).unwrap();
    let written = serialize_profile(&profile);
    let again = parse(&written).unwrap();
    assert_eq!(profile, again);
}

#[test]
fn canonical_number_text_rounds() {
    let st = reparse_one(b"{pressure 8.50 seconds 010}");
    assert_eq!(
        st,
        Step(vec![
            Prop::Pressure(Number { micros: 8_500_000 }),
            Prop::Seconds(Number { micros: 10_000_000 }),
        ])
    );
    let written = serialize_step(&st);
    assert_eq!(written, b"{pressure 8.5 seconds 10 }".to_vec());
}

#[test]
fn steps_reader_and_writer_agree_on_position() {
    let text = b"{} {temperature 90}";
    let (e, v) = steps(text);
    assert_eq!(e, text.len());
    assert_eq!(v.len(), 2);
}

#[test]
fn empty_profile_writes_to_nothing() {
    let profile = parse(b"").unwrap();
    assert_eq!(serialize_profile(&profile), Vec::new());
}

#[test]
fn windows_line_ends_are_plain_whitespace() {
    let a = parse(b"{temperature 90}\r\n{temperature 94}").unwrap();
    let b = parse(b"{temperature 90} {temperature 94}").unwrap();
    assert_eq!(a, b);
}

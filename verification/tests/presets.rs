use shot_profile::profile::{advanced_shot_payload, contains_bytes, has_advanced_marker, Preset};
use shot_profile::parser::parse;

#[test]
fn contains_finds_runs() {
    assert!(contains_bytes(b"abc settings_2c xyz", b"settings_2c"));
    assert!(!contains_bytes(b"abc settings_2b xyz", b"settings_2c"));
    assert!(contains_bytes(b"anything", b""));
    assert!(!contains_bytes(b"ab", b"abc"));
}

#[test]
fn marker_checks_whole_file() {
    assert!(has_advanced_marker(b"profile_type settings_2c\nadvanced_shot {}"));
    assert!(!has_advanced_marker(b"profile_type settings_1a\n"));
}

#[test]
fn advanced_shot_line_yields_inner_text() {
    let line = b"advanced_shot {{temperature 90 seconds 10}}";
    let payload = advanced_shot_payload(line).unwrap();
    assert_eq!(payload, b"{temperature 90 seconds 10}\n".to_vec());
    let profile = parse(&payload).unwrap();
    assert_eq!(profile.len(), 1);
}

#[test]
fn other_lines_yield_nothing() {
    assert_eq!(advanced_shot_payload(b"profile_title {Best ever}"), None);
    assert_eq!(advanced_shot_payload(b"advanced_shot"), None);
    assert_eq!(advanced_shot_payload(b""), None);
}

#[test]
fn preset_default_is_blank() {
    let p = Preset::default();
    assert_eq!(p.title, String::new());
    assert_eq!(p.notes, String::new());
    assert_eq!(p.data, String::new());
}

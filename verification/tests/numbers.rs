use shot_profile::number::{number_val, uint16_val, signed_number_val, number_text, Number, SCALE};


fn num(text: &[u8]) -> Option<(usize, Number)> {
    number_val(text, 0)
}

#[test]
fn number_plain_integer() {
    assert_eq!(num(b"8"), Some((1, Number { micros: 8 * SCALE })));
    assert_eq!(num(b"80"), Some((2, Number { micros: 80 * SCALE })));
}

#[test]
fn number_trailing_dot() {
    assert_eq!(num(b"8."), Some((2, Number { micros: 8 * SCALE })));
}

#[test]
fn number_full_decimal() {
    assert_eq!(num(b"8.0"), Some((3, Number { micros: 8 * SCALE })));
}

#[test]
fn number_leading_dot() {
    assert_eq!(num(b".8"), Some((2, Number { micros: 800_000 })));
}

#[test]
fn number_stops_at_non_digit() {
    assert_eq!(num(b"8.5x"), Some((3, Number { micros: 8_500_000 })));
    assert_eq!(num(b"90 seconds"), Some((2, Number { micros: 90 * SCALE })));
}

#[test]
fn number_rejects_empty_and_lone_dot() {
    assert_eq!(num(b""), None);
    assert_eq!(num(b"."), None);
    assert_eq!(num(b"x8"), None);
}

#[test]
fn number_truncates_fraction_beyond_six_digits() {
    assert_eq!(num(b"0.1234567"), Some((9, Number { micros: 123_456 })));
}

#[test]
fn number_rejects_overflow() {
    assert_eq!(num(b"99999999999999999999999999"), None);
}

#[test]
fn uint16_reads_counts() {
    assert_eq!(uint16_val(b"0", 0), Some((1, 0u16)));
    assert_eq!(uint16_val(b"65535", 0), Some((5, 65535u16)));
    assert_eq!(uint16_val(b"65536", 0), None);
    assert_eq!(uint16_val(b"2.5", 0), Some((1, 2u16)));
    assert_eq!(uint16_val(b"", 0), None);
}

#[test]
fn signed_number_reads_signs() {
    let r = signed_number_val(b"-8.5", 0).unwrap();
    assert_eq!(r.0, 4);
    assert!(r.1.negative);
    assert_eq!(r.1.magnitude, Number { micros: 8_500_000 });
    let r = signed_number_val(b"+2", 0).unwrap();
    assert!(!r.1.negative);
    assert_eq!(r.1.magnitude, Number { micros: 2 * SCALE });
    let r = signed_number_val(b"2", 0).unwrap();
    assert!(!r.1.negative);
}

#[test]
fn number_text_is_canonical() {
    assert_eq!(number_text(Number { micros: 8 * SCALE }), b"8".to_vec());
    assert_eq!(number_text(Number { micros: 8_500_000 }), b"8.5".to_vec());
    assert_eq!(number_text(Number { micros: 800_000 }), b"0.8".to_vec());
    assert_eq!(number_text(Number { micros: 0 }), b"0".to_vec());
    assert_eq!(number_text(Number { micros: 123_456 }), b"0.123456".to_vec());
}

#[test]
fn number_text_reparses() {
    for micros in [0u64, 1, 999_999, 1_000_000, 8_500_000, 90_000_000, 123_456_789_000] {
        let n = Number { micros };
        let t = number_text(n);
        assert_eq!(number_val(&t, 0), Some((t.len(), n)));
    }
}

#[test]
fn number_constructors() {
    assert_eq!(Number::zero(), Number { micros: 0 });
    assert_eq!(Number::from_micros(8_500_000), Number { micros: 8_500_000 });
}

use dweb_cli::{parse_unsigned, IntErrorKind};

const SAMPLES: &[&str] = &[
    "", "0", "7", "42", "+42", "+", "-", "-5", "++5", "+-5", " 5", "5 ", "1_000", "00012",
    "4294967295", "4294967296", "18446744073709551615", "18446744073709551616",
    "99999999999999999999x", "12x99999999999999999999", "\u{0663}", "1\u{0663}", "abc",
];

fn std_kind(s: &str, max32: bool) -> Result<u64, IntErrorKind> {
    let r = if max32 { s.parse::<u32>().map(u64::from) } else { s.parse::<u64>() };
    r.map_err(|e| match e.kind() {
        std::num::IntErrorKind::Empty => IntErrorKind::Empty,
        std::num::IntErrorKind::InvalidDigit => IntErrorKind::InvalidDigit,
        std::num::IntErrorKind::PosOverflow => IntErrorKind::PosOverflow,
        other => panic!("unexpected kind {:?}", other),
    })
}

#[test]
fn parse_unsigned_agrees_with_std_for_u64() {
    for s in SAMPLES {
        assert_eq!(parse_unsigned(s, u64::MAX), std_kind(s, false), "text {:?}", s);
    }
}

#[test]
fn parse_unsigned_agrees_with_std_for_u32() {
    for s in SAMPLES {
        assert_eq!(parse_unsigned(s, u32::MAX as u64), std_kind(s, true), "text {:?}", s);
    }
}

#[test]
fn parse_unsigned_exact_values() {
    assert_eq!(parse_unsigned("00012", u64::MAX), Ok(12));
    assert_eq!(parse_unsigned("+42", u64::MAX), Ok(42));
    assert_eq!(parse_unsigned("4294967295", u32::MAX as u64), Ok(4294967295));
    assert_eq!(parse_unsigned("4294967296", u32::MAX as u64), Err(IntErrorKind::PosOverflow));
    assert_eq!(parse_unsigned("", 10), Err(IntErrorKind::Empty));
    assert_eq!(parse_unsigned("+", 10), Err(IntErrorKind::InvalidDigit));
    assert_eq!(parse_unsigned("11", 10), Err(IntErrorKind::PosOverflow));
    assert_eq!(parse_unsigned("10", 10), Ok(10));
}

#[test]
fn overflow_is_found_before_a_later_bad_character() {
    assert_eq!(parse_unsigned("99999999999999999999x", u64::MAX), Err(IntErrorKind::PosOverflow));
    assert_eq!(parse_unsigned("12x99999999999999999999", u64::MAX), Err(IntErrorKind::InvalidDigit));
}

#[test]
fn messages_are_those_of_std() {
    assert_eq!(IntErrorKind::Empty.message(), "".parse::<u64>().unwrap_err().to_string());
    assert_eq!(IntErrorKind::InvalidDigit.message(), "x".parse::<u64>().unwrap_err().to_string());
    assert_eq!(
        IntErrorKind::PosOverflow.message(),
        "99999999999999999999".parse::<u64>().unwrap_err().to_string()
    );
}

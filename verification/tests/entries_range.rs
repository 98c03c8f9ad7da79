use dweb_cli::{
    entries_range_from_captures, str_to_entries_range, EntriesRange, EntriesRangeError,
    ENTRIES_RANGE_PATTERN,
};

fn range(start: Option<u32>, end: Option<u32>) -> EntriesRange {
    EntriesRange { start, end }
}

#[test]
fn single_entry() {
    assert_eq!(str_to_entries_range("3"), Ok(range(Some(3), Some(3))));
    assert_eq!(str_to_entries_range("0"), Ok(range(Some(0), Some(0))));
    assert_eq!(str_to_entries_range("42"), Ok(range(Some(42), Some(42))));
}

#[test]
fn open_end() {
    assert_eq!(str_to_entries_range("3:"), Ok(range(Some(3), None)));
}

#[test]
fn open_start() {
    assert_eq!(str_to_entries_range(":7"), Ok(range(None, Some(7))));
}

#[test]
fn closed_range() {
    assert_eq!(str_to_entries_range("2:7"), Ok(range(Some(2), Some(7))));
    assert_eq!(str_to_entries_range("5:5"), Ok(range(Some(5), Some(5))));
    assert_eq!(str_to_entries_range("0:4294967295"), Ok(range(Some(0), Some(u32::MAX))));
}

#[test]
fn whole_history() {
    assert_eq!(str_to_entries_range(""), Ok(range(None, None)));
    assert_eq!(str_to_entries_range(":"), Ok(range(None, None)));
}

#[test]
fn end_before_start_is_refused() {
    assert_eq!(str_to_entries_range("7:2"), Err(EntriesRangeError::EndBeforeStart));
}

#[test]
fn malformed_ranges_are_refused() {
    for s in ["a", "1:2:3", " 3", "3 ", "-1", "1-2", "+3", "3::", "1;2"] {
        assert_eq!(str_to_entries_range(s), Err(EntriesRangeError::InvalidRange), "text {:?}", s);
    }
}

#[test]
fn numbers_past_u32_are_refused() {
    assert_eq!(str_to_entries_range("4294967296"), Err(EntriesRangeError::InvalidStart));
    assert_eq!(str_to_entries_range("4294967296:"), Err(EntriesRangeError::InvalidStart));
    assert_eq!(str_to_entries_range("1:4294967296"), Err(EntriesRangeError::InvalidEnd));
    assert_eq!(str_to_entries_range(":4294967296"), Err(EntriesRangeError::InvalidEnd));
}

#[test]
fn other_unicode_digits_match_but_are_no_number() {
    // U+0663 ARABIC-INDIC DIGIT THREE is a decimal digit for the pattern, not for `str::parse`.
    assert_eq!(str_to_entries_range("\u{0663}"), Err(EntriesRangeError::InvalidStart));
    assert_eq!(str_to_entries_range("1:\u{0663}"), Err(EntriesRangeError::InvalidEnd));
}

#[test]
fn messages() {
    assert_eq!(EntriesRangeError::InvalidRange.message(), "invalid range");
    assert_eq!(EntriesRangeError::InvalidStart.message(), "invalid start value");
    assert_eq!(EntriesRangeError::InvalidEnd.message(), "invalid end value");
    assert_eq!(EntriesRangeError::EndBeforeStart.message(), "end cannot be less than start");
}

#[test]
fn pattern_is_accepted_by_regex() {
    assert!(regex::Regex::new(ENTRIES_RANGE_PATTERN).is_ok());
}

fn groups(parts: &[Option<&str>]) -> Option<Vec<Option<String>>> {
    Some(parts.iter().map(|p| p.map(|t| t.to_string())).collect())
}

#[test]
fn captures_are_read_group_by_group() {
    assert_eq!(
        entries_range_from_captures(&groups(&[Some("2:9"), Some("2"), Some(":"), Some("9")])),
        Ok(range(Some(2), Some(9)))
    );
    assert_eq!(
        entries_range_from_captures(&groups(&[Some("4"), Some("4"), Some(""), Some("")])),
        Ok(range(Some(4), Some(4)))
    );
    assert_eq!(entries_range_from_captures(&None), Err(EntriesRangeError::InvalidRange));
    assert_eq!(
        entries_range_from_captures(&groups(&[Some("4"), Some("4")])),
        Err(EntriesRangeError::InvalidRange)
    );
    assert_eq!(
        entries_range_from_captures(&groups(&[Some(""), None, Some(""), Some("")])),
        Err(EntriesRangeError::InvalidRange)
    );
}

use dweb_cli::greater_than_0;

#[test]
fn positive_counts_are_accepted() {
    assert_eq!(greater_than_0("1"), Ok(1));
    assert_eq!(greater_than_0("5"), Ok(5));
    assert_eq!(greater_than_0("+7"), Ok(7));
    assert_eq!(greater_than_0("18446744073709551615"), Ok(u64::MAX));
}

#[test]
fn zero_is_refused() {
    assert_eq!(greater_than_0("0"), Err(String::from("Number must be greater than zero")));
    assert_eq!(greater_than_0("000"), Err(String::from("Number must be greater than zero")));
}

#[test]
fn unreadable_counts_carry_the_parse_message() {
    assert_eq!(greater_than_0(""), Err("cannot parse integer from empty string".to_string()));
    assert_eq!(greater_than_0("-1"), Err("invalid digit found in string".to_string()));
    assert_eq!(greater_than_0("ten"), Err("invalid digit found in string".to_string()));
    assert_eq!(
        greater_than_0("18446744073709551616"),
        Err("number too large to fit in target type".to_string())
    );
    for s in ["", "-1", "ten", " 3", "18446744073709551616"] {
        assert_eq!(greater_than_0(s), Err(s.parse::<u64>().unwrap_err().to_string()));
    }
}

//! Counts that must be at least one.

use vstd::prelude::*;
use crate::decimal::{lemma_parse_digits, parse_unsigned, spec_parse_unsigned, writes_number};

verus! {

/// The message with which a count of zero is refused.
pub open spec fn zero_count_message() -> Seq<char> {
    "Number must be greater than zero"@
}

/// A `u64` read from `s` as `str::parse` reads it, refused when it is zero;
/// an error carries the message that is shown to the user.
pub open spec fn spec_greater_than_0(s: Seq<char>) -> Result<u64, Seq<char>> {
    match spec_parse_unsigned(s, u64::MAX as nat) {
        Err(e) => Err(e.spec_message()),
        Ok(v) => if v >= 1 {
            Ok(v as u64)
        } else {
            Err(zero_count_message())
        },
    }
}

/// Reads a count that must be greater than zero, such as a number of entries.
pub fn greater_than_0(s: &str) -> (res: Result<u64, String>)
    ensures
        match res {
            Ok(v) => spec_greater_than_0(s@) == Ok::<u64, Seq<char>>(v),
            Err(m) => spec_greater_than_0(s@) == Err::<u64, Seq<char>>(m@),
        },
{
    match parse_unsigned(s, u64::MAX) {
        Err(e) => Err(e.message()),
        Ok(value) => {
            if value >= 1 {
                Ok(value)
            } else {
                Err("Number must be greater than zero".to_owned())
            }
        },
    }
}

/// A count that is accepted is never zero, and it is the number that
/// `str::parse` reads from the text.
pub proof fn lemma_accepted_count_is_positive(s: Seq<char>)
    ensures
        spec_greater_than_0(s) matches Ok(v) ==> v >= 1 && spec_parse_unsigned(s, u64::MAX as nat)
            == Ok::<nat, crate::decimal::IntErrorKind>(v as nat),
{
    crate::decimal::lemma_parsed_within_max(s, u64::MAX as nat);
}

/// A count is accepted only from a text of one optional `+` and ASCII digits
/// that write it; a `-` sign, or any other character there, is refused.
pub proof fn lemma_accepted_count_is_digits(s: Seq<char>)
    ensures
        spec_greater_than_0(s) matches Ok(v) ==> 1 <= v && (writes_number(s, v as nat) || (s[0]
            == '+' && writes_number(s.drop_first(), v as nat))),
{
    crate::decimal::lemma_parse_accepts_only_digits(s, u64::MAX as nat);
}

/// The digits of a number from 1 to `u64::MAX` are accepted as that number;
/// the digits of zero are refused with the zero-count message.
pub proof fn lemma_count_digits(t: Seq<char>, n: nat)
    requires
        writes_number(t, n),
        n <= u64::MAX,
    ensures
        spec_greater_than_0(t) == if n >= 1 {
            Ok::<u64, Seq<char>>(n as u64)
        } else {
            Err(zero_count_message())
        },
{
    lemma_parse_digits(t, n, u64::MAX as nat);
}

} // verus!

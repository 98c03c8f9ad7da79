//! Decimal reading of unsigned integers, with the rules of std's `str::parse`
//! for unsigned integer types: an optional leading `+`, then ASCII digits only.

use vstd::prelude::*;

verus! {

/// Why a text is not an unsigned integer; the variants and their meaning are
/// those of std's `IntErrorKind` that an unsigned parse can give.
#[derive(Clone, Copy, Debug, PartialEq, Eq, Structural)]
pub enum IntErrorKind {
    /// The text is empty.
    Empty,
    /// The text holds a character that is not an ASCII digit where a digit is due.
    InvalidDigit,
    /// The number is larger than the target type can hold.
    PosOverflow,
}

impl IntErrorKind {
    /// The text with which std's `ParseIntError` displays this kind of error.
    pub open spec fn spec_message(self) -> Seq<char> {
        match self {
            IntErrorKind::Empty => "cannot parse integer from empty string"@,
            IntErrorKind::InvalidDigit => "invalid digit found in string"@,
            IntErrorKind::PosOverflow => "number too large to fit in target type"@,
        }
    }

    /// The text with which std's `ParseIntError` displays this kind of error.
    pub fn message(&self) -> (m: String)
        ensures
            m@ == self.spec_message(),
    {
        match self {
            IntErrorKind::Empty => "cannot parse integer from empty string".to_owned(),
            IntErrorKind::InvalidDigit => "invalid digit found in string".to_owned(),
            IntErrorKind::PosOverflow => "number too large to fit in target type".to_owned(),
        }
    }
}

pub open spec fn is_ascii_digit(c: char) -> bool {
    '0' <= c && c <= '9'
}

pub open spec fn digit_value(c: char) -> nat {
    (c as int - '0' as int) as nat
}

/// The number that a sequence of ASCII digits writes in base ten.
pub open spec fn decimal_value(ds: Seq<char>) -> nat
    decreases ds.len(),
{
    if ds.len() == 0 {
        0
    } else {
        decimal_value(ds.drop_last()) * 10 + digit_value(ds.last())
    }
}

/// The first `k` characters of `ds` are ASCII digits.
pub open spec fn digits_before(ds: Seq<char>, k: int) -> bool {
    forall|j: int| 0 <= j < k ==> #[trigger] is_ascii_digit(ds[j])
}

/// `k` is where the leading run of ASCII digits of `ds` ends.
pub open spec fn ends_digit_run(ds: Seq<char>, k: int) -> bool {
    &&& 0 <= k <= ds.len()
    &&& digits_before(ds, k)
    &&& (k == ds.len() || !is_ascii_digit(ds[k]))
}

/// The length of the leading run of ASCII digits of `ds`.
pub open spec fn digit_run_len(ds: Seq<char>) -> int {
    choose|k: int| ends_digit_run(ds, k)
}

/// The part of `s` that must be digits: all of it after one optional leading `+`.
pub open spec fn unsigned_digits(s: Seq<char>) -> Seq<char> {
    if s.len() > 0 && s[0] == '+' {
        s.drop_first()
    } else {
        s
    }
}

/// What std's `str::parse` gives for an unsigned integer type whose largest
/// value is `max`. Digits are read from the left and the reading stops at the
/// first character that is no digit or at the first digit that takes the
/// number past `max`, whichever comes first.
pub open spec fn spec_parse_unsigned(s: Seq<char>, max: nat) -> Result<nat, IntErrorKind> {
    let ds = unsigned_digits(s);
    let k = digit_run_len(ds);
    if s.len() == 0 {
        Err(IntErrorKind::Empty)
    } else if ds.len() == 0 {
        Err(IntErrorKind::InvalidDigit)
    } else if decimal_value(ds.take(k)) > max {
        Err(IntErrorKind::PosOverflow)
    } else if k < ds.len() {
        Err(IntErrorKind::InvalidDigit)
    } else {
        Ok(decimal_value(ds))
    }
}

/// The leading digit run ends at exactly one place.
pub proof fn lemma_digit_run_len(ds: Seq<char>, k: int)
    requires
        ends_digit_run(ds, k),
    ensures
        digit_run_len(ds) == k,
{
    let m = digit_run_len(ds);
    assert(ends_digit_run(ds, m));
    if m < k {
        assert(is_ascii_digit(ds[m]));
    } else if k < m {
        assert(is_ascii_digit(ds[k]));
    }
}

/// Where the first `i` characters are digits, the leading digit run reaches
/// at least that far.
pub proof fn lemma_digit_run_reaches(ds: Seq<char>, i: int)
    requires
        0 <= i <= ds.len(),
        digits_before(ds, i),
    ensures
        ends_digit_run(ds, digit_run_len(ds)),
        i <= digit_run_len(ds),
    decreases ds.len() - i,
{
    if i == ds.len() || !is_ascii_digit(ds[i]) {
        lemma_digit_run_len(ds, i);
    } else {
        assert(digits_before(ds, i + 1));
        lemma_digit_run_reaches(ds, i + 1);
    }
}

/// Reading more digits never makes the number smaller.
pub proof fn lemma_decimal_value_grows(ds: Seq<char>, i: int, j: int)
    requires
        0 <= i <= j <= ds.len(),
    ensures
        decimal_value(ds.take(i)) <= decimal_value(ds.take(j)),
    decreases j - i,
{
    if i < j {
        lemma_decimal_value_grows(ds, i, j - 1);
        assert(ds.take(j).drop_last() =~= ds.take(j - 1));
    }
}

/// `t` is a non-empty run of ASCII digits that writes `n` in base ten.
pub open spec fn writes_number(t: Seq<char>, n: nat) -> bool {
    &&& t.len() > 0
    &&& digits_before(t, t.len() as int)
    &&& decimal_value(t) == n
}

/// A run of ASCII digits is read as the number it writes, or refused as too
/// large where that number is past `max`.
pub proof fn lemma_parse_digits(t: Seq<char>, n: nat, max: nat)
    requires
        writes_number(t, n),
    ensures
        spec_parse_unsigned(t, max) == if n <= max {
            Ok::<nat, IntErrorKind>(n)
        } else {
            Err(IntErrorKind::PosOverflow)
        },
{
    assert(is_ascii_digit(t[0]));
    assert(unsigned_digits(t) == t);
    lemma_digit_run_len(t, t.len() as int);
    assert(t.take(t.len() as int) =~= t);
}

/// A text that is read is one optional `+` followed only by ASCII digits,
/// and the number read is the one those digits write.
pub proof fn lemma_parse_accepts_only_digits(s: Seq<char>, max: nat)
    ensures
        spec_parse_unsigned(s, max) matches Ok(v) ==> v <= max && (writes_number(s, v) || (s[0] == '+'
            && writes_number(s.drop_first(), v))),
{
    let ds = unsigned_digits(s);
    if spec_parse_unsigned(s, max) is Ok {
        lemma_digit_run_reaches(ds, 0);
        assert(ds.take(ds.len() as int) =~= ds);
    }
}

/// A text whose first character after one optional `+` is missing or is no
/// ASCII digit (a `-` sign among others) is refused as an invalid digit.
pub proof fn lemma_parse_refuses_non_digit_start(s: Seq<char>, max: nat)
    requires
        s.len() > 0,
        ({
            let i: int = if s[0] == '+' { 1 } else { 0 };
            i == s.len() || !is_ascii_digit(s[i])
        }),
    ensures
        spec_parse_unsigned(s, max) == Err::<nat, IntErrorKind>(IntErrorKind::InvalidDigit),
{
    let ds = unsigned_digits(s);
    if ds.len() > 0 {
        assert(!is_ascii_digit(ds[0]));
        lemma_digit_run_len(ds, 0);
        assert(ds.take(0) =~= Seq::<char>::empty());
    }
}

/// One leading `+` is allowed and changes nothing.
pub proof fn lemma_parse_plus_sign(t: Seq<char>, max: nat)
    requires
        t.len() > 0,
        t[0] != '+',
    ensures
        spec_parse_unsigned(seq!['+'] + t, max) == spec_parse_unsigned(t, max),
{
    assert((seq!['+'] + t).drop_first() =~= t);
}

/// A number that is read is never larger than `max`.
pub proof fn lemma_parsed_within_max(s: Seq<char>, max: nat)
    ensures
        spec_parse_unsigned(s, max) matches Ok(v) ==> v <= max,
{
    let ds = unsigned_digits(s);
    if spec_parse_unsigned(s, max) is Ok {
        lemma_digit_run_reaches(ds, 0);
        assert(ds.take(digit_run_len(ds)) =~= ds);
    }
}

/// Reads `s` as std's `str::parse` reads an unsigned integer type whose
/// largest value is `max`.
pub fn parse_unsigned(s: &str, max: u64) -> (res: Result<u64, IntErrorKind>)
    ensures
        match res {
            Ok(v) => spec_parse_unsigned(s@, max as nat) == Ok::<nat, IntErrorKind>(v as nat),
            Err(e) => spec_parse_unsigned(s@, max as nat) == Err::<nat, IntErrorKind>(e),
        },
{
    let n = s.unicode_len();
    if n == 0 {
        return Err(IntErrorKind::Empty);
    }
    let mut start: usize = 0;
    if s.get_char(0) == '+' {
        start = 1;
    }
    let ghost ds = unsigned_digits(s@);
    assert(ds =~= s@.skip(start as int));
    if start == n {
        return Err(IntErrorKind::InvalidDigit);
    }
    let mut i: usize = start;
    let mut acc: u64 = 0;
    assert(ds.take(0) =~= Seq::<char>::empty());
    while i < n
        invariant
            start <= i <= n,
            n == s@.len(),
            start < n,
            ds == s@.skip(start as int),
            ds == unsigned_digits(s@),
            digits_before(ds, i - start),
            acc as nat == decimal_value(ds.take(i - start)),
            acc <= max,
        decreases n - i,
    {
        let c = s.get_char(i);
        let ghost p: int = i - start;
        assert(ds[p] == c);
        if !('0' <= c && c <= '9') {
            proof {
                lemma_digit_run_len(ds, p);
            }
            return Err(IntErrorKind::InvalidDigit);
        }
        let d: u64 = (c as u32 - '0' as u32) as u64;
        assert(ds.take(p + 1).drop_last() =~= ds.take(p));
        assert(digits_before(ds, p + 1));
        let next: u128 = acc as u128 * 10 + d as u128;
        assert(next == decimal_value(ds.take(p + 1)));
        if next > max as u128 {
            proof {
                lemma_digit_run_reaches(ds, p + 1);
                lemma_decimal_value_grows(ds, p + 1, digit_run_len(ds));
            }
            return Err(IntErrorKind::PosOverflow);
        }
        acc = next as u64;
        i = i + 1;
    }
    proof {
        lemma_digit_run_len(ds, ds.len() as int);
        assert(ds.take(ds.len() as int) =~= ds);
    }
    Ok(acc)
}

} // verus!

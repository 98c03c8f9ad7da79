//! The RANGE of history entries that a command works on.
//!
//! A RANGE is an integer (a single entry), an integer followed by `:` (that
//! entry and all after it), `:` followed by an integer (all entries up to that
//! one), two integers separated by `:`, or nothing at all. Entries are counted
//! from 0.

use vstd::prelude::*;
use crate::decimal::{lemma_parse_digits, parse_unsigned, spec_parse_unsigned, writes_number};
use crate::pattern::{captures_of, captures_view, regex_captures};

verus! {

/// The pattern that a RANGE must match: digits, an optional `:`, digits.
pub const ENTRIES_RANGE_PATTERN: &'static str = "^(\\d*)(:?)(\\d*)$";

/// A range of history entries; a missing bound is open.
#[derive(Clone, Copy, Debug, PartialEq, Eq, Structural)]
pub struct EntriesRange {
    pub start: Option<u32>,
    pub end: Option<u32>,
}

/// Why a text is not a RANGE.
#[derive(Clone, Copy, Debug, PartialEq, Eq, Structural)]
pub enum EntriesRangeError {
    /// The text does not have the form of a RANGE.
    InvalidRange,
    /// The first number is not a `u32`.
    InvalidStart,
    /// The second number is not a `u32`.
    InvalidEnd,
    /// The second number is smaller than the first.
    EndBeforeStart,
    /// The regular-expression engine refused the RANGE pattern itself.
    PatternRejected,
}

impl EntriesRangeError {
    /// The message shown to the user.
    pub open spec fn spec_message(self) -> Seq<char> {
        match self {
            EntriesRangeError::InvalidRange => "invalid range"@,
            EntriesRangeError::InvalidStart => "invalid start value"@,
            EntriesRangeError::InvalidEnd => "invalid end value"@,
            EntriesRangeError::EndBeforeStart => "end cannot be less than start"@,
            EntriesRangeError::PatternRejected => "the range pattern was rejected"@,
        }
    }

    /// The message shown to the user.
    pub fn message(&self) -> (m: String)
        ensures
            m@ == self.spec_message(),
    {
        match self {
            EntriesRangeError::InvalidRange => "invalid range".to_owned(),
            EntriesRangeError::InvalidStart => "invalid start value".to_owned(),
            EntriesRangeError::InvalidEnd => "invalid end value".to_owned(),
            EntriesRangeError::EndBeforeStart => "end cannot be less than start".to_owned(),
            EntriesRangeError::PatternRejected => "the range pattern was rejected".to_owned(),
        }
    }
}

/// A bound read from its digits: open where there are none, else the `u32`
/// that `str::parse` reads, or `err` where it reads none.
pub open spec fn spec_bound(digits: Seq<char>, err: EntriesRangeError) -> Result<Option<u32>, EntriesRangeError> {
    if digits.len() == 0 {
        Ok(None)
    } else {
        match spec_parse_unsigned(digits, u32::MAX as nat) {
            Ok(n) => Ok(Some(n as u32)),
            Err(_) => Err(err),
        }
    }
}

/// The range that the three matched pieces of a RANGE give: the first
/// number, the separator and the second number. Without a separator a start
/// stands for a single entry and is the end too.
pub open spec fn spec_range_from_parts(start: Seq<char>, separator: Seq<char>, end: Seq<char>) -> Result<EntriesRange, EntriesRangeError> {
    match spec_bound(start, EntriesRangeError::InvalidStart) {
        Err(e) => Err(e),
        Ok(first) => {
            let last = if first is Some && separator.len() == 0 {
                Ok(first)
            } else {
                spec_bound(end, EntriesRangeError::InvalidEnd)
            };
            match last {
                Err(e) => Err(e),
                Ok(last) => if first is Some && last is Some && last->0 < first->0 {
                    Err(EntriesRangeError::EndBeforeStart)
                } else {
                    Ok(EntriesRange { start: first, end: last })
                },
            }
        },
    }
}

/// The range that the capture groups of a RANGE match give; no match, or
/// groups 1 to 3 not all present, is no RANGE.
pub open spec fn spec_range_from_captures(groups: Option<Seq<Option<Seq<char>>>>) -> Result<EntriesRange, EntriesRangeError> {
    match groups {
        None => Err(EntriesRangeError::InvalidRange),
        Some(g) => if g.len() >= 4 && g[1] is Some && g[2] is Some && g[3] is Some {
            spec_range_from_parts(g[1]->0, g[2]->0, g[3]->0)
        } else {
            Err(EntriesRangeError::InvalidRange)
        },
    }
}

/// What `str_to_entries_range` gives for `s`.
pub open spec fn spec_str_to_entries_range(s: Seq<char>) -> Result<EntriesRange, EntriesRangeError> {
    match regex_captures(ENTRIES_RANGE_PATTERN@, s) {
        None => Err(EntriesRangeError::PatternRejected),
        Some(groups) => spec_range_from_captures(groups),
    }
}

/// No RANGE is ever read with its end before its start.
pub proof fn lemma_range_never_reversed(s: Seq<char>)
    ensures
        spec_str_to_entries_range(s) matches Ok(r) ==> (r.start matches Some(a) ==> (
        r.end matches Some(b) ==> a <= b)),
{
}

/// An integer alone is the single entry it names.
pub proof fn lemma_single_entry(t: Seq<char>, n: nat)
    requires
        writes_number(t, n),
        n <= u32::MAX,
    ensures
        spec_range_from_parts(t, Seq::empty(), Seq::empty()) == Ok::<EntriesRange, EntriesRangeError>(
            EntriesRange { start: Some(n as u32), end: Some(n as u32) },
        ),
{
    lemma_parse_digits(t, n, u32::MAX as nat);
}

/// An integer followed by `:` is that entry and every one after it.
pub proof fn lemma_open_end(t: Seq<char>, n: nat)
    requires
        writes_number(t, n),
        n <= u32::MAX,
    ensures
        spec_range_from_parts(t, seq![':'], Seq::empty()) == Ok::<EntriesRange, EntriesRangeError>(
            EntriesRange { start: Some(n as u32), end: None },
        ),
{
    lemma_parse_digits(t, n, u32::MAX as nat);
}

/// `:` followed by an integer is every entry up to that one.
pub proof fn lemma_open_start(u: Seq<char>, m: nat)
    requires
        writes_number(u, m),
        m <= u32::MAX,
    ensures
        spec_range_from_parts(Seq::empty(), seq![':'], u) == Ok::<EntriesRange, EntriesRangeError>(
            EntriesRange { start: None, end: Some(m as u32) },
        ),
{
    lemma_parse_digits(u, m, u32::MAX as nat);
}

/// Two integers separated by `:` are the entries from the first to the
/// second, and are refused where the second is smaller.
pub proof fn lemma_closed_range(t: Seq<char>, n: nat, u: Seq<char>, m: nat)
    requires
        writes_number(t, n),
        writes_number(u, m),
        n <= u32::MAX,
        m <= u32::MAX,
    ensures
        spec_range_from_parts(t, seq![':'], u) == if m < n {
            Err::<EntriesRange, EntriesRangeError>(EntriesRangeError::EndBeforeStart)
        } else {
            Ok(EntriesRange { start: Some(n as u32), end: Some(m as u32) })
        },
{
    lemma_parse_digits(t, n, u32::MAX as nat);
    lemma_parse_digits(u, m, u32::MAX as nat);
}

/// A number past `u32::MAX` is refused as a start or as an end.
pub proof fn lemma_bound_too_large(t: Seq<char>, n: nat, separator: Seq<char>, u: Seq<char>)
    requires
        writes_number(t, n),
        n > u32::MAX,
    ensures
        spec_range_from_parts(t, separator, u) == Err::<EntriesRange, EntriesRangeError>(
            EntriesRangeError::InvalidStart,
        ),
        spec_range_from_parts(Seq::empty(), separator, t) == Err::<EntriesRange, EntriesRangeError>(
            EntriesRangeError::InvalidEnd,
        ),
{
    lemma_parse_digits(t, n, u32::MAX as nat);
}

/// No numbers at all, with or without `:`, leave both ends open.
pub proof fn lemma_whole_history(separator: Seq<char>)
    ensures
        spec_range_from_parts(Seq::empty(), separator, Seq::empty()) == Ok::<EntriesRange, EntriesRangeError>(
            EntriesRange { start: None, end: None },
        ),
{
}

/// Groups 1, 2 and 3 of a match are read as the start, the separator and the
/// end, in that order, and group 0 plays no part.
pub proof fn lemma_captures_read_as_parts(g: Seq<Option<Seq<char>>>)
    requires
        g.len() >= 4,
        g[1] is Some,
        g[2] is Some,
        g[3] is Some,
    ensures
        spec_range_from_captures(Some(g)) == spec_range_from_parts(g[1]->0, g[2]->0, g[3]->0),
{
}

/// The regex engine matched `s` against `ENTRIES_RANGE_PATTERN` with `start`,
/// `separator` and `end` as groups 1, 2 and 3.
pub open spec fn matched_as(s: Seq<char>, start: Seq<char>, separator: Seq<char>, end: Seq<char>) -> bool {
    &&& regex_captures(ENTRIES_RANGE_PATTERN@, s) matches Some(Some(g))
    &&& g.len() >= 4
    &&& g[1] == Some(start)
    &&& g[2] == Some(separator)
    &&& g[3] == Some(end)
}

/// A whole RANGE text is read from its matched pieces, whatever they are.
pub proof fn lemma_text_read_as_parts(s: Seq<char>, start: Seq<char>, separator: Seq<char>, end: Seq<char>)
    requires
        matched_as(s, start, separator, end),
    ensures
        spec_str_to_entries_range(s) == spec_range_from_parts(start, separator, end),
{
}

/// A text that the pattern does not match is no RANGE, and a pattern that the
/// engine refuses refuses every text.
pub proof fn lemma_text_unmatched(s: Seq<char>)
    ensures
        regex_captures(ENTRIES_RANGE_PATTERN@, s) == Some(None::<Seq<Option<Seq<char>>>>)
            ==> spec_str_to_entries_range(s) == Err::<EntriesRange, EntriesRangeError>(
            EntriesRangeError::InvalidRange,
        ),
        regex_captures(ENTRIES_RANGE_PATTERN@, s) is None ==> spec_str_to_entries_range(s) == Err::<
            EntriesRange,
            EntriesRangeError,
        >(EntriesRangeError::PatternRejected),
{
}

/// A text that is an integer `n` with no separator is the single entry `n`,
/// for every `n` up to `u32::MAX`.
pub proof fn lemma_text_single_entry(s: Seq<char>, t: Seq<char>, u: Seq<char>, n: nat)
    requires
        matched_as(s, t, Seq::empty(), u),
        writes_number(t, n),
        n <= u32::MAX,
    ensures
        spec_str_to_entries_range(s) == Ok::<EntriesRange, EntriesRangeError>(
            EntriesRange { start: Some(n as u32), end: Some(n as u32) },
        ),
{
    lemma_parse_digits(t, n, u32::MAX as nat);
}

/// A text that is an integer `n` followed by `:` is entry `n` and every later
/// one, for every `n` up to `u32::MAX`.
pub proof fn lemma_text_open_end(s: Seq<char>, t: Seq<char>, separator: Seq<char>, n: nat)
    requires
        matched_as(s, t, separator, Seq::empty()),
        separator.len() > 0,
        writes_number(t, n),
        n <= u32::MAX,
    ensures
        spec_str_to_entries_range(s) == Ok::<EntriesRange, EntriesRangeError>(
            EntriesRange { start: Some(n as u32), end: None },
        ),
{
    lemma_parse_digits(t, n, u32::MAX as nat);
}

/// A text with no start and an integer `m` as its end is every entry up to
/// `m`, for every `m` up to `u32::MAX`.
pub proof fn lemma_text_open_start(s: Seq<char>, separator: Seq<char>, u: Seq<char>, m: nat)
    requires
        matched_as(s, Seq::empty(), separator, u),
        writes_number(u, m),
        m <= u32::MAX,
    ensures
        spec_str_to_entries_range(s) == Ok::<EntriesRange, EntriesRangeError>(
            EntriesRange { start: None, end: Some(m as u32) },
        ),
{
    lemma_parse_digits(u, m, u32::MAX as nat);
}

/// A text of two integers `n` and `m` around a separator is the entries from
/// `n` to `m`, and is refused where `m < n`.
pub proof fn lemma_text_closed_range(s: Seq<char>, t: Seq<char>, separator: Seq<char>, u: Seq<char>, n: nat, m: nat)
    requires
        matched_as(s, t, separator, u),
        separator.len() > 0,
        writes_number(t, n),
        writes_number(u, m),
        n <= u32::MAX,
        m <= u32::MAX,
    ensures
        spec_str_to_entries_range(s) == if m < n {
            Err::<EntriesRange, EntriesRangeError>(EntriesRangeError::EndBeforeStart)
        } else {
            Ok(EntriesRange { start: Some(n as u32), end: Some(m as u32) })
        },
{
    lemma_parse_digits(t, n, u32::MAX as nat);
    lemma_parse_digits(u, m, u32::MAX as nat);
}

/// A text with no numbers is the whole history.
pub proof fn lemma_text_whole_history(s: Seq<char>, separator: Seq<char>)
    requires
        matched_as(s, Seq::empty(), separator, Seq::empty()),
    ensures
        spec_str_to_entries_range(s) == Ok::<EntriesRange, EntriesRangeError>(
            EntriesRange { start: None, end: None },
        ),
{
}

/// A start or an end past `u32::MAX` is refused, whatever else the text holds.
pub proof fn lemma_text_bound_too_large(s: Seq<char>, start: Seq<char>, separator: Seq<char>, end: Seq<char>, n: nat)
    requires
        matched_as(s, start, separator, end),
        n > u32::MAX,
    ensures
        writes_number(start, n) ==> spec_str_to_entries_range(s) == Err::<EntriesRange, EntriesRangeError>(
            EntriesRangeError::InvalidStart,
        ),
        start.len() == 0 && writes_number(end, n) ==> spec_str_to_entries_range(s) == Err::<
            EntriesRange,
            EntriesRangeError,
        >(EntriesRangeError::InvalidEnd),
{
    if writes_number(start, n) {
        lemma_parse_digits(start, n, u32::MAX as nat);
    }
    if writes_number(end, n) {
        lemma_parse_digits(end, n, u32::MAX as nat);
    }
}

fn read_bound(digits: &str, err: EntriesRangeError) -> (res: Result<Option<u32>, EntriesRangeError>)
    ensures
        res == spec_bound(digits@, err),
{
    if digits.is_empty() {
        Ok(None)
    } else {
        match parse_unsigned(digits, u32::MAX as u64) {
            Ok(n) => {
                proof {
                    crate::decimal::lemma_parsed_within_max(digits@, u32::MAX as nat);
                }
                Ok(Some(n as u32))
            },
            Err(_) => Err(err),
        }
    }
}

fn range_from_parts(start: &str, separator: &str, end: &str) -> (res: Result<EntriesRange, EntriesRangeError>)
    ensures
        res == spec_range_from_parts(start@, separator@, end@),
{
    let first = read_bound(start, EntriesRangeError::InvalidStart)?;
    let last = if first.is_some() && separator.is_empty() {
        first
    } else {
        read_bound(end, EntriesRangeError::InvalidEnd)?
    };
    if let (Some(a), Some(b)) = (first, last) {
        if b < a {
            return Err(EntriesRangeError::EndBeforeStart);
        }
    }
    Ok(EntriesRange { start: first, end: last })
}

/// Reads a RANGE from the capture groups that a match of
/// `ENTRIES_RANGE_PATTERN` gives, group 0 first.
pub fn entries_range_from_captures(groups: &Option<Vec<Option<String>>>) -> (res: Result<EntriesRange, EntriesRangeError>)
    ensures
        res == spec_range_from_captures(captures_view(*groups)),
{
    match groups {
        None => Err(EntriesRangeError::InvalidRange),
        Some(g) => {
            if g.len() < 4 {
                return Err(EntriesRangeError::InvalidRange);
            }
            let ghost view = captures_view(*groups)->0;
            assert(view[1] == (match g@[1] { Some(t) => Some(t@), None => None::<Seq<char>> }));
            assert(view[2] == (match g@[2] { Some(t) => Some(t@), None => None::<Seq<char>> }));
            assert(view[3] == (match g@[3] { Some(t) => Some(t@), None => None::<Seq<char>> }));
            match (&g[1], &g[2], &g[3]) {
                (Some(a), Some(b), Some(c)) => range_from_parts(a.as_str(), b.as_str(), c.as_str()),
                _ => Err(EntriesRangeError::InvalidRange),
            }
        },
    }
}

/// Reads a RANGE of history entries: an integer, an integer followed by `:`,
/// `:` followed by an integer, two integers separated by `:`, or nothing.
pub fn str_to_entries_range(s: &str) -> (res: Result<EntriesRange, EntriesRangeError>)
    ensures
        res == spec_str_to_entries_range(s@),
{
    match captures_of(ENTRIES_RANGE_PATTERN, s) {
        Err(_) => Err(EntriesRangeError::PatternRejected),
        Ok(groups) => entries_range_from_captures(&groups),
    }
}

} // verus!

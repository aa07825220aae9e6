//! Best-effort extraction of the failing row from what a server says.
//!
//! Two wordings are known: `is violated at row N` for a constraint, and `(at row N)` for
//! bytes that could not be parsed. `(at row 1)` is no hint: it is what a payload gets that
//! is malformed from its first byte on.
use vstd::prelude::*;

use crate::error::Error;
use crate::text::{self, chars_between, chars_of, find, parse_u64};

verus! {

/// Where an insert failed.
#[derive(Debug, Clone, Copy, PartialEq, Eq, Structural)]
#[non_exhaustive]
pub struct FailureLocation {
    /// Counted from 1, as the server does.
    pub row: u64,
    pub category: FailureCategory,
}

/// Why a row failed.
#[derive(Debug, Clone, Copy, PartialEq, Eq, Structural)]
#[non_exhaustive]
pub enum FailureCategory {
    /// The row violates a constraint of the table.
    Constraint,
    /// The bytes of the row could not be read.
    Parse,
}

/// What follows the first place at which `needle` stands.
pub open spec fn after_first(s: Seq<char>, needle: Seq<char>) -> Option<Seq<char>> {
    match text::first_index(s, needle, 0) {
        Some(i) => Some(s.skip(i + needle.len())),
        None => None,
    }
}

/// How many digits a text starts with.
pub open spec fn leading_digits(s: Seq<char>) -> nat
    decreases s.len(),
{
    if s.len() > 0 && text::is_digit(s[0]) {
        1 + leading_digits(s.skip(1))
    } else {
        0
    }
}

/// The number that a text starts with, where it fits in 64 bits.
pub open spec fn leading_number(s: Seq<char>) -> Option<nat> {
    text::parsed_uint(s.take(leading_digits(s) as int), u64::MAX as nat)
}

/// The number that follows the first place at which `needle` stands.
pub open spec fn number_after(s: Seq<char>, needle: Seq<char>) -> Option<nat> {
    match after_first(s, needle) {
        Some(rest) => leading_number(rest),
        None => None,
    }
}

/// The failing row that a message names. A constraint is looked for first.
pub open spec fn location_in(msg: Seq<char>) -> Option<FailureLocation> {
    match number_after(msg, "is violated at row "@) {
        Some(row) => Some(
            FailureLocation { row: row as u64, category: FailureCategory::Constraint },
        ),
        None => match number_after(msg, "(at row "@) {
            Some(row) => if row == 1 {
                None
            } else {
                Some(FailureLocation { row: row as u64, category: FailureCategory::Parse })
            },
            None => None,
        },
    }
}

/// The failing row that an error names. Only a response as a text names one.
pub open spec fn location_in_error(e: Error) -> Option<FailureLocation> {
    match e {
        Error::BadResponse(s) => location_in(s@),
        _ => None,
    }
}

/// What follows the first place at which `needle` stands.
pub fn find_after(haystack: &[char], needle: &[char]) -> (r: Option<Vec<char>>)
    ensures
        (match r {
            Some(v) => after_first(haystack@, needle@) == Some(v@),
            None => after_first(haystack@, needle@) is None,
        }),
{
    match find(haystack, needle) {
        Some(i) => {
            let n: usize = needle.len();
            let end: usize = haystack.len();
            proof {
                assert(haystack@.subrange(i + n, haystack@.len() as int) =~= haystack@.skip(i + n));
            }
            Some(chars_between(haystack, i + n, end))
        },
        None => None,
    }
}

/// The number that a text starts with.
pub fn parse_uint(s: &[char]) -> (r: Option<u64>)
    ensures
        (match r {
            Some(v) => leading_number(s@) == Some(v as nat),
            None => leading_number(s@) is None,
        }),
{
    let mut end: usize = 0;
    proof {
        assert(s@.skip(0) =~= s@);
    }
    while end < s.len() && '0' <= s[end] && s[end] <= '9'
        invariant
            end <= s@.len(),
            leading_digits(s@) == end + leading_digits(s@.skip(end as int)),
        decreases s@.len() - end,
    {
        proof {
            assert(s@.skip(end as int).skip(1) =~= s@.skip(end + 1));
        }
        end += 1;
    }
    let digits = chars_between(s, 0, end);
    proof {
        assert(digits@ =~= s@.take(leading_digits(s@) as int));
    }
    parse_u64(digits.as_slice())
}

/// The failing row that a message names.
pub fn parse_failure_location(msg: &str) -> (r: Option<FailureLocation>)
    ensures
        r == location_in(msg@),
{
    let chars = chars_of(msg);
    let violated = chars_of("is violated at row ");
    if let Some(after) = find_after(chars.as_slice(), violated.as_slice()) {
        if let Some(row) = parse_uint(after.as_slice()) {
            return Some(FailureLocation { row, category: FailureCategory::Constraint });
        }
    }
    let at_row = chars_of("(at row ");
    if let Some(after) = find_after(chars.as_slice(), at_row.as_slice()) {
        if let Some(row) = parse_uint(after.as_slice()) {
            if row == 1 {
                return None;
            }
            return Some(FailureLocation { row, category: FailureCategory::Parse });
        }
    }
    None
}

/// The failing row that an error names. The row is counted within the batch that the
/// server received; for a distributed table it is that of a shard.
#[must_use]
pub fn failing_row_from_error(err: &Error) -> (r: Option<FailureLocation>)
    ensures
        r == location_in_error(*err),
{
    match err {
        Error::BadResponse(s) => parse_failure_location(s.as_str()),
        _ => None,
    }
}

/// A row number that was written in decimal behind the wording for a constraint is the one
/// that is found, whatever else the message says behind it, so long as no digit follows.
pub proof fn constraint_row_is_found(before: Seq<char>, row: u64, after: Seq<char>)
    requires
        after.len() > 0 ==> !text::is_digit(after[0]),
        text::first_index(
            before + "is violated at row "@ + text::decimal(row as nat) + after,
            "is violated at row "@,
            0,
        ) == Some(before.len() as int),
    ensures
        location_in(before + "is violated at row "@ + text::decimal(row as nat) + after) == Some(
            FailureLocation { row, category: FailureCategory::Constraint },
        ),
{
    let needle = "is violated at row "@;
    let digits = text::decimal(row as nat);
    let msg = before + needle + digits + after;
    let rest = msg.skip((before.len() + needle.len()) as int);
    assert(rest =~= digits + after);
    text::decimal_reads_back(row as nat);
    lemma_leading_digits(digits, after);
    assert(rest.take(digits.len() as int) =~= digits);
    lemma_plain_digits(digits, row as nat);
}

/// A row that could not be read is found likewise where the message names no constraint. Row 1 is none:
/// the server counts it so where it cannot tell.
pub proof fn unreadable_rows_are_found(before: Seq<char>, row: u64, after: Seq<char>)
    requires
        after.len() > 0 ==> !text::is_digit(after[0]),
        text::first_index(
            before + "(at row "@ + text::decimal(row as nat) + after,
            "is violated at row "@,
            0,
        ) is None,
        text::first_index(
            before + "(at row "@ + text::decimal(row as nat) + after,
            "(at row "@,
            0,
        ) == Some(before.len() as int),
    ensures
        location_in(before + "(at row "@ + text::decimal(row as nat) + after) == if row == 1 {
            None
        } else {
            Some(FailureLocation { row, category: FailureCategory::Parse })
        },
{
    let needle = "(at row "@;
    let digits = text::decimal(row as nat);
    let msg = before + needle + digits + after;
    let rest = msg.skip((before.len() + needle.len()) as int);
    assert(rest =~= digits + after);
    text::decimal_reads_back(row as nat);
    lemma_leading_digits(digits, after);
    assert(rest.take(digits.len() as int) =~= digits);
    lemma_plain_digits(digits, row as nat);
}

/// A message that words neither names no row, and no error but an answer of the server does.
pub proof fn other_messages_name_no_row(msg: Seq<char>, e: Error)
    requires
        text::first_index(msg, "is violated at row "@, 0) is None,
        text::first_index(msg, "(at row "@, 0) is None,
    ensures
        location_in(msg) is None,
        !(e is BadResponse) ==> location_in_error(e) is None,
        e matches Error::BadResponse(s) ==> location_in_error(e) == location_in(s@),
{
}

proof fn lemma_leading_digits(digits: Seq<char>, after: Seq<char>)
    requires
        text::all_digits(digits),
        after.len() > 0 ==> !text::is_digit(after[0]),
    ensures
        leading_digits(digits + after) == digits.len(),
    decreases digits.len(),
{
    if digits.len() > 0 {
        let rest = digits.skip(1);
        assert((digits + after).skip(1) =~= rest + after);
        assert forall|i: int| 0 <= i < rest.len() implies text::is_digit(#[trigger] rest[i]) by {
            assert(rest[i] == digits[i + 1]);
        }
        lemma_leading_digits(rest, after);
    } else {
        assert(digits + after =~= after);
    }
}

proof fn lemma_plain_digits(digits: Seq<char>, value: nat)
    requires
        digits.len() > 0,
        text::all_digits(digits),
        text::digits_value(digits) == value,
        value <= u64::MAX,
    ensures
        text::parsed_uint(digits, u64::MAX as nat) == Some(value),
{
    assert(text::is_digit(digits[0]));
}

} // verus!

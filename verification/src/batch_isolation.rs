//! Batch inserts that isolate the rows a server rejects.
//!
//! The whole batch is sent as one insert. Where the server rejects it, the batch is halved
//! and each half is sent on its own, down to single rows, whose errors are what is wrong
//! with them. A [`BatchIsolation`] decides which sub-batch is sent next; its caller sends
//! it and hands back the answer.
//!
//! Two errors have nothing to do with the rows and fail the batch as a whole: a connection that
//! fails at the first insert, and a missing table before any sub-batch was accepted.
//!
//! The destination has to deduplicate blocks, or a retried sub-batch may be stored twice.
//! With a token base that is stable across retries, every sub-batch carries a token made of
//! the base and its row range, so that a retry of the whole batch uses the same tokens.
use vstd::prelude::*;

use crate::error::{Error, Result};
use crate::text::{self, push_decimal};

verus! {

/// How many inserts a batch may take by default.
pub const DEFAULT_MAX_ROUND_TRIPS: u64 = 2048;

/// What became of a batch: each row was either inserted or is listed as failed.
#[derive(Debug)]
#[non_exhaustive]
pub struct BatchInsertResult<T> {
    /// Rows that the server confirmed.
    pub succeeded_rows: u64,
    /// Rows that were rejected, each with the error of the smallest sub-batch that held it.
    pub failed: Vec<(T, Error)>,
    /// How many inserts were sent.
    pub round_trips: u64,
}

impl<T> BatchInsertResult<T> {
    /// Whether no row failed.
    #[must_use]
    pub fn is_clean(&self) -> (r: bool)
        ensures
            r == (self.failed@.len() == 0),
    {
        self.failed.len() == 0
    }
}

/// The code of the server's exception for a table that does not exist.
pub const UNKNOWN_TABLE: u32 = 60;

/// An error that stops every insert, whatever its rows: one of the transport where it is the
/// answer to the first insert, or a table that does not exist.
pub open spec fn blocks_progress(e: Error, first: bool) -> bool {
    match e {
        Error::Network(_) => first,
        Error::TimedOut => first,
        Error::ServerException { code, .. } => code == UNKNOWN_TABLE,
        _ => false,
    }
}

fn blocks(e: &Error, first: bool) -> (r: bool)
    ensures
        r == blocks_progress(*e, first),
{
    match e {
        Error::Network(_) | Error::TimedOut => first,
        Error::ServerException { code, .. } => *code == UNKNOWN_TABLE,
        _ => false,
    }
}

/// No insert was accepted.
pub open spec fn none_accepted(answers: Seq<Result<()>>) -> bool {
    forall|i: int| 0 <= i < answers.len() ==> (#[trigger] answers[i]) is Err
}

/// The error that ended the search: the first one that stops every insert, if no insert was
/// accepted before it.
pub open spec fn blocking(answers: Seq<Result<()>>) -> Option<Error>
    decreases answers.len(),
{
    if answers.len() == 0 {
        None
    } else {
        match blocking(answers.drop_last()) {
            Some(e) => Some(e),
            None => match answers.last() {
                Err(e) => if none_accepted(answers.drop_last()) && blocks_progress(
                    e,
                    answers.len() == 1,
                ) {
                    Some(e)
                } else {
                    None
                },
                Ok(_) => None,
            },
        }
    }
}

/// Where the first insert fails with an error that stops every insert, the search ends with that
/// error.
pub proof fn blocked_batches_fail_as_a_whole(answers: Seq<Result<()>>, e: Error)
    requires
        answers.len() > 0,
        answers[0] == std::result::Result::<(), Error>::Err(e),
        blocks_progress(e, true),
    ensures
        blocking(answers) == Some(e),
    decreases answers.len(),
{
    let before = answers.drop_last();
    if before.len() > 0 {
        blocked_batches_fail_as_a_whole(before, e);
    } else {
        assert(blocking(before) is None);
    }
}

/// Behind the first insert, an error of the transport does not end the search: it is an answer
/// like any other.
pub proof fn later_transport_errors_end_no_search(answers: Seq<Result<()>>, e: Error)
    requires
        answers.len() > 0,
        blocking(answers) is None,
        e is Network || e is TimedOut,
    ensures
        blocking(answers.push(Err(e))) is None,
{
    assert(answers.push(Err(e)).drop_last() =~= answers);
}

/// An exception of the server ends the search only if it says that the table does not exist: with
/// any other code it is an answer like any other, so that a batch that is rejected for its rows is
/// always halved.
pub proof fn other_exceptions_end_no_search(answers: Seq<Result<()>>, e: Error)
    requires
        blocking(answers) is None,
        e matches Error::ServerException { code, .. } && code != 60,
    ensures
        blocking(answers.push(Err(e))) is None,
{
    assert(answers.push(Err(e)).drop_last() =~= answers);
}

/// A table that does not exist ends the search where every insert so far has failed, and only
/// there.
pub proof fn missing_tables_end_the_search(answers: Seq<Result<()>>, e: Error)
    requires
        blocking(answers) is None,
        e matches Error::ServerException { code, .. } && code == 60,
    ensures
        blocking(answers.push(Err(e))) == if exists|i: int|
            0 <= i < answers.len() && (#[trigger] answers[i]) is Ok {
            None
        } else {
            Some(e)
        },
{
    assert(answers.push(Err(e)).drop_last() =~= answers);
    if exists|i: int| 0 <= i < answers.len() && (#[trigger] answers[i]) is Ok {
        let i = choose|i: int| 0 <= i < answers.len() && (#[trigger] answers[i]) is Ok;
        assert(!(answers[i] is Err));
        assert(!none_accepted(answers));
    } else {
        assert forall|i: int| 0 <= i < answers.len() implies (#[trigger] answers[i]) is Err by {
            assert(!(answers[i] is Ok));
        }
    }
}

/// A transport that fails at the first insert ends the search with that error.
pub proof fn first_transport_errors_end_the_search(e: Error)
    requires
        e is Network || e is TimedOut,
    ensures
        blocking(seq![Err(e)]) == Some(e),
{
    let answers: Seq<Result<()>> = seq![Err(e)];
    assert(blocking(answers.drop_last()) is None);
}

/// No other error ends the search, and no insert that is accepted does.
pub proof fn other_answers_end_no_search(answers: Seq<Result<()>>, answer: Result<()>)
    requires
        blocking(answers) is None,
        answer matches Err(e) ==> !(e is Network || e is TimedOut || e is ServerException),
    ensures
        blocking(answers.push(answer)) is None,
        blocking(Seq::<Result<()>>::empty()) is None,
{
    assert(answers.push(answer).drop_last() =~= answers);
}

/// A search that has ended stays ended, with the error that ended it.
pub proof fn ended_searches_keep_their_error(answers: Seq<Result<()>>, answer: Result<()>)
    requires
        blocking(answers) is Some,
    ensures
        blocking(answers.push(answer)) == blocking(answers),
{
    assert(answers.push(answer).drop_last() =~= answers);
}

/// Once an insert was accepted, no error ends the search: what fails then is listed row by row.
pub proof fn accepted_inserts_keep_the_search_going(answers: Seq<Result<()>>, more: Seq<Result<()>>)
    requires
        blocking(answers) is None,
        !none_accepted(answers),
    ensures
        blocking(answers + more) is None,
    decreases more.len(),
{
    if more.len() == 0 {
        assert(answers + more =~= answers);
    } else {
        accepted_inserts_keep_the_search_going(answers, more.drop_last());
        let all = answers + more;
        assert(all.drop_last() =~= answers + more.drop_last());
        let i = choose|i: int| 0 <= i < answers.len() && !((#[trigger] answers[i]) is Err);
        assert(all.drop_last()[i] == answers[i]);
    }
}

/// The token of a sub-batch: `base/first-last`, by its first and its last row.
pub open spec fn token(base: Seq<char>, start: nat, len: nat) -> Seq<char> {
    base + seq!['/'] + text::decimal(start) + seq!['-'] + text::decimal((start + len - 1) as nat)
}

/// A token starts with its base and names the first and the last row of the sub-batch.
pub proof fn tokens_name_their_rows(base: Seq<char>, first: nat, last: nat)
    requires
        first <= last,
    ensures
        token(base, first, (last - first + 1) as nat) == base + seq!['/'] + text::decimal(first)
            + seq!['-'] + text::decimal(last),
{
}

/// The token of a sub-batch of `len` rows from `start` on.
pub fn sub_batch_token(base: &str, start: usize, len: usize) -> (out: String)
    requires
        0 < len,
        start + len - 1 <= usize::MAX,
    ensures
        out@ == token(base@, start as nat, len as nat),
{
    let mut out = base.to_owned();
    out.push('/');
    push_decimal(&mut out, start as u64);
    out.push('-');
    push_decimal(&mut out, (start + (len - 1)) as u64);
    proof {
        assert(out@ =~= token(base@, start as nat, len as nat));
    }
    out
}

proof fn lemma_digits_then_dash(a: Seq<char>, b: Seq<char>, x: Seq<char>, y: Seq<char>)
    requires
        text::all_digits(a),
        text::all_digits(b),
        a + seq!['-'] + x == b + seq!['-'] + y,
    ensures
        a == b,
        x == y,
{
    let l = a + seq!['-'] + x;
    let r = b + seq!['-'] + y;
    if a.len() < b.len() {
        assert(l[a.len() as int] == '-');
        assert(r[a.len() as int] == b[a.len() as int]);
        assert(text::is_digit(b[a.len() as int]));
    } else if b.len() < a.len() {
        assert(r[b.len() as int] == '-');
        assert(l[b.len() as int] == a[b.len() as int]);
        assert(text::is_digit(a[b.len() as int]));
    }
    assert(a =~= l.take(a.len() as int));
    assert(b =~= r.take(b.len() as int));
    assert(x =~= l.skip((a.len() + 1) as int));
    assert(y =~= r.skip((b.len() + 1) as int));
}

/// Under one base, different sub-batches have different tokens.
pub proof fn tokens_are_distinct(
    base: Seq<char>,
    start1: nat,
    len1: nat,
    start2: nat,
    len2: nat,
)
    requires
        0 < len1,
        0 < len2,
        token(base, start1, len1) == token(base, start2, len2),
    ensures
        start1 == start2,
        len1 == len2,
{
    let a = text::decimal(start1);
    let b = text::decimal(start2);
    let x = text::decimal((start1 + len1 - 1) as nat);
    let y = text::decimal((start2 + len2 - 1) as nat);
    text::decimal_reads_back(start1);
    text::decimal_reads_back(start2);
    let p = base.len() + 1;
    assert(a + seq!['-'] + x =~= token(base, start1, len1).skip(p as int));
    assert(b + seq!['-'] + y =~= token(base, start2, len2).skip(p as int));
    lemma_digits_then_dash(a, b, x, y);
    text::decimal_injective(start1, start2);
    text::decimal_injective((start1 + len1 - 1) as nat, (start2 + len2 - 1) as nat);
}

/// A run of rows of the batch.
pub struct SubBatch {
    pub start: nat,
    pub len: nat,
}

/// How far a search for the rejected rows has come: the sub-batches that are still to be
/// sent, the next one last; the positions of the rows that failed; how many rows were
/// inserted; and how many inserts were answered.
pub struct Search {
    pub work: Seq<SubBatch>,
    pub failed: Seq<int>,
    pub succeeded: nat,
    pub round_trips: nat,
}

/// The search at its start: the whole batch is to be sent.
pub open spec fn initial(n: nat) -> Search {
    Search {
        work: seq![SubBatch { start: 0, len: n }],
        failed: Seq::empty(),
        succeeded: 0,
        round_trips: 0,
    }
}

/// The search without empty sub-batches at its end.
pub open spec fn pruned(s: Search) -> Search
    decreases s.work.len(),
{
    if s.work.len() > 0 && s.work.last().len == 0 {
        pruned(Search { work: s.work.drop_last(), ..s })
    } else {
        s
    }
}

/// The search after the answer to its next sub-batch: accepted, its rows are inserted;
/// rejected, its one row failed or its halves are to be sent, the left one first.
pub open spec fn answered(s: Search, accepted: bool) -> Search {
    let top = s.work.last();
    let rest = s.work.drop_last();
    if accepted {
        Search {
            work: rest,
            succeeded: s.succeeded + top.len,
            round_trips: s.round_trips + 1,
            ..s
        }
    } else if top.len == 1 {
        Search {
            work: rest,
            failed: s.failed.push(top.start as int),
            round_trips: s.round_trips + 1,
            ..s
        }
    } else {
        let mid = top.len / 2;
        Search {
            work: rest.push(
                SubBatch { start: top.start + mid, len: (top.len - mid) as nat },
            ).push(SubBatch { start: top.start, len: mid }),
            round_trips: s.round_trips + 1,
            ..s
        }
    }
}

/// Only sub-batches without rows are left out, and only until one with rows is the next.
pub proof fn only_empty_sub_batches_are_left_out(s: Search)
    ensures
        ({
            let t = pruned(s);
            &&& t.work.is_prefix_of(s.work)
            &&& forall|i: int| t.work.len() <= i < s.work.len() ==> (#[trigger] s.work[i]).len == 0
            &&& t.work.len() > 0 ==> t.work.last().len > 0
            &&& t.failed == s.failed
            &&& t.succeeded == s.succeeded
            &&& t.round_trips == s.round_trips
        }),
    decreases s.work.len(),
{
    if s.work.len() > 0 && s.work.last().len == 0 {
        only_empty_sub_batches_are_left_out(Search { work: s.work.drop_last(), ..s });
        let t = pruned(s);
        assert(t.work =~= s.work.subrange(0, t.work.len() as int));
        assert forall|i: int| t.work.len() <= i < s.work.len() implies (#[trigger] s.work[i]).len
            == 0 by {
            if i < s.work.len() - 1 {
                assert(s.work.drop_last()[i] == s.work[i]);
            }
        }
    } else {
        assert(s.work =~= s.work.subrange(0, s.work.len() as int));
    }
}

/// A sub-batch that was accepted is inserted as a whole, and nothing else changes.
pub proof fn accepted_sub_batches_are_inserted(s: Search)
    requires
        s.work.len() > 0,
    ensures
        ({
            let t = answered(s, true);
            &&& t.succeeded == s.succeeded + s.work.last().len
            &&& t.work == s.work.drop_last()
            &&& t.failed == s.failed
            &&& t.round_trips == s.round_trips + 1
        }),
{
}

/// A rejected sub-batch of several rows is sent again in two parts, the front one first, that differ
/// by one row at most and make up the whole. Nothing of it counts as inserted or failed by then.
pub proof fn rejected_sub_batches_are_halved(s: Search)
    requires
        s.work.len() > 0,
        s.work.last().len > 1,
    ensures
        ({
            let t = answered(s, false);
            let whole = s.work.last();
            let n = t.work.len();
            &&& n == s.work.len() + 1
            &&& t.work.take(n - 2) == s.work.drop_last()
            &&& t.work[n - 1].start == whole.start
            &&& t.work[n - 2].start == whole.start + t.work[n - 1].len
            &&& t.work[n - 1].len + t.work[n - 2].len == whole.len
            &&& t.work[n - 1].len <= t.work[n - 2].len <= t.work[n - 1].len + 1
            &&& t.succeeded == s.succeeded
            &&& t.failed == s.failed
            &&& t.round_trips == s.round_trips + 1
        }),
{
    let t = answered(s, false);
    assert(t.work.take(t.work.len() - 2) =~= s.work.drop_last());
}

/// A rejected sub-batch of one row is that row's failure, and nothing of it is sent again.
pub proof fn rejected_rows_fail(s: Search)
    requires
        s.work.len() > 0,
        s.work.last().len == 1,
    ensures
        ({
            let t = answered(s, false);
            &&& t.failed == s.failed.push(s.work.last().start as int)
            &&& t.work == s.work.drop_last()
            &&& t.succeeded == s.succeeded
            &&& t.round_trips == s.round_trips + 1
        }),
{
}

/// A search that is given up sends nothing more and keeps what it has found; each row of a sub-batch
/// that was still to be sent has failed.
pub proof fn given_up_searches_fail_what_is_left(s: Search, i: int, row: int)
    requires
        0 <= i < s.work.len(),
        s.work[i].start <= row < s.work[i].start + s.work[i].len,
    ensures
        ({
            let t = abandoned(s);
            &&& t.failed.contains(row)
            &&& s.failed.is_prefix_of(t.failed)
            &&& t.work.len() == 0
            &&& t.succeeded == s.succeeded
            &&& t.round_trips == s.round_trips
        }),
{
    let t = abandoned(s);
    let top = positions(s.work.last());
    let rest = all_positions(s.work.drop_last());
    assert(t.failed =~= s.failed + top + rest);
    assert(s.failed =~= t.failed.subrange(0, s.failed.len() as int));
    if i == s.work.len() - 1 {
        let k = row - s.work[i].start;
        assert(t.failed[s.failed.len() + k] == top[k]);
    } else {
        lemma_positions_hold(s.work.drop_last(), i, row);
        let k = choose|k: int| 0 <= k < rest.len() && rest[k] == row;
        assert(t.failed[s.failed.len() + top.len() + k] == rest[k]);
    }
}

proof fn lemma_positions_hold(work: Seq<SubBatch>, i: int, row: int)
    requires
        0 <= i < work.len(),
        work[i].start <= row < work[i].start + work[i].len,
    ensures
        all_positions(work).contains(row),
    decreases work.len(),
{
    let top = positions(work.last());
    let rest = all_positions(work.drop_last());
    if i == work.len() - 1 {
        let k = row - work[i].start;
        assert(all_positions(work)[rest.len() + k] == top[k]);
    } else {
        lemma_positions_hold(work.drop_last(), i, row);
        let k = choose|k: int| 0 <= k < rest.len() && rest[k] == row;
        assert(all_positions(work)[k] == rest[k]);
    }
}

/// The positions of the rows of a sub-batch.
pub open spec fn positions(b: SubBatch) -> Seq<int> {
    Seq::new(b.len, |i: int| b.start + i)
}

/// The positions of the rows of all sub-batches.
pub open spec fn all_positions(work: Seq<SubBatch>) -> Seq<int>
    decreases work.len(),
{
    if work.len() == 0 {
        Seq::empty()
    } else {
        all_positions(work.drop_last()) + positions(work.last())
    }
}

/// The search that is given up: all rows that are left count as failed, those of the next
/// sub-batch first.
pub open spec fn abandoned(s: Search) -> Search {
    Search {
        work: Seq::empty(),
        failed: s.failed + positions(s.work.last()) + all_positions(s.work.drop_last()),
        ..s
    }
}

/// The sub-batches from the last to the first cover the rows from `from` up to `n`.
pub open spec fn covers(work: Seq<SubBatch>, from: int, n: int) -> bool
    decreases work.len(),
{
    if work.len() == 0 {
        from == n
    } else {
        work.last().start == from && covers(work.drop_last(), from + work.last().len, n)
    }
}

/// What every search keeps: each row is inserted, failed or still to be sent, and no row
/// failed twice.
pub open spec fn consistent(s: Search, n: nat) -> bool {
    &&& covers(s.work, (s.succeeded + s.failed.len()) as int, n as int)
    &&& s.failed.no_duplicates()
    &&& forall|i: int| 0 <= i < s.failed.len() ==> 0 <= #[trigger] s.failed[i] < n
    &&& s.work.len() > 0 ==> forall|i: int|
        0 <= i < s.failed.len() ==> #[trigger] s.failed[i] < s.succeeded + s.failed.len()
}

proof fn lemma_covers_bound(work: Seq<SubBatch>, from: int, n: int)
    requires
        covers(work, from, n),
    ensures
        from <= n,
    decreases work.len(),
{
    if work.len() > 0 {
        lemma_covers_bound(work.drop_last(), from + work.last().len, n);
    }
}

/// A search starts out with every row still to be sent.
pub proof fn initial_is_consistent(n: nat)
    ensures
        consistent(initial(n), n),
{
    let w = initial(n).work;
    assert(w.drop_last() =~= Seq::empty());
    assert(covers(w.drop_last(), n as int, n as int));
}

/// No answer loses a row or counts one twice.
pub proof fn answers_keep_consistency(s: Search, n: nat, accepted: bool)
    requires
        consistent(s, n),
        s.work.len() > 0,
        s.work.last().len > 0,
    ensures
        consistent(answered(s, accepted), n),
{
    let top = s.work.last();
    let rest = s.work.drop_last();
    let from = (s.succeeded + s.failed.len()) as int;
    lemma_covers_bound(rest, from + top.len, n as int);
    if accepted {
    } else if top.len == 1 {
        let t = answered(s, accepted);
        assert forall|i: int, j: int| 0 <= i < t.failed.len() && 0 <= j < t.failed.len() && i
            != j implies t.failed[i] != t.failed[j] by {
            if i < s.failed.len() {
                assert(s.failed[i] < from);
            }
            if j < s.failed.len() {
                assert(s.failed[j] < from);
            }
        }
    } else {
        let mid = top.len / 2;
        let right = SubBatch { start: top.start + mid, len: (top.len - mid) as nat };
        let left = SubBatch { start: top.start, len: mid };
        let w = rest.push(right).push(left);
        assert(w.drop_last() =~= rest.push(right));
        assert(rest.push(right).drop_last() =~= rest);
        assert(covers(rest.push(right), from + mid, n as int));
    }
}

proof fn lemma_all_positions(work: Seq<SubBatch>, from: int, n: int)
    requires
        covers(work, from, n),
    ensures
        all_positions(work).len() == n - from,
        all_positions(work).no_duplicates(),
        forall|i: int|
            0 <= i < all_positions(work).len() ==> from <= #[trigger] all_positions(work)[i] < n,
    decreases work.len(),
{
    if work.len() > 0 {
        let rest = work.drop_last();
        let top = work.last();
        lemma_all_positions(rest, from + top.len, n);
        lemma_covers_bound(rest, from + top.len, n);
    }
}

/// Giving up loses no row and counts none twice: all rows that are left have failed.
pub proof fn abandoning_keeps_consistency(s: Search, n: nat)
    requires
        consistent(s, n),
        s.work.len() > 0,
    ensures
        consistent(abandoned(s), n),
        s.succeeded + abandoned(s).failed.len() == n,
{
    let from = (s.succeeded + s.failed.len()) as int;
    let top = s.work.last();
    let rest = s.work.drop_last();
    lemma_all_positions(rest, from + top.len, n as int);
    lemma_covers_bound(rest, from + top.len, n as int);
    let f = abandoned(s).failed;
    let a = s.failed.len();
    let b = a + top.len;
    assert forall|i: int| 0 <= i < f.len() implies 0 <= #[trigger] f[i] < n && (i < a ==> f[i]
        < from) && (a <= i < b ==> from <= f[i] < from + top.len) && (b <= i ==> from + top.len
        <= f[i]) by {
        if i < a {
            assert(f[i] == s.failed[i]);
        } else if i < b {
            assert(f[i] == positions(top)[i - a]);
        } else {
            assert(f[i] == all_positions(rest)[i - b]);
        }
    }
    assert forall|i: int, j: int| 0 <= i < f.len() && 0 <= j < f.len() && i != j implies f[i]
        != f[j] by {
        if i < a && j < a {
            assert(f[i] == s.failed[i] && f[j] == s.failed[j]);
        } else if a <= i < b && a <= j < b {
            assert(f[i] == positions(top)[i - a] && f[j] == positions(top)[j - a]);
        } else if b <= i && b <= j {
            assert(f[i] == all_positions(rest)[i - b] && f[j] == all_positions(rest)[j - b]);
        }
    }
}

/// One sub-batch comes behind another: it starts later, or at the same row and is shorter.
pub open spec fn comes_behind(b: SubBatch, a: SubBatch) -> bool {
    b.start > a.start || (b.start == a.start && b.len < a.len)
}

/// The sub-batches that a search hands out while it gets the given answers: the next one, and
/// one more behind each answer, as long as there are any.
pub open spec fn handed_out(s: Search, accepted: Seq<bool>) -> Seq<SubBatch>
    decreases accepted.len(),
{
    let p = pruned(s);
    if p.work.len() == 0 {
        Seq::empty()
    } else if accepted.len() == 0 {
        seq![p.work.last()]
    } else {
        seq![p.work.last()] + handed_out(answered(p, accepted[0]), accepted.skip(1))
    }
}

proof fn lemma_handed_out(s: Search, n: nat, accepted: Seq<bool>, after: SubBatch)
    requires
        consistent(s, n),
        forall|b: SubBatch|
            pruned(s).work.len() > 0 && b == pruned(s).work.last() ==> comes_behind(b, after),
    ensures
        forall|i: int|
            0 <= i < handed_out(s, accepted).len() ==> comes_behind(
                #[trigger] handed_out(s, accepted)[i],
                after,
            ) && handed_out(s, accepted)[i].len > 0,
        forall|i: int, j: int|
            0 <= i < j < handed_out(s, accepted).len() ==> comes_behind(
                #[trigger] handed_out(s, accepted)[j],
                #[trigger] handed_out(s, accepted)[i],
            ),
    decreases accepted.len(),
{
    lemma_pruned(s, n);
    let p = pruned(s);
    if p.work.len() > 0 && accepted.len() > 0 {
        let top = p.work.last();
        let t = answered(p, accepted[0]);
        answers_keep_consistency(p, n, accepted[0]);
        lemma_pruned(t, n);
        let rest = handed_out(t, accepted.skip(1));
        lemma_next_comes_behind(p, n, accepted[0]);
        lemma_handed_out(t, n, accepted.skip(1), top);
        let all = handed_out(s, accepted);
        assert(all == seq![top] + rest);
        assert forall|i: int| 0 <= i < all.len() implies comes_behind(#[trigger] all[i], after)
            && all[i].len > 0 by {
            assert(comes_behind(top, after));
            if i == 0 {
                assert(all[i] == top);
            } else {
                assert(all[i] == rest[i - 1]);
                assert(comes_behind(rest[i - 1], top));
            }
        }
        assert forall|i: int, j: int| 0 <= i < j < all.len() implies comes_behind(
            #[trigger] all[j],
            #[trigger] all[i],
        ) by {
            assert(all[j] == rest[j - 1]);
            if i > 0 {
                assert(all[i] == rest[i - 1]);
            } else {
                assert(comes_behind(rest[j - 1], top));
            }
        }
    }
}

proof fn lemma_next_comes_behind(p: Search, n: nat, accepted: bool)
    requires
        consistent(p, n),
        p.work.len() > 0,
        p.work.last().len > 0,
    ensures
        pruned(answered(p, accepted)).work.len() > 0 ==> comes_behind(
            pruned(answered(p, accepted)).work.last(),
            p.work.last(),
        ),
{
    let top = p.work.last();
    let t = answered(p, accepted);
    answers_keep_consistency(p, n, accepted);
    lemma_pruned(t, n);
    if !accepted && top.len > 1 {
        assert(t.work.last() == (SubBatch { start: top.start, len: top.len / 2 }));
    }
}

/// Within one search no range is handed out twice: each comes behind all that were handed out
/// before it. So under one base no token is used twice.
pub proof fn no_range_is_handed_out_twice(
    n: nat,
    accepted: Seq<bool>,
    base: Seq<char>,
    i: int,
    j: int,
)
    requires
        0 <= i < j < handed_out(initial(n), accepted).len(),
    ensures
        ({
            let a = handed_out(initial(n), accepted)[i];
            let b = handed_out(initial(n), accepted)[j];
            &&& comes_behind(b, a)
            &&& a != b
            &&& token(base, a.start, a.len) != token(base, b.start, b.len)
        }),
{
    let s = initial(n);
    initial_is_consistent(n);
    let p = pruned(s);
    lemma_pruned(s, n);
    let a = handed_out(s, accepted)[i];
    let b = handed_out(s, accepted)[j];
    let before = SubBatch { start: 0, len: n + 1 };
    assert(n > 0 ==> p == s);
    assert(n == 0 ==> p.work.len() == 0) by {
        if n == 0 {
            let t = Search { work: s.work.drop_last(), ..s };
            assert(pruned(t) == t);
        }
    }
    lemma_handed_out(s, n, accepted, before);
    assert(comes_behind(b, a));
    if token(base, a.start, a.len) == token(base, b.start, b.len) {
        tokens_are_distinct(base, a.start, a.len, b.start, b.len);
    }
}

proof fn lemma_pruned(s: Search, n: nat)
    requires
        consistent(s, n),
    ensures
        consistent(pruned(s), n),
        pruned(s).work.len() > 0 ==> pruned(s).work.last().len > 0,
        pruned(s).failed == s.failed,
        pruned(s).succeeded == s.succeeded,
        pruned(s).round_trips == s.round_trips,
    decreases s.work.len(),
{
    if s.work.len() > 0 && s.work.last().len == 0 {
        lemma_pruned(Search { work: s.work.drop_last(), ..s }, n);
    }
}

/// A search for the rows of a batch that a server rejects.
pub struct BatchIsolation<T> {
    work: Vec<(Vec<T>, usize)>,
    current: Option<(Vec<T>, usize)>,
    result: BatchInsertResult<T>,
    blocked: Option<Error>,
    max_round_trips: u64,
    rows: Ghost<Seq<T>>,
    failed_at: Ghost<Seq<int>>,
    answers: Ghost<Seq<Result<()>>>,
}

/// The row ranges of a list of sub-batches.
pub closed spec fn ranges<T>(work: Seq<(Vec<T>, usize)>) -> Seq<SubBatch> {
    Seq::new(
        work.len(),
        |i: int| SubBatch { start: work[i].1 as nat, len: work[i].0@.len() },
    )
}

/// A sub-batch holds the rows of its range.
pub closed spec fn holds_its_rows<T>(b: (Vec<T>, usize), rows: Seq<T>) -> bool {
    b.1 + b.0@.len() <= rows.len() && b.0@ == rows.subrange(b.1 as int, b.1 + b.0@.len())
}

impl<T> BatchIsolation<T> {
    /// The rows of the batch.
    pub closed spec fn rows(&self) -> Seq<T> {
        self.rows@
    }

    /// How far the search has come.
    pub closed spec fn search(&self) -> Search {
        Search {
            work: match self.current {
                Some(b) => ranges(self.work@.push(b)),
                None => ranges(self.work@),
            },
            failed: self.failed_at@,
            succeeded: self.result.succeeded_rows as nat,
            round_trips: self.result.round_trips as nat,
        }
    }

    /// The rows that failed, with their errors.
    pub closed spec fn failures(&self) -> Seq<(T, Error)> {
        self.result.failed@
    }

    /// The answers so far.
    pub closed spec fn answers(&self) -> Seq<Result<()>> {
        self.answers@
    }

    /// How many inserts may be sent.
    pub closed spec fn limit(&self) -> nat {
        self.max_round_trips as nat
    }

    /// A sub-batch was handed out and its answer is awaited.
    pub closed spec fn awaiting(&self) -> bool {
        self.current is Some
    }

    /// The invariant of a search.
    pub closed spec fn wf(&self) -> bool {
        &&& consistent(self.search(), self.rows@.len())
        &&& self.rows@.len() <= usize::MAX
        &&& self.result.round_trips <= self.max_round_trips
        &&& self.result.round_trips == self.answers@.len()
        &&& self.blocked == blocking(self.answers@)
        &&& (self.result.succeeded_rows == 0) == none_accepted(self.answers@)
        &&& self.current is Some ==> self.blocked is None && self.result.round_trips < self.max_round_trips
            && (self.current->0).0@.len() > 0 && holds_its_rows(self.current->0, self.rows@)
        &&& forall|i: int|
            0 <= i < self.work@.len() ==> holds_its_rows(#[trigger] self.work@[i], self.rows@)
        &&& self.result.failed@.len() == self.failed_at@.len()
        &&& forall|i: int|
            0 <= i < self.failed_at@.len() ==> (#[trigger] self.result.failed@[i]).0
                == self.rows@[self.failed_at@[i]]
    }

    /// A search over `rows` that sends at most `max_round_trips` inserts.
    pub fn new(rows: Vec<T>, max_round_trips: u64) -> (r: Self)
        ensures
            r.wf(),
            !r.awaiting(),
            r.rows() == rows@,
            r.search() == initial(rows@.len()),
            r.failures() == Seq::<(T, Error)>::empty(),
            r.limit() == max_round_trips,
            r.answers() == Seq::<Result<()>>::empty(),
    {
        let ghost all = rows@;
        let n: usize = rows.len();
        let mut work: Vec<(Vec<T>, usize)> = Vec::new();
        work.push((rows, 0));
        let r = BatchIsolation {
            work,
            current: None,
            result: BatchInsertResult { succeeded_rows: 0, failed: Vec::new(), round_trips: 0 },
            blocked: None,
            max_round_trips,
            rows: Ghost(all),
            failed_at: Ghost(Seq::empty()),
            answers: Ghost(Seq::empty()),
        };
        proof {
            initial_is_consistent(all.len());
            assert(all.subrange(0, all.len() as int) =~= all);
            assert(r.search().work =~= initial(all.len()).work);
        }
        r
    }

    /// The next sub-batch to send, by its first row and its length; nothing where the
    /// search is over or an error has ended it. Where the limit is reached, the search is
    /// given up and every row that is left counts as failed.
    pub fn next(&mut self) -> (r: Option<(usize, usize)>)
        requires
            old(self).wf(),
            !old(self).awaiting(),
        ensures
            final(self).wf(),
            final(self).rows() == old(self).rows(),
            final(self).limit() == old(self).limit(),
            final(self).answers() == old(self).answers(),
            blocking(old(self).answers()) is Some ==> r is None && *final(self) == *old(self),
            blocking(old(self).answers()) is None ==> ({
                let s = pruned(old(self).search());
                match r {
                    Some((start, len)) => s.work.len() > 0 && s.round_trips < old(self).limit()
                        && s.work.last() == (SubBatch { start: start as nat, len: len as nat })
                        && final(self).awaiting() && final(self).search() == s
                        && final(self).failures() == old(self).failures(),
                    None => !final(self).awaiting() && if s.work.len() == 0 {
                        final(self).search() == s && final(self).failures() == old(
                            self,
                        ).failures()
                    } else {
                        s.round_trips >= old(self).limit() && final(self).search() == abandoned(s)
                            && given_up(old(self).failures(), final(self).failures())
                    },
                }
            }),
    {
        if self.blocked.is_some() {
            return None;
        }
        let ghost n = self.rows@.len();
        loop
            invariant
                self.wf(),
                self.current is None,
                self.blocked is None,
                self.answers() == old(self).answers(),
                blocking(old(self).answers()) is None,
                self.rows() == old(self).rows(),
                n == self.rows@.len(),
                self.limit() == old(self).limit(),
                self.failures() == old(self).failures(),
                pruned(self.search()) == pruned(old(self).search()),
            decreases self.work@.len(),
        {
            let ghost before = self.work@;
            let ghost s = self.search();
            match self.work.pop() {
                None => {
                    return None;
                },
                Some(b) => {
                    proof {
                        assert(ranges(before).drop_last() =~= ranges(self.work@));
                        assert(before =~= self.work@.push(b));
                        assert forall|i: int| 0 <= i < self.work@.len() implies holds_its_rows(
                            #[trigger] self.work@[i],
                            self.rows@,
                        ) by {
                            assert(self.work@[i] == before[i]);
                        }
                        assert(holds_its_rows(before[before.len() - 1], self.rows@));
                    }
                    if b.0.len() > 0 {
                        if self.result.round_trips >= self.max_round_trips {
                            self.give_up(b, Ghost(s), Ghost(n));
                            return None;
                        }
                        let start: usize = b.1;
                        let len: usize = b.0.len();
                        self.current = Some(b);
                        proof {
                            assert(self.search() == s);
                        }
                        return Some((start, len));
                    }
                    proof {
                        assert(self.search() == (Search { work: s.work.drop_last(), ..s }));
                    }
                },
            }
        }
    }

    /// Counts every row that is left as failed: those of `b`, then those that wait.
    fn give_up(&mut self, b: (Vec<T>, usize), s: Ghost<Search>, n: Ghost<nat>)
        requires
            old(self).current is None,
            n@ == old(self).rows@.len(),
            consistent(s@, n@),
            s@.work == ranges(old(self).work@.push(b)),
            s@.failed == old(self).failed_at@,
            s@.succeeded == old(self).result.succeeded_rows,
            s@.round_trips == old(self).result.round_trips,
            old(self).rows@.len() <= usize::MAX,
            old(self).result.round_trips <= old(self).max_round_trips,
            old(self).result.round_trips == old(self).answers@.len(),
            old(self).blocked == blocking(old(self).answers@),
            (old(self).result.succeeded_rows == 0) == none_accepted(old(self).answers@),
            holds_its_rows(b, old(self).rows@),
            forall|i: int|
                0 <= i < old(self).work@.len() ==> holds_its_rows(
                    #[trigger] old(self).work@[i],
                    old(self).rows@,
                ),
            old(self).result.failed@.len() == old(self).failed_at@.len(),
            forall|i: int|
                0 <= i < old(self).failed_at@.len() ==> (#[trigger] old(self).result.failed@[i]).0
                    == old(self).rows@[old(self).failed_at@[i]],
        ensures
            final(self).wf(),
            final(self).current is None,
            final(self).rows() == old(self).rows(),
            final(self).limit() == old(self).limit(),
            final(self).answers() == old(self).answers(),
            final(self).search() == abandoned(s@),
            given_up(old(self).failures(), final(self).failures()),
    {
        let ghost rows = self.rows@;
        let ghost first = b;
        let ghost waiting = self.work@;
        let mut failed: Vec<(T, Error)> = Vec::new();
        std::mem::swap(&mut failed, &mut self.result.failed);
        let mut work: Vec<(Vec<T>, usize)> = Vec::new();
        std::mem::swap(&mut work, &mut self.work);
        let ghost start = failed@;
        fail_all(b.0, &mut failed);
        let ghost after_first = failed@;
        let ghost mut at: Seq<int> = self.failed_at@ + positions(
            SubBatch { start: first.1 as nat, len: first.0@.len() },
        );
        proof {
            assert forall|i: int| 0 <= i < failed@.len() implies (#[trigger] failed@[i]).0
                == rows[at[i]] by {
                if i < start.len() {
                    assert(failed@[i] == start[i]);
                } else {
                    assert(failed@[i].0 == first.0@[i - start.len()]);
                    assert(first.0@[i - start.len()] == rows.subrange(
                        first.1 as int,
                        first.1 + first.0@.len(),
                    )[i - start.len()]);
                }
            }
            assert(all_positions(ranges(waiting).take(0)) =~= Seq::empty());
            assert(at =~= at + Seq::empty());
        }
        let ghost base = at;
        for more in it: work
            invariant
                it.seq() == waiting,
                forall|i: int|
                    0 <= i < waiting.len() ==> holds_its_rows(#[trigger] waiting[i], rows),
                at == base + all_positions(ranges(waiting).take(it.index())),
                failed@.len() == at.len(),
                forall|i: int|
                    0 <= i < at.len() ==> (#[trigger] failed@[i]).0 == rows[at[i]],
                given_up(start, failed@),
        {
            let ghost k = it.index();
            let ghost before = failed@;
            let ghost before_at = at;
            proof {
                assert(more == waiting[k]);
                assert(holds_its_rows(waiting[k], rows));
                let all = ranges(waiting);
                assert(all.take(k + 1).drop_last() =~= all.take(k));
                assert(all.take(k + 1).last() == all[k]);
                at = at + positions(SubBatch { start: more.1 as nat, len: more.0@.len() });
                assert(at =~= base + all_positions(all.take(k + 1)));
            }
            let ghost piece = more.0@;
            let ghost piece_start = more.1;
            fail_all(more.0, &mut failed);
            proof {
                assert forall|i: int| 0 <= i < at.len() implies (#[trigger] failed@[i]).0
                    == rows[at[i]] by {
                    if i < before.len() {
                        assert(failed@[i] == before[i]);
                        assert(at[i] == before_at[i]);
                    } else {
                        assert(failed@[i].0 == piece[i - before.len()]);
                        assert(piece[i - before.len()] == rows.subrange(
                            piece_start as int,
                            piece_start + piece.len(),
                        )[i - before.len()]);
                    }
                }
            }
        }
        proof {
            assert(ranges(waiting).take(waiting.len() as int) =~= ranges(waiting));
            assert(s@.work.drop_last() =~= ranges(waiting));
            assert(s@.work.last() == (SubBatch { start: first.1 as nat, len: first.0@.len() }));
            abandoning_keeps_consistency(s@, n@);
            assert(at =~= abandoned(s@).failed);
        }
        self.result.failed = failed;
        self.failed_at = Ghost(at);
        proof {
            assert(ranges(self.work@) =~= Seq::empty());
        }
    }

    /// The rows of the sub-batch that was handed out.
    pub fn batch(&self) -> (r: &[T])
        requires
            self.wf(),
            self.awaiting(),
        ensures
            r@ == self.rows().subrange(
                self.search().work.last().start as int,
                (self.search().work.last().start + self.search().work.last().len) as int,
            ),
    {
        let b = self.current.as_ref().unwrap();
        proof {
            assert(self.search().work.last() == ranges(self.work@.push(*b))[self.work@.len() as int]);
        }
        b.0.as_slice()
    }

    /// Takes the answer to the sub-batch that was handed out. An error that stops every insert
    /// ends the search, if no insert was accepted before it; one of the transport does so only
    /// as the first answer.
    pub fn answer(&mut self, outcome: Result<()>)
        requires
            old(self).wf(),
            old(self).awaiting(),
        ensures
            final(self).wf(),
            !final(self).awaiting(),
            final(self).rows() == old(self).rows(),
            final(self).limit() == old(self).limit(),
            final(self).answers() == old(self).answers().push(outcome),
            blocking(final(self).answers()) is Some ==> final(self).search() == (Search {
                round_trips: old(self).search().round_trips + 1,
                ..old(self).search()
            }) && final(self).failures() == old(self).failures(),
            blocking(final(self).answers()) is None ==> final(self).search() == answered(
                old(self).search(),
                outcome is Ok,
            ) && ({
                let top = old(self).search().work.last();
                match outcome {
                    Err(e) if top.len == 1 => final(self).failures() == old(self).failures().push(
                        (old(self).rows()[top.start as int], e),
                    ),
                    _ => final(self).failures() == old(self).failures(),
                }
            }),
    {
        let ghost s = self.search();
        let ghost n = self.rows@.len();
        let ghost rows = self.rows@;
        let ghost waiting = self.work@;
        let taken = self.current.take();
        if let Some(b) = taken {
            let (mut batch, start) = b;
            let len: usize = batch.len();
            let ghost whole = batch@;
            proof {
                assert(s.work == ranges(waiting.push(b)));
                assert(s.work.drop_last() =~= ranges(waiting));
                answers_keep_consistency(s, n, outcome is Ok);
                lemma_covers_bound(s.work.drop_last(), s.succeeded + s.failed.len() + len, n as int);
            }
            self.result.round_trips = self.result.round_trips + 1;
            let ghost earlier = self.answers@;
            proof {
                self.answers@ = earlier.push(outcome);
                assert(self.answers@.drop_last() =~= earlier);
                assert(self.answers@.last() == outcome);
                if outcome is Ok {
                    assert(!none_accepted(self.answers@)) by {
                        assert(self.answers@[earlier.len() as int] is Ok);
                    }
                } else if none_accepted(earlier) {
                    assert forall|i: int| 0 <= i < self.answers@.len() implies (
                    #[trigger] self.answers@[i]) is Err by {
                        if i < earlier.len() {
                            assert(earlier[i] is Err);
                        }
                    }
                } else {
                    let i = choose|i: int| 0 <= i < earlier.len() && !((#[trigger] earlier[i]) is Err);
                    assert(self.answers@[i] == earlier[i]);
                }
            }
            match outcome {
                Ok(_) => {
                    self.result.succeeded_rows = self.result.succeeded_rows + len as u64;
                    proof {
                        assert(self.search() == answered(s, true));
                    }
                },
                Err(e) => {
                    if self.result.succeeded_rows == 0 && blocks(
                        &e,
                        self.result.round_trips == 1,
                    ) {
                        self.work.push((batch, start));
                        self.blocked = Some(e);
                        proof {
                            assert(self.work@ =~= waiting.push(b));
                        }
                    } else if len == 1 {
                        if let Some(row) = batch.pop() {
                            proof {
                                assert(row == rows.subrange(start as int, start + 1)[0]);
                            }
                            self.result.failed.push((row, e));
                            proof {
                                self.failed_at@ = self.failed_at@.push(start as int);
                            }
                        }
                        proof {
                            assert(self.search() == answered(s, false));
                        }
                    } else {
                        let mid: usize = len / 2;
                        let right = batch.split_off(mid);
                        let ghost pair = (right, (start + mid) as usize);
                        self.work.push((right, start + mid));
                        let ghost left_pair = (batch, start);
                        self.work.push((batch, start));
                        proof {
                            assert(right@ =~= rows.subrange(start + mid, start + len));
                            assert(batch@ =~= rows.subrange(start as int, start + mid));
                            assert forall|i: int| 0 <= i < self.work@.len() implies holds_its_rows(
                                #[trigger] self.work@[i],
                                rows,
                            ) by {
                                if i < waiting.len() {
                                    assert(self.work@[i] == waiting[i]);
                                }
                            }
                            assert(self.search().work =~= answered(s, false).work);
                        }
                    }
                },
            }
        }
    }

    /// What became of the batch, once the search is over: the error that stops every insert,
    /// where one came before any insert was accepted, and else what became of each row.
    pub fn finish(self) -> (r: Result<BatchInsertResult<T>>)
        requires
            self.wf(),
            !self.awaiting(),
            self.search().work.len() == 0 || blocking(self.answers()) is Some,
        ensures
            (match blocking(self.answers()) {
                Some(e) => r == std::result::Result::<BatchInsertResult<T>, Error>::Err(e),
                None => r matches Ok(out) && self.reports(out),
            }),
    {
        match self.blocked {
            Some(e) => Err(e),
            None => Ok(self.result),
        }
    }

    /// What a search that is over says of each row: it was inserted or it failed, and no row
    /// failed twice.
    pub open spec fn reports(&self, out: BatchInsertResult<T>) -> bool {
        &&& out.failed@ == self.failures()
        &&& out.succeeded_rows == self.search().succeeded
        &&& out.round_trips == self.search().round_trips
        &&& out.succeeded_rows + out.failed@.len() == self.rows().len()
        &&& out.round_trips <= self.limit()
        &&& self.search().failed.len() == out.failed@.len()
        &&& self.search().failed.no_duplicates()
        &&& forall|i: int|
            0 <= i < out.failed@.len() ==> 0 <= self.search().failed[i] < self.rows().len() && (
            #[trigger] out.failed@[i]).0 == self.rows()[self.search().failed[i]]
    }
}

/// The failures after giving up: those before, then rows with the error for giving up.
pub open spec fn given_up<T>(before: Seq<(T, Error)>, after: Seq<(T, Error)>) -> bool {
    &&& before.len() <= after.len()
    &&& after.take(before.len() as int) == before
    &&& forall|i: int|
        before.len() <= i < after.len() ==> ((#[trigger] after[i]).1 matches Error::Custom(s) && s@
            == "max bisection round trips exceeded"@)
}

/// Lists the rows of a sub-batch as failed because the search is given up.
fn fail_all<T>(batch: Vec<T>, failed: &mut Vec<(T, Error)>)
    ensures
        final(failed)@.len() == old(failed)@.len() + batch@.len(),
        forall|i: int|
            0 <= i < old(failed)@.len() ==> #[trigger] final(failed)@[i] == old(failed)@[i],
        forall|i: int|
            old(failed)@.len() <= i < final(failed)@.len() ==> (#[trigger] final(failed)@[i]).0
                == batch@[i - old(failed)@.len()] && (final(failed)@[i].1 matches Error::Custom(s)
                && s@ == "max bisection round trips exceeded"@),
        given_up(old(failed)@, final(failed)@),
        forall|first: Seq<(T, Error)>|
            given_up(first, old(failed)@) ==> #[trigger] given_up(first, final(failed)@),
{
    let ghost before = failed@;
    let ghost all = batch@;
    for row in it: batch
        invariant
            it.seq() == all,
            failed@.len() == before.len() + it.index(),
            forall|i: int| 0 <= i < before.len() ==> #[trigger] failed@[i] == before[i],
            forall|i: int|
                before.len() <= i < failed@.len() ==> (#[trigger] failed@[i]).0 == all[i
                    - before.len()] && (failed@[i].1 matches Error::Custom(s) && s@
                    == "max bisection round trips exceeded"@),
    {
        failed.push((row, Error::Custom("max bisection round trips exceeded".to_owned())));
    }
    proof {
        assert(failed@.take(before.len() as int) =~= before);
        assert forall|first: Seq<(T, Error)>| given_up(first, before) implies #[trigger] given_up(
            first,
            failed@,
        ) by {
            assert(failed@.take(first.len() as int) =~= before.take(first.len() as int));
            assert forall|i: int| first.len() <= i < failed@.len() implies ((
            #[trigger] failed@[i]).1 matches Error::Custom(s) && s@
                == "max bisection round trips exceeded"@) by {
                if i < before.len() {
                    assert(failed@[i] == before[i]);
                }
            }
        }
    }
}

/// A search that is given up keeps the failures that it has found and lists all others as given up.
pub proof fn given_up_rows_say_so<T>(before: Seq<(T, Error)>, after: Seq<(T, Error)>, i: int)
    requires
        given_up(before, after),
        0 <= i < after.len(),
    ensures
        i < before.len() ==> after[i] == before[i],
        i >= before.len() ==> (after[i].1 matches Error::Custom(s) && s@
            == "max bisection round trips exceeded"@),
{
    if i < before.len() {
        assert(after.take(before.len() as int)[i] == after[i]);
    }
}

/// What is reported of a batch accounts for every row: it was inserted, or it is listed with its
/// error, and no more inserts were sent than allowed.
pub proof fn reports_account_for_every_row<T>(b: BatchIsolation<T>, out: BatchInsertResult<T>)
    requires
        b.reports(out),
    ensures
        out.succeeded_rows + out.failed@.len() == b.rows().len(),
        out.round_trips <= b.limit(),
        out.failed@ == b.failures(),
        out.succeeded_rows == b.search().succeeded,
        forall|i: int| 0 <= i < out.failed@.len() ==> b.rows().contains((#[trigger] out.failed@[i]).0),
{
    assert forall|i: int| 0 <= i < out.failed@.len() implies b.rows().contains(
        (#[trigger] out.failed@[i]).0,
    ) by {
        assert(out.failed@[i].0 == b.rows()[b.search().failed[i]]);
    }
}

} // verus!

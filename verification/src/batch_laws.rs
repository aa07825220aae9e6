//! How many inserts isolating the rejected rows of a batch takes.
//!
//! The laws speak of a server that rejects a sub-batch exactly where it holds a bad row, with
//! errors that are about its rows.
use vstd::prelude::*;

use crate::batch_isolation::{self, Search, SubBatch};

verus! {

/// How many bad rows there are among `len` rows from `start` on.
pub open spec fn count_bad(start: int, len: nat, bad: Set<int>) -> nat
    decreases len,
{
    if len == 0 {
        0
    } else {
        count_bad(start, (len - 1) as nat, bad) + (if bad.contains(start + len - 1) {
            1nat
        } else {
            0nat
        })
    }
}

/// The positions of the bad rows among `len` rows from `start` on, in ascending order.
pub open spec fn bad_positions(start: int, len: nat, bad: Set<int>) -> Seq<int>
    decreases len,
{
    if len == 0 {
        Seq::empty()
    } else {
        let before = bad_positions(start, (len - 1) as nat, bad);
        if bad.contains(start + len - 1) {
            before.push(start + len - 1)
        } else {
            before
        }
    }
}

/// How many inserts a sub-batch takes until all of its bad rows are isolated.
pub open spec fn trips(start: int, len: nat, bad: Set<int>) -> nat
    decreases len,
{
    if len == 0 {
        0
    } else if len == 1 || count_bad(start, len, bad) == 0 {
        1
    } else {
        1 + trips(start, len / 2, bad) + trips(
            start + len / 2,
            (len - len / 2) as nat,
            bad,
        )
    }
}

/// How many sub-batches of more than one row are rejected on the way.
pub open spec fn rejections(start: int, len: nat, bad: Set<int>) -> nat
    decreases len,
{
    if len <= 1 || count_bad(start, len, bad) == 0 {
        0
    } else {
        1 + rejections(start, len / 2, bad) + rejections(
            start + len / 2,
            (len - len / 2) as nat,
            bad,
        )
    }
}

/// What is left of a search, as a number that falls with every answer.
pub open spec fn weight(work: Seq<SubBatch>) -> nat
    decreases work.len(),
{
    if work.len() == 0 {
        0
    } else {
        weight(work.drop_last()) + (if work.last().len == 0 {
            1nat
        } else {
            (2 * work.last().len - 1) as nat
        })
    }
}

/// The next sub-batch holds no bad row.
pub open spec fn next_is_good(s: Search, bad: Set<int>) -> bool {
    count_bad(s.work.last().start as int, s.work.last().len, bad) == 0
}

/// The search when it is over, with at most `max` inserts.
pub open spec fn run(s: Search, max: nat, bad: Set<int>) -> Search
    decreases weight(s.work),
    via run_decreases
{
    if s.work.len() == 0 {
        s
    } else if s.work.last().len == 0 {
        run(Search { work: s.work.drop_last(), ..s }, max, bad)
    } else if s.round_trips >= max {
        batch_isolation::abandoned(s)
    } else {
        run(batch_isolation::answered(s, next_is_good(s, bad)), max, bad)
    }
}

#[via_fn]
proof fn run_decreases(s: Search, max: nat, bad: Set<int>) {
    if s.work.len() > 0 && s.work.last().len > 0 {
        lemma_answers_weigh_less(s, next_is_good(s, bad));
    }
}

proof fn lemma_answers_weigh_less(s: Search, accepted: bool)
    requires
        s.work.len() > 0,
        s.work.last().len > 0,
    ensures
        weight(batch_isolation::answered(s, accepted).work) < weight(s.work),
{
    let top = s.work.last();
    let rest = s.work.drop_last();
    if !accepted && top.len > 1 {
        let mid = top.len / 2;
        let right = SubBatch { start: top.start + mid, len: (top.len - mid) as nat };
        let left = SubBatch { start: top.start, len: mid };
        let w = rest.push(right).push(left);
        assert(w.drop_last() =~= rest.push(right));
        assert(rest.push(right).drop_last() =~= rest);
        assert(weight(rest.push(right)) == weight(rest) + (2 * right.len - 1) as nat);
        assert(weight(w) == weight(rest.push(right)) + (2 * left.len - 1) as nat);
    }
}

proof fn lemma_count_splits(start: int, a: nat, b: nat, bad: Set<int>)
    ensures
        count_bad(start, a + b, bad) == count_bad(start, a, bad) + count_bad(start + a, b, bad),
        bad_positions(start, a + b, bad) == bad_positions(start, a, bad) + bad_positions(
            start + a,
            b,
            bad,
        ),
    decreases b,
{
    if b > 0 {
        lemma_count_splits(start, a, (b - 1) as nat, bad);
        assert(bad_positions(start, a + b, bad) =~= bad_positions(start, a, bad) + bad_positions(
            start + a,
            b,
            bad,
        ));
    } else {
        assert(bad_positions(start, a, bad) =~= bad_positions(start, a, bad) + bad_positions(
            start + a,
            0,
            bad,
        ));
    }
}

proof fn lemma_positions_count(start: int, len: nat, bad: Set<int>)
    ensures
        bad_positions(start, len, bad).len() == count_bad(start, len, bad),
        count_bad(start, len, bad) <= len,
        count_bad(start, len, bad) == 0 ==> bad_positions(start, len, bad) == Seq::<int>::empty(),
    decreases len,
{
    if len > 0 {
        lemma_positions_count(start, (len - 1) as nat, bad);
    }
}

/// The search after its next sub-batch is done with: its good rows are inserted, its bad
/// rows failed.
pub open spec fn after_next(s: Search, bad: Set<int>) -> Search {
    let top = s.work.last();
    Search {
        work: s.work.drop_last(),
        failed: s.failed + bad_positions(top.start as int, top.len, bad),
        succeeded: (s.succeeded + top.len - count_bad(top.start as int, top.len, bad)) as nat,
        round_trips: s.round_trips + trips(top.start as int, top.len, bad),
    }
}

proof fn lemma_run_next(s: Search, max: nat, bad: Set<int>)
    requires
        s.work.len() > 0,
        s.round_trips + trips(s.work.last().start as int, s.work.last().len, bad) <= max,
    ensures
        run(s, max, bad) == run(after_next(s, bad), max, bad),
    decreases s.work.last().len,
{
    let top = s.work.last();
    let rest = s.work.drop_last();
    let start = top.start as int;
    lemma_positions_count(start, top.len, bad);
    if top.len == 0 {
        assert(s.failed + bad_positions(start, 0, bad) =~= s.failed);
        assert(after_next(s, bad) == (Search { work: rest, ..s }));
    } else if count_bad(start, top.len, bad) == 0 {
        assert(s.failed + bad_positions(start, top.len, bad) =~= s.failed);
        assert(after_next(s, bad) == batch_isolation::answered(s, true));
    } else if top.len == 1 {
        reveal_with_fuel(count_bad, 2);
        reveal_with_fuel(bad_positions, 2);
        assert(s.failed + bad_positions(start, 1, bad) =~= s.failed.push(start));
        assert(after_next(s, bad) == batch_isolation::answered(s, false));
    } else {
        let mid = top.len / 2;
        let right = SubBatch { start: top.start + mid, len: (top.len - mid) as nat };
        let left = SubBatch { start: top.start, len: mid };
        let t = batch_isolation::answered(s, false);
        assert(run(s, max, bad) == run(t, max, bad));
        assert(t.work.drop_last() =~= rest.push(right));
        lemma_run_next(t, max, bad);
        let u = after_next(t, bad);
        assert(u.work =~= rest.push(right));
        assert(u.work.drop_last() =~= rest);
        lemma_run_next(u, max, bad);
        lemma_count_splits(start, mid, (top.len - mid) as nat, bad);
        lemma_positions_count(start, mid, bad);
        lemma_positions_count(start + mid, (top.len - mid) as nat, bad);
        assert(after_next(u, bad).failed =~= after_next(s, bad).failed);
        assert(after_next(u, bad).work =~= rest);
    }
}

/// With enough inserts allowed, a search ends with exactly the bad rows failed, in
/// ascending order, all others inserted, and as many inserts as the tree of halves takes.
pub proof fn exactly_the_bad_rows_fail(n: nat, max: nat, bad: Set<int>)
    requires
        trips(0, n, bad) <= max,
    ensures
        ({
            let end = run(batch_isolation::initial(n), max, bad);
            &&& end.work == Seq::<SubBatch>::empty()
            &&& end.failed == bad_positions(0, n, bad)
            &&& end.succeeded == n - count_bad(0, n, bad)
            &&& end.round_trips == trips(0, n, bad)
        }),
{
    let s = batch_isolation::initial(n);
    lemma_run_next(s, max, bad);
    let t = after_next(s, bad);
    lemma_positions_count(0, n, bad);
    assert(t.work =~= Seq::empty());
    assert(t.failed =~= bad_positions(0, n, bad));
}

proof fn lemma_run_consistent(s: Search, n: nat, max: nat, bad: Set<int>)
    requires
        batch_isolation::consistent(s, n),
        s.round_trips <= max,
    ensures
        ({
            let end = run(s, max, bad);
            end.work.len() == 0 && batch_isolation::consistent(end, n) && end.round_trips <= max
        }),
    decreases weight(s.work),
{
    if s.work.len() == 0 {
    } else if s.work.last().len == 0 {
        lemma_run_consistent(Search { work: s.work.drop_last(), ..s }, n, max, bad);
    } else if s.round_trips >= max {
        batch_isolation::abandoning_keeps_consistency(s, n);
    } else {
        batch_isolation::answers_keep_consistency(s, n, next_is_good(s, bad));
        lemma_answers_weigh_less(s, next_is_good(s, bad));
        lemma_run_consistent(
            batch_isolation::answered(s, next_is_good(s, bad)),
            n,
            max,
            bad,
        );
    }
}

/// Whatever the limit and whichever rows are bad, a search ends, every row is inserted or
/// failed and none both, and no more inserts are sent than the limit allows.
pub proof fn every_row_is_accounted_for(n: nat, max: nat, bad: Set<int>)
    ensures
        ({
            let end = run(batch_isolation::initial(n), max, bad);
            &&& end.work.len() == 0
            &&& end.succeeded + end.failed.len() == n
            &&& end.failed.no_duplicates()
            &&& end.round_trips <= max
        }),
{
    batch_isolation::initial_is_consistent(n);
    lemma_run_consistent(batch_isolation::initial(n), n, max, bad);
}

/// The binary logarithm, rounded up.
pub open spec fn ceil_log2(n: nat) -> nat
    decreases n,
{
    if n <= 1 {
        0
    } else {
        1 + ceil_log2((n - n / 2) as nat)
    }
}

/// How often `k` has to be doubled to reach `n`: the binary logarithm of `n / k`, rounded up.
pub open spec fn ceil_log2_ratio(n: nat, k: nat) -> nat
    decreases (if n > k {
        n - k
    } else {
        0
    }),
{
    if k == 0 || n <= k {
        0
    } else {
        1 + ceil_log2_ratio(n, 2 * k)
    }
}

/// The smaller of two numbers.
pub open spec fn smaller(a: nat, b: nat) -> nat {
    if a < b {
        a
    } else {
        b
    }
}

/// How many nodes a tree of `levels` levels has on paths to `k` leaves, at most: on level
/// `d` no more than the tree has there, `base * 2^d`, and no more than `k`.
pub open spec fn level_sum(k: nat, base: nat, levels: nat) -> nat
    decreases levels,
{
    if levels == 0 {
        0
    } else {
        smaller(base, k) + level_sum(k, 2 * base, (levels - 1) as nat)
    }
}

proof fn lemma_log_monotone(a: nat, b: nat)
    requires
        a <= b,
    ensures
        ceil_log2(a) <= ceil_log2(b),
    decreases b,
{
    if a > 1 {
        lemma_log_monotone((a - a / 2) as nat, (b - b / 2) as nat);
    }
}

proof fn lemma_level_sum_splits(k1: nat, k2: nat, base: nat, levels: nat)
    ensures
        level_sum(k1, base, levels) + level_sum(k2, base, levels) <= level_sum(
            k1 + k2,
            2 * base,
            levels,
        ),
    decreases levels,
{
    if levels > 0 {
        lemma_level_sum_splits(k1, k2, 2 * base, (levels - 1) as nat);
    }
}

proof fn lemma_level_sum_monotone(k: nat, base: nat, a: nat, b: nat)
    requires
        a <= b,
    ensures
        level_sum(k, base, a) <= level_sum(k, base, b),
    decreases b,
{
    if a > 0 {
        lemma_level_sum_monotone(k, 2 * base, (a - 1) as nat, (b - 1) as nat);
    }
}

proof fn lemma_trips_rejections(start: int, len: nat, bad: Set<int>)
    requires
        len > 0,
    ensures
        trips(start, len, bad) == 1 + 2 * rejections(start, len, bad),
    decreases len,
{
    if len > 1 && count_bad(start, len, bad) > 0 {
        lemma_trips_rejections(start, len / 2, bad);
        lemma_trips_rejections(start + len / 2, (len - len / 2) as nat, bad);
    }
}

proof fn lemma_rejections_bound(start: int, len: nat, bad: Set<int>)
    requires
        len > 0,
    ensures
        rejections(start, len, bad) <= level_sum(
            count_bad(start, len, bad),
            1,
            ceil_log2(len),
        ),
    decreases len,
{
    let k = count_bad(start, len, bad);
    if len > 1 && k > 0 {
        let a = len / 2;
        let b = (len - len / 2) as nat;
        lemma_rejections_bound(start, a, bad);
        lemma_rejections_bound(start + a, b, bad);
        lemma_count_splits(start, a, b, bad);
        let k1 = count_bad(start, a, bad);
        let k2 = count_bad(start + a, b, bad);
        let m = ceil_log2(b);
        lemma_log_monotone(a, b);
        lemma_level_sum_monotone(k1, 1, ceil_log2(a), m);
        lemma_level_sum_splits(k1, k2, 1, m);
    }
}

/// However the bad rows lie, isolating `k` of them among `n` rows takes at most one insert
/// and two more for every sub-batch that can be rejected: at most `k` on each level of the
/// tree of halves, and no more than the level has.
pub proof fn inserts_are_bounded_by_the_tree(n: nat, bad: Set<int>)
    requires
        n > 0,
    ensures
        trips(0, n, bad) <= 1 + 2 * level_sum(count_bad(0, n, bad), 1, ceil_log2(n)),
{
    lemma_trips_rejections(0, n, bad);
    lemma_rejections_bound(0, n, bad);
}

/// A batch without bad rows takes one insert.
pub proof fn a_clean_batch_takes_one_insert(n: nat, bad: Set<int>)
    requires
        n > 0,
        count_bad(0, n, bad) == 0,
    ensures
        trips(0, n, bad) == 1,
{
}

proof fn lemma_level_sum_per_row(k: nat, base: nat, levels: nat)
    ensures
        level_sum(k, base, levels) <= k * levels,
    decreases levels,
{
    if levels > 0 {
        lemma_level_sum_per_row(k, 2 * base, (levels - 1) as nat);
        assert(k + k * (levels - 1) == k * levels) by (nonlinear_arith);
    }
}

/// Each bad row costs at most two inserts per level of the tree of halves.
pub proof fn each_bad_row_costs_two_inserts_per_level(n: nat, bad: Set<int>)
    requires
        n > 0,
    ensures
        trips(0, n, bad) <= 1 + 2 * (count_bad(0, n, bad) * ceil_log2(n)),
{
    inserts_are_bounded_by_the_tree(n, bad);
    lemma_level_sum_per_row(count_bad(0, n, bad), 1, ceil_log2(n));
}

/// One bad row takes at most `1 + 2 * ceil(log2(n))` inserts.
pub proof fn one_bad_row_takes_two_inserts_per_level(n: nat, bad: Set<int>)
    requires
        n > 0,
        count_bad(0, n, bad) == 1,
    ensures
        trips(0, n, bad) <= 1 + 2 * ceil_log2(n),
{
    each_bad_row_costs_two_inserts_per_level(n, bad);
}

/// With `k` bad rows, `1 + 2k * (1 + ceil(log2(n / max(k, 1))))` inserts are enough wherever
/// the tree of halves has no more than `k * (1 + ceil(log2(n / k)))` nodes on the paths to
/// `k` rows.
pub proof fn inserts_stay_below_the_rule_of_thumb(n: nat, bad: Set<int>)
    requires
        n > 0,
        level_sum(count_bad(0, n, bad), 1, ceil_log2(n)) <= count_bad(0, n, bad) * (1
            + ceil_log2_ratio(n, count_bad(0, n, bad))),
    ensures
        trips(0, n, bad) <= 1 + 2 * (count_bad(0, n, bad) * (1 + ceil_log2_ratio(
            n,
            count_bad(0, n, bad),
        ))),
{
    inserts_are_bounded_by_the_tree(n, bad);
}

/// `2` to the power of `j`.
pub open spec fn two_to(j: nat) -> nat
    decreases j,
{
    if j == 0 {
        1
    } else {
        2 * two_to((j - 1) as nat)
    }
}

proof fn lemma_ratio_bound(n: nat, k: nat, levels: nat)
    requires
        k > 0,
        n > 0,
        n <= k ==> levels == 0,
        n > k ==> 2 * n > k * two_to(levels),
    ensures
        ceil_log2_ratio(n, k) >= levels,
    decreases levels,
{
    if levels > 0 {
        if levels == 1 {
        } else {
            assert(k * two_to(levels) == 2 * (k * two_to((levels - 1) as nat))) by (nonlinear_arith)
                requires
                    two_to(levels) == 2 * two_to((levels - 1) as nat),
            ;
            assert(two_to((levels - 1) as nat) >= 2 && two_to((levels - 1) as nat) == 2 * two_to(
                (levels - 2) as nat,
            )) by {
                lemma_two_to_positive((levels - 2) as nat);
            }
            assert(k * two_to((levels - 1) as nat) >= 2 * k) by (nonlinear_arith)
                requires
                    two_to((levels - 1) as nat) >= 2,
            ;
            assert(k * two_to(levels) == (2 * k) * two_to((levels - 1) as nat)) by (nonlinear_arith)
                requires
                    two_to(levels) == 2 * two_to((levels - 1) as nat),
            ;
            lemma_ratio_bound(n, 2 * k, (levels - 1) as nat);
        }
    }
}

proof fn lemma_two_to_positive(j: nat)
    ensures
        two_to(j) >= 1,
    decreases j,
{
    if j > 0 {
        lemma_two_to_positive((j - 1) as nat);
    }
}

proof fn lemma_log_lower(n: nat, levels: nat)
    requires
        ceil_log2(n) == levels,
        levels > 0,
    ensures
        2 * n > two_to(levels),
    decreases levels,
{
    reveal_with_fuel(two_to, 3);
    if levels > 1 {
        lemma_log_lower((n - n / 2) as nat, (levels - 1) as nat);
        assert(two_to((levels - 1) as nat) == 2 * two_to((levels - 2) as nat));
    }
}

proof fn lemma_full_levels(base: nat, j: nat, levels: nat)
    requires
        base > 0,
    ensures
        level_sum(base * two_to(j), base, levels) <= base * two_to(j) * (if levels > j {
            (levels - j) as nat
        } else {
            0nat
        }) + base * two_to(j) - base,
    decreases levels,
{
    lemma_two_to_positive(j);
    let k = base * two_to(j);
    assert(k >= base) by (nonlinear_arith)
        requires
            two_to(j) >= 1,
            k == base * two_to(j),
    ;
    if levels > 0 {
        if j == 0 {
            lemma_level_sum_per_row(k, base, levels);
            assert(two_to(0) == 1);
            assert(k == base) by (nonlinear_arith)
                requires
                    k == base * two_to(j),
                    two_to(j) == 1,
            ;
        } else {
            assert(k == 2 * base * two_to((j - 1) as nat)) by (nonlinear_arith)
                requires
                    k == base * two_to(j),
                    two_to(j) == 2 * two_to((j - 1) as nat),
            ;
            lemma_full_levels(2 * base, (j - 1) as nat, (levels - 1) as nat);
        }
    }
}

/// With a power of two of bad rows, `1 + 2k * (1 + ceil(log2(n / k)))` inserts are enough,
/// however the bad rows lie.
pub proof fn powers_of_two_keep_the_rule_of_thumb(n: nat, bad: Set<int>, j: nat)
    requires
        n > 0,
        count_bad(0, n, bad) == two_to(j),
    ensures
        trips(0, n, bad) <= 1 + 2 * (two_to(j) * (1 + ceil_log2_ratio(n, two_to(j)))),
{
    let k = two_to(j);
    let levels = ceil_log2(n);
    lemma_two_to_positive(j);
    lemma_full_levels(1, j, levels);
    if levels > j {
        lemma_log_lower(n, levels);
        lemma_two_to_adds(j, (levels - j) as nat);
        if n <= k {
            lemma_two_to_positive((levels - j) as nat);
            lemma_two_to_adds(j, (levels - j) as nat);
            lemma_log_upper(n, j);
        }
        lemma_ratio_bound(n, k, (levels - j) as nat);
        assert(k * ceil_log2_ratio(n, k) >= k * (levels - j)) by (nonlinear_arith)
            requires
                ceil_log2_ratio(n, k) >= levels - j,
        ;
    }
    assert(k * (1 + ceil_log2_ratio(n, k)) == k + k * ceil_log2_ratio(n, k)) by (nonlinear_arith);
    inserts_are_bounded_by_the_tree(n, bad);
}

proof fn lemma_two_to_adds(a: nat, b: nat)
    ensures
        two_to(a + b) == two_to(a) * two_to(b),
    decreases b,
{
    if b > 0 {
        lemma_two_to_adds(a, (b - 1) as nat);
        assert(two_to(a) * (2 * two_to((b - 1) as nat)) == 2 * (two_to(a) * two_to(
            (b - 1) as nat,
        ))) by (nonlinear_arith);
    } else {
        assert(two_to(a) * 1 == two_to(a)) by (nonlinear_arith);
    }
}

proof fn lemma_log_upper(n: nat, j: nat)
    requires
        n <= two_to(j),
    ensures
        ceil_log2(n) <= j,
    decreases j,
{
    if n > 1 {
        lemma_log_upper((n - n / 2) as nat, (j - 1) as nat);
    }
}

} // verus!

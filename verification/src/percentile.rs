//! The top-percentile average: the mean of the loudest few metrics of a
//! window, stated over the multiset of metrics the window holds.

use vstd::prelude::*;
use vstd::multiset::Multiset;

verus! {

/// Share of a window, in percent, that enters the average.
pub const HEAP_PERCENTILE: usize = 5;

/// Fewest metrics a window must hold for its average to be defined.
pub const MIN_SAMPLES: usize = 100 / HEAP_PERCENTILE;

/// How many of the loudest metrics are averaged in a window of `len` metrics.
pub open spec fn top_count(len: nat) -> nat {
    HEAP_PERCENTILE as nat * len / 100
}

/// `x` occurs in `m` and nothing in `m` is greater.
pub open spec fn is_max(m: Multiset<u8>, x: u8) -> bool {
    m.contains(x) && forall|y: u8| m.contains(y) ==> y <= x
}

/// The greatest metric of a non-empty multiset.
pub open spec fn max_of(m: Multiset<u8>) -> u8 {
    choose|x: u8| is_max(m, x)
}

/// The sum of the `k` greatest metrics of `m`, or of all of them where `m`
/// holds fewer than `k`.
pub open spec fn top_sum(m: Multiset<u8>, k: nat) -> nat
    decreases k,
{
    if k == 0 || m.len() == 0 {
        0
    } else {
        max_of(m) as nat + top_sum(m.remove(max_of(m)), (k - 1) as nat)
    }
}

/// What is left of `m` once its `k` greatest metrics are taken out.
pub open spec fn without_top(m: Multiset<u8>, k: nat) -> Multiset<u8>
    decreases k,
{
    if k == 0 || m.len() == 0 {
        m
    } else {
        without_top(m.remove(max_of(m)), (k - 1) as nat)
    }
}

/// The floor of the sum of the `k` greatest metrics divided by `k`; there is
/// no average of zero metrics.
pub open spec fn top_average(m: Multiset<u8>, k: nat) -> Option<u8> {
    if k == 0 {
        None
    } else {
        Some((top_sum(m, k) / k) as u8)
    }
}

/// The value a window reports: the average of its loudest five percent.
pub open spec fn window_result(m: Multiset<u8>) -> Option<u8> {
    top_average(m, top_count(m.len()))
}

/// A multiset has at most one maximum.
pub proof fn lemma_max_unique(m: Multiset<u8>, a: u8, b: u8)
    requires
        is_max(m, a),
        is_max(m, b),
    ensures
        a == b,
{
}

/// A non-empty multiset whose metrics are all at most `bound` has a maximum.
proof fn lemma_max_below(m: Multiset<u8>, bound: u8)
    requires
        m.len() > 0,
        forall|y: u8| m.contains(y) ==> y <= bound,
    ensures
        exists|x: u8| is_max(m, x),
    decreases bound,
{
    if m.contains(bound) {
        assert(is_max(m, bound));
    } else {
        assert(m.contains(m.choose()));
        let lower: u8 = (bound - 1) as u8;
        assert forall|y: u8| m.contains(y) implies y <= lower by {
            assert(y != bound);
        }
        lemma_max_below(m, lower);
    }
}

/// Every non-empty multiset of metrics has a maximum, and `max_of` names it.
pub proof fn lemma_max_exists(m: Multiset<u8>)
    requires
        m.len() > 0,
    ensures
        is_max(m, max_of(m)),
        m.remove(max_of(m)).len() == m.len() - 1,
{
    lemma_max_below(m, 255u8);
}

/// Whatever is a maximum of `m` is the one `max_of` names.
pub proof fn lemma_max_is(m: Multiset<u8>, x: u8)
    requires
        is_max(m, x),
    ensures
        max_of(m) == x,
{
    lemma_max_unique(m, x, max_of(m));
}

/// Five percent of `len`, rounded down, is one metric for every full twenty,
/// and never more than the window holds.
pub proof fn lemma_top_count(len: nat)
    ensures
        top_count(len) == len / 20,
        top_count(len) <= len,
{
}

/// A window of exactly twenty metrics averages one of them; a smaller window
/// averages none, so it has no result, and only a smaller window has none.
pub proof fn lemma_count_boundary(m: Multiset<u8>)
    ensures
        top_count(MIN_SAMPLES as nat) == 1,
        m.len() < MIN_SAMPLES ==> top_count(m.len()) == 0,
        window_result(m) is None <==> m.len() < MIN_SAMPLES,
{
}

/// Taking the `k` greatest metrics out of `m` removes `k` of them, or all
/// where `m` holds fewer.
pub proof fn lemma_without_top_len(m: Multiset<u8>, k: nat)
    ensures
        without_top(m, k).len() == m.len() - (if k <= m.len() { k } else { m.len() }),
    decreases k,
{
    if k != 0 && m.len() != 0 {
        lemma_max_exists(m);
        lemma_without_top_len(m.remove(max_of(m)), (k - 1) as nat);
    }
}

/// Reducing a window of `n` metrics takes out exactly `5 * n / 100` of them.
pub proof fn lemma_reduction_extracts_count(m: Multiset<u8>)
    ensures
        without_top(m, top_count(m.len())).len() == m.len() - top_count(m.len()),
        top_count(m.len()) <= m.len(),
{
    lemma_top_count(m.len());
    lemma_without_top_len(m, top_count(m.len()));
}

/// The sum of the `k` greatest metrics is at most `255` for each metric
/// taken, so the average of a non-zero `k` fits in a byte.
pub proof fn lemma_top_sum_bound(m: Multiset<u8>, k: nat)
    ensures
        top_sum(m, k) <= 255 * (if k <= m.len() { k } else { m.len() }),
        top_sum(m, k) <= 255 * k,
        k > 0 ==> top_sum(m, k) / k <= 255,
    decreases k,
{
    if k != 0 && m.len() != 0 {
        lemma_max_exists(m);
        lemma_top_sum_bound(m.remove(max_of(m)), (k - 1) as nat);
    }
    if k > 0 {
        let total: nat = top_sum(m, k);
        assert(total / k <= 255) by (nonlinear_arith)
            requires
                k > 0,
                total <= 255 * k,
        ;
    }
}

/// The average of a window never exceeds its greatest metric.
pub proof fn lemma_average_below_max(m: Multiset<u8>, k: nat)
    requires
        k > 0,
        m.len() > 0,
    ensures
        top_sum(m, k) <= max_of(m) * k,
        top_sum(m, k) / k <= max_of(m),
    decreases k,
{
    lemma_max_exists(m);
    let top: u8 = max_of(m);
    let rest: Multiset<u8> = m.remove(top);
    if k > 1 && rest.len() > 0 {
        lemma_average_below_max(rest, (k - 1) as nat);
        lemma_max_exists(rest);
        assert(m.contains(max_of(rest)));
        assert(top_sum(rest, (k - 1) as nat) <= top * (k - 1)) by (nonlinear_arith)
            requires
                top_sum(rest, (k - 1) as nat) <= max_of(rest) * (k - 1),
                max_of(rest) <= top,
                k > 1,
        ;
    } else {
        assert(top_sum(rest, (k - 1) as nat) == 0);
        assert(0 <= top * (k - 1)) by (nonlinear_arith)
            requires
                k >= 1,
        ;
    }
    let total: nat = top_sum(m, k);
    assert(total == top + top_sum(rest, (k - 1) as nat));
    assert(total <= top * k) by (nonlinear_arith)
        requires
            total <= top + top * (k - 1),
    ;
    assert(total / k <= top) by (nonlinear_arith)
        requires
            k > 0,
            total <= top * k,
    ;
}

/// `s` runs from its loudest metric to its quietest.
pub open spec fn is_descending(s: Seq<u8>) -> bool {
    forall|i: int, j: int| 0 <= i <= j < s.len() ==> s[i] >= s[j]
}

/// The sum of the first `k` metrics of `s`, or of all of them where `s` holds
/// fewer than `k`.
pub open spec fn prefix_sum(s: Seq<u8>, k: nat) -> nat
    decreases k,
{
    if k == 0 || s.len() == 0 {
        0
    } else {
        s[0] as nat + prefix_sum(s.drop_first(), (k - 1) as nat)
    }
}

/// Taking the `k` greatest metrics is taking the first `k` of the metrics
/// sorted from loudest to quietest: their sum is the sum of that prefix, and
/// what is left is the rest of the sorted sequence.
pub proof fn lemma_top_is_sorted_prefix(s: Seq<u8>, k: nat)
    requires
        is_descending(s),
    ensures
        top_sum(s.to_multiset(), k) == prefix_sum(s, k),
        without_top(s.to_multiset(), k) == s.skip(
            if k <= s.len() {
                k as int
            } else {
                s.len() as int
            },
        ).to_multiset(),
    decreases k,
{
    let m: Multiset<u8> = s.to_multiset();
    vstd::seq_lib::to_multiset_len(s);
    if k == 0 || s.len() == 0 {
        assert(s.skip(0) =~= s);
    } else {
        vstd::seq_lib::to_multiset_contains(s, s[0]);
        assert(s.contains(s[0]));
        assert forall|y: u8| m.contains(y) implies y <= s[0] by {
            vstd::seq_lib::to_multiset_contains(s, y);
            let at: int = choose|at: int| 0 <= at < s.len() && s[at] == y;
            assert(s[0] >= s[at]);
        }
        lemma_max_is(m, s[0]);
        let rest: Seq<u8> = s.drop_first();
        vstd::seq_lib::to_multiset_remove(s, 0);
        assert(rest =~= s.remove(0));
        assert forall|i: int, j: int| 0 <= i <= j < rest.len() implies rest[i] >= rest[j] by {
            assert(s[i + 1] >= s[j + 1]);
        }
        lemma_top_is_sorted_prefix(rest, (k - 1) as nat);
        let taken: int = if k <= s.len() { k as int } else { s.len() as int };
        assert(s.skip(taken) =~= rest.skip(taken - 1));
    }
}

/// A window that holds one value only, at least `k` times, averages to that
/// value.
pub proof fn lemma_uniform_average(m: Multiset<u8>, value: u8, k: nat)
    requires
        k > 0,
        m.len() >= k,
        m.count(value) == m.len(),
    ensures
        top_sum(m, k) == value * k,
        top_average(m, k) == Some(value),
    decreases k,
{
    lemma_only_value(m, value);
    assert(is_max(m, value));
    lemma_max_is(m, value);
    let rest: Multiset<u8> = m.remove(value);
    if k > 1 {
        lemma_uniform_average(rest, value, (k - 1) as nat);
    }
    let total: nat = top_sum(m, k);
    assert(total == value * k) by (nonlinear_arith)
        requires
            total == value + top_sum(rest, (k - 1) as nat),
            k > 1 ==> top_sum(rest, (k - 1) as nat) == value * (k - 1),
            k == 1 ==> top_sum(rest, (k - 1) as nat) == 0,
            k >= 1,
    ;
    assert(total / k == value) by (nonlinear_arith)
        requires
            k > 0,
            total == value * k,
    ;
}

/// Where one value makes up the whole of `m`, nothing else occurs in it.
proof fn lemma_only_value(m: Multiset<u8>, value: u8)
    requires
        m.count(value) == m.len(),
    ensures
        forall|y: u8| m.contains(y) ==> y == value,
{
    assert forall|y: u8| m.contains(y) implies y == value by {
        if y != value {
            let rest: Multiset<u8> = m.remove(y);
            assert(rest.count(value) == m.count(value));
            assert(rest.len() == m.len() - 1);
            assert(rest.count(value) <= rest.len());
        }
    }
}

/// Computes how many of the loudest metrics are averaged in a window of
/// `len` metrics.
pub fn percentile_count(len: usize) -> (count: usize)
    ensures
        count as nat == top_count(len as nat),
{
    len / MIN_SAMPLES
}

} // verus!

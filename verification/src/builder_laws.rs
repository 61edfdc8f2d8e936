//! What holds of grouped statistics across groups and across runs.

use vstd::prelude::*;
use vstd::relations::sorted_by;

use crate::builder::{
    carried_total, cumulative_tail, extended_values, group_of, group_stat, grouped_values,
    lemma_sums_between_split, running_totals, stat_tail, sums_between, StatKind,
};
use crate::stats::{
    lemma_seq_sum_nonneg, lemma_sorted_values_len, midpoint, percentile, seq_sum, sorted_values,
    value_leq,
};

verus! {

/// Resuming a per-group statistic at `idx` over a series whose first `idx`
/// values are those of a computation from the first group gives the series
/// of a computation from the first group.
pub proof fn lemma_resumed_stat_is_full(
    k: StatKind,
    old: Seq<u64>,
    source: Seq<u64>,
    firsts: Seq<usize>,
    counts: Seq<usize>,
    idx: int,
    n: int,
)
    requires
        k != StatKind::First,
        k != StatKind::Last,
        k != StatKind::Cumulative,
        0 <= idx < n,
        idx <= old.len(),
        old.take(idx) == stat_tail(k, source, firsts, counts, 0, idx),
    ensures
        grouped_values(k, old, source, firsts, counts, idx, n) == grouped_values(
            k,
            Seq::empty(),
            source,
            firsts,
            counts,
            0,
            n,
        ),
{
    assert(Seq::<u64>::empty().take(0) =~= Seq::<u64>::empty());
    assert(old.take(idx) + stat_tail(k, source, firsts, counts, idx, n) =~= stat_tail(
        k,
        source,
        firsts,
        counts,
        0,
        n,
    ));
}

/// Resuming the running total at `idx` over a series whose first `idx`
/// values are the totals of a computation from the first group gives the
/// totals of a computation from the first group, as long as they fit.
pub proof fn lemma_resumed_cumulative_is_full(
    old: Seq<u64>,
    source: Seq<u64>,
    firsts: Seq<usize>,
    counts: Seq<usize>,
    idx: int,
    n: int,
)
    requires
        0 <= idx < n,
        idx <= old.len(),
        old.take(idx) == cumulative_tail(source, firsts, counts, 0, 0, idx),
        sums_between(source, firsts, counts, 0, n) <= u64::MAX,
    ensures
        grouped_values(StatKind::Cumulative, old, source, firsts, counts, idx, n) == grouped_values(
            StatKind::Cumulative,
            Seq::empty(),
            source,
            firsts,
            counts,
            0,
            n,
        ),
{
    let base = carried_total(old, idx);
    lemma_sums_between_split(source, firsts, counts, 0, idx, n);
    lemma_sums_between_split(source, firsts, counts, 0, 0, idx);
    if idx > 0 {
        assert(old[idx - 1] == old.take(idx)[idx - 1]);
        lemma_sums_between_split(source, firsts, counts, 0, idx, n);
        lemma_sums_between_split(source, firsts, counts, idx, idx, n);
    }
    assert(base == sums_between(source, firsts, counts, 0, idx));
    assert forall|j: int| 0 <= j < n - idx implies (base + #[trigger] sums_between(
        source,
        firsts,
        counts,
        idx,
        idx + j + 1,
    )) == sums_between(source, firsts, counts, 0, idx + j + 1) by {
        lemma_sums_between_split(source, firsts, counts, 0, idx, idx + j + 1);
    }
    assert forall|j: int| 0 <= j < n implies #[trigger] sums_between(source, firsts, counts, 0, j + 1)
        <= u64::MAX by {
        lemma_sums_between_split(source, firsts, counts, 0, j + 1, n);
    }
    assert(Seq::<u64>::empty().take(0) =~= Seq::<u64>::empty());
    assert(old.take(idx) + cumulative_tail(source, firsts, counts, base, idx, n) =~= cumulative_tail(
        source,
        firsts,
        counts,
        0,
        0,
        n,
    ));
}

/// Within the new values, each running total is the one before plus the
/// sum of its group.
pub proof fn lemma_cumulative_steps(
    old: Seq<u64>,
    source: Seq<u64>,
    firsts: Seq<usize>,
    counts: Seq<usize>,
    idx: int,
    n: int,
    i: int,
)
    requires
        0 <= idx < i < n,
        idx <= old.len(),
        carried_total(old, idx) + sums_between(source, firsts, counts, idx, n) <= u64::MAX,
    ensures
        grouped_values(StatKind::Cumulative, old, source, firsts, counts, idx, n)[i] == grouped_values(
            StatKind::Cumulative,
            old,
            source,
            firsts,
            counts,
            idx,
            n,
        )[i - 1] + seq_sum(group_of(source, firsts, counts, i)),
{
    let base = carried_total(old, idx);
    lemma_sums_between_split(source, firsts, counts, idx, i + 1, n);
    lemma_sums_between_split(source, firsts, counts, idx, i, i + 1);
    lemma_sums_between_split(source, firsts, counts, idx, idx, i);
    let r = grouped_values(StatKind::Cumulative, old, source, firsts, counts, idx, n);
    assert(r[i] == cumulative_tail(source, firsts, counts, base, idx, n)[i - idx]);
    assert(r[i - 1] == cumulative_tail(source, firsts, counts, base, idx, n)[i - 1 - idx]);
}

/// Resuming the running total of a source at `idx` over a series whose
/// first `idx` values are the totals from the first entry gives the totals
/// from the first entry, as long as they fit.
pub proof fn lemma_resumed_extend_is_full(old: Seq<u64>, source: Seq<u64>, idx: int)
    requires
        0 <= idx < source.len(),
        idx <= old.len(),
        old.take(idx) == running_totals(source, 0, 0, idx),
        seq_sum(source) <= u64::MAX,
    ensures
        extended_values(old, source, idx) == running_totals(source, 0, 0, source.len() as int),
{
    let base = carried_total(old, idx);
    if idx > 0 {
        assert(old[idx - 1] == old.take(idx)[idx - 1]);
        lemma_sum_split(source, 0, idx, source.len() as int);
        assert(source.subrange(0, source.len() as int) =~= source);
        lemma_seq_sum_nonneg(source.subrange(idx, source.len() as int));
        assert(old.take(idx)[idx - 1] == running_totals(source, 0, 0, idx)[idx - 1]);
        lemma_seq_sum_nonneg(source.subrange(0, idx));
        assert(running_totals(source, 0, 0, idx)[idx - 1] == (0 + seq_sum(source.subrange(0, idx))) as u64);
    }
    assert(base == seq_sum(source.subrange(0, idx))) by {
        if idx == 0 {
            assert(source.subrange(0, 0) =~= Seq::<u64>::empty());
        }
    }
    assert forall|j: int| 0 <= j < source.len() - idx implies (base + #[trigger] seq_sum(
        source.subrange(idx, idx + j + 1),
    )) == seq_sum(source.subrange(0, idx + j + 1)) by {
        lemma_sum_split(source, 0, idx, idx + j + 1);
    }
    assert forall|j: int| 0 <= j < source.len() implies #[trigger] seq_sum(source.subrange(0, j + 1))
        <= u64::MAX by {
        lemma_sum_split(source, 0, j + 1, source.len() as int);
        assert(source.subrange(0, source.len() as int) =~= source);
        lemma_seq_sum_nonneg(source.subrange(j + 1, source.len() as int));
    }
    assert(old.take(idx) + running_totals(source, base, idx, source.len() as int) =~= running_totals(
        source,
        0,
        0,
        source.len() as int,
    ));
}

/// Sums of adjacent stretches add up.
pub proof fn lemma_sum_split(s: Seq<u64>, lo: int, mid: int, hi: int)
    requires
        0 <= lo <= mid <= hi <= s.len(),
    ensures
        seq_sum(s.subrange(lo, hi)) == seq_sum(s.subrange(lo, mid)) + seq_sum(s.subrange(mid, hi)),
    decreases hi - mid,
{
    if hi > mid {
        lemma_sum_split(s, lo, mid, hi - 1);
        assert(s.subrange(lo, hi).drop_last() =~= s.subrange(lo, hi - 1));
        assert(s.subrange(mid, hi).drop_last() =~= s.subrange(mid, hi - 1));
    } else {
        assert(s.subrange(mid, hi) =~= Seq::<u64>::empty());
    }
}

/// In an ascending sequence an earlier entry is no larger than a later one.
pub proof fn lemma_sorted_le(s: Seq<u64>, i: int, j: int)
    requires
        sorted_by(s, value_leq()),
        0 <= i <= j < s.len(),
    ensures
        s[i] <= s[j],
{
    if i < j {
        assert(value_leq()(s[i], s[j]));
    }
}

/// A percentile lies between the entries at the floor and the ceiling of its rank.
pub proof fn lemma_percentile_bounds(s: Seq<u64>, p: int)
    requires
        sorted_by(s, value_leq()),
        s.len() >= 1,
        0 <= p <= 100,
    ensures
        ({
            let k = (s.len() - 1) * p;
            &&& 0 <= k / 100 < s.len()
            &&& s[k / 100] <= percentile(s, p)
            &&& k % 100 != 0 ==> k / 100 + 1 < s.len() && percentile(s, p) <= s[k / 100 + 1]
            &&& k % 100 == 0 ==> percentile(s, p) == s[k / 100]
        }),
{
    let k = (s.len() - 1) * p;
    assert(0 <= k <= (s.len() - 1) * 100) by (nonlinear_arith)
        requires
            k == (s.len() - 1) * p,
            0 <= p <= 100,
            s.len() >= 1,
    ;
    if k % 100 != 0 {
        assert(k / 100 + 1 < s.len()) by (nonlinear_arith)
            requires
                0 <= k <= (s.len() - 1) * 100,
                k % 100 != 0,
        ;
        lemma_sorted_le(s, k / 100, k / 100 + 1);
    }
}

/// Percentiles grow with the percentage, from the first entry to the last.
pub proof fn lemma_percentile_monotone(s: Seq<u64>, p1: int, p2: int)
    requires
        sorted_by(s, value_leq()),
        s.len() >= 1,
        0 <= p1 <= p2 <= 100,
    ensures
        s[0] <= percentile(s, p1) <= percentile(s, p2) <= s[s.len() - 1],
{
    let k1 = (s.len() - 1) * p1;
    let k2 = (s.len() - 1) * p2;
    lemma_percentile_bounds(s, p1);
    lemma_percentile_bounds(s, p2);
    assert(k1 <= k2) by (nonlinear_arith)
        requires
            k1 == (s.len() - 1) * p1,
            k2 == (s.len() - 1) * p2,
            p1 <= p2,
            s.len() >= 1,
    ;
    let i1 = k1 / 100;
    let i2 = k2 / 100;
    assert(i1 <= i2) by (nonlinear_arith)
        requires
            i1 == k1 / 100,
            i2 == k2 / 100,
            0 <= k1 <= k2,
    ;
    lemma_sorted_le(s, 0, i1);
    if k2 % 100 != 0 {
        lemma_sorted_le(s, i2 + 1, s.len() - 1);
    } else {
        lemma_sorted_le(s, i2, s.len() - 1);
    }
    if i1 < i2 {
        if k1 % 100 != 0 {
            lemma_sorted_le(s, i1 + 1, i2);
        } else {
            lemma_sorted_le(s, i1, i2);
        }
    } else {
        if k1 % 100 != 0 {
            assert(k2 % 100 != 0) by (nonlinear_arith)
                requires
                    i1 == k1 / 100,
                    i2 == k2 / 100,
                    i1 == i2,
                    k1 <= k2,
                    k1 % 100 != 0,
                    k1 >= 0,
            ;
        }
    }
}

/// The statistics of a non-empty group are ordered: minimum, 10th, 25th,
/// 50th, 75th and 90th percentile, maximum.
pub proof fn lemma_order_stats_ordered(g: Seq<u64>)
    requires
        g.len() > 0,
    ensures
        group_stat(StatKind::Min, g) <= group_stat(StatKind::P10, g),
        group_stat(StatKind::P10, g) <= group_stat(StatKind::P25, g),
        group_stat(StatKind::P25, g) <= group_stat(StatKind::Median, g),
        group_stat(StatKind::Median, g) <= group_stat(StatKind::P75, g),
        group_stat(StatKind::P75, g) <= group_stat(StatKind::P90, g),
        group_stat(StatKind::P90, g) <= group_stat(StatKind::Max, g),
{
    lemma_sorted_values_len(g);
    let s = sorted_values(g);
    lemma_percentile_monotone(s, 10, 25);
    lemma_percentile_monotone(s, 25, 50);
    lemma_percentile_monotone(s, 50, 75);
    lemma_percentile_monotone(s, 75, 90);
    assert(s.last() == s[s.len() - 1]);
}

/// Every value of a group lies between its minimum and its maximum.
pub proof fn lemma_values_between_extremes(g: Seq<u64>, i: int)
    requires
        0 <= i < g.len(),
    ensures
        group_stat(StatKind::Min, g) <= g[i] <= group_stat(StatKind::Max, g),
{
    lemma_sorted_values_len(g);
    let s = sorted_values(g);
    vstd::seq_lib::to_multiset_contains(g, g[i]);
    vstd::seq_lib::to_multiset_contains(s, g[i]);
    assert(g.contains(g[i]));
    assert(s.contains(g[i]));
    let j = choose|j: int| 0 <= j < s.len() && s[j] == g[i];
    lemma_sorted_le(s, 0, j);
    lemma_sorted_le(s, j, s.len() - 1);
}

/// A sum of values each between `lo` and `hi` lies between `len * lo` and `len * hi`.
pub proof fn lemma_sum_between(g: Seq<u64>, lo: int, hi: int)
    requires
        forall|i: int| 0 <= i < g.len() ==> lo <= #[trigger] g[i] <= hi,
    ensures
        g.len() * lo <= seq_sum(g) <= g.len() * hi,
    decreases g.len(),
{
    if g.len() > 0 {
        lemma_sum_between(g.drop_last(), lo, hi);
        assert(g.len() * lo == (g.len() - 1) * lo + lo) by (nonlinear_arith);
        assert(g.len() * hi == (g.len() - 1) * hi + hi) by (nonlinear_arith);
    }
}

/// The average of a non-empty group lies between its minimum and its maximum.
pub proof fn lemma_average_between_extremes(g: Seq<u64>)
    requires
        g.len() > 0,
    ensures
        group_stat(StatKind::Min, g) <= group_stat(StatKind::Average, g) <= group_stat(
            StatKind::Max,
            g,
        ),
{
    let lo = group_stat(StatKind::Min, g);
    let hi = group_stat(StatKind::Max, g);
    assert forall|i: int| 0 <= i < g.len() implies lo <= #[trigger] g[i] <= hi by {
        lemma_values_between_extremes(g, i);
    }
    lemma_sum_between(g, lo, hi);
    let len = g.len() as int;
    let total = seq_sum(g);
    assert(lo <= total / len <= hi) by (nonlinear_arith)
        requires
            len > 0,
            len * lo <= total <= len * hi,
    ;
}

} // verus!

//! Statistics of one group of values: sums, the sorted order, percentiles.

use vstd::prelude::*;
use vstd::relations::*;
use vstd::seq_lib::*;

verus! {

/// Ascending order on values.
pub open spec fn value_leq() -> spec_fn(u64, u64) -> bool {
    |a: u64, b: u64| a <= b
}

/// The values of a group in ascending order.
pub open spec fn sorted_values(s: Seq<u64>) -> Seq<u64> {
    s.sort_by(value_leq())
}

/// The mathematical sum of a sequence of values.
pub open spec fn seq_sum(s: Seq<u64>) -> int
    decreases s.len(),
{
    if s.len() == 0 {
        0
    } else {
        seq_sum(s.drop_last()) + s.last()
    }
}

/// The midpoint of two values, rounded down.
pub open spec fn midpoint(a: u64, b: u64) -> int {
    (a + b) / 2
}

/// The `pct`-th percentile of an ascending, non-empty sequence: the entry at
/// rank `(len - 1) * pct / 100` where that rank is whole, otherwise the
/// midpoint of the two entries around it.
pub open spec fn percentile(sorted: Seq<u64>, pct: int) -> int {
    let k = (sorted.len() - 1) * pct;
    if k % 100 == 0 {
        sorted[k / 100] as int
    } else {
        midpoint(sorted[k / 100], sorted[k / 100 + 1])
    }
}

/// The values of the group that starts at `first` and holds `count` entries,
/// cut at the end of the source.
pub open spec fn group_slice(source: Seq<u64>, first: int, count: int) -> Seq<u64> {
    let lo = if first < source.len() {
        first
    } else {
        source.len() as int
    };
    let hi = if first + count < source.len() {
        first + count
    } else {
        source.len() as int
    };
    source.subrange(lo, hi)
}

pub proof fn lemma_value_leq_total()
    ensures
        total_ordering(value_leq()),
{
}

/// The sorted order is the unique ascending arrangement of the values.
pub proof fn lemma_sorted_values_unique(s: Seq<u64>, t: Seq<u64>)
    requires
        sorted_by(t, value_leq()),
        t.to_multiset() == s.to_multiset(),
    ensures
        t == sorted_values(s),
{
    lemma_value_leq_total();
    s.lemma_sort_by_ensures(value_leq());
    lemma_sorted_unique(t, sorted_values(s), value_leq());
}

/// The sorted order holds as many values as the group.
pub proof fn lemma_sorted_values_len(s: Seq<u64>)
    ensures
        sorted_values(s).len() == s.len(),
        sorted_by(sorted_values(s), value_leq()),
        sorted_values(s).to_multiset() == s.to_multiset(),
{
    lemma_value_leq_total();
    s.lemma_sort_by_ensures(value_leq());
    to_multiset_len(s);
    to_multiset_len(sorted_values(s));
}

/// Sorts `values` in ascending order (`slice::sort_unstable`). What is
/// claimed is what std documents: the result is in ascending order and holds
/// the same values, each as often as before.
#[verifier::external_body]
fn sort_unstable_values(values: &mut Vec<u64>)
    ensures
        sorted_by(final(values)@, value_leq()),
        final(values)@.to_multiset() == old(values)@.to_multiset(),
{
    values.sort_unstable();
}

/// Sorts a group of values.
pub fn sort_values(values: &mut Vec<u64>)
    ensures
        final(values)@ == sorted_values(old(values)@),
{
    sort_unstable_values(values);
    proof {
        lemma_sorted_values_unique(old(values)@, final(values)@);
    }
}

/// The sum of a group of values.
pub fn sum_values(values: &Vec<u64>) -> (r: u64)
    requires
        seq_sum(values@) <= u64::MAX,
    ensures
        r == seq_sum(values@),
{
    let mut acc: u64 = 0;
    let mut i: usize = 0;
    while i < values.len()
        invariant
            0 <= i <= values.len(),
            acc == seq_sum(values@.take(i as int)),
            seq_sum(values@) <= u64::MAX,
        decreases values.len() - i,
    {
        proof {
            assert(values@.take(i + 1).drop_last() =~= values@.take(i as int));
            lemma_seq_sum_prefix_le(values@, i + 1);
        }
        acc = acc + values[i];
        i = i + 1;
    }
    proof {
        assert(values@.take(values.len() as int) =~= values@);
    }
    acc
}

/// A prefix sums to no more than the whole.
pub proof fn lemma_seq_sum_prefix_le(s: Seq<u64>, k: int)
    requires
        0 <= k <= s.len(),
    ensures
        seq_sum(s.take(k)) <= seq_sum(s),
        0 <= seq_sum(s.take(k)),
    decreases s.len(),
{
    if k == s.len() {
        assert(s.take(k) =~= s);
        lemma_seq_sum_nonneg(s);
    } else {
        lemma_seq_sum_prefix_le(s.drop_last(), k);
        assert(s.drop_last().take(k) =~= s.take(k));
    }
}

pub proof fn lemma_seq_sum_nonneg(s: Seq<u64>)
    ensures
        0 <= seq_sum(s),
    decreases s.len(),
{
    if s.len() > 0 {
        lemma_seq_sum_nonneg(s.drop_last());
    }
}

/// The midpoint of two values, computed without leaving the range of `u64`.
pub fn midpoint_of(a: u64, b: u64) -> (r: u64)
    ensures
        r == midpoint(a, b),
{
    let qa = a / 2;
    let qb = b / 2;
    let ra = a % 2;
    let rb = b % 2;
    assert(a == 2 * qa + ra && 0 <= ra < 2);
    assert(b == 2 * qb + rb && 0 <= rb < 2);
    let r = qa + qb + (ra + rb) / 2;
    assert(r == (a + b) / 2);
    r
}

/// The `pct`-th percentile of an ascending, non-empty group.
pub fn percentile_of(sorted: &Vec<u64>, pct: u64) -> (r: u64)
    requires
        sorted.len() >= 1,
        pct <= 100,
    ensures
        r == percentile(sorted@, pct as int),
{
    let n: u128 = sorted.len() as u128;
    assert((n - 1) * (pct as u128) <= 0xffff_ffff_ffff_ffff * 100) by (nonlinear_arith)
        requires
            1 <= n <= 0xffff_ffff_ffff_ffff,
            pct <= 100,
    ;
    let k: u128 = (n - 1) * (pct as u128);
    assert(k <= (n - 1) * 100) by (nonlinear_arith)
        requires
            k == (n - 1) * (pct as u128),
            pct <= 100,
            n >= 1,
    ;
    let lo: u128 = k / 100;
    assert(lo <= n - 1) by (nonlinear_arith)
        requires
            lo == k / 100,
            k <= (n - 1) * 100,
    ;
    let lo_index = lo as usize;
    if k % 100 == 0 {
        sorted[lo_index]
    } else {
        assert(lo < n - 1) by (nonlinear_arith)
            requires
                lo == k / 100,
                k <= (n - 1) * 100,
                k % 100 != 0,
        ;
        midpoint_of(sorted[lo_index], sorted[lo_index + 1])
    }
}

/// The values of a group, copied out of the source; the group is cut where
/// the source ends.
pub fn collect_group(source: &Vec<u64>, first: usize, count: usize) -> (r: Vec<u64>)
    ensures
        r@ == group_slice(source@, first as int, count as int),
{
    let len = source.len();
    let lo = if first < len {
        first
    } else {
        len
    };
    let hi = if count <= len - lo {
        lo + count
    } else {
        len
    };
    let mut out: Vec<u64> = Vec::new();
    let mut i = lo;
    while i < hi
        invariant
            lo <= i <= hi <= source.len(),
            out@ == source@.subrange(lo as int, i as int),
        decreases hi - i,
    {
        out.push(source[i]);
        i = i + 1;
        proof {
            assert(out@ =~= source@.subrange(lo as int, i as int));
        }
    }
    proof {
        assert(out@ =~= group_slice(source@, first as int, count as int));
    }
    out
}

} // verus!

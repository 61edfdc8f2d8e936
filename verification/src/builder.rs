//! A family of series derived from one source: per group of source entries,
//! its first and last value, extremes, percentiles, average, sum, and the
//! running total of the sums.

use vstd::prelude::*;
use vstd::string::*;

use crate::column::{pushed_at, validated, Column, ColumnView};
use crate::options::{active_count, StatFlags, StorableVecGeneatorOptions};
use crate::stats::{
    collect_group, lemma_sorted_values_len, percentile_of, sort_values, sum_values, group_slice, lemma_seq_sum_nonneg, lemma_seq_sum_prefix_le, percentile, seq_sum, sorted_values,
};

verus! {

/// The statistics a builder can keep, in the order of its fields.
#[derive(Clone, Copy, PartialEq, Eq, Structural, Debug)]
pub enum StatKind {
    First,
    Average,
    Sum,
    Max,
    P90,
    P75,
    Median,
    P25,
    P10,
    Min,
    Last,
    Cumulative,
}

/// The series of one source, by statistic. A field is `None` when that
/// statistic is not kept.
pub struct ComputedVecBuilder {
    pub first: Option<Column<u64>>,
    pub average: Option<Column<u64>>,
    pub sum: Option<Column<u64>>,
    pub max: Option<Column<u64>>,
    pub _90p: Option<Column<u64>>,
    pub _75p: Option<Column<u64>>,
    pub median: Option<Column<u64>>,
    pub _25p: Option<Column<u64>>,
    pub _10p: Option<Column<u64>>,
    pub min: Option<Column<u64>>,
    pub last: Option<Column<u64>>,
    pub cumulative: Option<Column<u64>>,
}

pub open spec fn opt_view(c: Option<Column<u64>>) -> Option<ColumnView<u64>> {
    match c {
        Some(c) => Some(c@),
        None => None,
    }
}

/// The stored statistics of a builder as mathematical values.
pub type Slots = spec_fn(StatKind) -> Option<ColumnView<u64>>;

/// Running minimum of the lengths of the kept series.
pub open spec fn opt_min_len(acc: Option<int>, c: Option<ColumnView<u64>>) -> Option<int> {
    match c {
        None => acc,
        Some(c) => match acc {
            None => Some(c.values.len() as int),
            Some(m) => Some(
                if (c.values.len() as int) < m {
                    c.values.len() as int
                } else {
                    m
                },
            ),
        },
    }
}

/// The length of the shortest kept series, `None` when none is kept.
pub open spec fn min_kept_len(s: Slots) -> Option<int> {
    opt_min_len(
        opt_min_len(
            opt_min_len(
                opt_min_len(
                    opt_min_len(
                        opt_min_len(
                            opt_min_len(
                                opt_min_len(
                                    opt_min_len(
                                        opt_min_len(
                                            opt_min_len(
                                                opt_min_len(None, s(StatKind::First)),
                                                s(StatKind::Last),
                                            ),
                                            s(StatKind::Min),
                                        ),
                                        s(StatKind::Max),
                                    ),
                                    s(StatKind::Median),
                                ),
                                s(StatKind::Average),
                            ),
                            s(StatKind::Sum),
                        ),
                        s(StatKind::Cumulative),
                    ),
                    s(StatKind::P90),
                ),
                s(StatKind::P75),
            ),
            s(StatKind::P25),
        ),
        s(StatKind::P10),
    )
}

/// Where recomputation resumes: the requested index, or the length of the
/// shortest kept series when that is smaller.
pub open spec fn start_index(s: Slots, max_from: int) -> int {
    let m = min_kept_len(s).unwrap();
    if max_from < m {
        max_from
    } else {
        m
    }
}

/// The stored statistics after each kept series is checked against `version`.
pub open spec fn validated_slots(s: Slots, version: u64) -> Slots {
    |k: StatKind|
        match s(k) {
            Some(c) => Some(validated(c, version)),
            None => None,
        }
}

/// The value of a per-group statistic over the values `g` of one group.
pub open spec fn group_stat(k: StatKind, g: Seq<u64>) -> int {
    match k {
        StatKind::Max => sorted_values(g).last() as int,
        StatKind::P90 => percentile(sorted_values(g), 90),
        StatKind::P75 => percentile(sorted_values(g), 75),
        StatKind::Median => percentile(sorted_values(g), 50),
        StatKind::P25 => percentile(sorted_values(g), 25),
        StatKind::P10 => percentile(sorted_values(g), 10),
        StatKind::Min => sorted_values(g)[0] as int,
        StatKind::Average => seq_sum(g) / (g.len() as int),
        _ => seq_sum(g),
    }
}

/// The values of group `i`: `counts[i]` source entries from `firsts[i]` on.
pub open spec fn group_of(source: Seq<u64>, firsts: Seq<usize>, counts: Seq<usize>, i: int) -> Seq<
    u64,
> {
    group_slice(source, firsts[i] as int, counts[i] as int)
}

/// The source entry at `i`, or zero past the end.
pub open spec fn value_or_zero(source: Seq<u64>, i: int) -> u64 {
    if 0 <= i < source.len() {
        source[i]
    } else {
        0
    }
}

/// The sum of the group sums for the groups `lo .. hi`.
pub open spec fn sums_between(
    source: Seq<u64>,
    firsts: Seq<usize>,
    counts: Seq<usize>,
    lo: int,
    hi: int,
) -> int
    decreases hi - lo,
{
    if hi <= lo {
        0
    } else {
        sums_between(source, firsts, counts, lo, hi - 1) + seq_sum(
            group_of(source, firsts, counts, hi - 1),
        )
    }
}

/// The new values of the groups `idx .. n` for a per-group statistic.
pub open spec fn stat_tail(
    k: StatKind,
    source: Seq<u64>,
    firsts: Seq<usize>,
    counts: Seq<usize>,
    idx: int,
    n: int,
) -> Seq<u64> {
    Seq::new((n - idx) as nat, |j: int| group_stat(k, group_of(source, firsts, counts, idx + j)) as u64)
}

/// The running totals for the groups `idx .. n`, starting from `base`.
pub open spec fn cumulative_tail(
    source: Seq<u64>,
    firsts: Seq<usize>,
    counts: Seq<usize>,
    base: int,
    idx: int,
    n: int,
) -> Seq<u64> {
    Seq::new(
        (n - idx) as nat,
        |j: int| (base + sums_between(source, firsts, counts, idx, idx + j + 1)) as u64,
    )
}

/// The total carried into index `idx` of a running-total series.
pub open spec fn carried_total(values: Seq<u64>, idx: int) -> int {
    if idx == 0 {
        0
    } else {
        values[idx - 1] as int
    }
}

/// The values of the series for statistic `k` once the groups `idx .. n`
/// are written over `old`. The first and last values are written at `idx`
/// for every group, so only the one of group `n - 1` remains there.
pub open spec fn grouped_values(
    k: StatKind,
    old: Seq<u64>,
    source: Seq<u64>,
    firsts: Seq<usize>,
    counts: Seq<usize>,
    idx: int,
    n: int,
) -> Seq<u64> {
    if n <= idx {
        old
    } else {
        match k {
            StatKind::First => pushed_at(old, idx, value_or_zero(source, firsts[n - 1] as int)),
            StatKind::Last => pushed_at(
                old,
                idx,
                source[firsts[n - 1] + counts[n - 1] - 1],
            ),
            StatKind::Cumulative => old.take(idx) + cumulative_tail(
                source,
                firsts,
                counts,
                carried_total(old, idx),
                idx,
                n,
            ),
            _ => old.take(idx) + stat_tail(k, source, firsts, counts, idx, n),
        }
    }
}

/// A kept series after the groups `idx .. n` are written.
pub open spec fn grouped_slot(
    c: Option<ColumnView<u64>>,
    k: StatKind,
    source: Seq<u64>,
    firsts: Seq<usize>,
    counts: Seq<usize>,
    idx: int,
    n: int,
) -> Option<ColumnView<u64>> {
    match c {
        None => None,
        Some(c) => Some(
            ColumnView { values: grouped_values(k, c.values, source, firsts, counts, idx, n), ..c },
        ),
    }
}

/// Whether the groups `idx .. n` can be written for statistic `k` without
/// a panic or an overflow: the last value must exist, order statistics and
/// averages need values, sums and running totals must fit.
pub open spec fn group_writable(
    k: StatKind,
    old: Seq<u64>,
    source: Seq<u64>,
    firsts: Seq<usize>,
    counts: Seq<usize>,
    idx: int,
    n: int,
) -> bool {
    match k {
        StatKind::First => true,
        StatKind::Last => forall|i: int|
            idx <= i < n ==> #[trigger] counts[i] > 0 && firsts[i] + counts[i] - 1 < source.len(),
        StatKind::Sum => forall|i: int|
            idx <= i < n ==> #[trigger] seq_sum(group_of(source, firsts, counts, i)) <= u64::MAX,
        StatKind::Average => forall|i: int|
            idx <= i < n ==> #[trigger] group_of(source, firsts, counts, i).len() > 0 && seq_sum(
                group_of(source, firsts, counts, i),
            ) <= u64::MAX,
        StatKind::Cumulative => carried_total(old, idx) + sums_between(
            source,
            firsts,
            counts,
            idx,
            n,
        ) <= u64::MAX,
        _ => forall|i: int| idx <= i < n ==> #[trigger] group_of(source, firsts, counts, i).len() > 0,
    }
}

impl ComputedVecBuilder {
    /// The kept series of a statistic.
    pub open spec fn slot(&self, k: StatKind) -> Option<ColumnView<u64>> {
        match k {
            StatKind::First => opt_view(self.first),
            StatKind::Average => opt_view(self.average),
            StatKind::Sum => opt_view(self.sum),
            StatKind::Max => opt_view(self.max),
            StatKind::P90 => opt_view(self._90p),
            StatKind::P75 => opt_view(self._75p),
            StatKind::Median => opt_view(self.median),
            StatKind::P25 => opt_view(self._25p),
            StatKind::P10 => opt_view(self._10p),
            StatKind::Min => opt_view(self.min),
            StatKind::Last => opt_view(self.last),
            StatKind::Cumulative => opt_view(self.cumulative),
        }
    }

    pub open spec fn slots(&self) -> Slots {
        |k: StatKind| self.slot(k)
    }

    /// Whether some statistic is kept.
    pub open spec fn keeps_any(&self) -> bool {
        min_kept_len(self.slots()) is Some
    }
}

/// Whether the options keep statistic `k`.
pub open spec fn flag_of(f: StatFlags, k: StatKind) -> bool {
    match k {
        StatKind::First => f.first,
        StatKind::Average => f.average,
        StatKind::Sum => f.sum,
        StatKind::Max => f.max,
        StatKind::P90 => f.p90,
        StatKind::P75 => f.p75,
        StatKind::Median => f.median,
        StatKind::P25 => f.p25,
        StatKind::P10 => f.p10,
        StatKind::Min => f.min,
        StatKind::Last => f.last,
        StatKind::Cumulative => f.cumulative,
    }
}

/// `word` + "_" + `name`.
pub open spec fn prefixed(word: Seq<char>, name: Seq<char>) -> Seq<char> {
    word + "_"@ + name
}

/// `name` + "_" + `word`.
pub open spec fn suffixed(name: Seq<char>, word: Seq<char>) -> Seq<char> {
    name + "_"@ + word
}

/// The word that names the series of a statistic.
pub open spec fn stat_word(k: StatKind) -> Seq<char> {
    match k {
        StatKind::First => "first"@,
        StatKind::Average => "average"@,
        StatKind::Sum => "sum"@,
        StatKind::Max => "max"@,
        StatKind::P90 => "90p"@,
        StatKind::P75 => "75p"@,
        StatKind::Median => "median"@,
        StatKind::P25 => "25p"@,
        StatKind::P10 => "10p"@,
        StatKind::Min => "min"@,
        StatKind::Last => "last"@,
        StatKind::Cumulative => "cumulative"@,
    }
}

/// The name of the series of statistic `k` for a source called `name`. The
/// last value takes the source's name; the running total is always
/// prefixed; the others carry their word unless only one statistic is kept.
pub open spec fn column_name(name: Seq<char>, k: StatKind, only_one: bool) -> Seq<char> {
    match k {
        StatKind::Last => name,
        StatKind::Cumulative => prefixed(stat_word(k), name),
        StatKind::First => if only_one {
            name
        } else {
            prefixed(stat_word(k), name)
        },
        _ => if only_one {
            name
        } else {
            suffixed(name, stat_word(k))
        },
    }
}

pub open spec fn opt_len(m: Option<usize>) -> Option<int> {
    match m {
        Some(v) => Some(v as int),
        None => None,
    }
}

fn min_len_step(acc: Option<usize>, c: &Option<Column<u64>>) -> (r: Option<usize>)
    ensures
        opt_len(r) == opt_min_len(opt_len(acc), opt_view(*c)),
{
    match c {
        None => acc,
        Some(col) => {
            let l = col.values.len();
            match acc {
                None => Some(l),
                Some(m) => Some(
                    if l < m {
                        l
                    } else {
                        m
                    },
                ),
            }
        },
    }
}

fn validate_slot(c: &mut Option<Column<u64>>, version: u64)
    ensures
        opt_view(*final(c)) == match opt_view(*old(c)) {
            Some(v) => Some(validated(v, version)),
            None => None,
        },
{
    match c {
        Some(col) => col.validate_computed_version_or_reset_file(version),
        None => {},
    }
}

fn new_slot(keep: bool, name: String, version: u64) -> (r: Option<Column<u64>>)
    ensures
        opt_view(r) == if keep {
            Some(
                ColumnView::<u64> {
                    name: name@,
                    version,
                    computed_version: 0,
                    values: Seq::empty(),
                },
            )
        } else {
            None
        },
{
    if keep {
        Some(Column::new(name, version))
    } else {
        None
    }
}

fn prefix_name(word: &str, name: &str) -> (r: String)
    ensures
        r@ == prefixed(word@, name@),
{
    String::from_str(word).concat("_").concat(name)
}

fn suffix_name(name: &str, word: &str) -> (r: String)
    ensures
        r@ == suffixed(name@, word@),
{
    String::from_str(name).concat("_").concat(word)
}

fn maybe_prefix_name(only_one: bool, word: &str, name: &str) -> (r: String)
    ensures
        r@ == if only_one {
            name@
        } else {
            prefixed(word@, name@)
        },
{
    if only_one {
        String::from_str(name)
    } else {
        prefix_name(word, name)
    }
}

fn maybe_suffix_name(only_one: bool, name: &str, word: &str) -> (r: String)
    ensures
        r@ == if only_one {
            name@
        } else {
            suffixed(name@, word@)
        },
{
    if only_one {
        String::from_str(name)
    } else {
        suffix_name(name, word)
    }
}

/// The running totals of `source` from index `idx` up to `end`, starting from `base`.
pub open spec fn running_totals(source: Seq<u64>, base: int, idx: int, end: int) -> Seq<u64> {
    Seq::new((end - idx) as nat, |j: int| (base + seq_sum(source.subrange(idx, idx + j + 1))) as u64)
}

/// A running-total series after the source entries from `idx` on are added
/// to it; nothing changes when the source holds no entry there.
pub open spec fn extended_values(old: Seq<u64>, source: Seq<u64>, idx: int) -> Seq<u64> {
    if source.len() <= idx {
        old
    } else {
        old.take(idx) + running_totals(source, carried_total(old, idx), idx, source.len() as int)
    }
}

/// A sum over a stretch of the source: the stretch up to `i + 1` adds entry `i`.
pub proof fn lemma_sum_subrange_step(s: Seq<u64>, lo: int, i: int)
    requires
        0 <= lo <= i < s.len(),
    ensures
        seq_sum(s.subrange(lo, i + 1)) == seq_sum(s.subrange(lo, i)) + s[i],
{
    assert(s.subrange(lo, i + 1).drop_last() =~= s.subrange(lo, i));
}

/// A stretch that starts at `lo` sums to no more than everything from `lo` on.
pub proof fn lemma_sum_subrange_le_skip(s: Seq<u64>, lo: int, hi: int)
    requires
        0 <= lo <= hi <= s.len(),
    ensures
        seq_sum(s.subrange(lo, hi)) <= seq_sum(s.skip(lo)),
{
    assert(s.skip(lo).take(hi - lo) =~= s.subrange(lo, hi));
    lemma_seq_sum_prefix_le(s.skip(lo), hi - lo);
}


/// The resume index never lies past the end of a kept series.
pub proof fn lemma_start_index_le_kept(s: Slots, max_from: int, k: StatKind)
    requires
        s(k) is Some,
    ensures
        min_kept_len(s) is Some,
        start_index(s, max_from) <= s(k).unwrap().values.len(),
        start_index(s, max_from) <= max_from,
{
}

/// Some statistic is kept exactly when the shortest kept length exists.
pub proof fn lemma_min_kept_some(s: Slots)
    ensures
        min_kept_len(s) is Some <==> (s(StatKind::First) is Some || s(StatKind::Last) is Some || s(
            StatKind::Min,
        ) is Some || s(StatKind::Max) is Some || s(StatKind::Median) is Some || s(
            StatKind::Average,
        ) is Some || s(StatKind::Sum) is Some || s(StatKind::Cumulative) is Some || s(
            StatKind::P90,
        ) is Some || s(StatKind::P75) is Some || s(StatKind::P25) is Some || s(StatKind::P10) is Some),
{
}

/// The sums of adjacent runs of groups add up.
pub proof fn lemma_sums_between_split(
    source: Seq<u64>,
    firsts: Seq<usize>,
    counts: Seq<usize>,
    lo: int,
    mid: int,
    hi: int,
)
    requires
        lo <= mid <= hi,
    ensures
        sums_between(source, firsts, counts, lo, hi) == sums_between(source, firsts, counts, lo, mid)
            + sums_between(source, firsts, counts, mid, hi),
        0 <= sums_between(source, firsts, counts, mid, hi),
    decreases hi - mid,
{
    if hi > mid {
        lemma_sums_between_split(source, firsts, counts, lo, mid, hi - 1);
        lemma_seq_sum_nonneg(group_of(source, firsts, counts, hi - 1));
    }
}

/// Writing one more group extends the new values of a statistic by that group's value.
pub proof fn lemma_stat_tail_push(
    k: StatKind,
    source: Seq<u64>,
    firsts: Seq<usize>,
    counts: Seq<usize>,
    idx: int,
    i: int,
)
    requires
        idx <= i,
    ensures
        stat_tail(k, source, firsts, counts, idx, i + 1) == stat_tail(
            k,
            source,
            firsts,
            counts,
            idx,
            i,
        ).push(group_stat(k, group_of(source, firsts, counts, i)) as u64),
{
    assert(stat_tail(k, source, firsts, counts, idx, i + 1) =~= stat_tail(
        k,
        source,
        firsts,
        counts,
        idx,
        i,
    ).push(group_stat(k, group_of(source, firsts, counts, i)) as u64));
}

/// Writing one more group extends the running totals by the new total.
pub proof fn lemma_cumulative_tail_push(
    source: Seq<u64>,
    firsts: Seq<usize>,
    counts: Seq<usize>,
    base: int,
    idx: int,
    i: int,
)
    requires
        idx <= i,
    ensures
        cumulative_tail(source, firsts, counts, base, idx, i + 1) == cumulative_tail(
            source,
            firsts,
            counts,
            base,
            idx,
            i,
        ).push((base + sums_between(source, firsts, counts, idx, i + 1)) as u64),
{
    assert(cumulative_tail(source, firsts, counts, base, idx, i + 1) =~= cumulative_tail(
        source,
        firsts,
        counts,
        base,
        idx,
        i,
    ).push((base + sums_between(source, firsts, counts, idx, i + 1)) as u64));
}

/// Whether a tail under construction matches a kept statistic.
pub open spec fn tail_tracks(
    t: Option<Vec<u64>>,
    kept: bool,
    k: StatKind,
    source: Seq<u64>,
    firsts: Seq<usize>,
    counts: Seq<usize>,
    idx: int,
    i: int,
) -> bool {
    &&& (t is Some <==> kept)
    &&& (t matches Some(x) ==> x@ == stat_tail(k, source, firsts, counts, idx, i))
}

fn empty_tail(kept: bool) -> (r: Option<Vec<u64>>)
    ensures
        r is Some <==> kept,
        r matches Some(x) ==> x@ == Seq::<u64>::empty(),
{
    if kept {
        Some(Vec::new())
    } else {
        None
    }
}

fn push_tail(t: &mut Option<Vec<u64>>, v: u64)
    ensures
        *final(t) is Some <==> *old(t) is Some,
        *old(t) matches Some(x) ==> final(t).unwrap()@ == x@.push(v),
{
    match t {
        Some(x) => x.push(v),
        None => {},
    }
}

/// Replaces everything from `idx` on by `tail` in a kept series.
fn set_tail(c: &mut Option<Column<u64>>, idx: usize, tail: Option<Vec<u64>>)
    requires
        *old(c) is Some <==> tail is Some,
        *old(c) matches Some(col) ==> idx <= col.values@.len(),
    ensures
        opt_view(*final(c)) == match opt_view(*old(c)) {
            Some(v) => Some(ColumnView { values: v.values.take(idx as int) + tail.unwrap()@, ..v }),
            None => None,
        },
{
    match tail {
        Some(mut t) => {
            match c {
                Some(col) => {
                    col.values.truncate(idx);
                    col.values.append(&mut t);
                },
                None => {},
            }
        },
        None => {},
    }
}

/// Whether every kept statistic can take the groups `idx .. n`.
pub open spec fn all_writable(
    s: Slots,
    source: Seq<u64>,
    firsts: Seq<usize>,
    counts: Seq<usize>,
    idx: int,
    n: int,
) -> bool {
    forall|k: StatKind|
        #[trigger] s(k) is Some ==> group_writable(
            k,
            s(k).unwrap().values,
            source,
            firsts,
            counts,
            idx,
            n,
        )
}

/// What holds of every statistic holds of each one.
proof fn lemma_every_kind(p: spec_fn(StatKind) -> bool)
    requires
        forall|k: StatKind| #[trigger] p(k),
    ensures
        p(StatKind::First) && p(StatKind::Average) && p(StatKind::Sum) && p(StatKind::Max),
        p(StatKind::P90) && p(StatKind::P75) && p(StatKind::Median) && p(StatKind::P25),
        p(StatKind::P10) && p(StatKind::Min) && p(StatKind::Last) && p(StatKind::Cumulative),
{
}

/// The version a grouped series is computed from: the sum of its inputs' versions.
pub open spec fn inputs_version(
    source: ColumnView<u64>,
    firsts: ColumnView<usize>,
    counts: ColumnView<usize>,
) -> int {
    source.computed_version + firsts.computed_version + counts.computed_version
}

/// The resume index lies within every kept series.
pub proof fn lemma_start_index_le_all(s: Slots, max_from: int)
    requires
        min_kept_len(s) is Some,
    ensures
        forall|k: StatKind| #[trigger] s(k) is Some ==> start_index(s, max_from) <= s(k).unwrap().values.len(),
{
    assert forall|k: StatKind| #[trigger] s(k) is Some implies start_index(s, max_from) <= s(k).unwrap().values.len() by {
        lemma_start_index_le_kept(s, max_from, k);
    }
}

/// No group written yet: no new values.
pub proof fn lemma_stat_tail_empty(source: Seq<u64>, firsts: Seq<usize>, counts: Seq<usize>, idx: int)
    ensures
        forall|k: StatKind| #[trigger] stat_tail(k, source, firsts, counts, idx, idx) == Seq::<u64>::empty(),
{
    assert forall|k: StatKind| #[trigger] stat_tail(k, source, firsts, counts, idx, idx) == Seq::<u64>::empty() by {
        assert(stat_tail(k, source, firsts, counts, idx, idx) =~= Seq::<u64>::empty());
    }
}

/// The new values of every statistic for a run of groups.
pub struct GroupTails {
    pub first: Option<Vec<u64>>,
    pub last: Option<Vec<u64>>,
    pub max: Option<Vec<u64>>,
    pub p90: Option<Vec<u64>>,
    pub p75: Option<Vec<u64>>,
    pub median: Option<Vec<u64>>,
    pub p25: Option<Vec<u64>>,
    pub p10: Option<Vec<u64>>,
    pub min: Option<Vec<u64>>,
    pub average: Option<Vec<u64>>,
    pub sum: Option<Vec<u64>>,
    pub cumulative: Option<Vec<u64>>,
}

pub open spec fn tail_of(t: GroupTails, k: StatKind) -> Option<Vec<u64>> {
    match k {
        StatKind::First => t.first,
        StatKind::Last => t.last,
        StatKind::Max => t.max,
        StatKind::P90 => t.p90,
        StatKind::P75 => t.p75,
        StatKind::Median => t.median,
        StatKind::P25 => t.p25,
        StatKind::P10 => t.p10,
        StatKind::Min => t.min,
        StatKind::Average => t.average,
        StatKind::Sum => t.sum,
        StatKind::Cumulative => t.cumulative,
    }
}

/// The values that replace everything from `idx` on in the series of `k`.
pub open spec fn expected_tail(
    k: StatKind,
    old: Seq<u64>,
    source: Seq<u64>,
    firsts: Seq<usize>,
    counts: Seq<usize>,
    idx: int,
    n: int,
) -> Seq<u64> {
    match k {
        StatKind::First => seq![value_or_zero(source, firsts[n - 1] as int)],
        StatKind::Last => seq![source[firsts[n - 1] + counts[n - 1] - 1]],
        StatKind::Cumulative => cumulative_tail(source, firsts, counts, carried_total(old, idx), idx, n),
        _ => stat_tail(k, source, firsts, counts, idx, n),
    }
}

/// Whether computed tails hold, for each kept statistic, its expected values.
pub open spec fn tails_match(
    b: ComputedVecBuilder,
    t: GroupTails,
    sources: spec_fn(StatKind) -> Seq<u64>,
    firsts: Seq<usize>,
    counts: Seq<usize>,
    idx: int,
    n: int,
) -> bool {
    forall|k: StatKind|
        (#[trigger] b.slot(k) is Some <==> tail_of(t, k) is Some) && (b.slot(k) is Some
            ==> tail_of(t, k).unwrap()@ == expected_tail(
            k,
            b.slot(k).unwrap().values,
            sources(k),
            firsts,
            counts,
            idx,
            n,
        ))
}

/// Replacing the values from `idx` on by the expected tail gives the grouped values.
pub proof fn lemma_tail_is_grouped(
    k: StatKind,
    c: Option<ColumnView<u64>>,
    t: GroupTails,
    source: Seq<u64>,
    firsts: Seq<usize>,
    counts: Seq<usize>,
    idx: int,
    n: int,
)
    requires
        idx < n,
        c is Some <==> tail_of(t, k) is Some,
        c is Some ==> tail_of(t, k).unwrap()@ == expected_tail(k, c.unwrap().values, source, firsts, counts, idx, n),
    ensures
        grouped_slot(c, k, source, firsts, counts, idx, n) == match c {
            Some(c) => Some(ColumnView { values: c.values.take(idx) + tail_of(t, k).unwrap()@, ..c }),
            None => None,
        },
{
    if c is Some {
        let old = c.unwrap().values;
        if k == StatKind::First {
            assert(old.take(idx) + seq![value_or_zero(source, firsts[n - 1] as int)] =~= pushed_at(old, idx, value_or_zero(source, firsts[n - 1] as int)));
        }
        if k == StatKind::Last {
            assert(old.take(idx) + seq![source[firsts[n - 1] + counts[n - 1] - 1]] =~= pushed_at(old, idx, source[firsts[n - 1] + counts[n - 1] - 1]));
        }
    }
}

/// The statistic of an aggregated source that statistic `k` is built from
/// when its groups are combined: running totals come from the sums.
pub open spec fn aligned_kind(k: StatKind) -> StatKind {
    if k == StatKind::Cumulative {
        StatKind::Sum
    } else {
        k
    }
}

/// The values of an aggregated source that statistic `k` is built from.
pub open spec fn aligned_values(source: Slots, k: StatKind) -> Seq<u64> {
    source(aligned_kind(k)).unwrap().values
}

/// Whether a builder keeps any percentile.
pub open spec fn keeps_percentiles(b: ComputedVecBuilder) -> bool {
    b._90p is Some || b._75p is Some || b.median is Some || b._25p is Some || b._10p is Some
}

/// Whether every kept statistic can take the groups `idx .. n` of an
/// aggregated source: the source keeps what it is built from, and the
/// values exist and fit.
pub open spec fn aligned_ready(
    s: Slots,
    source: Slots,
    firsts: Seq<usize>,
    counts: Seq<usize>,
    idx: int,
    n: int,
) -> bool {
    forall|k: StatKind|
        #[trigger] s(k) is Some ==> {
            &&& source(aligned_kind(k)) is Some
            &&& group_writable(
                k,
                s(k).unwrap().values,
                aligned_values(source, k),
                firsts,
                counts,
                idx,
                n,
            )
            &&& k == StatKind::First ==> forall|i: int|
                idx <= i < n ==> #[trigger] firsts[i] < aligned_values(source, k).len()
        }
}

/// The new values of one per-group statistic for the groups `idx .. n`.
fn stat_tail_exec(
    k: StatKind,
    idx: usize,
    src: &Vec<u64>,
    firsts: &Vec<usize>,
    counts: &Vec<usize>,
) -> (r: Vec<u64>)
    requires
        k == StatKind::Max || k == StatKind::Min || k == StatKind::Average || k == StatKind::Sum,
        idx <= firsts@.len() <= counts@.len(),
        group_writable(k, Seq::empty(), src@, firsts@, counts@, idx as int, firsts@.len() as int),
    ensures
        r@ == stat_tail(k, src@, firsts@, counts@, idx as int, firsts@.len() as int),
{
    let n = firsts.len();
    let mut out: Vec<u64> = Vec::new();
    let mut i = idx;
    proof {
        lemma_stat_tail_empty(src@, firsts@, counts@, idx as int);
    }
    while i < n
        invariant
            idx <= i <= n,
            n == firsts@.len(),
            n <= counts@.len(),
            k == StatKind::Max || k == StatKind::Min || k == StatKind::Average || k == StatKind::Sum,
            group_writable(k, Seq::empty(), src@, firsts@, counts@, idx as int, n as int),
            out@ == stat_tail(k, src@, firsts@, counts@, idx as int, i as int),
        decreases n - i,
    {
        proof {
            lemma_stat_tail_push(k, src@, firsts@, counts@, idx as int, i as int);
        }
        let ghost gi = group_of(src@, firsts@, counts@, i as int);
        let mut g = collect_group(src, firsts[i], counts[i]);
        assert(g@ == gi);
        match k {
            StatKind::Max => {
                assert(gi.len() > 0);
                sort_values(&mut g);
                proof {
                    lemma_sorted_values_len(gi);
                }
                let len = g.len();
                out.push(g[len - 1]);
            },
            StatKind::Min => {
                assert(gi.len() > 0);
                sort_values(&mut g);
                proof {
                    lemma_sorted_values_len(gi);
                }
                out.push(g[0]);
            },
            StatKind::Average => {
                assert(gi.len() > 0 && seq_sum(gi) <= u64::MAX);
                let total = sum_values(&g);
                out.push(total / (g.len() as u64));
            },
            _ => {
                assert(seq_sum(gi) <= u64::MAX);
                let total = sum_values(&g);
                out.push(total);
            },
        }
        i = i + 1;
    }
    out
}

/// The running totals of the group sums for the groups `idx .. n`, from `base`.
fn cumulative_tail_exec(
    base: u64,
    idx: usize,
    src: &Vec<u64>,
    firsts: &Vec<usize>,
    counts: &Vec<usize>,
) -> (r: Vec<u64>)
    requires
        idx <= firsts@.len() <= counts@.len(),
        base + sums_between(src@, firsts@, counts@, idx as int, firsts@.len() as int) <= u64::MAX,
    ensures
        r@ == cumulative_tail(src@, firsts@, counts@, base as int, idx as int, firsts@.len() as int),
{
    let n = firsts.len();
    let mut out: Vec<u64> = Vec::new();
    let mut total: u64 = base;
    let mut i = idx;
    proof {
        assert(cumulative_tail(src@, firsts@, counts@, base as int, idx as int, idx as int)
            =~= Seq::<u64>::empty());
    }
    while i < n
        invariant
            idx <= i <= n,
            n == firsts@.len(),
            n <= counts@.len(),
            base + sums_between(src@, firsts@, counts@, idx as int, n as int) <= u64::MAX,
            total == base + sums_between(src@, firsts@, counts@, idx as int, i as int),
            out@ == cumulative_tail(src@, firsts@, counts@, base as int, idx as int, i as int),
        decreases n - i,
    {
        proof {
            lemma_cumulative_tail_push(src@, firsts@, counts@, base as int, idx as int, i as int);
            lemma_sums_between_split(src@, firsts@, counts@, idx as int, i + 1, n as int);
            lemma_sums_between_split(src@, firsts@, counts@, idx as int, idx as int, i as int);
        }
        let g = collect_group(src, firsts[i], counts[i]);
        let group_total = sum_values(&g);
        total = total + group_total;
        out.push(total);
        i = i + 1;
    }
    out
}

/// `ks` followed by `k` when `keep`.
pub open spec fn push_if(ks: Seq<StatKind>, k: StatKind, keep: bool) -> Seq<StatKind> {
    if keep {
        ks.push(k)
    } else {
        ks
    }
}

/// The kept statistics in listing order: first, last, min, max, median,
/// average, sum, running total, then the 90th, 75th, 25th and 10th percentiles.
pub open spec fn kept_kinds(b: ComputedVecBuilder) -> Seq<StatKind> {
    push_if(
        push_if(
            push_if(
                push_if(
                    push_if(
                        push_if(
                            push_if(
                                push_if(
                                    push_if(
                                        push_if(
                                            push_if(
                                                push_if(
                                                    Seq::empty(),
                                                    StatKind::First,
                                                    b.first is Some,
                                                ),
                                                StatKind::Last,
                                                b.last is Some,
                                            ),
                                            StatKind::Min,
                                            b.min is Some,
                                        ),
                                        StatKind::Max,
                                        b.max is Some,
                                    ),
                                    StatKind::Median,
                                    b.median is Some,
                                ),
                                StatKind::Average,
                                b.average is Some,
                            ),
                            StatKind::Sum,
                            b.sum is Some,
                        ),
                        StatKind::Cumulative,
                        b.cumulative is Some,
                    ),
                    StatKind::P90,
                    b._90p is Some,
                ),
                StatKind::P75,
                b._75p is Some,
            ),
            StatKind::P25,
            b._25p is Some,
        ),
        StatKind::P10,
        b._10p is Some,
    )
}

/// Whether a listing of series matches a listing of kinds, one for one.
pub open spec fn lists_slots<'a>(
    r: Seq<&'a Column<u64>>,
    b: ComputedVecBuilder,
    ks: Seq<StatKind>,
) -> bool {
    &&& r.len() == ks.len()
    &&& forall|i: int| 0 <= i < r.len() ==> Some(#[trigger] r[i]@) == b.slot(ks[i])
}

fn list_push<'a>(
    r: &mut Vec<&'a Column<u64>>,
    c: &'a Option<Column<u64>>,
    Ghost(b): Ghost<ComputedVecBuilder>,
    Ghost(ks): Ghost<Seq<StatKind>>,
    Ghost(k): Ghost<StatKind>,
)
    requires
        lists_slots(old(r)@, b, ks),
        b.slot(k) == opt_view(*c),
    ensures
        lists_slots(final(r)@, b, push_if(ks, k, c is Some)),
{
    match c {
        Some(col) => {
            r.push(col);
            proof {
                assert(lists_slots(final(r)@, b, ks.push(k)));
            }
        },
        None => {},
    }
}

/// Whether `compute` can take the groups from the resume index on.
pub open spec fn compute_ready(
    s: Slots,
    version: int,
    max_from: int,
    source: Seq<u64>,
    firsts: Seq<usize>,
    counts: Seq<usize>,
) -> bool {
    let v = validated_slots(s, version as u64);
    let idx = start_index(v, max_from);
    let n = firsts.len() as int;
    idx < n ==> {
        &&& counts.len() >= n
        &&& all_writable(v, source, firsts, counts, idx, n)
    }
}

/// The kept statistics after `compute`.
pub open spec fn computed_slots(
    s: Slots,
    version: int,
    max_from: int,
    source: Seq<u64>,
    firsts: Seq<usize>,
    counts: Seq<usize>,
) -> Slots {
    let v = validated_slots(s, version as u64);
    let idx = start_index(v, max_from);
    |k: StatKind| grouped_slot(v(k), k, source, firsts, counts, idx, firsts.len() as int)
}

/// Whether `from_aligned` can take the groups from the resume index on.
pub open spec fn aligned_ready_at(
    s: Slots,
    version: int,
    max_from: int,
    source: Slots,
    firsts: Seq<usize>,
    counts: Seq<usize>,
) -> bool {
    let v = validated_slots(s, version as u64);
    let idx = start_index(v, max_from);
    let n = firsts.len() as int;
    idx < n ==> {
        &&& counts.len() >= n
        &&& aligned_ready(v, source, firsts, counts, idx, n)
    }
}

/// The kept statistics after `from_aligned`.
pub open spec fn aligned_slots(
    s: Slots,
    version: int,
    max_from: int,
    source: Slots,
    firsts: Seq<usize>,
    counts: Seq<usize>,
) -> Slots {
    let v = validated_slots(s, version as u64);
    let idx = start_index(v, max_from);
    |k: StatKind|
        grouped_slot(v(k), k, aligned_values(source, k), firsts, counts, idx, firsts.len() as int)
}

/// Whether `extend` can add the source to the running total.
pub open spec fn extend_ready(s: Slots, max_from: int, source: Seq<u64>) -> bool {
    s(StatKind::Cumulative) is Some ==> {
        let idx = start_index(s, max_from);
        idx < source.len() ==> carried_total(s(StatKind::Cumulative).unwrap().values, idx) + seq_sum(
            source.skip(idx),
        ) <= u64::MAX
    }
}

/// The kept statistics after `extend`.
pub open spec fn extended_slots(s: Slots, max_from: int, source: Seq<u64>) -> Slots {
    |k: StatKind|
        if k == StatKind::Cumulative && s(k) is Some {
            Some(
                ColumnView {
                    values: extended_values(s(k).unwrap().values, source, start_index(s, max_from)),
                    ..s(k).unwrap()
                },
            )
        } else {
            s(k)
        }
}

/// The kept statistics of a new builder.
pub open spec fn imported_slots(name: Seq<char>, version: u64, f: StatFlags) -> Slots {
    |k: StatKind|
        if flag_of(f, k) {
            Some(
                ColumnView::<u64> {
                    name: column_name(name, k, active_count(f) == 1),
                    version,
                    computed_version: 0,
                    values: Seq::empty(),
                },
            )
        } else {
            None
        }
}

impl ComputedVecBuilder {
    /// The series for the statistics the options keep, empty, named after
    /// `name`, each at `version`.
    pub fn forced_import(name: &str, version: u64, options: StorableVecGeneatorOptions) -> (r:
        Self)
        ensures
            forall|k: StatKind|
                #[trigger] r.slot(k) == if flag_of(options@, k) {
                    Some(
                        ColumnView::<u64> {
                            name: column_name(name@, k, active_count(options@) == 1),
                            version,
                            computed_version: 0,
                            values: Seq::empty(),
                        },
                    )
                } else {
                    None
                },
    {
        let only_one = options.is_only_one_active();
        let f = options.flags();
        ComputedVecBuilder {
            first: new_slot(f.first, maybe_prefix_name(only_one, "first", name), version),
            last: new_slot(f.last, String::from_str(name), version),
            min: new_slot(f.min, maybe_suffix_name(only_one, name, "min"), version),
            max: new_slot(f.max, maybe_suffix_name(only_one, name, "max"), version),
            median: new_slot(f.median, maybe_suffix_name(only_one, name, "median"), version),
            average: new_slot(f.average, maybe_suffix_name(only_one, name, "average"), version),
            sum: new_slot(f.sum, maybe_suffix_name(only_one, name, "sum"), version),
            cumulative: new_slot(f.cumulative, prefix_name("cumulative", name), version),
            _90p: new_slot(f.p90, maybe_suffix_name(only_one, name, "90p"), version),
            _75p: new_slot(f.p75, maybe_suffix_name(only_one, name, "75p"), version),
            _25p: new_slot(f.p25, maybe_suffix_name(only_one, name, "25p"), version),
            _10p: new_slot(f.p10, maybe_suffix_name(only_one, name, "10p"), version),
        }
    }

    /// What the writability of the kept statistics gives for each group.
    proof fn lemma_writable_facts(
        &self,
        src: Seq<u64>,
        firsts: Seq<usize>,
        counts: Seq<usize>,
        idx: int,
        n: int,
        need_sorted: bool,
    )
        requires
            all_writable(self.slots(), src, firsts, counts, idx, n),
            need_sorted == (self.max is Some || self._90p is Some || self._75p is Some
                || self.median is Some || self._25p is Some || self._10p is Some || self.min is Some),
        ensures
            need_sorted ==> forall|j: int|
                idx <= j < n ==> #[trigger] group_of(src, firsts, counts, j).len() > 0,
            self.sum is Some || self.average is Some ==> forall|j: int|
                idx <= j < n ==> #[trigger] seq_sum(group_of(src, firsts, counts, j)) <= u64::MAX,
            self.average is Some ==> forall|j: int|
                idx <= j < n ==> #[trigger] group_of(src, firsts, counts, j).len() > 0,
            self.last is Some ==> forall|j: int|
                idx <= j < n ==> #[trigger] counts[j] > 0 && firsts[j] + counts[j] - 1 < src.len(),
            self.cumulative is Some ==> carried_total(self.cumulative.unwrap().values@, idx)
                + sums_between(src, firsts, counts, idx, n) <= u64::MAX,
    {
        let s = self.slots();
        lemma_every_kind(
            |k: StatKind| s(k) is Some ==> group_writable(k, s(k).unwrap().values, src, firsts, counts, idx, n),
        );
    }

    /// Where recomputation resumes: `max_from`, or the length of the
    /// shortest kept series when that is smaller.
    pub fn starting_index(&self, max_from: usize) -> (r: usize)
        requires
            self.keeps_any(),
        ensures
            r == start_index(self.slots(), max_from as int),
    {
        let mut m: Option<usize> = None;
        m = min_len_step(m, &self.first);
        m = min_len_step(m, &self.last);
        m = min_len_step(m, &self.min);
        m = min_len_step(m, &self.max);
        m = min_len_step(m, &self.median);
        m = min_len_step(m, &self.average);
        m = min_len_step(m, &self.sum);
        m = min_len_step(m, &self.cumulative);
        m = min_len_step(m, &self._90p);
        m = min_len_step(m, &self._75p);
        m = min_len_step(m, &self._25p);
        m = min_len_step(m, &self._10p);
        let m = m.unwrap();
        if max_from < m {
            max_from
        } else {
            m
        }
    }

    /// Adds the source entries from the resume index on to the running
    /// total, when one is kept; every other series is left as it is.
    pub fn extend(&mut self, max_from: usize, source: &Column<u64>)
        requires
            old(self).cumulative is Some ==> {
                let idx = start_index(old(self).slots(), max_from as int);
                idx < source.values@.len() ==> carried_total(
                    old(self).cumulative.unwrap().values@,
                    idx,
                ) + seq_sum(source.values@.skip(idx)) <= u64::MAX
            },
        ensures
            forall|k: StatKind|
                k != StatKind::Cumulative ==> #[trigger] final(self).slot(k) == old(self).slot(k),
            old(self).cumulative is None ==> final(self).cumulative is None,
            old(self).cumulative is Some ==> final(self).cumulative is Some
                && final(self).cumulative.unwrap()@ == (ColumnView {
                values: extended_values(
                    old(self).cumulative.unwrap().values@,
                    source.values@,
                    start_index(old(self).slots(), max_from as int),
                ),
                ..old(self).cumulative.unwrap()@
            }),
    {
        if self.cumulative.is_none() {
            return ;
        }
        let idx = self.starting_index(max_from);
        let ghost old_col = self.cumulative.unwrap()@;
        let ghost src = source.values@;
        proof {
            assert(idx <= old_col.values.len()) by {
                lemma_start_index_le_kept(self.slots(), max_from as int, StatKind::Cumulative);
            }
        }
        let mut col = self.cumulative.take().unwrap();
        let n = source.values.len();
        if idx >= n {
            self.cumulative = Some(col);
            return ;
        }
        let mut cum: u64 = if idx == 0 {
            0
        } else {
            col.values[idx - 1]
        };
        let ghost base = carried_total(old_col.values, idx as int);
        let mut i = idx;
        while i < n
            invariant
                idx <= i <= n,
                n == src.len(),
                src == source.values@,
                idx <= old_col.values.len(),
                base == carried_total(old_col.values, idx as int),
                base + seq_sum(src.skip(idx as int)) <= u64::MAX,
                cum == base + seq_sum(src.subrange(idx as int, i as int)),
                col@.name == old_col.name,
                col@.version == old_col.version,
                col@.computed_version == old_col.computed_version,
                i == idx ==> col@.values == old_col.values,
                i > idx ==> col@.values == old_col.values.take(idx as int) + running_totals(
                    src,
                    base,
                    idx as int,
                    i as int,
                ),
            decreases n - i,
        {
            proof {
                lemma_sum_subrange_step(src, idx as int, i as int);
                lemma_sum_subrange_le_skip(src, idx as int, i + 1);
                lemma_seq_sum_nonneg(src.subrange(idx as int, i as int));
            }
            cum = cum + source.values[i];
            let r = col.forced_push_at(i, cum);
            proof {
                assert(col@.values =~= old_col.values.take(idx as int) + running_totals(
                    src,
                    base,
                    idx as int,
                    i + 1,
                ));
            }
            i = i + 1;
        }
        self.cumulative = Some(col);
    }

    /// Computes, for every group from the resume index on, the kept
    /// statistics of the source entries in that group. Group `i` holds
    /// `count_indexes[i]` entries from `first_indexes[i]` on. The series are
    /// first checked against the versions of the three inputs.
    pub fn compute(
        &mut self,
        max_from: usize,
        source: &Column<u64>,
        first_indexes: &Column<usize>,
        count_indexes: &Column<usize>,
    )
        requires
            old(self).keeps_any(),
            inputs_version(source@, first_indexes@, count_indexes@) <= u64::MAX,
            ({
                let v = validated_slots(
                    old(self).slots(),
                    inputs_version(source@, first_indexes@, count_indexes@) as u64,
                );
                let idx = start_index(v, max_from as int);
                let n = first_indexes.values@.len() as int;
                idx < n ==> {
                    &&& count_indexes.values@.len() >= n
                    &&& all_writable(
                        v,
                        source.values@,
                        first_indexes.values@,
                        count_indexes.values@,
                        idx,
                        n,
                    )
                }
            }),
        ensures
            ({
                let v = validated_slots(
                    old(self).slots(),
                    inputs_version(source@, first_indexes@, count_indexes@) as u64,
                );
                let idx = start_index(v, max_from as int);
                forall|k: StatKind|
                    #[trigger] final(self).slot(k) == grouped_slot(
                        v(k),
                        k,
                        source.values@,
                        first_indexes.values@,
                        count_indexes.values@,
                        idx,
                        first_indexes.values@.len() as int,
                    )
            }),
    {
        let version = source.computed_version + first_indexes.computed_version
            + count_indexes.computed_version;
        let ghost v = validated_slots(old(self).slots(), version);
        self.validate_computed_version_or_reset_file(version);
        proof {
            lemma_min_kept_some(old(self).slots());
            lemma_min_kept_some(self.slots());
            assert(self.slots() =~= v);
        }
        let idx = self.starting_index(max_from);
        let n = first_indexes.values.len();
        if idx >= n {
            proof {
                assert forall|k: StatKind| #[trigger]
                    self.slot(k) == grouped_slot(v(k), k, source.values@, first_indexes.values@, count_indexes.values@, idx as int, n as int) by {
                    assert(self.slots()(k) == v(k));
                }
            }
            return ;
        }
        let ghost src = source.values@;
        let ghost firsts = first_indexes.values@;
        let ghost counts = count_indexes.values@;
        proof {
            lemma_start_index_le_all(self.slots(), max_from as int);
            assert(all_writable(self.slots(), src, firsts, counts, idx as int, n as int));
        }
        let ghost pre = *self;
        let tails = self.group_tails(idx, source, first_indexes, count_indexes);
        self.apply_tails(idx, tails);
        proof {
            assert forall|k: StatKind| #[trigger]
                self.slot(k) == grouped_slot(v(k), k, src, firsts, counts, idx as int, n as int) by {
                assert(pre.slots()(k) == v(k));
                lemma_tail_is_grouped(k, pre.slot(k), tails, src, firsts, counts, idx as int, n as int);
            }
        }
    }

    /// The new values of every kept statistic for the groups `idx .. n`.
    fn group_tails(
        &self,
        idx: usize,
        source: &Column<u64>,
        first_indexes: &Column<usize>,
        count_indexes: &Column<usize>,
    ) -> (r: GroupTails)
        requires
            idx < first_indexes.values@.len(),
            count_indexes.values@.len() >= first_indexes.values@.len(),
            min_kept_len(self.slots()) is Some,
            forall|k: StatKind| #[trigger] self.slot(k) is Some ==> idx <= self.slot(k).unwrap().values.len(),
            all_writable(
                self.slots(),
                source.values@,
                first_indexes.values@,
                count_indexes.values@,
                idx as int,
                first_indexes.values@.len() as int,
            ),
        ensures
            tails_match(
                *self,
                r,
                |k: StatKind| source.values@,
                first_indexes.values@,
                count_indexes.values@,
                idx as int,
                first_indexes.values@.len() as int,
            ),
    {
        let n = first_indexes.values.len();
        let ghost src = source.values@;
        let ghost firsts = first_indexes.values@;
        let ghost counts = count_indexes.values@;
        let need_sorted = self.max.is_some() || self._90p.is_some() || self._75p.is_some()
            || self.median.is_some() || self._25p.is_some() || self._10p.is_some()
            || self.min.is_some();
        proof {
            self.lemma_writable_facts(src, firsts, counts, idx as int, n as int, need_sorted);
        }
        let (t_max, t_90p, t_75p, t_median, t_25p, t_10p, t_min) = self.order_tails(
            idx,
            need_sorted,
            source,
            first_indexes,
            count_indexes,
        );
        let (t_average, t_sum, t_cumulative) = self.sum_tails(
            idx,
            source,
            first_indexes,
            count_indexes,
        );
        let last_first = first_indexes.values[n - 1];
        let first_value: u64 = if last_first < source.values.len() {
            source.values[last_first]
        } else {
            0
        };
        let t_first = if self.first.is_some() {
            Some(vec![first_value])
        } else {
            None
        };
        let t_last = if self.last.is_some() {
            let last_count = count_indexes.values[n - 1];
            Some(vec![source.values[last_first + last_count - 1]])
        } else {
            None
        };
        let r = GroupTails {
            first: t_first,
            last: t_last,
            max: t_max,
            p90: t_90p,
            p75: t_75p,
            median: t_median,
            p25: t_25p,
            p10: t_10p,
            min: t_min,
            average: t_average,
            sum: t_sum,
            cumulative: t_cumulative,
        };
        proof {
            assert forall|k: StatKind|
                (#[trigger] self.slot(k) is Some <==> tail_of(r, k) is Some) && (self.slot(k) is Some
                    ==> tail_of(r, k).unwrap()@ == expected_tail(
                    k,
                    self.slot(k).unwrap().values,
                    src,
                    firsts,
                    counts,
                    idx as int,
                    n as int,
                )) by {
                if k == StatKind::First && self.slot(k) is Some {
                    assert(tail_of(r, k).unwrap()@ =~= seq![first_value]);
                }
                if k == StatKind::Last && self.slot(k) is Some {
                    assert(tail_of(r, k).unwrap()@ =~= seq![src[firsts[n - 1] + counts[n - 1] - 1]]);
                }
            }
        }
        r
    }

    /// The new extremes and percentiles for the groups `idx .. n`.
    fn order_tails(
        &self,
        idx: usize,
        need_sorted: bool,
        source: &Column<u64>,
        first_indexes: &Column<usize>,
        count_indexes: &Column<usize>,
    ) -> (r: (
        Option<Vec<u64>>,
        Option<Vec<u64>>,
        Option<Vec<u64>>,
        Option<Vec<u64>>,
        Option<Vec<u64>>,
        Option<Vec<u64>>,
        Option<Vec<u64>>,
    ))
        requires
            idx < first_indexes.values@.len(),
            count_indexes.values@.len() >= first_indexes.values@.len(),
            need_sorted == (self.max is Some || self._90p is Some || self._75p is Some
                || self.median is Some || self._25p is Some || self._10p is Some || self.min is Some),
            need_sorted ==> forall|j: int|
                idx <= j < first_indexes.values@.len() ==> #[trigger] group_of(
                    source.values@,
                    first_indexes.values@,
                    count_indexes.values@,
                    j,
                ).len() > 0,
        ensures
            ({
                let src = source.values@;
                let firsts = first_indexes.values@;
                let counts = count_indexes.values@;
                let n = firsts.len() as int;
                &&& tail_tracks(r.0, self.max is Some, StatKind::Max, src, firsts, counts, idx as int, n)
                &&& tail_tracks(r.1, self._90p is Some, StatKind::P90, src, firsts, counts, idx as int, n)
                &&& tail_tracks(r.2, self._75p is Some, StatKind::P75, src, firsts, counts, idx as int, n)
                &&& tail_tracks(r.3, self.median is Some, StatKind::Median, src, firsts, counts, idx as int, n)
                &&& tail_tracks(r.4, self._25p is Some, StatKind::P25, src, firsts, counts, idx as int, n)
                &&& tail_tracks(r.5, self._10p is Some, StatKind::P10, src, firsts, counts, idx as int, n)
                &&& tail_tracks(r.6, self.min is Some, StatKind::Min, src, firsts, counts, idx as int, n)
            }),
    {
        let n = first_indexes.values.len();
        let ghost src = source.values@;
        let ghost firsts = first_indexes.values@;
        let ghost counts = count_indexes.values@;
        let mut t_max = empty_tail(self.max.is_some());
        let mut t_90p = empty_tail(self._90p.is_some());
        let mut t_75p = empty_tail(self._75p.is_some());
        let mut t_median = empty_tail(self.median.is_some());
        let mut t_25p = empty_tail(self._25p.is_some());
        let mut t_10p = empty_tail(self._10p.is_some());
        let mut t_min = empty_tail(self.min.is_some());
        let mut i = idx;
        proof {
            lemma_stat_tail_empty(src, firsts, counts, idx as int);
        }
        while i < n
            invariant
                idx <= i <= n,
                n == firsts.len(),
                counts.len() >= n,
                src == source.values@,
                firsts == first_indexes.values@,
                counts == count_indexes.values@,
                need_sorted ==> forall|j: int|
                    idx <= j < n ==> #[trigger] group_of(src, firsts, counts, j).len() > 0,
                need_sorted == (t_max is Some || t_90p is Some || t_75p is Some || t_median is Some
                    || t_25p is Some || t_10p is Some || t_min is Some),
                tail_tracks(t_max, self.max is Some, StatKind::Max, src, firsts, counts, idx as int, i as int),
                tail_tracks(t_90p, self._90p is Some, StatKind::P90, src, firsts, counts, idx as int, i as int),
                tail_tracks(t_75p, self._75p is Some, StatKind::P75, src, firsts, counts, idx as int, i as int),
                tail_tracks(t_median, self.median is Some, StatKind::Median, src, firsts, counts, idx as int, i as int),
                tail_tracks(t_25p, self._25p is Some, StatKind::P25, src, firsts, counts, idx as int, i as int),
                tail_tracks(t_10p, self._10p is Some, StatKind::P10, src, firsts, counts, idx as int, i as int),
                tail_tracks(t_min, self.min is Some, StatKind::Min, src, firsts, counts, idx as int, i as int),
            decreases n - i,
        {
            proof {
                lemma_stat_tail_push(StatKind::Max, src, firsts, counts, idx as int, i as int);
                lemma_stat_tail_push(StatKind::P90, src, firsts, counts, idx as int, i as int);
                lemma_stat_tail_push(StatKind::P75, src, firsts, counts, idx as int, i as int);
                lemma_stat_tail_push(StatKind::Median, src, firsts, counts, idx as int, i as int);
                lemma_stat_tail_push(StatKind::P25, src, firsts, counts, idx as int, i as int);
                lemma_stat_tail_push(StatKind::P10, src, firsts, counts, idx as int, i as int);
                lemma_stat_tail_push(StatKind::Min, src, firsts, counts, idx as int, i as int);
            }
            if need_sorted {
                let f = first_indexes.values[i];
                let c = count_indexes.values[i];
                let ghost gi = group_of(src, firsts, counts, i as int);
                let mut sorted = collect_group(&source.values, f, c);
                sort_values(&mut sorted);
                proof {
                    lemma_sorted_values_len(gi);
                }
                let len = sorted.len();
                push_tail(&mut t_max, sorted[len - 1]);
                push_tail(&mut t_90p, percentile_of(&sorted, 90));
                push_tail(&mut t_75p, percentile_of(&sorted, 75));
                push_tail(&mut t_median, percentile_of(&sorted, 50));
                push_tail(&mut t_25p, percentile_of(&sorted, 25));
                push_tail(&mut t_10p, percentile_of(&sorted, 10));
                push_tail(&mut t_min, sorted[0]);
            }
            i = i + 1;
        }
        (t_max, t_90p, t_75p, t_median, t_25p, t_10p, t_min)
    }

    /// The new averages, sums and running totals for the groups `idx .. n`.
    fn sum_tails(
        &self,
        idx: usize,
        source: &Column<u64>,
        first_indexes: &Column<usize>,
        count_indexes: &Column<usize>,
    ) -> (r: (Option<Vec<u64>>, Option<Vec<u64>>, Option<Vec<u64>>))
        requires
            idx < first_indexes.values@.len(),
            count_indexes.values@.len() >= first_indexes.values@.len(),
            self.cumulative is Some ==> idx <= self.cumulative.unwrap().values@.len(),
            ({
                let src = source.values@;
                let firsts = first_indexes.values@;
                let counts = count_indexes.values@;
                let n = firsts.len() as int;
                &&& self.sum is Some || self.average is Some ==> forall|j: int|
                    idx <= j < n ==> #[trigger] seq_sum(group_of(src, firsts, counts, j)) <= u64::MAX
                &&& self.average is Some ==> forall|j: int|
                    idx <= j < n ==> #[trigger] group_of(src, firsts, counts, j).len() > 0
                &&& self.cumulative is Some ==> carried_total(self.cumulative.unwrap().values@, idx as int)
                    + sums_between(src, firsts, counts, idx as int, n) <= u64::MAX
            }),
        ensures
            ({
                let src = source.values@;
                let firsts = first_indexes.values@;
                let counts = count_indexes.values@;
                let n = firsts.len() as int;
                &&& tail_tracks(r.0, self.average is Some, StatKind::Average, src, firsts, counts, idx as int, n)
                &&& tail_tracks(r.1, self.sum is Some, StatKind::Sum, src, firsts, counts, idx as int, n)
                &&& (r.2 is Some <==> self.cumulative is Some)
                &&& (r.2 matches Some(x) ==> x@ == cumulative_tail(
                    src,
                    firsts,
                    counts,
                    carried_total(self.cumulative.unwrap().values@, idx as int),
                    idx as int,
                    n,
                ))
            }),
    {
        let n = first_indexes.values.len();
        let ghost src = source.values@;
        let ghost firsts = first_indexes.values@;
        let ghost counts = count_indexes.values@;
        let need_sum = self.sum.is_some() || self.cumulative.is_some() || self.average.is_some();
        let base: u64 = match &self.cumulative {
            Some(c) => if idx == 0 {
                0
            } else {
                c.values[idx - 1]
            },
            None => 0,
        };
        let mut t_average = empty_tail(self.average.is_some());
        let mut t_sum = empty_tail(self.sum.is_some());
        let mut t_cumulative = empty_tail(self.cumulative.is_some());
        let mut cumulative: u64 = base;
        let mut i = idx;
        proof {
            lemma_stat_tail_empty(src, firsts, counts, idx as int);
            assert(cumulative_tail(src, firsts, counts, base as int, idx as int, idx as int)
                =~= Seq::<u64>::empty());
        }
        while i < n
            invariant
                idx <= i <= n,
                n == firsts.len(),
                counts.len() >= n,
                src == source.values@,
                firsts == first_indexes.values@,
                counts == count_indexes.values@,
                need_sum == (t_sum is Some || t_cumulative is Some || t_average is Some),
                t_sum is Some || t_average is Some ==> forall|j: int|
                    idx <= j < n ==> #[trigger] seq_sum(group_of(src, firsts, counts, j))
                        <= u64::MAX,
                t_average is Some ==> forall|j: int|
                    idx <= j < n ==> #[trigger] group_of(src, firsts, counts, j).len() > 0,
                t_cumulative is Some ==> base + sums_between(src, firsts, counts, idx as int, n as int)
                    <= u64::MAX,
                t_cumulative is Some ==> base == carried_total(self.cumulative.unwrap().values@, idx as int),
                t_cumulative is Some ==> cumulative == base + sums_between(
                    src,
                    firsts,
                    counts,
                    idx as int,
                    i as int,
                ),
                tail_tracks(t_average, self.average is Some, StatKind::Average, src, firsts, counts, idx as int, i as int),
                tail_tracks(t_sum, self.sum is Some, StatKind::Sum, src, firsts, counts, idx as int, i as int),
                t_cumulative is Some <==> self.cumulative is Some,
                t_cumulative matches Some(x) ==> x@ == cumulative_tail(
                    src,
                    firsts,
                    counts,
                    base as int,
                    idx as int,
                    i as int,
                ),
            decreases n - i,
        {
            proof {
                lemma_stat_tail_push(StatKind::Average, src, firsts, counts, idx as int, i as int);
                lemma_stat_tail_push(StatKind::Sum, src, firsts, counts, idx as int, i as int);
                lemma_cumulative_tail_push(src, firsts, counts, base as int, idx as int, i as int);
            }
            if need_sum {
                let f = first_indexes.values[i];
                let c = count_indexes.values[i];
                let g = collect_group(&source.values, f, c);
                proof {
                    if t_cumulative is Some {
                        lemma_sums_between_split(src, firsts, counts, idx as int, i + 1, n as int);
                        lemma_sums_between_split(src, firsts, counts, idx as int, idx as int, i as int);
                    }
                }
                let total = sum_values(&g);
                push_tail(&mut t_sum, total);
                if t_average.is_some() {
                    push_tail(&mut t_average, total / (g.len() as u64));
                }
                if t_cumulative.is_some() {
                    cumulative = cumulative + total;
                    push_tail(&mut t_cumulative, cumulative);
                }
            }
            i = i + 1;
        }
        (t_average, t_sum, t_cumulative)
    }

    /// Combines groups of an already aggregated source: the first value of
    /// a group is its first entry's first value, the last its last entry's
    /// last value, the extremes the extremes of the entries' extremes, the
    /// average the mean of the entries' averages, the sum the total of the
    /// entries' sums, and the running total adds those sums. Percentiles
    /// cannot be combined this way and must not be kept.
    pub fn from_aligned(
        &mut self,
        max_from: usize,
        source: &ComputedVecBuilder,
        first_indexes: &Column<usize>,
        count_indexes: &Column<usize>,
    )
        requires
            old(self).keeps_any(),
            !keeps_percentiles(*old(self)),
            first_indexes.computed_version + count_indexes.computed_version <= u64::MAX,
            ({
                let v = validated_slots(
                    old(self).slots(),
                    (first_indexes.computed_version + count_indexes.computed_version) as u64,
                );
                let idx = start_index(v, max_from as int);
                let n = first_indexes.values@.len() as int;
                idx < n ==> {
                    &&& count_indexes.values@.len() >= n
                    &&& aligned_ready(
                        v,
                        source.slots(),
                        first_indexes.values@,
                        count_indexes.values@,
                        idx,
                        n,
                    )
                }
            }),
        ensures
            ({
                let v = validated_slots(
                    old(self).slots(),
                    (first_indexes.computed_version + count_indexes.computed_version) as u64,
                );
                let idx = start_index(v, max_from as int);
                forall|k: StatKind|
                    #[trigger] final(self).slot(k) == grouped_slot(
                        v(k),
                        k,
                        aligned_values(source.slots(), k),
                        first_indexes.values@,
                        count_indexes.values@,
                        idx,
                        first_indexes.values@.len() as int,
                    )
            }),
    {
        let version = first_indexes.computed_version + count_indexes.computed_version;
        let ghost v = validated_slots(old(self).slots(), version);
        self.validate_computed_version_or_reset_file(version);
        proof {
            lemma_min_kept_some(old(self).slots());
            lemma_min_kept_some(self.slots());
            assert(self.slots() =~= v);
        }
        let idx = self.starting_index(max_from);
        let n = first_indexes.values.len();
        if idx >= n {
            proof {
                assert forall|k: StatKind| #[trigger]
                    self.slot(k) == grouped_slot(v(k), k, aligned_values(source.slots(), k), first_indexes.values@, count_indexes.values@, idx as int, n as int) by {
                    assert(self.slots()(k) == v(k));
                }
            }
            return ;
        }
        let ghost firsts = first_indexes.values@;
        let ghost counts = count_indexes.values@;
        proof {
            lemma_start_index_le_all(self.slots(), max_from as int);
            assert(aligned_ready(self.slots(), source.slots(), firsts, counts, idx as int, n as int));
        }
        let ghost pre = *self;
        let tails = self.aligned_tails(idx, source, first_indexes, count_indexes);
        self.apply_tails(idx, tails);
        proof {
            assert forall|k: StatKind| #[trigger]
                self.slot(k) == grouped_slot(v(k), k, aligned_values(source.slots(), k), firsts, counts, idx as int, n as int) by {
                assert(pre.slots()(k) == v(k));
                lemma_tail_is_grouped(k, pre.slot(k), tails, aligned_values(source.slots(), k), firsts, counts, idx as int, n as int);
            }
        }
    }

    /// The new values of every kept statistic for the groups `idx .. n` of an aggregated source.
    fn aligned_tails(
        &self,
        idx: usize,
        source: &ComputedVecBuilder,
        first_indexes: &Column<usize>,
        count_indexes: &Column<usize>,
    ) -> (r: GroupTails)
        requires
            idx < first_indexes.values@.len(),
            count_indexes.values@.len() >= first_indexes.values@.len(),
            !keeps_percentiles(*self),
            forall|k: StatKind| #[trigger] self.slot(k) is Some ==> idx <= self.slot(k).unwrap().values.len(),
            aligned_ready(
                self.slots(),
                source.slots(),
                first_indexes.values@,
                count_indexes.values@,
                idx as int,
                first_indexes.values@.len() as int,
            ),
        ensures
            tails_match(
                *self,
                r,
                |k: StatKind| aligned_values(source.slots(), k),
                first_indexes.values@,
                count_indexes.values@,
                idx as int,
                first_indexes.values@.len() as int,
            ),
    {
        let n = first_indexes.values.len();
        let ghost firsts = first_indexes.values@;
        let ghost counts = count_indexes.values@;
        let ghost s = self.slots();
        proof {
            assert(s(StatKind::First) is Some ==> source.slot(StatKind::First) is Some);
            assert(s(StatKind::Last) is Some ==> source.slot(StatKind::Last) is Some);
            assert(s(StatKind::Max) is Some ==> source.slot(StatKind::Max) is Some);
            assert(s(StatKind::Min) is Some ==> source.slot(StatKind::Min) is Some);
            assert(s(StatKind::Average) is Some ==> source.slot(StatKind::Average) is Some);
            assert(s(StatKind::Sum) is Some ==> source.slot(StatKind::Sum) is Some);
            assert(s(StatKind::Cumulative) is Some ==> source.slot(aligned_kind(StatKind::Cumulative)) is Some);
        }
        let last_first = first_indexes.values[n - 1];
        let t_first = match (&self.first, &source.first) {
            (Some(_), Some(src)) => {
                proof {
                    assert(s(StatKind::First) is Some);
                    assert(firsts[n - 1] < aligned_values(source.slots(), StatKind::First).len());
                }
                Some(vec![src.values[last_first]])
            },
            _ => None,
        };
        let t_last = match (&self.last, &source.last) {
            (Some(_), Some(src)) => {
                proof {
                    assert(s(StatKind::Last) is Some);
                    assert(group_writable(StatKind::Last, s(StatKind::Last).unwrap().values, aligned_values(source.slots(), StatKind::Last), firsts, counts, idx as int, n as int));
                    assert(counts[n - 1] > 0);
                    assert(firsts[n - 1] + counts[n - 1] - 1 < aligned_values(source.slots(), StatKind::Last).len());
                    assert(aligned_values(source.slots(), StatKind::Last) == src.values@);
                }
                let last_count = count_indexes.values[n - 1];
                assert(last_first == firsts[n - 1] && last_count == counts[n - 1]);
                assert(last_count >= 1 && last_first + last_count <= src.values@.len());
                let src_len = src.values.len();
                let last_index = last_first + last_count - 1;
                let last_value = src.values[last_index];
                Some(vec![last_value])
            },
            _ => None,
        };
        let t_max = match (&self.max, &source.max) {
            (Some(_), Some(src)) => {
                proof { assert(s(StatKind::Max) is Some); }
                Some(stat_tail_exec(StatKind::Max, idx, &src.values, &first_indexes.values, &count_indexes.values))
            },
            _ => None,
        };
        let t_min = match (&self.min, &source.min) {
            (Some(_), Some(src)) => {
                proof { assert(s(StatKind::Min) is Some); }
                Some(stat_tail_exec(StatKind::Min, idx, &src.values, &first_indexes.values, &count_indexes.values))
            },
            _ => None,
        };
        let t_average = match (&self.average, &source.average) {
            (Some(_), Some(src)) => {
                proof { assert(s(StatKind::Average) is Some); }
                Some(stat_tail_exec(StatKind::Average, idx, &src.values, &first_indexes.values, &count_indexes.values))
            },
            _ => None,
        };
        let t_sum = match (&self.sum, &source.sum) {
            (Some(_), Some(src)) => {
                proof { assert(s(StatKind::Sum) is Some); }
                Some(stat_tail_exec(StatKind::Sum, idx, &src.values, &first_indexes.values, &count_indexes.values))
            },
            _ => None,
        };
        let t_cumulative = match (&self.cumulative, &source.sum) {
            (Some(c), Some(src)) => {
                proof { assert(s(StatKind::Cumulative) is Some); }
                let base: u64 = if idx == 0 {
                    0
                } else {
                    c.values[idx - 1]
                };
                Some(cumulative_tail_exec(base, idx, &src.values, &first_indexes.values, &count_indexes.values))
            },
            _ => None,
        };
        let r = GroupTails {
            first: t_first,
            last: t_last,
            max: t_max,
            p90: None,
            p75: None,
            median: None,
            p25: None,
            p10: None,
            min: t_min,
            average: t_average,
            sum: t_sum,
            cumulative: t_cumulative,
        };
        proof {
            assert forall|k: StatKind|
                (#[trigger] self.slot(k) is Some <==> tail_of(r, k) is Some) && (self.slot(k) is Some
                    ==> tail_of(r, k).unwrap()@ == expected_tail(
                    k,
                    self.slot(k).unwrap().values,
                    aligned_values(source.slots(), k),
                    firsts,
                    counts,
                    idx as int,
                    n as int,
                )) by {
                if k == StatKind::First && self.slot(k) is Some {
                    assert(tail_of(r, k).unwrap()@ =~= seq![aligned_values(source.slots(), k)[firsts[n - 1] as int]]);
                }
                if k == StatKind::Last && self.slot(k) is Some {
                    let src = aligned_values(source.slots(), k);
                    assert(tail_of(r, k).unwrap()@ =~= seq![src[firsts[n - 1] + counts[n - 1] - 1]]);
                }
            }
        }
        r
    }

    /// Replaces, in every kept series, everything from `idx` on by its tail.
    #[verifier::rlimit(50)]
    fn apply_tails(&mut self, idx: usize, tails: GroupTails)
        requires
            forall|k: StatKind| #[trigger] old(self).slot(k) is Some <==> tail_of(tails, k) is Some,
            forall|k: StatKind| #[trigger] old(self).slot(k) is Some ==> idx <= old(self).slot(k).unwrap().values.len(),
        ensures
            forall|k: StatKind| #[trigger] final(self).slot(k) == match old(self).slot(k) {
                Some(c) => Some(ColumnView { values: c.values.take(idx as int) + tail_of(tails, k).unwrap()@, ..c }),
                None => None,
            },
    {
        proof {
            let before = *old(self);
            lemma_every_kind(|k: StatKind| before.slot(k) is Some <==> tail_of(tails, k) is Some);
            lemma_every_kind(
                |k: StatKind| before.slot(k) is Some ==> idx <= before.slot(k).unwrap().values.len(),
            );
        }
        let GroupTails { first, last, max, p90, p75, median, p25, p10, min, average, sum, cumulative } =
            tails;
        set_tail(&mut self.first, idx, first);
        set_tail(&mut self.last, idx, last);
        set_tail(&mut self.max, idx, max);
        set_tail(&mut self._90p, idx, p90);
        set_tail(&mut self._75p, idx, p75);
        set_tail(&mut self.median, idx, median);
        set_tail(&mut self._25p, idx, p25);
        set_tail(&mut self._10p, idx, p10);
        set_tail(&mut self.min, idx, min);
        set_tail(&mut self.average, idx, average);
        set_tail(&mut self.sum, idx, sum);
        set_tail(&mut self.cumulative, idx, cumulative);
    }

    /// Every kept series, in listing order.
    pub fn vecs(&self) -> (r: Vec<&Column<u64>>)
        ensures
            lists_slots(r@, *self, kept_kinds(*self)),
    {
        let mut r: Vec<&Column<u64>> = Vec::new();
        let ghost b = *self;
        list_push(&mut r, &self.first, Ghost(b), Ghost(Seq::empty()), Ghost(StatKind::First));
        let ghost ks = push_if(Seq::empty(), StatKind::First, self.first is Some);
        list_push(&mut r, &self.last, Ghost(b), Ghost(ks), Ghost(StatKind::Last));
        let ghost ks = push_if(ks, StatKind::Last, self.last is Some);
        list_push(&mut r, &self.min, Ghost(b), Ghost(ks), Ghost(StatKind::Min));
        let ghost ks = push_if(ks, StatKind::Min, self.min is Some);
        list_push(&mut r, &self.max, Ghost(b), Ghost(ks), Ghost(StatKind::Max));
        let ghost ks = push_if(ks, StatKind::Max, self.max is Some);
        list_push(&mut r, &self.median, Ghost(b), Ghost(ks), Ghost(StatKind::Median));
        let ghost ks = push_if(ks, StatKind::Median, self.median is Some);
        list_push(&mut r, &self.average, Ghost(b), Ghost(ks), Ghost(StatKind::Average));
        let ghost ks = push_if(ks, StatKind::Average, self.average is Some);
        list_push(&mut r, &self.sum, Ghost(b), Ghost(ks), Ghost(StatKind::Sum));
        let ghost ks = push_if(ks, StatKind::Sum, self.sum is Some);
        list_push(&mut r, &self.cumulative, Ghost(b), Ghost(ks), Ghost(StatKind::Cumulative));
        let ghost ks = push_if(ks, StatKind::Cumulative, self.cumulative is Some);
        list_push(&mut r, &self._90p, Ghost(b), Ghost(ks), Ghost(StatKind::P90));
        let ghost ks = push_if(ks, StatKind::P90, self._90p is Some);
        list_push(&mut r, &self._75p, Ghost(b), Ghost(ks), Ghost(StatKind::P75));
        let ghost ks = push_if(ks, StatKind::P75, self._75p is Some);
        list_push(&mut r, &self._25p, Ghost(b), Ghost(ks), Ghost(StatKind::P25));
        let ghost ks = push_if(ks, StatKind::P25, self._25p is Some);
        list_push(&mut r, &self._10p, Ghost(b), Ghost(ks), Ghost(StatKind::P10));
        r
    }

    /// The series of the first values; it must be kept.
    pub fn unwrap_first(&self) -> (r: &Column<u64>)
        requires
            self.first is Some,
        ensures
            *r == self.first.unwrap(),
    {
        self.first.as_ref().unwrap()
    }

    /// The series of the averages; it must be kept.
    pub fn unwrap_average(&self) -> (r: &Column<u64>)
        requires
            self.average is Some,
        ensures
            *r == self.average.unwrap(),
    {
        self.average.as_ref().unwrap()
    }

    /// The series of the sums; it must be kept.
    pub fn unwrap_sum(&self) -> (r: &Column<u64>)
        requires
            self.sum is Some,
        ensures
            *r == self.sum.unwrap(),
    {
        self.sum.as_ref().unwrap()
    }

    /// The series of the maxima; it must be kept.
    pub fn unwrap_max(&self) -> (r: &Column<u64>)
        requires
            self.max is Some,
        ensures
            *r == self.max.unwrap(),
    {
        self.max.as_ref().unwrap()
    }

    /// The series of the 90th percentiles; it must be kept.
    pub fn unwrap_90p(&self) -> (r: &Column<u64>)
        requires
            self._90p is Some,
        ensures
            *r == self._90p.unwrap(),
    {
        self._90p.as_ref().unwrap()
    }

    /// The series of the 75th percentiles; it must be kept.
    pub fn unwrap_75p(&self) -> (r: &Column<u64>)
        requires
            self._75p is Some,
        ensures
            *r == self._75p.unwrap(),
    {
        self._75p.as_ref().unwrap()
    }

    /// The series of the medians; it must be kept.
    pub fn unwrap_median(&self) -> (r: &Column<u64>)
        requires
            self.median is Some,
        ensures
            *r == self.median.unwrap(),
    {
        self.median.as_ref().unwrap()
    }

    /// The series of the 25th percentiles; it must be kept.
    pub fn unwrap_25p(&self) -> (r: &Column<u64>)
        requires
            self._25p is Some,
        ensures
            *r == self._25p.unwrap(),
    {
        self._25p.as_ref().unwrap()
    }

    /// The series of the 10th percentiles; it must be kept.
    pub fn unwrap_10p(&self) -> (r: &Column<u64>)
        requires
            self._10p is Some,
        ensures
            *r == self._10p.unwrap(),
    {
        self._10p.as_ref().unwrap()
    }

    /// The series of the minima; it must be kept.
    pub fn unwrap_min(&self) -> (r: &Column<u64>)
        requires
            self.min is Some,
        ensures
            *r == self.min.unwrap(),
    {
        self.min.as_ref().unwrap()
    }

    /// The series of the last values; it must be kept.
    pub fn unwrap_last(&self) -> (r: &Column<u64>)
        requires
            self.last is Some,
        ensures
            *r == self.last.unwrap(),
    {
        self.last.as_ref().unwrap()
    }

    /// The series of the running totals; it must be kept.
    pub fn unwrap_cumulative(&self) -> (r: &Column<u64>)
        requires
            self.cumulative is Some,
        ensures
            *r == self.cumulative.unwrap(),
    {
        self.cumulative.as_ref().unwrap()
    }

    /// Checks every kept series against the version of its inputs.
    pub fn validate_computed_version_or_reset_file(&mut self, version: u64)
        ensures
            forall|k: StatKind| #[trigger]
                final(self).slot(k) == validated_slots(old(self).slots(), version)(k),
    {
        validate_slot(&mut self.first, version);
        validate_slot(&mut self.last, version);
        validate_slot(&mut self.min, version);
        validate_slot(&mut self.max, version);
        validate_slot(&mut self.median, version);
        validate_slot(&mut self.average, version);
        validate_slot(&mut self.sum, version);
        validate_slot(&mut self.cumulative, version);
        validate_slot(&mut self._90p, version);
        validate_slot(&mut self._75p, version);
        validate_slot(&mut self._25p, version);
        validate_slot(&mut self._10p, version);
    }
}

} // verus!

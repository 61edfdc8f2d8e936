//! Which cohorts of outputs a block's coins belong to, by age in days, by
//! halving epoch or by amount, and how membership changes as time passes.

use vstd::prelude::*;

verus! {

/// Seconds in a day.
pub const ONE_DAY_IN_SEC: u32 = 86400;

/// Seconds in an hour.
pub const ONE_HOUR_IN_SEC: u32 = 3600;

/// Blocks per halving epoch.
pub const BLOCKS_PER_HALVING: u32 = 210000;

/// The halving epoch of a height (`HalvingEpoch::from(Height)`): the
/// height divided by the blocks of an epoch, as a `u8`.
#[verifier::external_body]
fn halving_epoch_of_height(height: u32) -> (r: u8)
    ensures
        r == (height / 210000) as u8,
{
    let epoch = brk_core::HalvingEpoch::from(brk_core::Height::new(height));
    usize::from(epoch) as u8
}

/// Whole days from an older timestamp to a newer one
/// (`Timestamp::difference_in_days_between`, on the newer timestamp).
#[verifier::external_body]
fn days_between_timestamps(newer: u32, older: u32) -> (r: usize)
    requires
        older <= newer,
    ensures
        r == (newer - older) / 86400,
{
    brk_core::Timestamp::new(newer).difference_in_days_between(brk_core::Timestamp::new(older))
}

/// Whether a span of seconds lasts an hour or more (`Timestamp::is_more_than_hour`).
#[verifier::external_body]
fn is_more_than_hour(span: u32) -> (r: bool)
    ensures
        r == (span >= 3600),
{
    brk_core::Timestamp::new(span).is_more_than_hour()
}

/// The halving epoch of a height.
pub fn halving_epoch(height: u32) -> (r: u8)
    ensures
        r == (height / 210000) as u8,
{
    halving_epoch_of_height(height)
}

/// Whole days between two timestamps, the older one first.
pub fn days_between(older: u32, newer: u32) -> (r: usize)
    requires
        older <= newer,
    ensures
        r == (newer - older) / 86400,
{
    days_between_timestamps(newer, older)
}

/// A cohort of outputs: all of them, those below a bound, those in a
/// half-open range, those at or above a bound (of age in days or of
/// amount), those of a halving epoch, or those of an output type (by code).
#[derive(Clone, Copy, PartialEq, Eq, Structural, Debug)]
pub enum GroupFilter {
    All,
    To(usize),
    Range(usize, usize),
    From(usize),
    Epoch(u8),
    Type(u8),
}

/// Whether a value (an age in days or an amount) lies in the cohort;
/// epochs and types hold no such value.
pub open spec fn filter_contains(f: GroupFilter, value: int) -> bool {
    match f {
        GroupFilter::Range(lo, hi) => lo <= value < hi,
        GroupFilter::To(max) => value < max,
        GroupFilter::From(min) => min <= value,
        GroupFilter::All => true,
        GroupFilter::Epoch(_) => false,
        GroupFilter::Type(_) => false,
    }
}

/// Whether cohort `f` is made of cohort `g` among others.
pub open spec fn filter_includes(f: GroupFilter, g: GroupFilter) -> bool {
    match f {
        GroupFilter::All => true,
        GroupFilter::To(max) => match g {
            GroupFilter::To(max2) => max >= max2,
            GroupFilter::Range(_, end) => end <= max,
            _ => false,
        },
        GroupFilter::From(min) => match g {
            GroupFilter::Range(start, _) => start >= min,
            GroupFilter::From(min2) => min <= min2,
            _ => false,
        },
        _ => false,
    }
}

impl GroupFilter {
    /// Whether a value (an age in days or an amount) lies in the cohort.
    pub fn contains(&self, value: usize) -> (r: bool)
        ensures
            r == filter_contains(*self, value as int),
    {
        match self {
            GroupFilter::Range(lo, hi) => *lo <= value && value < *hi,
            GroupFilter::To(max) => *max > value,
            GroupFilter::From(min) => *min <= value,
            GroupFilter::All => true,
            GroupFilter::Epoch(_) => false,
            GroupFilter::Type(_) => false,
        }
    }

    /// Whether this cohort is made of `other` among others.
    pub fn includes(&self, other: &GroupFilter) -> (r: bool)
        ensures
            r == filter_includes(*self, *other),
    {
        match self {
            GroupFilter::All => true,
            GroupFilter::To(max) => match other {
                GroupFilter::To(max2) => *max >= *max2,
                GroupFilter::Range(_, end) => *end <= *max,
                _ => false,
            },
            GroupFilter::From(min) => match other {
                GroupFilter::Range(start, _) => *start >= *min,
                GroupFilter::From(min2) => *min <= *min2,
                _ => false,
            },
            _ => false,
        }
    }
}

/// How a cohort's state changes for one block as time passes.
#[derive(Clone, Copy, PartialEq, Eq, Structural, Debug)]
pub enum Transition {
    Unchanged,
    Increment,
    Decrement,
}

/// The change for a block whose age moves from `was_days` to `is_days`:
/// it enters the cohort, leaves it, or neither.
pub open spec fn transition_for(f: GroupFilter, was_days: int, is_days: int) -> Transition {
    if was_days == is_days {
        Transition::Unchanged
    } else if filter_contains(f, is_days) && !filter_contains(f, was_days) {
        Transition::Increment
    } else if filter_contains(f, was_days) && !filter_contains(f, is_days) {
        Transition::Decrement
    } else {
        Transition::Unchanged
    }
}

/// The change for every block of the chain when the chain tip moves from
/// the last block's time to `timestamp`: each block's age is taken in
/// whole days before and after.
pub open spec fn tick_tock_spec(f: GroupFilter, block_timestamps: Seq<u32>, timestamp: u32) -> Seq<
    Transition,
> {
    let prev = block_timestamps.last();
    Seq::new(
        block_timestamps.len(),
        |i: int|
            transition_for(
                f,
                (prev - block_timestamps[i]) / 86400,
                (timestamp - block_timestamps[i]) / 86400,
            ),
    )
}

/// For each block of the chain, how cohort `filter` changes when the tip
/// moves from the last block's time to `timestamp`. Nothing happens on an
/// empty chain.
pub fn tick_tock_next_block(filter: &GroupFilter, block_timestamps: &Vec<u32>, timestamp: u32) -> (r:
    Vec<Transition>)
    requires
        block_timestamps@.len() > 0 ==> forall|i: int|
            0 <= i < block_timestamps@.len() ==> #[trigger] block_timestamps@[i]
                <= block_timestamps@.last(),
        block_timestamps@.len() > 0 ==> block_timestamps@.last() <= timestamp,
    ensures
        block_timestamps@.len() == 0 ==> r@ == Seq::<Transition>::empty(),
        block_timestamps@.len() > 0 ==> r@ == tick_tock_spec(*filter, block_timestamps@, timestamp),
{
    let n = block_timestamps.len();
    let mut out: Vec<Transition> = Vec::new();
    if n == 0 {
        return out;
    }
    let prev_timestamp = block_timestamps[n - 1];
    let mut i: usize = 0;
    while i < n
        invariant
            0 <= i <= n,
            n == block_timestamps@.len(),
            prev_timestamp == block_timestamps@.last(),
            prev_timestamp <= timestamp,
            forall|j: int| 0 <= j < n ==> #[trigger] block_timestamps@[j] <= prev_timestamp,
            out@ == tick_tock_spec(*filter, block_timestamps@, timestamp).take(i as int),
        decreases n - i,
    {
        let block_timestamp = block_timestamps[i];
        let prev_days_old = days_between(block_timestamp, prev_timestamp);
        let days_old = days_between(block_timestamp, timestamp);
        let t = if prev_days_old == days_old {
            Transition::Unchanged
        } else {
            let now_in = filter.contains(days_old);
            let was_in = filter.contains(prev_days_old);
            if now_in && !was_in {
                Transition::Increment
            } else if was_in && !now_in {
                Transition::Decrement
            } else {
                Transition::Unchanged
            }
        };
        out.push(t);
        proof {
            assert(out@ =~= tick_tock_spec(*filter, block_timestamps@, timestamp).take(i + 1));
        }
        i = i + 1;
    }
    proof {
        assert(out@ =~= tick_tock_spec(*filter, block_timestamps@, timestamp));
    }
    out
}

/// Whether coins sent from a block of age `days_old` at `height` count for
/// an age or epoch cohort.
pub open spec fn sent_matches(f: GroupFilter, days_old: int, height: u32) -> bool {
    match f {
        GroupFilter::From(from) => from <= days_old,
        GroupFilter::To(to) => to > days_old,
        GroupFilter::Range(lo, hi) => lo <= days_old < hi,
        GroupFilter::Epoch(epoch) => epoch == (height / 210000) as u8,
        _ => false,
    }
}

/// Whether coins sent from a block of age `days_old` at `height` count for
/// the cohort; only age and epoch cohorts are asked.
pub fn sent_filter_matches(filter: &GroupFilter, days_old: usize, height: u32) -> (r: bool)
    requires
        !(*filter is All),
        !(*filter is Type),
    ensures
        r == sent_matches(*filter, days_old as int, height),
        !(*filter is Epoch) ==> r == filter_contains(*filter, days_old as int),
{
    match filter {
        GroupFilter::From(from) => *from <= days_old,
        GroupFilter::To(to) => *to > days_old,
        GroupFilter::Range(lo, hi) => *lo <= days_old && days_old < *hi,
        GroupFilter::Epoch(epoch) => *epoch == halving_epoch(height),
        _ => false,
    }
}

/// What is known of a block whose coins are spent at the chain tip.
#[derive(Clone, Copy, PartialEq, Eq, Structural, Debug)]
pub struct SentBlock {
    /// Blocks between the spent block and the tip.
    pub blocks_old: usize,
    /// Whole days between the spent block and the tip.
    pub days_old: usize,
    /// Whether an hour or more passed between them.
    pub older_than_hour: bool,
}

/// The age of the block at `height` in a chain of `chain_len` blocks whose
/// tip has time `last_timestamp`.
pub fn sent_block(chain_len: usize, height: usize, block_timestamp: u32, last_timestamp: u32) -> (r:
    SentBlock)
    requires
        height < chain_len,
        block_timestamp <= last_timestamp,
    ensures
        r.blocks_old == chain_len - 1 - height,
        r.days_old == (last_timestamp - block_timestamp) / 86400,
        r.older_than_hour == (last_timestamp - block_timestamp >= 3600),
{
    SentBlock {
        blocks_old: chain_len - 1 - height,
        days_old: days_between(block_timestamp, last_timestamp),
        older_than_hour: is_more_than_hour(last_timestamp - block_timestamp),
    }
}

/// Coins spent from a block are taken from an age cohort exactly when the
/// cohort holds the block's age, so a spend is debited where the block's
/// supply was counted: a range holds its lower bound and not its upper one,
/// and of two ranges that meet, an age lies in at most one, and in one of
/// them exactly when it lies in the range they make together.
pub proof fn lemma_spent_age_in_cohort(f: GroupFilter, lo: usize, mid: usize, hi: usize, d: int, h: u32)
    requires
        f is To || f is Range || f is From,
        lo <= mid <= hi,
    ensures
        sent_matches(f, d, h) == filter_contains(f, d),
        !sent_matches(GroupFilter::Range(lo, hi), hi as int, h),
        lo < hi ==> sent_matches(GroupFilter::Range(lo, hi), lo as int, h),
        !(sent_matches(GroupFilter::Range(lo, mid), d, h) && sent_matches(GroupFilter::Range(mid, hi), d, h)),
        sent_matches(GroupFilter::Range(lo, hi), d, h) == (sent_matches(GroupFilter::Range(lo, mid), d, h)
            || sent_matches(GroupFilter::Range(mid, hi), d, h)),
        sent_matches(GroupFilter::To(mid), d, h) != sent_matches(GroupFilter::From(mid), d, h),
{
}

/// A cohort made of another holds every value the other holds.
pub proof fn lemma_includes_contains(f: GroupFilter, g: GroupFilter, value: int)
    requires
        filter_includes(f, g),
        filter_contains(g, value),
    ensures
        filter_contains(f, value),
{
}

/// After a tick, a block lies in the cohort exactly when it lay there
/// before and did not leave, or it entered.
pub proof fn lemma_transition_tracks_membership(f: GroupFilter, was_days: int, is_days: int)
    ensures
        filter_contains(f, is_days) == ((filter_contains(f, was_days) && transition_for(
            f,
            was_days,
            is_days,
        ) != Transition::Decrement) || transition_for(f, was_days, is_days) == Transition::Increment),
{
}

/// The positions, in increasing order, of the cohorts among `others` that
/// `filter` is made of: the cohorts whose series are summed into its own.
pub fn included_cohorts(filter: &GroupFilter, others: &Vec<GroupFilter>) -> (r: Vec<usize>)
    ensures
        forall|j: int|
            0 <= j < r@.len() ==> #[trigger] r@[j] < others@.len() && filter_includes(
                *filter,
                others@[r@[j] as int],
            ),
        forall|j: int, l: int| 0 <= j < l < r@.len() ==> #[trigger] r@[j] < #[trigger] r@[l],
        forall|i: int|
            0 <= i < others@.len() && #[trigger] filter_includes(*filter, others@[i]) ==> r@.contains(
                i as usize,
            ),
{
    let mut out: Vec<usize> = Vec::new();
    let mut i: usize = 0;
    while i < others.len()
        invariant
            0 <= i <= others@.len(),
            forall|j: int|
                0 <= j < out@.len() ==> #[trigger] out@[j] < i && filter_includes(
                    *filter,
                    others@[out@[j] as int],
                ),
            forall|j: int, l: int| 0 <= j < l < out@.len() ==> #[trigger] out@[j] < #[trigger] out@[l],
            forall|m: int|
                0 <= m < i && #[trigger] filter_includes(*filter, others@[m]) ==> out@.contains(
                    m as usize,
                ),
        decreases others@.len() - i,
    {
        if filter.includes(&others[i]) {
            let ghost before = out@;
            out.push(i);
            proof {
                assert forall|m: int|
                    0 <= m < i + 1 && #[trigger] filter_includes(*filter, others@[m]) implies out@.contains(
                    m as usize,
                ) by {
                    if m < i {
                        let w = choose|w: int| 0 <= w < before.len() && before[w] == m as usize;
                        assert(out@[w] == m as usize);
                    } else {
                        assert(out@[out@.len() - 1] == i);
                    }
                }
            }
        }
        i = i + 1;
    }
    out
}

} // verus!

//! The block-by-block pass over the chain: the supply that can never be
//! spent, the unspent supply left in every block, and the supply held in
//! each cohort of outputs by age and by halving epoch.
//!
//! The pass is a transition from one state and the facts of one block to
//! the next state; reading those facts from storage is left to the caller.

use vstd::prelude::*;

use crate::cohorts::{
    days_between, filter_contains, filter_includes, halving_epoch, sent_matches, transition_for, GroupFilter,
    Transition,
};
use crate::column::{pushed_at, Column, ColumnError, ColumnView};
use crate::ledger::{amount_bucket, amount_bucket_of};

verus! {

/// Satoshis in fifty bitcoins: the first block reward.
pub const FIFTY_BTC: u64 = 5_000_000_000;

/// A height whose coinbase duplicates the txid of an earlier coinbase,
/// which makes the earlier one unspendable.
pub const FIRST_DUPLICATE_HEIGHT: usize = 91_842;

/// The height of the coinbase that `FIRST_DUPLICATE_HEIGHT` duplicates.
pub const FIRST_DUPLICATED_HEIGHT: usize = 91_812;

/// The second height whose coinbase duplicates an earlier one.
pub const SECOND_DUPLICATE_HEIGHT: usize = 91_880;

/// The height of the coinbase that `SECOND_DUPLICATE_HEIGHT` duplicates.
pub const SECOND_DUPLICATED_HEIGHT: usize = 91_722;

/// The code of the P2PK65 output type, the type of the early coinbases.
pub const P2PK65_CODE: usize = 0;

/// A number of unspent outputs and their value in satoshis.
#[derive(Clone, Copy, PartialEq, Eq, Structural, Debug)]
pub struct Supply {
    pub utxos: u64,
    pub value: u64,
}

/// A supply as mathematical values.
pub struct Amount {
    pub utxos: int,
    pub value: int,
}

impl View for Supply {
    type V = Amount;

    open spec fn view(&self) -> Amount {
        Amount { utxos: self.utxos as int, value: self.value as int }
    }
}

pub open spec fn zero_amount() -> Amount {
    Amount { utxos: 0, value: 0 }
}

pub open spec fn plus(a: Amount, b: Amount) -> Amount {
    Amount { utxos: a.utxos + b.utxos, value: a.value + b.value }
}

pub open spec fn minus(a: Amount, b: Amount) -> Amount {
    Amount { utxos: a.utxos - b.utxos, value: a.value - b.value }
}

/// Whether `a` is at most `b` in both outputs and value.
pub open spec fn amount_le(a: Amount, b: Amount) -> bool {
    a.utxos <= b.utxos && a.value <= b.value
}

/// Whether both parts lie in the range of a `u64`.
pub open spec fn amount_fits(a: Amount) -> bool {
    0 <= a.utxos <= u64::MAX && 0 <= a.value <= u64::MAX
}

/// The unspent supply a block created and its time.
#[derive(Clone, Copy, PartialEq, Eq, Structural, Debug)]
pub struct BlockState {
    pub supply: Supply,
    pub timestamp: u32,
}

pub struct BlockView {
    pub supply: Amount,
    pub timestamp: u32,
}

impl View for BlockState {
    type V = BlockView;

    open spec fn view(&self) -> BlockView {
        BlockView { supply: self.supply@, timestamp: self.timestamp }
    }
}

/// A cohort of outputs by age in days, and the supply it holds.
#[derive(Clone, Copy, PartialEq, Eq, Structural, Debug)]
pub struct DateCohort {
    pub filter: GroupFilter,
    pub supply: Supply,
}

/// The state the pass carries from block to block: the supply that can
/// never be spent, the part of it sent to OP_RETURN outputs, the unspent
/// supply of every block so far, the supply of each age cohort, the supply
/// of each halving epoch (by epoch number), of each output type (by type
/// code), and of each amount range of outputs (by amount cohort).
pub struct ChainState {
    pub unspendable: u64,
    pub opreturn: u64,
    pub blocks: Vec<BlockState>,
    pub by_date_range: Vec<DateCohort>,
    pub by_epoch: Vec<Supply>,
    pub by_type: Vec<Supply>,
    pub by_size: Vec<Supply>,
}

pub struct ChainView {
    pub unspendable: int,
    pub opreturn: int,
    pub blocks: Seq<BlockView>,
    pub by_date_range: Seq<(GroupFilter, Amount)>,
    pub by_epoch: Seq<Amount>,
    pub by_type: Seq<Amount>,
    pub by_size: Seq<Amount>,
}

pub open spec fn block_views(s: Seq<BlockState>) -> Seq<BlockView> {
    s.map_values(|b: BlockState| b@)
}

pub open spec fn date_views(s: Seq<DateCohort>) -> Seq<(GroupFilter, Amount)> {
    s.map_values(|c: DateCohort| (c.filter, c.supply@))
}

pub open spec fn supply_views(s: Seq<Supply>) -> Seq<Amount> {
    s.map_values(|a: Supply| a@)
}

impl View for ChainState {
    type V = ChainView;

    open spec fn view(&self) -> ChainView {
        ChainView {
            unspendable: self.unspendable as int,
            opreturn: self.opreturn as int,
            blocks: block_views(self.blocks@),
            by_date_range: date_views(self.by_date_range@),
            by_epoch: supply_views(self.by_epoch@),
            by_type: supply_views(self.by_type@),
            by_size: supply_views(self.by_size@),
        }
    }
}

/// What one block brings: its time, the value it sent to unspendable
/// outputs and to OP_RETURN outputs among them, the reward its miner left
/// unclaimed, the spendable supply it created (in all, and by output type
/// code and by amount cohort of the outputs), and what it spent, as the
/// height of each spent block and the type code of the spent outputs with
/// the supply spent, and by amount cohort of the spent outputs.
pub struct BlockEvent {
    pub timestamp: u32,
    pub unspendable_received: u64,
    pub opreturn_received: u64,
    pub unclaimed_rewards: u64,
    pub received: Supply,
    pub received_by_type: Vec<(usize, Supply)>,
    pub received_by_size: Vec<(usize, Supply)>,
    pub sent: Vec<(usize, usize, Supply)>,
    pub sent_by_size: Vec<(usize, Supply)>,
}

pub struct EventView {
    pub timestamp: u32,
    pub unspendable_received: int,
    pub opreturn_received: int,
    pub unclaimed_rewards: int,
    pub received: Amount,
    pub received_by_type: Seq<(int, Amount)>,
    pub received_by_size: Seq<(int, Amount)>,
    pub sent: Seq<(int, Amount)>,
    pub sent_by_type: Seq<(int, Amount)>,
    pub sent_by_size: Seq<(int, Amount)>,
}

pub open spec fn sent_views(s: Seq<(usize, Supply)>) -> Seq<(int, Amount)> {
    s.map_values(|e: (usize, Supply)| (e.0 as int, e.1@))
}

/// The spent supplies by the height they were spent from.
pub open spec fn spent_heights(s: Seq<(usize, usize, Supply)>) -> Seq<(int, Amount)> {
    s.map_values(|e: (usize, usize, Supply)| (e.0 as int, e.2@))
}

/// The spent supplies by the type code of the spent outputs.
pub open spec fn spent_types(s: Seq<(usize, usize, Supply)>) -> Seq<(int, Amount)> {
    s.map_values(|e: (usize, usize, Supply)| (e.1 as int, e.2@))
}

impl View for BlockEvent {
    type V = EventView;

    open spec fn view(&self) -> EventView {
        EventView {
            timestamp: self.timestamp,
            unspendable_received: self.unspendable_received as int,
            opreturn_received: self.opreturn_received as int,
            unclaimed_rewards: self.unclaimed_rewards as int,
            received: self.received@,
            received_by_type: sent_views(self.received_by_type@),
            received_by_size: sent_views(self.received_by_size@),
            sent: spent_heights(self.sent@),
            sent_by_type: spent_types(self.sent@),
            sent_by_size: sent_views(self.sent_by_size@),
        }
    }
}

/// Whole days from `ts` to `tip`.
pub open spec fn age(ts: u32, tip: u32) -> int {
    (tip - ts) / 86400
}

/// The total supply of the blocks that `p` selects (by height and block).
pub open spec fn blocks_sum(blocks: Seq<BlockView>, p: spec_fn(int, BlockView) -> bool) -> Amount
    decreases blocks.len(),
{
    if blocks.len() == 0 {
        zero_amount()
    } else {
        plus(
            blocks_sum(blocks.drop_last(), p),
            if p(blocks.len() - 1, blocks.last()) {
                blocks.last().supply
            } else {
                zero_amount()
            },
        )
    }
}

/// The total of the spent supplies whose spent height `p` selects.
pub open spec fn sent_sum(sent: Seq<(int, Amount)>, p: spec_fn(int) -> bool) -> Amount
    decreases sent.len(),
{
    if sent.len() == 0 {
        zero_amount()
    } else {
        plus(
            sent_sum(sent.drop_last(), p),
            if p(sent.last().0) {
                sent.last().1
            } else {
                zero_amount()
            },
        )
    }
}

/// Blocks whose age moves as `t` says for cohort `f` when the tip moves
/// from `prev` to `tip`.
pub open spec fn moving(f: GroupFilter, prev: u32, tip: u32, t: Transition) -> spec_fn(
    int,
    BlockView,
) -> bool {
    |i: int, b: BlockView| transition_for(f, age(b.timestamp, prev), age(b.timestamp, tip)) == t
}

/// Blocks whose age at `tip` lies in cohort `f`.
pub open spec fn aged_in(f: GroupFilter, tip: u32) -> spec_fn(int, BlockView) -> bool {
    |i: int, b: BlockView| filter_contains(f, age(b.timestamp, tip))
}

/// Blocks of halving epoch `k`.
pub open spec fn of_epoch(k: int) -> spec_fn(int, BlockView) -> bool {
    |i: int, b: BlockView| i / 210000 == k
}

/// Spent heights equal to `i`.
pub open spec fn at_height(i: int) -> spec_fn(int) -> bool {
    |hh: int| hh == i
}

/// Spent heights in halving epoch `k`.
pub open spec fn in_epoch(k: int) -> spec_fn(int) -> bool {
    |hh: int| hh / 210000 == k
}

/// The time of block `hh`, where the block at the end of `blocks` has time `tip`.
pub open spec fn timestamp_at(blocks: Seq<BlockView>, tip: u32, hh: int) -> u32 {
    if hh < blocks.len() {
        blocks[hh].timestamp
    } else {
        tip
    }
}

/// Spent heights whose block, at `tip`, is of an age in cohort `f`.
pub open spec fn spent_aged_in(f: GroupFilter, blocks: Seq<BlockView>, tip: u32) -> spec_fn(int) -> bool {
    |hh: int| filter_contains(f, age(timestamp_at(blocks, tip, hh), tip))
}

/// The spent supplies of block `h`: those handed in, and at the two heights
/// whose coinbase duplicates an earlier one, the fifty bitcoins of that
/// earlier coinbase (one output), which can no longer be spent.
pub open spec fn with_duplicates(sent: Seq<(int, Amount)>, h: int) -> Seq<(int, Amount)> {
    if h == 91_842 {
        sent.push((91_812, Amount { utxos: 1, value: FIFTY_BTC as int }))
    } else if h == 91_880 {
        sent.push((91_722, Amount { utxos: 1, value: FIFTY_BTC as int }))
    } else {
        sent
    }
}

/// The spent supplies of block `h` by type: at the two heights whose
/// coinbase duplicates an earlier one, that coinbase's fifty bitcoins in one
/// P2PK65 output are added.
pub open spec fn typed_with_duplicates(sent: Seq<(int, Amount)>, h: int) -> Seq<(int, Amount)> {
    if h == 91_842 || h == 91_880 {
        sent.push((P2PK65_CODE as int, Amount { utxos: 1, value: FIFTY_BTC as int }))
    } else {
        sent
    }
}

/// The spent supplies of block `h` by amount cohort: at the two heights
/// whose coinbase duplicates an earlier one, that coinbase's fifty bitcoins
/// in one output are added to their cohort.
pub open spec fn sized_with_duplicates(sent: Seq<(int, Amount)>, h: int) -> Seq<(int, Amount)> {
    if h == 91_842 || h == 91_880 {
        sent.push((amount_bucket(FIFTY_BTC) as int, Amount { utxos: 1, value: FIFTY_BTC as int }))
    } else {
        sent
    }
}

/// The supply of kind `t` (an output type or an amount cohort) before what
/// was spent is taken out: its own and what the new block created of that
/// kind (nothing for the first block).
pub open spec fn kind_gain(t: int, a: Amount, h: int, received: Seq<(int, Amount)>) -> Amount {
    plus(
        a,
        if h == 0 {
            zero_amount()
        } else {
            sent_sum(received, at_height(t))
        },
    )
}

/// What was spent of kind `t`.
pub open spec fn kind_loss(t: int, spent: Seq<(int, Amount)>) -> Amount {
    sent_sum(spent, at_height(t))
}

pub open spec fn type_gain(t: int, a: Amount, h: int, e: EventView) -> Amount {
    kind_gain(t, a, h, e.received_by_type)
}

pub open spec fn type_loss(t: int, h: int, e: EventView) -> Amount {
    kind_loss(t, typed_with_duplicates(e.sent_by_type, h))
}

pub open spec fn size_gain(t: int, a: Amount, h: int, e: EventView) -> Amount {
    kind_gain(t, a, h, e.received_by_size)
}

pub open spec fn size_loss(t: int, h: int, e: EventView) -> Amount {
    kind_loss(t, sized_with_duplicates(e.sent_by_size, h))
}

/// The spendable supply block `h` creates: none for the first block, whose
/// output can never be spent.
pub open spec fn received_at(h: int, e: EventView) -> Amount {
    if h == 0 {
        zero_amount()
    } else {
        e.received
    }
}

/// The supply a cohort enters before what was spent is taken out: its
/// own, the blocks that enter it as the tip moves, and what the new block
/// created when the cohort holds age zero.
pub open spec fn date_gain(c: (GroupFilter, Amount), blocks: Seq<BlockView>, e: EventView) -> Amount {
    let h = blocks.len() as int;
    let inc = if h == 0 {
        zero_amount()
    } else {
        blocks_sum(blocks, moving(c.0, blocks.last().timestamp, e.timestamp, Transition::Increment))
    };
    let got = if filter_contains(c.0, 0) {
        received_at(h, e)
    } else {
        zero_amount()
    };
    plus(plus(c.1, inc), got)
}

/// The supply that leaves a cohort: the blocks that leave it as the tip
/// moves, and what was spent from blocks whose age lies in it.
pub open spec fn date_loss(c: (GroupFilter, Amount), blocks: Seq<BlockView>, e: EventView) -> Amount {
    let h = blocks.len() as int;
    let dec = if h == 0 {
        zero_amount()
    } else {
        blocks_sum(blocks, moving(c.0, blocks.last().timestamp, e.timestamp, Transition::Decrement))
    };
    plus(dec, sent_sum(with_duplicates(e.sent, h), spent_aged_in(c.0, blocks, e.timestamp)))
}

/// The supply of epoch `k` after the block is added and what it spent is taken out.
pub open spec fn epoch_gain(k: int, a: Amount, blocks: Seq<BlockView>, e: EventView) -> Amount {
    let h = blocks.len() as int;
    plus(
        a,
        if h / 210000 == k {
            received_at(h, e)
        } else {
            zero_amount()
        },
    )
}

pub open spec fn epoch_loss(k: int, blocks: Seq<BlockView>, e: EventView) -> Amount {
    sent_sum(with_duplicates(e.sent, blocks.len() as int), in_epoch(k))
}

/// The blocks with what was spent from each taken out.
pub open spec fn debited(blocks: Seq<BlockView>, sent: Seq<(int, Amount)>) -> Seq<BlockView> {
    Seq::new(
        blocks.len(),
        |i: int|
            BlockView {
                supply: minus(blocks[i].supply, sent_sum(sent, at_height(i))),
                timestamp: blocks[i].timestamp,
            },
    )
}

/// The blocks after the new one is appended and what was spent is taken
/// from the blocks it came from.
pub open spec fn blocks_next(blocks: Seq<BlockView>, e: EventView) -> Seq<BlockView> {
    let h = blocks.len() as int;
    debited(
        blocks.push(BlockView { supply: received_at(h, e), timestamp: e.timestamp }),
        with_duplicates(e.sent, h),
    )
}

/// The state after one block. The unspendable supply grows by the
/// unspendable outputs, the unclaimed reward and, for the first block, its
/// fifty bitcoins; the OP_RETURN supply by the OP_RETURN outputs. The new
/// block's supply is appended and what was spent is taken from the blocks
/// it came from, from the age cohort of their age at the new block's time,
/// from their halving epoch, from the output type they were spent as, and
/// from their amount cohort.
/// As the tip moves, blocks move between age cohorts; the new block enters
/// the cohort of age zero and its epoch, and what it created of each output
/// type and amount cohort enters that type and cohort.
pub open spec fn next_state(s: ChainView, e: EventView) -> ChainView {
    let h = s.blocks.len() as int;
    ChainView {
        unspendable: s.unspendable + e.unspendable_received + e.unclaimed_rewards + if h == 0 {
            FIFTY_BTC as int
        } else {
            0
        },
        opreturn: s.opreturn + e.opreturn_received,
        blocks: blocks_next(s.blocks, e),
        by_date_range: Seq::new(
            s.by_date_range.len(),
            |k: int|
                (
                    s.by_date_range[k].0,
                    minus(date_gain(s.by_date_range[k], s.blocks, e), date_loss(s.by_date_range[k], s.blocks, e)),
                ),
        ),
        by_epoch: Seq::new(
            s.by_epoch.len(),
            |k: int| minus(epoch_gain(k, s.by_epoch[k], s.blocks, e), epoch_loss(k, s.blocks, e)),
        ),
        by_type: Seq::new(
            s.by_type.len(),
            |t: int| minus(type_gain(t, s.by_type[t], h, e), type_loss(t, h, e)),
        ),
        by_size: Seq::new(
            s.by_size.len(),
            |t: int| minus(size_gain(t, s.by_size[t], h, e), size_loss(t, h, e)),
        ),
    }
}

/// Block times never lie after the last block's time, which never lies
/// after `tip`.
pub open spec fn times_ordered(blocks: Seq<BlockView>, tip: u32) -> bool {
    blocks.len() > 0 ==> {
        &&& forall|i: int| 0 <= i < blocks.len() ==> #[trigger] blocks[i].timestamp <= blocks.last().timestamp
        &&& blocks.last().timestamp <= tip
    }
}

/// Whether the pass can take the block without a panic or an overflow:
/// times run forward, every spent height exists, what is taken from a block
/// or a cohort is there, and every total fits.
pub open spec fn block_fits(s: ChainView, e: EventView) -> bool {
    let h = s.blocks.len() as int;
    let sent = with_duplicates(e.sent, h);
    let pushed = s.blocks.push(BlockView { supply: received_at(h, e), timestamp: e.timestamp });
    &&& h < u32::MAX
    &&& times_ordered(s.blocks, e.timestamp)
    &&& s.unspendable + e.unspendable_received + e.unclaimed_rewards + (if h == 0 {
        FIFTY_BTC as int
    } else {
        0
    }) <= u64::MAX
    &&& s.opreturn + e.opreturn_received <= u64::MAX
    &&& s.by_epoch.len() <= 256
    &&& h / 210000 < s.by_epoch.len()
    &&& forall|j: int| 0 <= j < sent.len() ==> 0 <= #[trigger] sent[j].0 <= h
    &&& forall|i: int| 0 <= i <= h ==> amount_le(#[trigger] sent_sum(sent, at_height(i)), pushed[i].supply)
    &&& forall|k: int|
        0 <= k < s.by_date_range.len() ==> amount_fits(#[trigger] date_gain(s.by_date_range[k], s.blocks, e))
            && amount_le(date_loss(s.by_date_range[k], s.blocks, e), date_gain(s.by_date_range[k], s.blocks, e))
    &&& forall|k: int|
        0 <= k < s.by_epoch.len() ==> amount_fits(#[trigger] epoch_gain(k, s.by_epoch[k], s.blocks, e))
            && amount_le(epoch_loss(k, s.blocks, e), epoch_gain(k, s.by_epoch[k], s.blocks, e))
    &&& forall|t: int|
        0 <= t < s.by_type.len() ==> amount_fits(#[trigger] type_gain(t, s.by_type[t], h, e))
            && amount_le(type_loss(t, h, e), type_gain(t, s.by_type[t], h, e))
    &&& forall|t: int|
        0 <= t < s.by_size.len() ==> amount_fits(#[trigger] size_gain(t, s.by_size[t], h, e))
            && amount_le(size_loss(t, h, e), size_gain(t, s.by_size[t], h, e))
}


/// How cohort `f` changes for a block whose age moves from `was` to `is` days.
fn transition_of(f: &GroupFilter, was: usize, is: usize) -> (r: Transition)
    ensures
        r == transition_for(*f, was as int, is as int),
{
    if was == is {
        Transition::Unchanged
    } else {
        let now_in = f.contains(is);
        let was_in = f.contains(was);
        if now_in && !was_in {
            Transition::Increment
        } else if was_in && !now_in {
            Transition::Decrement
        } else {
            Transition::Unchanged
        }
    }
}

proof fn lemma_block_views_nonneg(blocks: Seq<BlockState>)
    ensures
        forall|k: int|
            0 <= k < block_views(blocks).len() ==> amount_le(zero_amount(), #[trigger] block_views(blocks)[k].supply),
{
}

proof fn lemma_sent_views_nonneg(sent: Seq<(usize, Supply)>)
    ensures
        forall|k: int| 0 <= k < sent_views(sent).len() ==> amount_le(zero_amount(), #[trigger] sent_views(sent)[k].1),
{
}

/// A supply summed over many entries, in integers wide enough for any sum
/// of `u64` values over a vector.
#[derive(Clone, Copy)]
struct Wide {
    utxos: u128,
    value: u128,
}

impl View for Wide {
    type V = Amount;

    closed spec fn view(&self) -> Amount {
        Amount { utxos: self.utxos as int, value: self.value as int }
    }
}

/// Whether both parts are at most `n` times the largest `u64`.
spec fn bounded_by(a: Amount, n: int) -> bool {
    a.utxos <= n * 18446744073709551615 && a.value <= n * 18446744073709551615
}

/// The total supply of the blocks that move as `t` says for cohort `f`
/// when the tip moves from `prev` to `tip`.
fn sum_moving(blocks: &Vec<BlockState>, f: &GroupFilter, prev: u32, tip: u32, t: Transition) -> (r: Wide)
    requires
        forall|i: int| 0 <= i < blocks@.len() ==> #[trigger] blocks@[i].timestamp <= prev,
        prev <= tip,
    ensures
        bounded_by(r@, blocks@.len() as int),
        r@ == blocks_sum(block_views(blocks@), moving(*f, prev, tip, t)),
{
    let ghost v = block_views(blocks@);
    let ghost p = moving(*f, prev, tip, t);
    proof {
        lemma_block_views_nonneg(blocks@);
    }
    let mut acc = Wide { utxos: 0, value: 0 };
    let mut i: usize = 0;
    while i < blocks.len()
        invariant
            0 <= i <= blocks@.len(),
            v == block_views(blocks@),
            p == moving(*f, prev, tip, t),
            forall|k: int| 0 <= k < blocks@.len() ==> #[trigger] blocks@[k].timestamp <= prev,
            forall|k: int| 0 <= k < v.len() ==> amount_le(zero_amount(), #[trigger] v[k].supply),
            prev <= tip,
            bounded_by(acc@, i as int),
            acc@ == blocks_sum(v.take(i as int), p),
        decreases blocks@.len() - i,
    {
        let b = blocks[i];
        proof {
            assert(v.take(i + 1).drop_last() =~= v.take(i as int));
            assert(v.take(v.len() as int) =~= v);
            lemma_blocks_sum_prefix(v, p, i + 1, v.len() as int);
        }
        let was = days_between(b.timestamp, prev);
        let is = days_between(b.timestamp, tip);
        if transition_of(f, was, is) == t {
            acc = Wide { utxos: acc.utxos + b.supply.utxos as u128, value: acc.value + b.supply.value as u128 };
        }
        i = i + 1;
    }
    proof {
        assert(v.take(v.len() as int) =~= v);
    }
    acc
}

/// The total spent from blocks whose age at `tip` lies in cohort `f`; the
/// block after the end of `blocks` has time `tip`.
fn sum_sent_aged_in(sent: &Vec<(usize, Supply)>, blocks: &Vec<BlockState>, f: &GroupFilter, tip: u32) -> (r: Wide)
    requires
        times_ordered(block_views(blocks@), tip),
        forall|j: int| 0 <= j < sent@.len() ==> #[trigger] sent@[j].0 <= blocks@.len(),
    ensures
        bounded_by(r@, sent@.len() as int),
        r@ == sent_sum(sent_views(sent@), spent_aged_in(*f, block_views(blocks@), tip)),
{
    let ghost v = sent_views(sent@);
    let ghost bv = block_views(blocks@);
    let ghost p = spent_aged_in(*f, bv, tip);
    proof {
        lemma_sent_views_nonneg(sent@);
    }
    let mut acc = Wide { utxos: 0, value: 0 };
    let mut j: usize = 0;
    while j < sent.len()
        invariant
            0 <= j <= sent@.len(),
            v == sent_views(sent@),
            bv == block_views(blocks@),
            p == spent_aged_in(*f, bv, tip),
            times_ordered(bv, tip),
            forall|k: int| 0 <= k < sent@.len() ==> #[trigger] sent@[k].0 <= blocks@.len(),
            forall|k: int| 0 <= k < v.len() ==> amount_le(zero_amount(), #[trigger] v[k].1),
            bounded_by(acc@, j as int),
            acc@ == sent_sum(v.take(j as int), p),
        decreases sent@.len() - j,
    {
        let (hh, amt) = sent[j];
        proof {
            assert(v.take(j + 1).drop_last() =~= v.take(j as int));
            assert(v.take(v.len() as int) =~= v);
            lemma_sent_sum_prefix(v, p, j + 1, v.len() as int);
            assert(v[j as int].0 == hh);
        }
        let ts = if hh < blocks.len() {
            blocks[hh].timestamp
        } else {
            tip
        };
        proof {
            if hh < blocks@.len() {
                assert(bv[hh as int].timestamp <= bv.last().timestamp);
            }
            assert(ts == timestamp_at(bv, tip, hh as int));
        }
        let days = days_between(ts, tip);
        if f.contains(days) {
            acc = Wide { utxos: acc.utxos + amt.utxos as u128, value: acc.value + amt.value as u128 };
        }
        j = j + 1;
    }
    proof {
        assert(v.take(v.len() as int) =~= v);
    }
    acc
}

/// The total spent from blocks of halving epoch `k`.
fn sum_sent_in_epoch(sent: &Vec<(usize, Supply)>, k: usize, max_height: usize) -> (r: Wide)
    requires
        k < 256,
        max_height < u32::MAX,
        max_height / 210000 < 256,
        forall|j: int| 0 <= j < sent@.len() ==> #[trigger] sent@[j].0 <= max_height,
    ensures
        bounded_by(r@, sent@.len() as int),
        r@ == sent_sum(sent_views(sent@), in_epoch(k as int)),
{
    let ghost v = sent_views(sent@);
    let ghost p = in_epoch(k as int);
    proof {
        lemma_sent_views_nonneg(sent@);
    }
    let mut acc = Wide { utxos: 0, value: 0 };
    let mut j: usize = 0;
    while j < sent.len()
        invariant
            0 <= j <= sent@.len(),
            v == sent_views(sent@),
            p == in_epoch(k as int),
            k < 256,
            max_height < u32::MAX,
            max_height / 210000 < 256,
            forall|i: int| 0 <= i < sent@.len() ==> #[trigger] sent@[i].0 <= max_height,
            forall|i: int| 0 <= i < v.len() ==> amount_le(zero_amount(), #[trigger] v[i].1),
            bounded_by(acc@, j as int),
            acc@ == sent_sum(v.take(j as int), p),
        decreases sent@.len() - j,
    {
        let (hh, amt) = sent[j];
        proof {
            assert(v.take(j + 1).drop_last() =~= v.take(j as int));
            assert(v.take(v.len() as int) =~= v);
            lemma_sent_sum_prefix(v, p, j + 1, v.len() as int);
            assert(v[j as int].0 == hh);
            vstd::arithmetic::div_mod::lemma_div_is_ordered(hh as int, max_height as int, 210000);
        }
        let epoch = halving_epoch(hh as u32);
        proof {
            assert(hh as u32 == hh);
            assert((hh / 210000) < 256);
            assert(epoch == hh / 210000);
        }
        if epoch as usize == k {
            acc = Wide { utxos: acc.utxos + amt.utxos as u128, value: acc.value + amt.value as u128 };
        }
        j = j + 1;
    }
    proof {
        assert(v.take(v.len() as int) =~= v);
    }
    acc
}


/// The spent supplies of block `h` by spent height, with the duplicated
/// coinbases added.
fn spent_with_duplicates(sent: &Vec<(usize, usize, Supply)>, h: usize) -> (r: Vec<(usize, Supply)>)
    ensures
        sent_views(r@) == with_duplicates(spent_heights(sent@), h as int),
{
    let mut r: Vec<(usize, Supply)> = Vec::new();
    let mut j: usize = 0;
    while j < sent.len()
        invariant
            0 <= j <= sent@.len(),
            r@.len() == j,
            sent_views(r@) == spent_heights(sent@.take(j as int)),
        decreases sent@.len() - j,
    {
        let x = sent[j];
        let ghost before = sent_views(r@);
        let ghost old_r = r@;
        r.push((x.0, x.2));
        proof {
            assert forall|i: int| 0 <= i < j + 1 implies #[trigger] sent_views(r@)[i] == spent_heights(sent@.take(j + 1))[i] by {
                if i < j {
                    assert(r@[i] == old_r[i]);
                    assert(sent_views(r@)[i] == before[i]);
                    assert(spent_heights(sent@.take(j + 1))[i] == spent_heights(sent@.take(j as int))[i]);
                }
            }
        }
        proof {
            assert(sent_views(r@) =~= spent_heights(sent@.take(j + 1)));
        }
        j = j + 1;
    }
    proof {
        assert(sent@.take(sent@.len() as int) =~= sent@);
    }
    let fifty = Supply { utxos: 1, value: FIFTY_BTC };
    let ghost base = r@;
    if h == FIRST_DUPLICATE_HEIGHT {
        r.push((FIRST_DUPLICATED_HEIGHT, fifty));
    } else if h == SECOND_DUPLICATE_HEIGHT {
        r.push((SECOND_DUPLICATED_HEIGHT, fifty));
    }
    proof {
        assert(sent_views(r@) =~= with_duplicates(spent_heights(sent@), h as int));
    }
    r
}

/// The spent supplies of block `h` by type code, with the duplicated
/// coinbases added as P2PK65.
fn typed_spent_with_duplicates(sent: &Vec<(usize, usize, Supply)>, h: usize) -> (r: Vec<(usize, Supply)>)
    ensures
        sent_views(r@) == typed_with_duplicates(spent_types(sent@), h as int),
{
    let mut r: Vec<(usize, Supply)> = Vec::new();
    let mut j: usize = 0;
    while j < sent.len()
        invariant
            0 <= j <= sent@.len(),
            r@.len() == j,
            sent_views(r@) == spent_types(sent@.take(j as int)),
        decreases sent@.len() - j,
    {
        let x = sent[j];
        let ghost before = sent_views(r@);
        let ghost old_r = r@;
        r.push((x.1, x.2));
        proof {
            assert forall|i: int| 0 <= i < j + 1 implies #[trigger] sent_views(r@)[i] == spent_types(sent@.take(j + 1))[i] by {
                if i < j {
                    assert(r@[i] == old_r[i]);
                    assert(sent_views(r@)[i] == before[i]);
                    assert(spent_types(sent@.take(j + 1))[i] == spent_types(sent@.take(j as int))[i]);
                }
            }
        }
        proof {
            assert(sent_views(r@) =~= spent_types(sent@.take(j + 1)));
        }
        j = j + 1;
    }
    proof {
        assert(sent@.take(sent@.len() as int) =~= sent@);
    }
    if h == FIRST_DUPLICATE_HEIGHT || h == SECOND_DUPLICATE_HEIGHT {
        r.push((P2PK65_CODE, Supply { utxos: 1, value: FIFTY_BTC }));
    }
    proof {
        assert(sent_views(r@) =~= typed_with_duplicates(spent_types(sent@), h as int));
    }
    r
}

/// The total of the entries of kind `t`.
fn sum_of_kind(entries: &Vec<(usize, Supply)>, t: usize) -> (r: Wide)
    ensures
        bounded_by(r@, entries@.len() as int),
        r@ == sent_sum(sent_views(entries@), at_height(t as int)),
{
    let ghost v = sent_views(entries@);
    let ghost p = at_height(t as int);
    proof {
        lemma_sent_views_nonneg(entries@);
    }
    let mut acc = Wide { utxos: 0, value: 0 };
    let mut j: usize = 0;
    while j < entries.len()
        invariant
            0 <= j <= entries@.len(),
            v == sent_views(entries@),
            p == at_height(t as int),
            forall|i: int| 0 <= i < v.len() ==> amount_le(zero_amount(), #[trigger] v[i].1),
            bounded_by(acc@, j as int),
            acc@ == sent_sum(v.take(j as int), p),
        decreases entries@.len() - j,
    {
        let (k, amt) = entries[j];
        proof {
            assert(v.take(j + 1).drop_last() =~= v.take(j as int));
            assert(v.take(v.len() as int) =~= v);
            lemma_sent_sum_prefix(v, p, j + 1, v.len() as int);
            assert(v[j as int].0 == k);
        }
        if k == t {
            acc = Wide { utxos: acc.utxos + amt.utxos as u128, value: acc.value + amt.value as u128 };
        }
        j = j + 1;
    }
    proof {
        assert(v.take(v.len() as int) =~= v);
    }
    acc
}

/// The spent supplies of block `h` by amount cohort, with the duplicated
/// coinbases added.
fn sized_spent_with_duplicates(sent: &Vec<(usize, Supply)>, h: usize) -> (r: Vec<(usize, Supply)>)
    ensures
        sent_views(r@) == sized_with_duplicates(sent_views(sent@), h as int),
{
    let mut r: Vec<(usize, Supply)> = Vec::new();
    let mut j: usize = 0;
    while j < sent.len()
        invariant
            0 <= j <= sent@.len(),
            r@ == sent@.take(j as int),
        decreases sent@.len() - j,
    {
        r.push(sent[j]);
        proof {
            assert(r@ =~= sent@.take(j + 1));
        }
        j = j + 1;
    }
    proof {
        assert(r@ =~= sent@);
    }
    if h == FIRST_DUPLICATE_HEIGHT || h == SECOND_DUPLICATE_HEIGHT {
        let bucket = amount_bucket_of(FIFTY_BTC);
        r.push((bucket as usize, Supply { utxos: 1, value: FIFTY_BTC }));
    }
    proof {
        assert(sent_views(r@) =~= sized_with_duplicates(sent_views(sent@), h as int));
    }
    r
}

/// The new supply of kind `t` (an output type or an amount cohort).
fn kind_next(
    t: usize,
    a: Supply,
    h: usize,
    received: &Vec<(usize, Supply)>,
    spent: &Vec<(usize, Supply)>,
) -> (r: Supply)
    requires
        amount_fits(kind_gain(t as int, a@, h as int, sent_views(received@))),
        amount_le(kind_loss(t as int, sent_views(spent@)), kind_gain(t as int, a@, h as int, sent_views(received@))),
    ensures
        r@ == minus(kind_gain(t as int, a@, h as int, sent_views(received@)), kind_loss(t as int, sent_views(spent@))),
{
    proof {
        lemma_sent_views_nonneg(received@);
        lemma_sent_views_nonneg(spent@);
        lemma_sent_sum_prefix(sent_views(received@), at_height(t as int), received@.len() as int, received@.len() as int);
        assert(sent_views(received@).take(received@.len() as int) =~= sent_views(received@));
        lemma_sent_sum_prefix(sent_views(spent@), at_height(t as int), spent@.len() as int, spent@.len() as int);
        assert(sent_views(spent@).take(spent@.len() as int) =~= sent_views(spent@));
    }
    let got = if h == 0 {
        Wide { utxos: 0, value: 0 }
    } else {
        sum_of_kind(received, t)
    };
    let debit = sum_of_kind(spent, t);
    let gain_utxos = a.utxos as u128 + got.utxos;
    let gain_value = a.value as u128 + got.value;
    Supply { utxos: (gain_utxos - debit.utxos) as u64, value: (gain_value - debit.value) as u64 }
}

/// The new supply of an age cohort.
fn date_cohort_next(
    c: DateCohort,
    blocks: &Vec<BlockState>,
    event: &BlockEvent,
    received: Supply,
    sent: &Vec<(usize, Supply)>,
) -> (r: Supply)
    requires
        received@ == received_at(blocks@.len() as int, event@),
        sent_views(sent@) == with_duplicates(event@.sent, blocks@.len() as int),
        forall|j: int| 0 <= j < sent@.len() ==> #[trigger] sent@[j].0 <= blocks@.len(),
        times_ordered(block_views(blocks@), event.timestamp),
        amount_fits(date_gain((c.filter, c.supply@), block_views(blocks@), event@)),
        amount_le(
            date_loss((c.filter, c.supply@), block_views(blocks@), event@),
            date_gain((c.filter, c.supply@), block_views(blocks@), event@),
        ),
    ensures
        r@ == minus(
            date_gain((c.filter, c.supply@), block_views(blocks@), event@),
            date_loss((c.filter, c.supply@), block_views(blocks@), event@),
        ),
{
    let ghost bv = block_views(blocks@);
    let tip = event.timestamp;
    let h = blocks.len();
    proof {
        lemma_block_views_nonneg(blocks@);
        lemma_sent_views_nonneg(sent@);
        lemma_blocks_sum_prefix(bv, moving(c.filter, bv.last().timestamp, tip, Transition::Increment), bv.len() as int, bv.len() as int);
        lemma_blocks_sum_prefix(bv, moving(c.filter, bv.last().timestamp, tip, Transition::Decrement), bv.len() as int, bv.len() as int);
        lemma_sent_sum_prefix(sent_views(sent@), spent_aged_in(c.filter, bv, tip), sent@.len() as int, sent@.len() as int);
        assert(bv.take(bv.len() as int) =~= bv);
        assert(sent_views(sent@).take(sent@.len() as int) =~= sent_views(sent@));
    }
    let zero = Supply { utxos: 0, value: 0 };
    let (inc, dec) = if h == 0 {
        (Wide { utxos: 0, value: 0 }, Wide { utxos: 0, value: 0 })
    } else {
        let prev = blocks[h - 1].timestamp;
        proof {
            assert forall|i: int| 0 <= i < blocks@.len() implies #[trigger] blocks@[i].timestamp <= prev by {
                assert(bv[i].timestamp <= bv.last().timestamp);
            }
        }
        (
            sum_moving(blocks, &c.filter, prev, tip, Transition::Increment),
            sum_moving(blocks, &c.filter, prev, tip, Transition::Decrement),
        )
    };
    let got = if c.filter.contains(0) {
        received
    } else {
        zero
    };
    let debit = sum_sent_aged_in(sent, blocks, &c.filter, tip);
    let gain_utxos = c.supply.utxos as u128 + inc.utxos + got.utxos as u128;
    let gain_value = c.supply.value as u128 + inc.value + got.value as u128;
    let loss_utxos = dec.utxos + debit.utxos;
    let loss_value = dec.value + debit.value;
    Supply { utxos: (gain_utxos - loss_utxos) as u64, value: (gain_value - loss_value) as u64 }
}

/// The new supply of halving epoch `k`.
fn epoch_next(
    k: usize,
    a: Supply,
    h: usize,
    event: &BlockEvent,
    received: Supply,
    sent: &Vec<(usize, Supply)>,
    Ghost(blocks): Ghost<Seq<BlockView>>,
) -> (r: Supply)
    requires
        h == blocks.len(),
        h < u32::MAX,
        k < 256,
        h / 210000 < 256,
        received@ == received_at(h as int, event@),
        sent_views(sent@) == with_duplicates(event@.sent, h as int),
        forall|j: int| 0 <= j < sent@.len() ==> #[trigger] sent@[j].0 <= h,
        amount_fits(epoch_gain(k as int, a@, blocks, event@)),
        amount_le(epoch_loss(k as int, blocks, event@), epoch_gain(k as int, a@, blocks, event@)),
    ensures
        r@ == minus(epoch_gain(k as int, a@, blocks, event@), epoch_loss(k as int, blocks, event@)),
{
    proof {
        lemma_sent_views_nonneg(sent@);
        lemma_sent_sum_prefix(sent_views(sent@), in_epoch(k as int), sent@.len() as int, sent@.len() as int);
        assert(sent_views(sent@).take(sent@.len() as int) =~= sent_views(sent@));
    }
    let here = halving_epoch(h as u32);
    let got = if here as usize == k {
        received
    } else {
        Supply { utxos: 0, value: 0 }
    };
    let debit = sum_sent_in_epoch(sent, k, h);
    let gain_utxos = a.utxos as u128 + got.utxos as u128;
    let gain_value = a.value as u128 + got.value as u128;
    Supply { utxos: (gain_utxos - debit.utxos) as u64, value: (gain_value - debit.value) as u64 }
}



/// The conditions of `block_fits` on the state's totals, its times and the
/// spent heights.
spec fn block_basics(s: ChainView, e: EventView) -> bool {
    let h = s.blocks.len() as int;
    let sent = with_duplicates(e.sent, h);
    &&& h < u32::MAX
    &&& times_ordered(s.blocks, e.timestamp)
    &&& s.unspendable + e.unspendable_received + e.unclaimed_rewards + (if h == 0 {
        FIFTY_BTC as int
    } else {
        0
    }) <= u64::MAX
    &&& s.opreturn + e.opreturn_received <= u64::MAX
    &&& s.by_epoch.len() <= 256
    &&& h / 210000 < s.by_epoch.len()
    &&& forall|j: int| 0 <= j < sent.len() ==> 0 <= #[trigger] sent[j].0 <= h
}

/// Whether the pass can take the block: the test of `block_fits`, made
/// before a block is handed to `apply_block`.
pub fn block_fits_check(state: &ChainState, event: &BlockEvent) -> (r: bool)
    ensures
        r == block_fits(state@, event@),
{
    let ghost s0 = state@;
    let ghost e = event@;
    let h = state.blocks.len();
    let tip = event.timestamp;
    let ghost bv = s0.blocks;
    if h >= 4294967295 {
        return false;
    }
    // times
    if h > 0 {
        let last = state.blocks[h - 1].timestamp;
        if last > tip {
            return false;
        }
        let mut i: usize = 0;
        while i < h
            invariant
                0 <= i <= h,
                h == state.blocks@.len(),
                h > 0,
                bv == block_views(state.blocks@),
                last == state.blocks@[h - 1].timestamp,
                forall|k: int| 0 <= k < i ==> #[trigger] bv[k].timestamp <= last,
            decreases h - i,
        {
            if state.blocks[i].timestamp > last {
                proof {
                    assert(bv[i as int].timestamp > bv.last().timestamp);
                }
                return false;
            }
            i = i + 1;
        }
    }
    proof {
        assert(times_ordered(bv, tip));
    }
    // unspendable and OP_RETURN supplies
    let genesis: u128 = if h == 0 {
        FIFTY_BTC as u128
    } else {
        0
    };
    if state.unspendable as u128 + event.unspendable_received as u128 + event.unclaimed_rewards as u128
        + genesis > 18446744073709551615 {
        return false;
    }
    if state.opreturn as u128 + event.opreturn_received as u128 > 18446744073709551615 {
        return false;
    }
    // epochs
    if state.by_epoch.len() > 256 || h / 210000 >= state.by_epoch.len() {
        return false;
    }
    // spent heights
    let sent = spent_with_duplicates(&event.sent, h);
    let ghost sv = sent_views(sent@);
    proof {
        assert(sv == with_duplicates(e.sent, h as int));
        lemma_sent_views_nonneg(sent@);
    }
    let mut j: usize = 0;
    while j < sent.len()
        invariant
            0 <= j <= sent@.len(),
            sv == sent_views(sent@),
            sv == with_duplicates(e.sent, h as int),
            s0 == state@,
            e == event@,
            h == s0.blocks.len(),
            forall|i: int| 0 <= i < j ==> 0 <= #[trigger] sv[i].0 <= h,
        decreases sent@.len() - j,
    {
        if sent[j].0 > h {
            proof {
                assert(sv[j as int].0 > h);
            }
            return false;
        }
        j = j + 1;
    }
    proof {
        assert(block_basics(s0, e));
    }
    let received = if h == 0 {
        Supply { utxos: 0, value: 0 }
    } else {
        event.received
    };
    let ghost pushed = bv.push(BlockView { supply: received_at(h as int, e), timestamp: tip });
    // what is spent from each block
    let mut totals: Vec<Wide> = Vec::new();
    let mut i: usize = 0;
    while i <= h
        invariant
            0 <= i <= h + 1,
            h < 4294967295,
            totals@.len() == i,
            forall|k: int| 0 <= k < i ==> (#[trigger] totals@[k])@ == zero_amount(),
        decreases h + 1 - i,
    {
        totals.push(Wide { utxos: 0, value: 0 });
        i = i + 1;
    }
    proof {
        assert(sv.take(0) =~= Seq::<(int, Amount)>::empty());
    }
    let mut j: usize = 0;
    while j < sent.len()
        invariant
            0 <= j <= sent@.len(),
            block_basics(s0, e),
            s0 == state@,
            e == event@,
            h == s0.blocks.len(),
            sv == sent_views(sent@),
            sv == with_duplicates(e.sent, h as int),
            forall|i: int| 0 <= i < sv.len() ==> amount_le(zero_amount(), #[trigger] sv[i].1),
            totals@.len() == h + 1,
            forall|k: int|
                0 <= k <= h ==> (#[trigger] totals@[k])@ == sent_sum(sv.take(j as int), at_height(k))
                    && bounded_by(totals@[k]@, j as int),
        decreases sent@.len() - j,
    {
        let (hh, amt) = sent[j];
        proof {
            assert(sv[j as int] == (hh as int, amt@));
            assert(sv[j as int].0 <= h);
            assert(sv.take(j + 1).drop_last() =~= sv.take(j as int));
            assert(sv.take(j + 1).last() == sv[j as int]);
        }
        let cur = totals[hh];
        let ghost before = totals@;
        totals.set(hh, Wide { utxos: cur.utxos + amt.utxos as u128, value: cur.value + amt.value as u128 });
        proof {
            assert forall|k: int| 0 <= k <= h implies (#[trigger] totals@[k])@ == sent_sum(sv.take(j + 1), at_height(k))
                && bounded_by(totals@[k]@, j + 1) by {
                assert(sent_sum(sv.take(j + 1), at_height(k)) == plus(
                    sent_sum(sv.take(j as int), at_height(k)),
                    if at_height(k)(hh as int) { sv[j as int].1 } else { zero_amount() },
                ));
                if k != hh {
                    assert(totals@[k] == before[k]);
                }
            }
        }
        j = j + 1;
    }
    proof {
        assert(sv.take(sv.len() as int) =~= sv);
    }
    let mut i: usize = 0;
    while i <= h
        invariant
            0 <= i <= h + 1,
            block_basics(s0, e),
            s0 == state@,
            e == event@,
            h == s0.blocks.len(),
            bv == s0.blocks,
            sv == with_duplicates(e.sent, h as int),
            received@ == received_at(h as int, e),
            pushed == bv.push(BlockView { supply: received_at(h as int, e), timestamp: tip }),
            tip == e.timestamp,
            totals@.len() == h + 1,
            forall|k: int| 0 <= k <= h ==> (#[trigger] totals@[k])@ == sent_sum(sv, at_height(k)),
            forall|k: int| 0 <= k < i ==> amount_le(#[trigger] sent_sum(sv, at_height(k)), pushed[k].supply),
        decreases h + 1 - i,
    {
        let held = if i < h {
            state.blocks[i].supply
        } else {
            received
        };
        proof {
            assert(held@ == pushed[i as int].supply);
        }
        let tot = totals[i];
        if tot.utxos > held.utxos as u128 || tot.value > held.value as u128 {
            proof {
                assert(!amount_le(sent_sum(sv, at_height(i as int)), pushed[i as int].supply));
            }
            return false;
        }
        i = i + 1;
    }
    // age cohorts
    let mut k: usize = 0;
    while k < state.by_date_range.len()
        invariant
            0 <= k <= state.by_date_range@.len(),
            block_basics(s0, e),
            forall|i: int| 0 <= i <= h ==> amount_le(#[trigger] sent_sum(sv, at_height(i)), pushed[i].supply),
            pushed == s0.blocks.push(BlockView { supply: received_at(h as int, e), timestamp: tip }),
            s0 == state@,
            e == event@,
            tip == e.timestamp,
            h == s0.blocks.len(),
            received@ == received_at(h as int, e),
            sv == sent_views(sent@),
            sv == with_duplicates(e.sent, h as int),
            forall|i: int|
                0 <= i < k ==> amount_fits(#[trigger] date_gain(s0.by_date_range[i], s0.blocks, e))
                    && amount_le(date_loss(s0.by_date_range[i], s0.blocks, e), date_gain(s0.by_date_range[i], s0.blocks, e)),
        decreases state.by_date_range@.len() - k,
    {
        let c = state.by_date_range[k];
        let ghost g = date_gain(s0.by_date_range[k as int], s0.blocks, e);
        let ghost l = date_loss(s0.by_date_range[k as int], s0.blocks, e);
        proof {
            assert(s0.by_date_range[k as int] == (c.filter, c.supply@));
            assert forall|j: int| 0 <= j < sent@.len() implies #[trigger] sent@[j].0 <= state.blocks@.len() by {
                assert(sv[j].0 == sent@[j].0);
                assert(with_duplicates(e.sent, h as int)[j].0 <= h);
            }
            lemma_block_views_nonneg(state.blocks@);
            lemma_blocks_sum_prefix(s0.blocks, moving(c.filter, s0.blocks.last().timestamp, tip, Transition::Decrement), h as int, h as int);
            lemma_sent_sum_prefix(sv, spent_aged_in(c.filter, s0.blocks, tip), sv.len() as int, sv.len() as int);
            assert(s0.blocks.take(h as int) =~= s0.blocks);
            assert(sv.take(sv.len() as int) =~= sv);
        }
        let (inc, dec) = if h == 0 {
            (Wide { utxos: 0, value: 0 }, Wide { utxos: 0, value: 0 })
        } else {
            let prev = state.blocks[h - 1].timestamp;
            proof {
                assert(prev == s0.blocks.last().timestamp);
                assert forall|i: int| 0 <= i < state.blocks@.len() implies #[trigger] state.blocks@[i].timestamp <= prev by {
                    assert(s0.blocks[i].timestamp <= s0.blocks.last().timestamp);
                }
            }
            (
                sum_moving(&state.blocks, &c.filter, prev, tip, Transition::Increment),
                sum_moving(&state.blocks, &c.filter, prev, tip, Transition::Decrement),
            )
        };
        let got = if c.filter.contains(0) {
            received
        } else {
            Supply { utxos: 0, value: 0 }
        };
        let debit = sum_sent_aged_in(&sent, &state.blocks, &c.filter, tip);
        let gain_utxos = c.supply.utxos as u128 + inc.utxos + got.utxos as u128;
        let gain_value = c.supply.value as u128 + inc.value + got.value as u128;
        proof {
            assert(gain_utxos == g.utxos && gain_value == g.value);
            assert(dec.utxos + debit.utxos == l.utxos && dec.value + debit.value == l.value);
        }
        if gain_utxos > 18446744073709551615 || gain_value > 18446744073709551615 {
            return false;
        }
        if dec.utxos > gain_utxos || dec.value > gain_value || debit.utxos > gain_utxos || debit.value > gain_value
            || dec.utxos + debit.utxos > gain_utxos || dec.value + debit.value > gain_value {
            return false;
        }
        k = k + 1;
    }
    // epochs
    let mut k: usize = 0;
    while k < state.by_epoch.len()
        invariant
            0 <= k <= state.by_epoch@.len(),
            block_basics(s0, e),
            forall|i: int| 0 <= i <= h ==> amount_le(#[trigger] sent_sum(sv, at_height(i)), pushed[i].supply),
            pushed == s0.blocks.push(BlockView { supply: received_at(h as int, e), timestamp: tip }),
            forall|i: int|
                0 <= i < s0.by_date_range.len() ==> amount_fits(#[trigger] date_gain(s0.by_date_range[i], s0.blocks, e))
                    && amount_le(date_loss(s0.by_date_range[i], s0.blocks, e), date_gain(s0.by_date_range[i], s0.blocks, e)),
            s0 == state@,
            e == event@,
            tip == e.timestamp,
            h == s0.blocks.len(),
            received@ == received_at(h as int, e),
            sv == sent_views(sent@),
            sv == with_duplicates(e.sent, h as int),
            forall|i: int|
                0 <= i < k ==> amount_fits(#[trigger] epoch_gain(i, s0.by_epoch[i], s0.blocks, e))
                    && amount_le(epoch_loss(i, s0.blocks, e), epoch_gain(i, s0.by_epoch[i], s0.blocks, e)),
        decreases state.by_epoch@.len() - k,
    {
        let a = state.by_epoch[k];
        proof {
            assert(s0.by_epoch[k as int] == a@);
            assert forall|j: int| 0 <= j < sent@.len() implies #[trigger] sent@[j].0 <= h by {
                assert(sv[j].0 == sent@[j].0);
                assert(with_duplicates(e.sent, h as int)[j].0 <= h);
            }
        }
        let got = if h / 210000 == k {
            received
        } else {
            Supply { utxos: 0, value: 0 }
        };
        let debit = sum_sent_in_epoch(&sent, k, h);
        let gain_utxos = a.utxos as u128 + got.utxos as u128;
        let gain_value = a.value as u128 + got.value as u128;
        proof {
            let g = epoch_gain(k as int, s0.by_epoch[k as int], s0.blocks, e);
            assert(gain_utxos == g.utxos && gain_value == g.value);
        }
        if gain_utxos > 18446744073709551615 || gain_value > 18446744073709551615 || debit.utxos > gain_utxos
            || debit.value > gain_value {
            return false;
        }
        k = k + 1;
    }
    // output types
    let typed_sent = typed_spent_with_duplicates(&event.sent, h);
    let mut t: usize = 0;
    while t < state.by_type.len()
        invariant
            0 <= t <= state.by_type@.len(),
            block_basics(s0, e),
            forall|i: int| 0 <= i <= h ==> amount_le(#[trigger] sent_sum(sv, at_height(i)), pushed[i].supply),
            pushed == s0.blocks.push(BlockView { supply: received_at(h as int, e), timestamp: tip }),
            forall|i: int|
                0 <= i < s0.by_date_range.len() ==> amount_fits(#[trigger] date_gain(s0.by_date_range[i], s0.blocks, e))
                    && amount_le(date_loss(s0.by_date_range[i], s0.blocks, e), date_gain(s0.by_date_range[i], s0.blocks, e)),
            forall|i: int|
                0 <= i < s0.by_epoch.len() ==> amount_fits(#[trigger] epoch_gain(i, s0.by_epoch[i], s0.blocks, e))
                    && amount_le(epoch_loss(i, s0.blocks, e), epoch_gain(i, s0.by_epoch[i], s0.blocks, e)),
            s0 == state@,
            e == event@,
            tip == e.timestamp,
            h == s0.blocks.len(),
            sv == with_duplicates(e.sent, h as int),
            sent_views(typed_sent@) == typed_with_duplicates(e.sent_by_type, h as int),
            forall|i: int|
                0 <= i < t ==> amount_fits(#[trigger] type_gain(i, s0.by_type[i], h as int, e))
                    && amount_le(type_loss(i, h as int, e), type_gain(i, s0.by_type[i], h as int, e)),
        decreases state.by_type@.len() - t,
    {
        let a = state.by_type[t];
        proof {
            assert(s0.by_type[t as int] == a@);
        }
        let got = if h == 0 {
            Wide { utxos: 0, value: 0 }
        } else {
            sum_of_kind(&event.received_by_type, t)
        };
        let debit = sum_of_kind(&typed_sent, t);
        proof {
            lemma_sent_views_nonneg(event.received_by_type@);
            lemma_sent_sum_prefix(sent_views(event.received_by_type@), at_height(t as int), event.received_by_type@.len() as int, event.received_by_type@.len() as int);
            assert(sent_views(event.received_by_type@).take(event.received_by_type@.len() as int) =~= sent_views(event.received_by_type@));
        }
        proof {
            let g = type_gain(t as int, s0.by_type[t as int], h as int, e);
            assert(g.utxos == a.utxos + got@.utxos && g.value == a.value + got@.value);
        }
        if got.utxos > 18446744073709551615 || got.value > 18446744073709551615 {
            return false;
        }
        let gain_utxos = a.utxos as u128 + got.utxos;
        let gain_value = a.value as u128 + got.value;
        proof {
            let g = type_gain(t as int, s0.by_type[t as int], h as int, e);
            assert(gain_utxos == g.utxos && gain_value == g.value);
        }
        if gain_utxos > 18446744073709551615 || gain_value > 18446744073709551615 || debit.utxos > gain_utxos
            || debit.value > gain_value {
            return false;
        }
        t = t + 1;
    }
    // amount cohorts
    let sized_sent = sized_spent_with_duplicates(&event.sent_by_size, h);
    let mut t: usize = 0;
    while t < state.by_size.len()
        invariant
            0 <= t <= state.by_size@.len(),
            block_basics(s0, e),
            forall|i: int| 0 <= i <= h ==> amount_le(#[trigger] sent_sum(sv, at_height(i)), pushed[i].supply),
            pushed == s0.blocks.push(BlockView { supply: received_at(h as int, e), timestamp: tip }),
            forall|i: int|
                0 <= i < s0.by_date_range.len() ==> amount_fits(#[trigger] date_gain(s0.by_date_range[i], s0.blocks, e))
                    && amount_le(date_loss(s0.by_date_range[i], s0.blocks, e), date_gain(s0.by_date_range[i], s0.blocks, e)),
            forall|i: int|
                0 <= i < s0.by_epoch.len() ==> amount_fits(#[trigger] epoch_gain(i, s0.by_epoch[i], s0.blocks, e))
                    && amount_le(epoch_loss(i, s0.blocks, e), epoch_gain(i, s0.by_epoch[i], s0.blocks, e)),
            s0 == state@,
            e == event@,
            tip == e.timestamp,
            h == s0.blocks.len(),
            sv == with_duplicates(e.sent, h as int),
            sent_views(sized_sent@) == sized_with_duplicates(e.sent_by_size, h as int),
            forall|i: int|
                0 <= i < s0.by_type.len() ==> amount_fits(#[trigger] type_gain(i, s0.by_type[i], h as int, e))
                    && amount_le(type_loss(i, h as int, e), type_gain(i, s0.by_type[i], h as int, e)),
            forall|i: int|
                0 <= i < t ==> amount_fits(#[trigger] size_gain(i, s0.by_size[i], h as int, e))
                    && amount_le(size_loss(i, h as int, e), size_gain(i, s0.by_size[i], h as int, e)),
        decreases state.by_size@.len() - t,
    {
        let a = state.by_size[t];
        proof {
            assert(s0.by_size[t as int] == a@);
        }
        let got = if h == 0 {
            Wide { utxos: 0, value: 0 }
        } else {
            sum_of_kind(&event.received_by_size, t)
        };
        let debit = sum_of_kind(&sized_sent, t);
        proof {
            lemma_sent_views_nonneg(event.received_by_size@);
            lemma_sent_sum_prefix(sent_views(event.received_by_size@), at_height(t as int), event.received_by_size@.len() as int, event.received_by_size@.len() as int);
            assert(sent_views(event.received_by_size@).take(event.received_by_size@.len() as int) =~= sent_views(event.received_by_size@));
        }
        proof {
            let g = size_gain(t as int, s0.by_size[t as int], h as int, e);
            assert(g.utxos == a.utxos + got@.utxos && g.value == a.value + got@.value);
        }
        if got.utxos > 18446744073709551615 || got.value > 18446744073709551615 {
            return false;
        }
        let gain_utxos = a.utxos as u128 + got.utxos;
        let gain_value = a.value as u128 + got.value;
        proof {
            let g = size_gain(t as int, s0.by_size[t as int], h as int, e);
            assert(gain_utxos == g.utxos && gain_value == g.value);
        }
        if gain_utxos > 18446744073709551615 || gain_value > 18446744073709551615 || debit.utxos > gain_utxos
            || debit.value > gain_value {
            return false;
        }
        t = t + 1;
    }
    true
}


/// The code of the OP_RETURN output type, the only type that can never be
/// spent.
pub const OPRETURN_CODE: usize = 5;

/// The value of the outputs among `outs` (value, type code) whose type `p`
/// selects, and their number.
pub open spec fn outputs_total(outs: Seq<(u64, usize)>, p: spec_fn(usize) -> bool) -> Amount
    decreases outs.len(),
{
    if outs.len() == 0 {
        zero_amount()
    } else {
        plus(
            outputs_total(outs.drop_last(), p),
            if p(outs.last().1) {
                Amount { utxos: 1, value: outs.last().0 as int }
            } else {
                zero_amount()
            },
        )
    }
}

pub open spec fn spendable_code() -> spec_fn(usize) -> bool {
    |c: usize| c != OPRETURN_CODE
}

pub open spec fn opreturn_code() -> spec_fn(usize) -> bool {
    |c: usize| c == OPRETURN_CODE
}

/// The supply each output brings to its type: one output and its value,
/// nothing for an OP_RETURN output.
pub open spec fn typed_outputs(outs: Seq<(u64, usize)>) -> Seq<(int, Amount)> {
    outs.map_values(
        |o: (u64, usize)|
            (
                o.1 as int,
                if o.1 != OPRETURN_CODE {
                    Amount { utxos: 1, value: o.0 as int }
                } else {
                    zero_amount()
                },
            ),
    )
}

/// The supply each output brings to the amount cohort of its value: one
/// output and its value, nothing for an OP_RETURN output.
pub open spec fn sized_outputs(outs: Seq<(u64, usize)>) -> Seq<(int, Amount)> {
    outs.map_values(
        |o: (u64, usize)|
            (
                amount_bucket(o.0) as int,
                if o.1 != OPRETURN_CODE {
                    Amount { utxos: 1, value: o.0 as int }
                } else {
                    zero_amount()
                },
            ),
    )
}

/// Each spent output as one output of its value, in the amount cohort of
/// its value.
pub open spec fn spent_sizes(ins: Seq<(usize, usize, u64)>) -> Seq<(int, Amount)> {
    ins.map_values(|i: (usize, usize, u64)| (amount_bucket(i.2) as int, Amount { utxos: 1, value: i.2 as int }))
}

/// Each spent output as one spent output of its value, from its block and
/// of its type.
pub open spec fn spent_outputs(ins: Seq<(usize, usize, u64)>) -> Seq<(usize, usize, Supply)> {
    ins.map_values(|i: (usize, usize, u64)| (i.0, i.1, Supply { utxos: 1, value: i.2 }))
}

/// The facts of a block from its outputs (value, type code) and the outputs
/// its inputs spend (height of their block, type code, value; the coinbase
/// spends none): the OP_RETURN outputs are unspendable, every other output
/// adds to the spendable supply and to its type, and every spent output is
/// taken from its block, its type and the amount cohort of its value. Nothing when an OP_RETURN output is
/// spent, which cannot happen, or when a total does not fit.
pub fn block_event(
    timestamp: u32,
    unclaimed_rewards: u64,
    outputs: &Vec<(u64, usize)>,
    inputs: &Vec<(usize, usize, u64)>,
) -> (r: Option<BlockEvent>)
    ensures
        r is Some <==> amount_fits(outputs_total(outputs@, spendable_code())) && amount_fits(
            outputs_total(outputs@, opreturn_code()),
        ) && forall|j: int| 0 <= j < inputs@.len() ==> (#[trigger] inputs@[j]).1 != OPRETURN_CODE,
        r matches Some(ev) ==> {
            &&& ev.timestamp == timestamp
            &&& ev.unclaimed_rewards == unclaimed_rewards
            &&& ev.unspendable_received == outputs_total(outputs@, opreturn_code()).value
            &&& ev.opreturn_received == outputs_total(outputs@, opreturn_code()).value
            &&& ev.received@ == outputs_total(outputs@, spendable_code())
            &&& sent_views(ev.received_by_type@) == typed_outputs(outputs@)
            &&& sent_views(ev.received_by_size@) == sized_outputs(outputs@)
            &&& ev.sent@ == spent_outputs(inputs@)
            &&& sent_views(ev.sent_by_size@) == spent_sizes(inputs@)
        },
{
    let mut spendable = Wide { utxos: 0, value: 0 };
    let mut opreturn = Wide { utxos: 0, value: 0 };
    let mut by_type: Vec<(usize, Supply)> = Vec::new();
    let mut by_size: Vec<(usize, Supply)> = Vec::new();
    let mut i: usize = 0;
    while i < outputs.len()
        invariant
            0 <= i <= outputs@.len(),
            spendable@ == outputs_total(outputs@.take(i as int), spendable_code()),
            opreturn@ == outputs_total(outputs@.take(i as int), opreturn_code()),
            bounded_by(spendable@, i as int),
            bounded_by(opreturn@, i as int),
            amount_le(zero_amount(), spendable@),
            amount_le(zero_amount(), opreturn@),
            by_type@.len() == i,
            sent_views(by_type@) == typed_outputs(outputs@.take(i as int)),
            by_size@.len() == i,
            sent_views(by_size@) == sized_outputs(outputs@.take(i as int)),
        decreases outputs@.len() - i,
    {
        let (value, code) = outputs[i];
        proof {
            assert(outputs@.take(i + 1).drop_last() =~= outputs@.take(i as int));
            assert(outputs@.take(i + 1).last() == outputs@[i as int]);
        }
        let ghost before = by_type@;
        let ghost before_size = by_size@;
        let bucket = amount_bucket_of(value) as usize;
        if code != OPRETURN_CODE {
            spendable = Wide { utxos: spendable.utxos + 1, value: spendable.value + value as u128 };
            by_type.push((code, Supply { utxos: 1, value }));
            by_size.push((bucket, Supply { utxos: 1, value }));
        } else {
            opreturn = Wide { utxos: opreturn.utxos + 1, value: opreturn.value + value as u128 };
            by_type.push((code, Supply { utxos: 0, value: 0 }));
            by_size.push((bucket, Supply { utxos: 0, value: 0 }));
        }
        proof {
            assert(sent_views(by_type@) =~= typed_outputs(outputs@.take(i + 1))) by {
                assert forall|k: int| 0 <= k < i implies sent_views(by_type@)[k] == typed_outputs(outputs@.take(i + 1))[k] by {
                    assert(by_type@[k] == before[k]);
                    assert(sent_views(before)[k] == typed_outputs(outputs@.take(i as int))[k]);
                }
            }
            assert(sent_views(by_size@) =~= sized_outputs(outputs@.take(i + 1))) by {
                assert forall|k: int| 0 <= k < i implies sent_views(by_size@)[k] == sized_outputs(outputs@.take(i + 1))[k] by {
                    assert(by_size@[k] == before_size[k]);
                    assert(sent_views(before_size)[k] == sized_outputs(outputs@.take(i as int))[k]);
                }
            }
        }
        i = i + 1;
    }
    proof {
        assert(outputs@.take(outputs@.len() as int) =~= outputs@);
    }
    if spendable.utxos > 18446744073709551615 || spendable.value > 18446744073709551615
        || opreturn.utxos > 18446744073709551615 || opreturn.value > 18446744073709551615 {
        return None;
    }
    let mut sent: Vec<(usize, usize, Supply)> = Vec::new();
    let mut sent_by_size: Vec<(usize, Supply)> = Vec::new();
    let mut j: usize = 0;
    while j < inputs.len()
        invariant
            0 <= j <= inputs@.len(),
            forall|k: int| 0 <= k < j ==> (#[trigger] inputs@[k]).1 != OPRETURN_CODE,
            sent@ == spent_outputs(inputs@.take(j as int)),
            sent_by_size@.len() == j,
            sent_views(sent_by_size@) == spent_sizes(inputs@.take(j as int)),
        decreases inputs@.len() - j,
    {
        let (height, code, value) = inputs[j];
        if code == OPRETURN_CODE {
            return None;
        }
        let ghost before = sent_by_size@;
        sent.push((height, code, Supply { utxos: 1, value }));
        sent_by_size.push((amount_bucket_of(value) as usize, Supply { utxos: 1, value }));
        proof {
            assert(sent@ =~= spent_outputs(inputs@.take(j + 1)));
            assert(sent_views(sent_by_size@) =~= spent_sizes(inputs@.take(j + 1))) by {
                assert forall|k: int| 0 <= k < j implies sent_views(sent_by_size@)[k] == spent_sizes(inputs@.take(j + 1))[k] by {
                    assert(sent_by_size@[k] == before[k]);
                    assert(sent_views(before)[k] == spent_sizes(inputs@.take(j as int))[k]);
                }
            }
        }
        j = j + 1;
    }
    proof {
        assert(inputs@.take(inputs@.len() as int) =~= inputs@);
    }
    Some(
        BlockEvent {
            timestamp,
            unspendable_received: opreturn.value as u64,
            opreturn_received: opreturn.value as u64,
            unclaimed_rewards,
            received: Supply { utxos: spendable.utxos as u64, value: spendable.value as u64 },
            received_by_type: by_type,
            received_by_size: by_size,
            sent,
            sent_by_size,
        },
    )
}

/// Takes one block into the state: the pass's step from one height to the
/// next.
pub fn apply_block(state: &mut ChainState, event: &BlockEvent)
    requires
        block_fits(old(state)@, event@),
    ensures
        final(state)@ == next_state(old(state)@, event@),
{
    let ghost s0 = old(state)@;
    let ghost e = event@;
    let h = state.blocks.len();
    let tip = event.timestamp;
    let genesis: u64 = if h == 0 {
        FIFTY_BTC
    } else {
        0
    };
    let received = if h == 0 {
        Supply { utxos: 0, value: 0 }
    } else {
        event.received
    };
    let sent = spent_with_duplicates(&event.sent, h);
    let typed_sent = typed_spent_with_duplicates(&event.sent, h);
    let ghost sv = sent_views(sent@);
    proof {
        assert(sv == with_duplicates(e.sent, h as int));
        assert forall|j: int| 0 <= j < sent@.len() implies #[trigger] sent@[j].0 <= h by {
            assert(sv[j] == (sent@[j].0 as int, sent@[j].1@));
            assert(with_duplicates(e.sent, h as int)[j].0 <= h);
        }
    }
    state.unspendable = state.unspendable + event.unspendable_received + event.unclaimed_rewards + genesis;
    state.opreturn = state.opreturn + event.opreturn_received;
    // age cohorts
    let mut dates: Vec<DateCohort> = Vec::new();
    let mut k: usize = 0;
    while k < state.by_date_range.len()
        invariant
            0 <= k <= state.by_date_range@.len(),
            state.blocks == old(state).blocks,
            state.by_date_range == old(state).by_date_range,
            state.by_epoch == old(state).by_epoch,
            state.by_type == old(state).by_type,
            state.by_size == old(state).by_size,
            state.unspendable == next_state(s0, e).unspendable,
            state.opreturn == next_state(s0, e).opreturn,
            s0 == old(state)@,
            e == event@,
            h == s0.blocks.len(),
            block_fits(s0, e),
            received@ == received_at(h as int, e),
            sv == sent_views(sent@),
            sv == with_duplicates(e.sent, h as int),
            forall|j: int| 0 <= j < sent@.len() ==> #[trigger] sent@[j].0 <= h,
            dates@.len() == k,
            forall|i: int|
                0 <= i < k ==> (#[trigger] date_views(dates@)[i]) == next_state(s0, e).by_date_range[i],
        decreases state.by_date_range@.len() - k,
    {
        let c = state.by_date_range[k];
        proof {
            assert(s0.by_date_range[k as int] == (c.filter, c.supply@));
        }
        let supply = date_cohort_next(c, &state.blocks, event, received, &sent);
        let ghost before = dates@;
        dates.push(DateCohort { filter: c.filter, supply });
        proof {
            assert forall|i: int| 0 <= i < k + 1 implies (#[trigger] date_views(dates@)[i])
                == next_state(s0, e).by_date_range[i] by {
                if i < k {
                    assert(dates@[i] == before[i]);
                    assert(date_views(before)[i] == next_state(s0, e).by_date_range[i]);
                }
            }
        }
        k = k + 1;
    }
    // halving epochs
    let mut epochs: Vec<Supply> = Vec::new();
    let mut k: usize = 0;
    while k < state.by_epoch.len()
        invariant
            0 <= k <= state.by_epoch@.len(),
            state.blocks == old(state).blocks,
            state.by_date_range == old(state).by_date_range,
            state.by_epoch == old(state).by_epoch,
            state.by_type == old(state).by_type,
            state.by_size == old(state).by_size,
            state.unspendable == next_state(s0, e).unspendable,
            state.opreturn == next_state(s0, e).opreturn,
            s0 == old(state)@,
            e == event@,
            h == s0.blocks.len(),
            block_fits(s0, e),
            received@ == received_at(h as int, e),
            sv == sent_views(sent@),
            sv == with_duplicates(e.sent, h as int),
            forall|j: int| 0 <= j < sent@.len() ==> #[trigger] sent@[j].0 <= h,
            epochs@.len() == k,
            forall|i: int|
                0 <= i < k ==> (#[trigger] supply_views(epochs@)[i]) == next_state(s0, e).by_epoch[i],
        decreases state.by_epoch@.len() - k,
    {
        let a = state.by_epoch[k];
        proof {
            assert(s0.by_epoch[k as int] == a@);
        }
        let supply = epoch_next(k, a, h, event, received, &sent, Ghost(s0.blocks));
        let ghost before = epochs@;
        epochs.push(supply);
        proof {
            assert forall|i: int| 0 <= i < k + 1 implies (#[trigger] supply_views(epochs@)[i])
                == next_state(s0, e).by_epoch[i] by {
                if i < k {
                    assert(epochs@[i] == before[i]);
                    assert(supply_views(before)[i] == next_state(s0, e).by_epoch[i]);
                }
            }
        }
        k = k + 1;
    }
    // output types
    let mut types: Vec<Supply> = Vec::new();
    let mut k: usize = 0;
    while k < state.by_type.len()
        invariant
            0 <= k <= state.by_type@.len(),
            state.blocks == old(state).blocks,
            state.by_date_range == old(state).by_date_range,
            state.by_epoch == old(state).by_epoch,
            state.by_type == old(state).by_type,
            state.by_size == old(state).by_size,
            state.unspendable == next_state(s0, e).unspendable,
            state.opreturn == next_state(s0, e).opreturn,
            s0 == old(state)@,
            e == event@,
            h == s0.blocks.len(),
            block_fits(s0, e),
            sent_views(typed_sent@) == typed_with_duplicates(e.sent_by_type, h as int),
            types@.len() == k,
            forall|i: int|
                0 <= i < k ==> (#[trigger] supply_views(types@)[i]) == next_state(s0, e).by_type[i],
        decreases state.by_type@.len() - k,
    {
        let a = state.by_type[k];
        proof {
            assert(s0.by_type[k as int] == a@);
            assert(e.received_by_type == sent_views(event.received_by_type@));
            assert(amount_fits(type_gain(k as int, s0.by_type[k as int], h as int, e)));
        }
        let supply = kind_next(k, a, h, &event.received_by_type, &typed_sent);
        let ghost before = types@;
        types.push(supply);
        proof {
            assert forall|i: int| 0 <= i < k + 1 implies (#[trigger] supply_views(types@)[i])
                == next_state(s0, e).by_type[i] by {
                if i < k {
                    assert(types@[i] == before[i]);
                    assert(supply_views(before)[i] == next_state(s0, e).by_type[i]);
                }
            }
        }
        k = k + 1;
    }
    // amount cohorts
    let sized_sent = sized_spent_with_duplicates(&event.sent_by_size, h);
    let mut sizes: Vec<Supply> = Vec::new();
    let mut k: usize = 0;
    while k < state.by_size.len()
        invariant
            0 <= k <= state.by_size@.len(),
            state.blocks == old(state).blocks,
            state.by_date_range == old(state).by_date_range,
            state.by_epoch == old(state).by_epoch,
            state.by_type == old(state).by_type,
            state.by_size == old(state).by_size,
            state.unspendable == next_state(s0, e).unspendable,
            state.opreturn == next_state(s0, e).opreturn,
            s0 == old(state)@,
            e == event@,
            h == s0.blocks.len(),
            block_fits(s0, e),
            sent_views(sized_sent@) == sized_with_duplicates(e.sent_by_size, h as int),
            sizes@.len() == k,
            forall|i: int|
                0 <= i < k ==> (#[trigger] supply_views(sizes@)[i]) == next_state(s0, e).by_size[i],
        decreases state.by_size@.len() - k,
    {
        let a = state.by_size[k];
        proof {
            assert(s0.by_size[k as int] == a@);
            assert(e.received_by_size == sent_views(event.received_by_size@));
            assert(amount_fits(size_gain(k as int, s0.by_size[k as int], h as int, e)));
        }
        let supply = kind_next(k, a, h, &event.received_by_size, &sized_sent);
        let ghost before = sizes@;
        sizes.push(supply);
        proof {
            assert forall|i: int| 0 <= i < k + 1 implies (#[trigger] supply_views(sizes@)[i])
                == next_state(s0, e).by_size[i] by {
                if i < k {
                    assert(sizes@[i] == before[i]);
                    assert(supply_views(before)[i] == next_state(s0, e).by_size[i]);
                }
            }
        }
        k = k + 1;
    }
    // blocks
    let ghost pushed = s0.blocks.push(BlockView { supply: received_at(h as int, e), timestamp: tip });
    state.blocks.push(BlockState { supply: received, timestamp: tip });
    proof {
        lemma_sent_views_nonneg(sent@);
        assert(block_views(state.blocks@) =~= pushed);
        assert(sv.take(0) =~= Seq::<(int, Amount)>::empty());
    }
    let mut j: usize = 0;
    while j < sent.len()
        invariant
            0 <= j <= sent@.len(),
            s0 == old(state)@,
            e == event@,
            h == s0.blocks.len(),
            block_fits(s0, e),
            pushed == s0.blocks.push(BlockView { supply: received_at(h as int, e), timestamp: tip }),
            sv == sent_views(sent@),
            sv == with_duplicates(e.sent, h as int),
            forall|i: int| 0 <= i < sv.len() ==> amount_le(zero_amount(), #[trigger] sv[i].1),
            forall|i: int| 0 <= i < sent@.len() ==> #[trigger] sent@[i].0 <= h,
            state.blocks@.len() == h + 1,
            state.unspendable == next_state(s0, e).unspendable,
            state.opreturn == next_state(s0, e).opreturn,
            forall|i: int|
                0 <= i <= h ==> (#[trigger] block_views(state.blocks@)[i]) == (BlockView {
                    supply: minus(pushed[i].supply, sent_sum(sv.take(j as int), at_height(i))),
                    timestamp: pushed[i].timestamp,
                }),
        decreases sent@.len() - j,
    {
        let (hh, amt) = sent[j];
        proof {
            assert(sv[j as int].0 == hh);
            assert(sv.take(j + 1).drop_last() =~= sv.take(j as int));
            assert(sv.take(sv.len() as int) =~= sv);
            lemma_sent_sum_prefix(sv, at_height(hh as int), j + 1, sv.len() as int);
            assert(amount_le(sent_sum(sv, at_height(hh as int)), pushed[hh as int].supply));
        }
        let b = state.blocks[hh];
        let ghost before = state.blocks@;
        proof {
            assert(block_views(state.blocks@)[hh as int] == b@);
        }
        state.blocks.set(
            hh,
            BlockState {
                supply: Supply { utxos: b.supply.utxos - amt.utxos, value: b.supply.value - amt.value },
                timestamp: b.timestamp,
            },
        );
        proof {
            assert forall|i: int| 0 <= i <= h implies (#[trigger] block_views(state.blocks@)[i]) == (BlockView {
                supply: minus(pushed[i].supply, sent_sum(sv.take(j + 1), at_height(i))),
                timestamp: pushed[i].timestamp,
            }) by {
                assert(sv.take(j + 1).last() == sv[j as int]);
                assert(sent_sum(sv.take(j + 1), at_height(i)) == plus(
                    sent_sum(sv.take(j as int), at_height(i)),
                    if at_height(i)(hh as int) { sv[j as int].1 } else { zero_amount() },
                ));
                if i != hh {
                    assert(state.blocks@[i] == before[i]);
                    assert(block_views(before)[i] == block_views(state.blocks@)[i]);
                } else {
                    assert(block_views(state.blocks@)[i] == state.blocks@[i]@);
                }
            }
        }
        j = j + 1;
    }
    proof {
        assert(sv.take(sv.len() as int) =~= sv);
        assert(block_views(state.blocks@) =~= blocks_next(s0.blocks, e));
        assert(date_views(dates@) =~= next_state(s0, e).by_date_range);
        assert(supply_views(epochs@) =~= next_state(s0, e).by_epoch);
        assert(supply_views(types@) =~= next_state(s0, e).by_type);
        assert(supply_views(sizes@) =~= next_state(s0, e).by_size);
    }
    state.by_date_range = dates;
    state.by_epoch = epochs;
    state.by_type = types;
    state.by_size = sizes;
}


/// Whether a selection of blocks looks at their height and time only.
pub open spec fn ignores_supply(q: spec_fn(int, BlockView) -> bool) -> bool {
    forall|i: int, a: BlockView, b: BlockView|
        a.timestamp == b.timestamp ==> #[trigger] q(i, a) == #[trigger] q(i, b)
}

/// Whether each cohort holds exactly the unspent supply of its blocks: an
/// age cohort, the blocks whose age at the last block's time lies in it; an
/// epoch, the blocks of that epoch.
pub open spec fn cohorts_track(s: ChainView) -> bool {
    &&& forall|k: int|
        0 <= k < s.by_date_range.len() ==> (#[trigger] s.by_date_range[k]).1 == blocks_sum(
            s.blocks,
            aged_in(s.by_date_range[k].0, s.blocks.last().timestamp),
        )
    &&& forall|k: int| 0 <= k < s.by_epoch.len() ==> #[trigger] s.by_epoch[k] == blocks_sum(s.blocks, of_epoch(k))
}

/// As the tip moves, what a cohort held plus what enters it equals what it
/// holds afterwards plus what leaves it.
pub proof fn lemma_tick_balance(b: Seq<BlockView>, f: GroupFilter, prev: u32, tip: u32)
    ensures
        plus(blocks_sum(b, aged_in(f, prev)), blocks_sum(b, moving(f, prev, tip, Transition::Increment)))
            == plus(blocks_sum(b, aged_in(f, tip)), blocks_sum(b, moving(f, prev, tip, Transition::Decrement))),
    decreases b.len(),
{
    if b.len() > 0 {
        lemma_tick_balance(b.drop_last(), f, prev, tip);
    }
}

/// Taking `a` from block `i` takes it from every selection holding the block.
pub proof fn lemma_sum_update(q: Seq<BlockView>, p: spec_fn(int, BlockView) -> bool, i: int, a: Amount)
    requires
        0 <= i < q.len(),
        ignores_supply(p),
    ensures
        blocks_sum(q.update(i, BlockView { supply: minus(q[i].supply, a), timestamp: q[i].timestamp }), p)
            == minus(blocks_sum(q, p), if p(i, q[i]) { a } else { zero_amount() }),
    decreases q.len(),
{
    let nb = BlockView { supply: minus(q[i].supply, a), timestamp: q[i].timestamp };
    let u = q.update(i, nb);
    assert(p(i, nb) == p(i, q[i]));
    if i == q.len() - 1 {
        assert(u.drop_last() =~= q.drop_last());
    } else {
        assert(u.drop_last() =~= q.drop_last().update(i, nb));
        lemma_sum_update(q.drop_last(), p, i, a);
        assert(p(q.len() - 1, u.last()) == p(q.len() - 1, q.last()));
    }
}

/// Taking what was spent from the blocks takes it from every selection
/// holding the spent blocks.
pub proof fn lemma_sum_debited(
    b: Seq<BlockView>,
    sent: Seq<(int, Amount)>,
    p: spec_fn(int, BlockView) -> bool,
    r: spec_fn(int) -> bool,
)
    requires
        ignores_supply(p),
        forall|j: int|
            0 <= j < sent.len() ==> 0 <= #[trigger] sent[j].0 < b.len() && r(sent[j].0) == p(sent[j].0, b[sent[j].0]),
    ensures
        blocks_sum(debited(b, sent), p) == minus(blocks_sum(b, p), sent_sum(sent, r)),
    decreases sent.len(),
{
    if sent.len() == 0 {
        assert(debited(b, sent) =~= b);
    } else {
        let rest = sent.drop_last();
        let x = sent.last();
        assert(sent[sent.len() - 1] == x);
        lemma_sum_debited(b, rest, p, r);
        let d = debited(b, rest);
        let nb = BlockView { supply: minus(d[x.0].supply, x.1), timestamp: d[x.0].timestamp };
        assert(debited(b, sent) =~= d.update(x.0, nb));
        lemma_sum_update(d, p, x.0, x.1);
        assert(p(x.0, d[x.0]) == p(x.0, b[x.0]));
    }
}

/// Each step keeps every cohort holding exactly the unspent supply of its
/// blocks.
pub proof fn lemma_cohorts_track(s: ChainView, e: EventView)
    requires
        cohorts_track(s),
        block_fits(s, e),
    ensures
        cohorts_track(next_state(s, e)),
{
    let n = next_state(s, e);
    let b = s.blocks;
    let h = b.len() as int;
    let tip = e.timestamp;
    let pushed = b.push(BlockView { supply: received_at(h, e), timestamp: tip });
    let sent = with_duplicates(e.sent, h);
    assert(pushed.drop_last() =~= b);
    assert(n.blocks.last().timestamp == tip);
    assert forall|k: int| 0 <= k < n.by_date_range.len() implies (#[trigger] n.by_date_range[k]).1 == blocks_sum(
        n.blocks,
        aged_in(n.by_date_range[k].0, n.blocks.last().timestamp),
    ) by {
        let c = s.by_date_range[k];
        let f = c.0;
        let q = aged_in(f, tip);
        if h > 0 {
            lemma_tick_balance(b, f, b.last().timestamp, tip);
        }
        assert(blocks_sum(pushed, q) == plus(blocks_sum(b, q), if filter_contains(f, 0) {
            received_at(h, e)
        } else {
            zero_amount()
        }));
        assert forall|j: int| 0 <= j < sent.len() implies 0 <= #[trigger] sent[j].0 < pushed.len()
            && spent_aged_in(f, b, tip)(sent[j].0) == q(sent[j].0, pushed[sent[j].0]) by {}
        lemma_sum_debited(pushed, sent, q, spent_aged_in(f, b, tip));
    }
    assert forall|k: int| 0 <= k < n.by_epoch.len() implies #[trigger] n.by_epoch[k] == blocks_sum(
        n.blocks,
        of_epoch(k),
    ) by {
        let q = of_epoch(k);
        assert(blocks_sum(pushed, q) == plus(blocks_sum(b, q), if h / 210000 == k {
            received_at(h, e)
        } else {
            zero_amount()
        }));
        assert forall|j: int| 0 <= j < sent.len() implies 0 <= #[trigger] sent[j].0 < pushed.len()
            && in_epoch(k)(sent[j].0) == q(sent[j].0, pushed[sent[j].0]) by {}
        lemma_sum_debited(pushed, sent, q, in_epoch(k));
    }
}


/// The supply held by a list of cohorts.
pub open spec fn cohorts_total(c: Seq<(GroupFilter, Amount)>) -> Amount
    decreases c.len(),
{
    if c.len() == 0 {
        zero_amount()
    } else {
        plus(cohorts_total(c.drop_last()), c.last().1)
    }
}

/// How many of the cohorts hold age `d`.
pub open spec fn holders(c: Seq<(GroupFilter, Amount)>, d: int) -> int
    decreases c.len(),
{
    if c.len() == 0 {
        0
    } else {
        holders(c.drop_last(), d) + if filter_contains(c.last().0, d) {
            1int
        } else {
            0
        }
    }
}

/// What the cohorts would hold between them if each held the blocks of its
/// ages among `b`.
pub open spec fn cohort_sums(c: Seq<(GroupFilter, Amount)>, b: Seq<BlockView>, tip: u32) -> Amount
    decreases c.len(),
{
    if c.len() == 0 {
        zero_amount()
    } else {
        plus(cohort_sums(c.drop_last(), b, tip), blocks_sum(b, aged_in(c.last().0, tip)))
    }
}

/// What the cohorts holding age `d` would hold between them of supply `v`.
pub open spec fn spread(c: Seq<(GroupFilter, Amount)>, d: int, v: Amount) -> Amount
    decreases c.len(),
{
    if c.len() == 0 {
        zero_amount()
    } else {
        plus(spread(c.drop_last(), d, v), if filter_contains(c.last().0, d) { v } else { zero_amount() })
    }
}

/// The supply of all blocks.
pub open spec fn every_block() -> spec_fn(int, BlockView) -> bool {
    |i: int, b: BlockView| true
}

proof fn lemma_spread_one(c: Seq<(GroupFilter, Amount)>, d: int, v: Amount)
    ensures
        holders(c, d) == 0 ==> spread(c, d, v) == zero_amount(),
        holders(c, d) == 1 ==> spread(c, d, v) == v,
        holders(c, d) >= 0,
    decreases c.len(),
{
    if c.len() > 0 {
        lemma_spread_one(c.drop_last(), d, v);
    }
}

proof fn lemma_cohort_sums_step(c: Seq<(GroupFilter, Amount)>, b: Seq<BlockView>, tip: u32)
    requires
        b.len() > 0,
    ensures
        cohort_sums(c, b, tip) == plus(
            cohort_sums(c, b.drop_last(), tip),
            spread(c, age(b.last().timestamp, tip), b.last().supply),
        ),
    decreases c.len(),
{
    if c.len() > 0 {
        lemma_cohort_sums_step(c.drop_last(), b, tip);
    }
}

proof fn lemma_cohort_sums_all(c: Seq<(GroupFilter, Amount)>, b: Seq<BlockView>, tip: u32)
    requires
        forall|i: int| 0 <= i < b.len() ==> holders(c, age(#[trigger] b[i].timestamp, tip)) == 1,
    ensures
        cohort_sums(c, b, tip) == blocks_sum(b, every_block()),
    decreases b.len(),
{
    if b.len() == 0 {
        lemma_cohort_sums_empty(c, b, tip);
    } else {
        assert forall|i: int| 0 <= i < b.drop_last().len() implies holders(
            c,
            age(#[trigger] b.drop_last()[i].timestamp, tip),
        ) == 1 by {
            assert(b.drop_last()[i] == b[i]);
        }
        lemma_cohort_sums_all(c, b.drop_last(), tip);
        lemma_cohort_sums_step(c, b, tip);
        assert(holders(c, age(b[b.len() - 1].timestamp, tip)) == 1);
        lemma_spread_one(c, age(b.last().timestamp, tip), b.last().supply);
    }
}

proof fn lemma_cohort_sums_empty(c: Seq<(GroupFilter, Amount)>, b: Seq<BlockView>, tip: u32)
    requires
        b.len() == 0,
    ensures
        cohort_sums(c, b, tip) == zero_amount(),
    decreases c.len(),
{
    if c.len() > 0 {
        lemma_cohort_sums_empty(c.drop_last(), b, tip);
    }
}

proof fn lemma_tracked_total(c: Seq<(GroupFilter, Amount)>, b: Seq<BlockView>, tip: u32)
    requires
        forall|k: int| 0 <= k < c.len() ==> (#[trigger] c[k]).1 == blocks_sum(b, aged_in(c[k].0, tip)),
    ensures
        cohorts_total(c) == cohort_sums(c, b, tip),
    decreases c.len(),
{
    if c.len() > 0 {
        assert forall|k: int| 0 <= k < c.drop_last().len() implies (#[trigger] c.drop_last()[k]).1
            == blocks_sum(b, aged_in(c.drop_last()[k].0, tip)) by {
            assert(c.drop_last()[k] == c[k]);
        }
        lemma_tracked_total(c.drop_last(), b, tip);
        assert(c[c.len() - 1] == c.last());
    }
}

/// When every age lies in exactly one age cohort, the age cohorts together
/// hold the unspent supply of all blocks.
pub proof fn lemma_age_cohorts_hold_unspent_supply(s: ChainView)
    requires
        cohorts_track(s),
        times_ordered(s.blocks, s.blocks.last().timestamp),
        forall|d: int| d >= 0 ==> #[trigger] holders(s.by_date_range, d) == 1,
    ensures
        cohorts_total(s.by_date_range) == blocks_sum(s.blocks, every_block()),
{
    let tip = s.blocks.last().timestamp;
    assert forall|i: int| 0 <= i < s.blocks.len() implies holders(
        s.by_date_range,
        age(#[trigger] s.blocks[i].timestamp, tip),
    ) == 1 by {
        assert(age(s.blocks[i].timestamp, tip) >= 0);
    }
    lemma_tracked_total(s.by_date_range, s.blocks, tip);
    lemma_cohort_sums_all(s.by_date_range, s.blocks, tip);
}


/// The supply of the cohorts among `c` that cohort `f` is made of.
pub open spec fn included_total(f: GroupFilter, c: Seq<(GroupFilter, Amount)>) -> Amount
    decreases c.len(),
{
    if c.len() == 0 {
        zero_amount()
    } else {
        plus(
            included_total(f, c.drop_last()),
            if filter_includes(f, c.last().0) {
                c.last().1
            } else {
                zero_amount()
            },
        )
    }
}

proof fn lemma_included_total_prefix(f: GroupFilter, c: Seq<(GroupFilter, Amount)>, i: int, j: int)
    requires
        0 <= i <= j <= c.len(),
        forall|k: int| 0 <= k < c.len() ==> amount_le(zero_amount(), #[trigger] c[k].1),
    ensures
        amount_le(included_total(f, c.take(i)), included_total(f, c.take(j))),
    decreases j,
{
    if j > i {
        lemma_included_total_prefix(f, c, i, j - 1);
        assert(c.take(j).drop_last() =~= c.take(j - 1));
    }
}

/// The supply of an overlapping cohort (below or from an age): the total
/// of the age cohorts it is made of.
pub fn overlapping_supply(filter: &GroupFilter, cohorts: &Vec<DateCohort>) -> (r: Supply)
    requires
        amount_fits(included_total(*filter, date_views(cohorts@))),
    ensures
        r@ == included_total(*filter, date_views(cohorts@)),
{
    let ghost v = date_views(cohorts@);
    let mut acc = Supply { utxos: 0, value: 0 };
    let mut i: usize = 0;
    while i < cohorts.len()
        invariant
            0 <= i <= cohorts@.len(),
            v == date_views(cohorts@),
            forall|k: int| 0 <= k < v.len() ==> amount_le(zero_amount(), #[trigger] v[k].1),
            amount_fits(included_total(*filter, v)),
            acc@ == included_total(*filter, v.take(i as int)),
        decreases cohorts@.len() - i,
    {
        let c = cohorts[i];
        proof {
            assert(v.take(i + 1).drop_last() =~= v.take(i as int));
            assert(v.take(v.len() as int) =~= v);
            assert(v[i as int] == (c.filter, c.supply@));
            lemma_included_total_prefix(*filter, v, i + 1, v.len() as int);
        }
        if filter.includes(&c.filter) {
            acc = Supply { utxos: acc.utxos + c.supply.utxos, value: acc.value + c.supply.value };
        }
        i = i + 1;
    }
    proof {
        assert(v.take(v.len() as int) =~= v);
    }
    acc
}

/// The per-height series of one cohort: its supply and its number of
/// unspent outputs, written from `starting_height` on.
pub struct CohortSeries {
    pub starting_height: usize,
    pub height_to_supply: Column<u64>,
    pub height_to_utxo_count: Column<u64>,
}

impl CohortSeries {
    /// Resumes the series at `starting_height`, which must not lie past the
    /// end of either series; returns the cohort's supply at the height
    /// before, read from the series, or nothing at the first height.
    pub fn init(&mut self, starting_height: usize) -> (r: Option<Supply>)
        requires
            starting_height <= old(self).height_to_supply.values@.len(),
            starting_height <= old(self).height_to_utxo_count.values@.len(),
        ensures
            final(self).starting_height == starting_height,
            final(self).height_to_supply == old(self).height_to_supply,
            final(self).height_to_utxo_count == old(self).height_to_utxo_count,
            starting_height == 0 ==> r is None,
            starting_height > 0 ==> r == Some(
                Supply {
                    utxos: old(self).height_to_utxo_count.values@[starting_height - 1],
                    value: old(self).height_to_supply.values@[starting_height - 1],
                },
            ),
    {
        self.starting_height = starting_height;
        if starting_height == 0 {
            None
        } else {
            Some(
                Supply {
                    utxos: self.height_to_utxo_count.values[starting_height - 1],
                    value: self.height_to_supply.values[starting_height - 1],
                },
            )
        }
    }

    /// Writes the cohort's supply at `height`, unless the series start
    /// later; refused when `height` lies past the end of a series.
    pub fn forced_pushed_at(&mut self, height: usize, supply: Supply) -> (r: Result<(), ColumnError>)
        ensures
            final(self).starting_height == old(self).starting_height,
            old(self).starting_height > height ==> r is Ok && *final(self) == *old(self),
            old(self).starting_height <= height && height > old(self).height_to_supply.values@.len()
                ==> r == Err::<(), ColumnError>(ColumnError::IndexTooHigh)
                && final(self).height_to_supply@ == old(self).height_to_supply@
                && final(self).height_to_utxo_count@ == old(self).height_to_utxo_count@,
            old(self).starting_height <= height && height <= old(self).height_to_supply.values@.len()
                ==> final(self).height_to_supply@ == (ColumnView {
                values: pushed_at(old(self).height_to_supply.values@, height as int, supply.value),
                ..old(self).height_to_supply@
            }),
            old(self).starting_height <= height && height <= old(self).height_to_supply.values@.len()
                && height > old(self).height_to_utxo_count.values@.len() ==> r == Err::<(), ColumnError>(
                ColumnError::IndexTooHigh,
            ) && final(self).height_to_utxo_count@ == old(self).height_to_utxo_count@,
            old(self).starting_height <= height && height <= old(self).height_to_supply.values@.len()
                && height <= old(self).height_to_utxo_count.values@.len() ==> r is Ok
                && final(self).height_to_utxo_count@ == (ColumnView {
                values: pushed_at(old(self).height_to_utxo_count.values@, height as int, supply.utxos),
                ..old(self).height_to_utxo_count@
            }),
    {
        if self.starting_height > height {
            return Ok(());
        }
        match self.height_to_supply.forced_push_at(height, supply.value) {
            Ok(()) => {},
            Err(e) => return Err(e),
        }
        self.height_to_utxo_count.forced_push_at(height, supply.utxos)
    }
}



/// Every spent height.
pub open spec fn any_height() -> spec_fn(int) -> bool {
    |hh: int| true
}

/// After a block, the unspent supply of all blocks is what it was, plus what
/// the block created (nothing for the first block), minus everything it
/// spent, the duplicated coinbases included.
pub proof fn lemma_unspent_supply_balance(s: ChainView, e: EventView)
    requires
        block_fits(s, e),
    ensures
        blocks_sum(next_state(s, e).blocks, every_block()) == minus(
            plus(blocks_sum(s.blocks, every_block()), received_at(s.blocks.len() as int, e)),
            sent_sum(with_duplicates(e.sent, s.blocks.len() as int), any_height()),
        ),
{
    let h = s.blocks.len() as int;
    let pushed = s.blocks.push(BlockView { supply: received_at(h, e), timestamp: e.timestamp });
    let sent = with_duplicates(e.sent, h);
    assert(pushed.drop_last() =~= s.blocks);
    assert forall|j: int| 0 <= j < sent.len() implies 0 <= #[trigger] sent[j].0 < pushed.len()
        && any_height()(sent[j].0) == every_block()(sent[j].0, pushed[sent[j].0]) by {}
    lemma_sum_debited(pushed, sent, every_block(), any_height());
}


/// The unspendable and OP_RETURN supplies never shrink: each block adds its
/// unspendable outputs, its unclaimed reward and, for the first block, its
/// fifty bitcoins.
pub proof fn lemma_unspendable_supply_grows(s: ChainView, e: EventView)
    requires
        e.unspendable_received >= 0,
        e.unclaimed_rewards >= 0,
        e.opreturn_received >= 0,
    ensures
        next_state(s, e).unspendable >= s.unspendable + e.unspendable_received + e.unclaimed_rewards,
        next_state(s, e).opreturn == s.opreturn + e.opreturn_received,
        next_state(s, e).opreturn >= s.opreturn,
        s.blocks.len() == 0 ==> next_state(s, e).unspendable == s.unspendable + e.unspendable_received
            + e.unclaimed_rewards + FIFTY_BTC,
{
}

/// When every age lies in exactly one age cohort, moving the tip moves
/// supply between age cohorts but leaves their total unchanged: each
/// block's supply leaves the cohort of its old age and enters the cohort
/// of its new one.
pub proof fn lemma_tick_keeps_age_total(c: Seq<(GroupFilter, Amount)>, b: Seq<BlockView>, prev: u32, tip: u32)
    requires
        prev <= tip,
        forall|i: int| 0 <= i < b.len() ==> #[trigger] b[i].timestamp <= prev,
        forall|d: int| d >= 0 ==> #[trigger] holders(c, d) == 1,
    ensures
        cohort_sums(c, b, prev) == cohort_sums(c, b, tip),
        cohort_sums(c, b, tip) == blocks_sum(b, every_block()),
{
    assert forall|i: int| 0 <= i < b.len() implies holders(c, age(#[trigger] b[i].timestamp, prev)) == 1 by {
        assert(age(b[i].timestamp, prev) >= 0);
    }
    lemma_cohort_sums_all(c, b, prev);
    assert forall|i: int| 0 <= i < b.len() implies holders(c, age(#[trigger] b[i].timestamp, tip)) == 1 by {
        assert(age(b[i].timestamp, tip) >= 0);
    }
    lemma_cohort_sums_all(c, b, tip);
}


/// The age cohorts of outputs by range of whole days: below a day, then up
/// to a week, a month, two to six months, a year, two to eight years, ten,
/// twelve and fifteen years, and from fifteen years on.
pub open spec fn age_range_filters() -> Seq<GroupFilter> {
    seq![
        GroupFilter::To(1),
        GroupFilter::Range(1, 7),
        GroupFilter::Range(7, 30),
        GroupFilter::Range(30, 60),
        GroupFilter::Range(60, 90),
        GroupFilter::Range(90, 120),
        GroupFilter::Range(120, 150),
        GroupFilter::Range(150, 180),
        GroupFilter::Range(180, 365),
        GroupFilter::Range(365, 730),
        GroupFilter::Range(730, 1095),
        GroupFilter::Range(1095, 1460),
        GroupFilter::Range(1460, 1825),
        GroupFilter::Range(1825, 2190),
        GroupFilter::Range(2190, 2555),
        GroupFilter::Range(2555, 2920),
        GroupFilter::Range(2920, 3650),
        GroupFilter::Range(3650, 4380),
        GroupFilter::Range(4380, 5475),
        GroupFilter::From(5475),
    ]
}

/// The age cohorts, each holding nothing.
pub open spec fn empty_age_cohorts() -> Seq<(GroupFilter, Amount)> {
    age_range_filters().map_values(|f: GroupFilter| (f, zero_amount()))
}

/// The age cohorts by range of days, each holding nothing.
pub fn age_range_cohorts() -> (r: Vec<DateCohort>)
    ensures
        date_views(r@) == empty_age_cohorts(),
{
    let filters = vec![
        GroupFilter::To(1),
        GroupFilter::Range(1, 7),
        GroupFilter::Range(7, 30),
        GroupFilter::Range(30, 60),
        GroupFilter::Range(60, 90),
        GroupFilter::Range(90, 120),
        GroupFilter::Range(120, 150),
        GroupFilter::Range(150, 180),
        GroupFilter::Range(180, 365),
        GroupFilter::Range(365, 730),
        GroupFilter::Range(730, 1095),
        GroupFilter::Range(1095, 1460),
        GroupFilter::Range(1460, 1825),
        GroupFilter::Range(1825, 2190),
        GroupFilter::Range(2190, 2555),
        GroupFilter::Range(2555, 2920),
        GroupFilter::Range(2920, 3650),
        GroupFilter::Range(3650, 4380),
        GroupFilter::Range(4380, 5475),
        GroupFilter::From(5475),
    ];
    proof {
        assert(filters@ =~= age_range_filters());
    }
    let mut out: Vec<DateCohort> = Vec::new();
    let mut i: usize = 0;
    while i < filters.len()
        invariant
            0 <= i <= filters@.len(),
            filters@ == age_range_filters(),
            out@.len() == i,
            forall|k: int| 0 <= k < i ==> (#[trigger] date_views(out@)[k]) == empty_age_cohorts()[k],
        decreases filters@.len() - i,
    {
        let ghost before = out@;
        out.push(DateCohort { filter: filters[i], supply: Supply { utxos: 0, value: 0 } });
        proof {
            assert forall|k: int| 0 <= k < i + 1 implies (#[trigger] date_views(out@)[k]) == empty_age_cohorts()[k] by {
                if k < i {
                    assert(out@[k] == before[k]);
                    assert(date_views(before)[k] == empty_age_cohorts()[k]);
                }
            }
        }
        i = i + 1;
    }
    proof {
        assert(date_views(out@) =~= empty_age_cohorts());
    }
    out
}

/// Every age in days lies in exactly one of the age cohorts.
pub proof fn lemma_age_ranges_partition(d: int)
    requires
        d >= 0,
    ensures
        holders(empty_age_cohorts(), d) == 1,
{
    let c = empty_age_cohorts();
    assert forall|k: int| 1 <= k <= c.len() implies #[trigger] holders(c.take(k), d) == holders(c.take(k).drop_last(), d)
        + if filter_contains(c[k - 1].0, d) { 1int } else { 0 } by {
        assert(c.take(k).last() == c[k - 1]);
    }
    assert forall|k: int| 1 <= k <= c.len() implies #[trigger] c.take(k).drop_last() == c.take(k - 1) by {
        assert(c.take(k).drop_last() =~= c.take(k - 1));
    }
    assert(c.take(0) =~= Seq::<(GroupFilter, Amount)>::empty());
    assert(c.take(20) =~= c);
    assert(holders(c.take(1), d) == holders(c.take(0), d) + if filter_contains(c[0].0, d) { 1int } else { 0 });
    assert(holders(c.take(2), d) == holders(c.take(1), d) + if filter_contains(c[1].0, d) { 1int } else { 0 });
    assert(holders(c.take(3), d) == holders(c.take(2), d) + if filter_contains(c[2].0, d) { 1int } else { 0 });
    assert(holders(c.take(4), d) == holders(c.take(3), d) + if filter_contains(c[3].0, d) { 1int } else { 0 });
    assert(holders(c.take(5), d) == holders(c.take(4), d) + if filter_contains(c[4].0, d) { 1int } else { 0 });
    assert(holders(c.take(6), d) == holders(c.take(5), d) + if filter_contains(c[5].0, d) { 1int } else { 0 });
    assert(holders(c.take(7), d) == holders(c.take(6), d) + if filter_contains(c[6].0, d) { 1int } else { 0 });
    assert(holders(c.take(8), d) == holders(c.take(7), d) + if filter_contains(c[7].0, d) { 1int } else { 0 });
    assert(holders(c.take(9), d) == holders(c.take(8), d) + if filter_contains(c[8].0, d) { 1int } else { 0 });
    assert(holders(c.take(10), d) == holders(c.take(9), d) + if filter_contains(c[9].0, d) { 1int } else { 0 });
    assert(holders(c.take(11), d) == holders(c.take(10), d) + if filter_contains(c[10].0, d) { 1int } else { 0 });
    assert(holders(c.take(12), d) == holders(c.take(11), d) + if filter_contains(c[11].0, d) { 1int } else { 0 });
    assert(holders(c.take(13), d) == holders(c.take(12), d) + if filter_contains(c[12].0, d) { 1int } else { 0 });
    assert(holders(c.take(14), d) == holders(c.take(13), d) + if filter_contains(c[13].0, d) { 1int } else { 0 });
    assert(holders(c.take(15), d) == holders(c.take(14), d) + if filter_contains(c[14].0, d) { 1int } else { 0 });
    assert(holders(c.take(16), d) == holders(c.take(15), d) + if filter_contains(c[15].0, d) { 1int } else { 0 });
    assert(holders(c.take(17), d) == holders(c.take(16), d) + if filter_contains(c[16].0, d) { 1int } else { 0 });
    assert(holders(c.take(18), d) == holders(c.take(17), d) + if filter_contains(c[17].0, d) { 1int } else { 0 });
    assert(holders(c.take(19), d) == holders(c.take(18), d) + if filter_contains(c[18].0, d) { 1int } else { 0 });
    assert(holders(c.take(20), d) == holders(c.take(19), d) + if filter_contains(c[19].0, d) { 1int } else { 0 });
}

/// The age cohorts are cut at whole calendar spans of days: under a day,
/// from a day to a week (7 days), from a week to a month (30 days), then
/// month by month up to six months, from six months to a year (365 days),
/// year by year up to eight years, then ten, twelve and fifteen years, and
/// from fifteen years on. An output `d` days old lies in the cohort whose
/// span holds `d`; one 10 days old, for instance, lies in the week-to-month
/// cohort.
pub proof fn lemma_age_cohort_bounds(d: int)
    requires
        d >= 0,
    ensures
        age_range_filters().len() == 20,
        filter_contains(age_range_filters()[0], d) <==> d < 1,
        filter_contains(age_range_filters()[1], d) <==> 1 <= d < 7,
        filter_contains(age_range_filters()[2], d) <==> 7 <= d < 30,
        filter_contains(age_range_filters()[3], d) <==> 30 <= d < 30 * 2,
        filter_contains(age_range_filters()[4], d) <==> 30 * 2 <= d < 30 * 3,
        filter_contains(age_range_filters()[5], d) <==> 30 * 3 <= d < 30 * 4,
        filter_contains(age_range_filters()[6], d) <==> 30 * 4 <= d < 30 * 5,
        filter_contains(age_range_filters()[7], d) <==> 30 * 5 <= d < 30 * 6,
        filter_contains(age_range_filters()[8], d) <==> 30 * 6 <= d < 365,
        filter_contains(age_range_filters()[9], d) <==> 365 <= d < 365 * 2,
        filter_contains(age_range_filters()[10], d) <==> 365 * 2 <= d < 365 * 3,
        filter_contains(age_range_filters()[11], d) <==> 365 * 3 <= d < 365 * 4,
        filter_contains(age_range_filters()[12], d) <==> 365 * 4 <= d < 365 * 5,
        filter_contains(age_range_filters()[13], d) <==> 365 * 5 <= d < 365 * 6,
        filter_contains(age_range_filters()[14], d) <==> 365 * 6 <= d < 365 * 7,
        filter_contains(age_range_filters()[15], d) <==> 365 * 7 <= d < 365 * 8,
        filter_contains(age_range_filters()[16], d) <==> 365 * 8 <= d < 365 * 10,
        filter_contains(age_range_filters()[17], d) <==> 365 * 10 <= d < 365 * 12,
        filter_contains(age_range_filters()[18], d) <==> 365 * 12 <= d < 365 * 15,
        filter_contains(age_range_filters()[19], d) <==> 365 * 15 <= d,
{
}

/// Coins spent from a block `d` days old are taken from exactly one age
/// cohort, the one that holds the block's supply.
pub proof fn lemma_spent_age_in_one_cohort(d: int, h: u32)
    requires
        d >= 0,
    ensures
        forall|k: int|
            0 <= k < age_range_filters().len() ==> sent_matches(#[trigger] age_range_filters()[k], d, h)
                == filter_contains(age_range_filters()[k], d),
        exists|k: int| 0 <= k < age_range_filters().len() && sent_matches(#[trigger] age_range_filters()[k], d, h),
        forall|j: int, k: int|
            0 <= j < k < age_range_filters().len() ==> !(sent_matches(#[trigger] age_range_filters()[j], d, h)
                && sent_matches(#[trigger] age_range_filters()[k], d, h)),
{
    let f = age_range_filters();
    lemma_age_cohort_bounds(d);
    assert forall|k: int| 0 <= k < f.len() implies sent_matches(#[trigger] f[k], d, h) == filter_contains(f[k], d) by {
        assert(f[k] is To || f[k] is Range || f[k] is From);
    }
    assert(f[0] == GroupFilter::To(1));
    if d < 1 {
        assert(sent_matches(f[0], d, h));
    } else if d < 7 {
        assert(sent_matches(f[1], d, h));
    } else if d < 30 {
        assert(sent_matches(f[2], d, h));
    } else if d < 60 {
        assert(sent_matches(f[3], d, h));
    } else if d < 90 {
        assert(sent_matches(f[4], d, h));
    } else if d < 120 {
        assert(sent_matches(f[5], d, h));
    } else if d < 150 {
        assert(sent_matches(f[6], d, h));
    } else if d < 180 {
        assert(sent_matches(f[7], d, h));
    } else if d < 365 {
        assert(sent_matches(f[8], d, h));
    } else if d < 730 {
        assert(sent_matches(f[9], d, h));
    } else if d < 1095 {
        assert(sent_matches(f[10], d, h));
    } else if d < 1460 {
        assert(sent_matches(f[11], d, h));
    } else if d < 1825 {
        assert(sent_matches(f[12], d, h));
    } else if d < 2190 {
        assert(sent_matches(f[13], d, h));
    } else if d < 2555 {
        assert(sent_matches(f[14], d, h));
    } else if d < 2920 {
        assert(sent_matches(f[15], d, h));
    } else if d < 3650 {
        assert(sent_matches(f[16], d, h));
    } else if d < 4380 {
        assert(sent_matches(f[17], d, h));
    } else if d < 5475 {
        assert(sent_matches(f[18], d, h));
    } else {
        assert(sent_matches(f[19], d, h));
    }
}

/// A chain with no block yet, cohorts holding nothing, tracks its cohorts.
pub proof fn lemma_empty_chain_tracks(s: ChainView)
    requires
        s.blocks.len() == 0,
        forall|k: int| 0 <= k < s.by_date_range.len() ==> (#[trigger] s.by_date_range[k]).1 == zero_amount(),
        forall|k: int| 0 <= k < s.by_epoch.len() ==> #[trigger] s.by_epoch[k] == zero_amount(),
    ensures
        cohorts_track(s),
{
}


/// How many cohorts hold an age depends only on their filters.
proof fn lemma_holders_by_filters(a: Seq<(GroupFilter, Amount)>, b: Seq<(GroupFilter, Amount)>, d: int)
    requires
        a.len() == b.len(),
        forall|k: int| 0 <= k < a.len() ==> (#[trigger] a[k]).0 == b[k].0,
    ensures
        holders(a, d) == holders(b, d),
    decreases a.len(),
{
    if a.len() > 0 {
        assert forall|k: int| 0 <= k < a.drop_last().len() implies (#[trigger] a.drop_last()[k]).0 == b.drop_last()[k].0 by {
            assert(a.drop_last()[k] == a[k] && b.drop_last()[k] == b[k]);
        }
        lemma_holders_by_filters(a.drop_last(), b.drop_last(), d);
        assert(a[a.len() - 1].0 == b[b.len() - 1].0);
    }
}

/// With the age cohorts by range of days, the age cohorts together hold the
/// unspent supply of all blocks.
pub proof fn lemma_age_range_cohorts_hold_unspent_supply(s: ChainView)
    requires
        cohorts_track(s),
        times_ordered(s.blocks, s.blocks.last().timestamp),
        s.by_date_range.len() == age_range_filters().len(),
        forall|k: int| 0 <= k < s.by_date_range.len() ==> (#[trigger] s.by_date_range[k]).0 == age_range_filters()[k],
    ensures
        cohorts_total(s.by_date_range) == blocks_sum(s.blocks, every_block()),
{
    assert forall|d: int| d >= 0 implies #[trigger] holders(s.by_date_range, d) == 1 by {
        lemma_age_ranges_partition(d);
        lemma_holders_by_filters(s.by_date_range, empty_age_cohorts(), d);
    }
    lemma_age_cohorts_hold_unspent_supply(s);
}

/// Sums over a longer prefix are no smaller.
pub proof fn lemma_blocks_sum_prefix(s: Seq<BlockView>, p: spec_fn(int, BlockView) -> bool, i: int, j: int)
    requires
        0 <= i <= j <= s.len(),
        forall|k: int| 0 <= k < s.len() ==> amount_le(zero_amount(), #[trigger] s[k].supply),
    ensures
        amount_le(blocks_sum(s.take(i), p), blocks_sum(s.take(j), p)),
        amount_le(zero_amount(), blocks_sum(s.take(i), p)),
    decreases j,
{
    if j > i {
        lemma_blocks_sum_prefix(s, p, i, j - 1);
        assert(s.take(j).drop_last() =~= s.take(j - 1));
    } else if i > 0 {
        lemma_blocks_sum_prefix(s, p, i - 1, i - 1);
        assert(s.take(i).drop_last() =~= s.take(i - 1));
    }
}

/// Sums over a longer prefix are no smaller.
pub proof fn lemma_sent_sum_prefix(s: Seq<(int, Amount)>, p: spec_fn(int) -> bool, i: int, j: int)
    requires
        0 <= i <= j <= s.len(),
        forall|k: int| 0 <= k < s.len() ==> amount_le(zero_amount(), #[trigger] s[k].1),
    ensures
        amount_le(sent_sum(s.take(i), p), sent_sum(s.take(j), p)),
        amount_le(zero_amount(), sent_sum(s.take(i), p)),
    decreases j,
{
    if j > i {
        lemma_sent_sum_prefix(s, p, i, j - 1);
        assert(s.take(j).drop_last() =~= s.take(j - 1));
    } else if i > 0 {
        lemma_sent_sum_prefix(s, p, i - 1, i - 1);
        assert(s.take(i).drop_last() =~= s.take(i - 1));
    }
}

} // verus!

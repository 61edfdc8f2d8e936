//! The bookkeeping of addresses as coins arrive and leave: in which amount
//! cohort an address lies, when it moves between cohorts, and how the counts
//! of funded and empty addresses change.

use vstd::prelude::*;

use crate::address::WithAddressDataSource;

verus! {

/// The number of decimal digits of a positive amount.
pub open spec fn digits(v: nat) -> nat
    decreases v,
{
    if v < 10 {
        1
    } else {
        1 + digits(v / 10)
    }
}

/// The amount cohort of a balance in satoshis: zero for an empty balance,
/// otherwise its number of decimal digits (1 to 10 sats is cohort 1, 10 to
/// 100 is cohort 2, and so on), with every balance of 100k BTC or more in
/// the last cohort, 14.
pub open spec fn amount_bucket(v: u64) -> nat {
    if v == 0 {
        0
    } else if digits(v as nat) >= 14 {
        14
    } else {
        digits(v as nat)
    }
}

/// The amount cohort of a balance.
pub fn amount_bucket_of(v: u64) -> (r: u8)
    ensures
        r == amount_bucket(v),
{
    if v == 0 {
        return 0;
    }
    let mut rest = v;
    let mut count: u8 = 1;
    while rest >= 10 && count < 14
        invariant
            1 <= count <= 14,
            rest >= 1,
            digits(v as nat) == count - 1 + digits(rest as nat),
        decreases rest,
    {
        rest = rest / 10;
        count = count + 1;
    }
    proof {
        if rest >= 10 {
            lemma_digits_pos(rest as nat);
        }
    }
    count
}

proof fn lemma_digits_pos(v: nat)
    ensures
        digits(v) >= 1,
    decreases v,
{
    if v >= 10 {
        lemma_digits_pos(v / 10);
    }
}

/// How an address's amount cohort is updated.
#[derive(Clone, Copy, PartialEq, Eq, Structural, Debug)]
pub enum CohortUpdate {
    /// The address stays in the cohort of its balance, which records the coins in place.
    InPlace,
    /// The address is removed from the cohort of its old balance (when it
    /// was counted there) and added to the cohort of its new balance.
    Move { leave_previous: bool },
    /// The address is removed from the cohort of its old balance and
    /// becomes empty.
    Empty,
}

/// What receiving coins does to an address.
#[derive(Clone, Copy, PartialEq, Eq, Structural, Debug)]
pub struct Received {
    /// Whether the address starts to count as funded.
    pub becomes_funded: bool,
    /// Whether it stops counting as empty.
    pub leaves_empty: bool,
    /// Its balance before.
    pub prev_amount: u64,
    /// Its new balance.
    pub amount: u64,
    /// How its amount cohort is updated.
    pub update: CohortUpdate,
}

/// Where the data of an address that receives coins was found.
#[derive(Clone, Copy, PartialEq, Eq, Structural, Debug)]
pub enum Found {
    /// Among the funded addresses already loaded for this block.
    Funded,
    /// Among the empty addresses already loaded for this block.
    Empty,
    /// Neither: the data handed in is used.
    Neither,
}

/// Whether data handed in marks an address that was stored as empty.
pub open spec fn from_empty_store<T>(w: WithAddressDataSource<T>) -> bool {
    w is FromEmptyAddressDataStore
}

/// What receiving `value` satoshis does to an address whose data was found
/// as `found` (or handed in as `provided`) with balance `prev_amount`.
pub open spec fn received_spec(found: Found, provided: WithAddressDataSource<()>, prev_amount: u64, value: u64) -> Received {
    let is_new = found == Found::Neither && provided is New;
    let from_empty = found == Found::Empty || (found == Found::Neither && from_empty_store(provided));
    let amount = (prev_amount + value) as u64;
    Received {
        becomes_funded: is_new || from_empty,
        leaves_empty: from_empty,
        prev_amount,
        amount,
        update: if is_new || from_empty || amount_bucket(amount) != amount_bucket(prev_amount) {
            CohortUpdate::Move { leave_previous: !is_new && !from_empty }
        } else {
            CohortUpdate::InPlace
        },
    }
}

/// What receiving `value` satoshis does to an address. Data handed in is
/// read only when the address was found nowhere.
pub fn receive(found: Found, provided: Option<WithAddressDataSource<()>>, prev_amount: u64, value: u64) -> (r: Received)
    requires
        found == Found::Neither ==> provided is Some,
        prev_amount + value <= u64::MAX,
    ensures
        r == received_spec(
            found,
            match provided {
                Some(p) => p,
                None => WithAddressDataSource::New(()),
            },
            prev_amount,
            value,
        ),
{
    let (is_new, from_empty) = match found {
        Found::Funded => (false, false),
        Found::Empty => (false, true),
        Found::Neither => {
            let p = provided.unwrap();
            let is_new = p.is_new();
            let from_empty = match p {
                WithAddressDataSource::FromEmptyAddressDataStore(_) => true,
                _ => false,
            };
            (is_new, from_empty)
        },
    };
    let amount = prev_amount + value;
    let update = if is_new || from_empty || amount_bucket_of(amount) != amount_bucket_of(prev_amount) {
        CohortUpdate::Move { leave_previous: !is_new && !from_empty }
    } else {
        CohortUpdate::InPlace
    };
    Received { becomes_funded: is_new || from_empty, leaves_empty: from_empty, prev_amount, amount, update }
}

/// What sending coins does to an address.
#[derive(Clone, Copy, PartialEq, Eq, Structural, Debug)]
pub struct Sent {
    /// Its balance before.
    pub prev_amount: u64,
    /// Its new balance.
    pub amount: u64,
    /// Whether its last output is spent, so that it becomes empty.
    pub becomes_empty: bool,
    /// How its amount cohort is updated.
    pub update: CohortUpdate,
}

/// What sending `value` satoshis does to an address with balance
/// `prev_amount` held in `outputs_len` outputs.
pub open spec fn sent_spec(outputs_len: u32, prev_amount: u64, value: u64) -> Sent {
    let amount = (prev_amount - value) as u64;
    let becomes_empty = outputs_len == 1;
    Sent {
        prev_amount,
        amount,
        becomes_empty,
        update: if becomes_empty {
            CohortUpdate::Empty
        } else if amount_bucket(amount) != amount_bucket(prev_amount) {
            CohortUpdate::Move { leave_previous: true }
        } else {
            CohortUpdate::InPlace
        },
    }
}

/// What sending `value` satoshis does to an address. Spending its last
/// output must empty it.
pub fn send(outputs_len: u32, prev_amount: u64, value: u64) -> (r: Sent)
    requires
        value <= prev_amount,
        outputs_len >= 1,
        outputs_len == 1 ==> value == prev_amount,
    ensures
        r == sent_spec(outputs_len, prev_amount, value),
{
    let amount = prev_amount - value;
    let becomes_empty = outputs_len - 1 == 0;
    let update = if becomes_empty {
        CohortUpdate::Empty
    } else if amount_bucket_of(amount) != amount_bucket_of(prev_amount) {
        CohortUpdate::Move { leave_previous: true }
    } else {
        CohortUpdate::InPlace
    };
    Sent { prev_amount, amount, becomes_empty, update }
}

/// The counts of funded and of empty addresses of one type.
#[derive(Clone, Copy, PartialEq, Eq, Structural, Debug)]
pub struct AddressCounts {
    pub funded: usize,
    pub empty: usize,
}

/// Updates the counts after an address received coins.
pub fn count_received(counts: &mut AddressCounts, r: &Received)
    requires
        r.becomes_funded && r.leaves_empty ==> old(counts).empty >= 1,
        r.becomes_funded ==> old(counts).funded < usize::MAX,
    ensures
        final(counts).funded == old(counts).funded + if r.becomes_funded { 1int } else { 0 },
        final(counts).empty == old(counts).empty - if r.becomes_funded && r.leaves_empty {
            1int
        } else {
            0
        },
{
    if r.becomes_funded {
        counts.funded = counts.funded + 1;
        if r.leaves_empty {
            counts.empty = counts.empty - 1;
        }
    }
}

/// Updates the counts after an address sent coins.
pub fn count_sent(counts: &mut AddressCounts, s: &Sent)
    requires
        s.becomes_empty ==> old(counts).funded >= 1 && old(counts).empty < usize::MAX,
    ensures
        final(counts).funded == old(counts).funded - if s.becomes_empty { 1int } else { 0 },
        final(counts).empty == old(counts).empty + if s.becomes_empty { 1int } else { 0 },
{
    if s.becomes_empty {
        counts.funded = counts.funded - 1;
        counts.empty = counts.empty + 1;
    }
}

/// An address that leaves the empty store becomes funded, so the number of
/// known addresses (funded and empty) grows only with new ones; an address
/// that becomes empty stays known.
pub proof fn lemma_known_addresses(found: Found, provided: WithAddressDataSource<()>, prev_amount: u64, value: u64, outputs_len: u32)
    ensures
        ({
            let r = received_spec(found, provided, prev_amount, value);
            r.leaves_empty ==> r.becomes_funded
        }),
        ({
            let r = received_spec(found, provided, prev_amount, value);
            (if r.becomes_funded { 1int } else { 0 }) - (if r.leaves_empty { 1int } else { 0 })
                == if found == Found::Neither && provided is New { 1int } else { 0 }
        }),
        sent_spec(outputs_len, prev_amount, value).becomes_empty ==> sent_spec(
            outputs_len,
            prev_amount,
            value,
        ).update == CohortUpdate::Empty,
{
}

/// An address that keeps its balance's cohort and was already counted
/// there is updated in place; otherwise it moves.
pub proof fn lemma_in_place_keeps_cohort(found: Found, provided: WithAddressDataSource<()>, prev_amount: u64, value: u64)
    requires
        prev_amount + value <= u64::MAX,
    ensures
        received_spec(found, provided, prev_amount, value).update == CohortUpdate::InPlace
            <==> (found == Found::Funded || (found == Found::Neither && provided is FromAddressDataStore))
            && amount_bucket((prev_amount + value) as u64) == amount_bucket(prev_amount),
{
}

/// The amount cohort an address leaves and the one it joins under an
/// update, from its balance before and after.
pub open spec fn cohort_moves(update: CohortUpdate, prev_amount: u64, amount: u64) -> (Option<int>, Option<int>) {
    match update {
        CohortUpdate::InPlace => (None, None),
        CohortUpdate::Move { leave_previous } => (
            if leave_previous {
                Some(amount_bucket(prev_amount) as int)
            } else {
                None
            },
            Some(amount_bucket(amount) as int),
        ),
        CohortUpdate::Empty => (Some(amount_bucket(prev_amount) as int), None),
    }
}

/// The numbers of addresses per amount cohort after an address leaves
/// cohort `from` and joins cohort `to`.
pub open spec fn moved(c: Seq<usize>, m: (Option<int>, Option<int>)) -> Seq<usize> {
    let c1 = match m.0 {
        Some(b) => c.update(b, (c[b] - 1) as usize),
        None => c,
    };
    match m.1 {
        Some(b) => c1.update(b, (c1[b] + 1) as usize),
        None => c1,
    }
}

/// Whether the numbers can take the move: the cohorts exist, the one left
/// holds the address, and the one joined has room to count it.
pub open spec fn move_fits(c: Seq<usize>, m: (Option<int>, Option<int>)) -> bool {
    let c1 = match m.0 {
        Some(b) => c.update(b, (c[b] - 1) as usize),
        None => c,
    };
    &&& m.0 matches Some(b) ==> 0 <= b < c.len() && c[b] >= 1
    &&& m.1 matches Some(b) ==> 0 <= b < c.len() && c1[b] < usize::MAX
}

/// Moves an address between the amount cohorts as an update says: the
/// number of addresses of each amount cohort follows. Refused, with nothing
/// changed, when a cohort is missing, the cohort left does not hold the
/// address, or the one joined cannot count one more.
pub fn apply_cohort_update(counts: &mut Vec<usize>, update: CohortUpdate, prev_amount: u64, amount: u64) -> (r: bool)
    ensures
        r == move_fits(old(counts)@, cohort_moves(update, prev_amount, amount)),
        r ==> final(counts)@ == moved(old(counts)@, cohort_moves(update, prev_amount, amount)),
        !r ==> final(counts)@ == old(counts)@,
{
    let (leave, join) = match update {
        CohortUpdate::InPlace => (false, false),
        CohortUpdate::Move { leave_previous } => (leave_previous, true),
        CohortUpdate::Empty => (true, false),
    };
    let from = amount_bucket_of(prev_amount) as usize;
    let to = amount_bucket_of(amount) as usize;
    if leave && (from >= counts.len() || counts[from] == 0) {
        return false;
    }
    if join {
        if to >= counts.len() {
            return false;
        }
        let after = if leave && from == to {
            counts[to] - 1
        } else {
            counts[to]
        };
        if after == usize::MAX {
            return false;
        }
    }
    if leave {
        let n = counts[from];
        counts.set(from, n - 1);
    }
    if join {
        let n = counts[to];
        counts.set(to, n + 1);
    }
    true
}

/// The number of addresses over all amount cohorts.
pub open spec fn count_sum(c: Seq<usize>) -> int
    decreases c.len(),
{
    if c.len() == 0 {
        0
    } else {
        count_sum(c.drop_last()) + c.last()
    }
}

proof fn lemma_count_sum_update(c: Seq<usize>, i: int, v: usize)
    requires
        0 <= i < c.len(),
    ensures
        count_sum(c.update(i, v)) == count_sum(c) - c[i] + v,
    decreases c.len(),
{
    if i < c.len() - 1 {
        assert(c.update(i, v).drop_last() =~= c.drop_last().update(i, v));
        lemma_count_sum_update(c.drop_last(), i, v);
    } else {
        assert(c.update(i, v).drop_last() =~= c.drop_last());
    }
}

/// Over all amount cohorts, the number of addresses grows by one exactly
/// when an address becomes funded by what it receives, and shrinks by one
/// exactly when an address becomes empty by what it sends: the amount
/// cohorts count the funded addresses.
pub proof fn lemma_cohorts_count_funded(c: Seq<usize>, r: Received, s: Sent)
    requires
        exists|found: Found, provided: WithAddressDataSource<()>, prev: u64, value: u64|
            r == #[trigger] received_spec(found, provided, prev, value),
        exists|outputs_len: u32, prev: u64, value: u64| s == #[trigger] sent_spec(outputs_len, prev, value),
        move_fits(c, cohort_moves(r.update, r.prev_amount, r.amount)),
        move_fits(c, cohort_moves(s.update, s.prev_amount, s.amount)),
    ensures
        count_sum(moved(c, cohort_moves(r.update, r.prev_amount, r.amount))) == count_sum(c) + if r.becomes_funded {
            1int
        } else {
            0
        },
        count_sum(moved(c, cohort_moves(s.update, s.prev_amount, s.amount))) == count_sum(c) - if s.becomes_empty {
            1int
        } else {
            0
        },
{
    let mr = cohort_moves(r.update, r.prev_amount, r.amount);
    let ms = cohort_moves(s.update, s.prev_amount, s.amount);
    lemma_move_count(c, mr);
    lemma_move_count(c, ms);
}

proof fn lemma_move_count(c: Seq<usize>, m: (Option<int>, Option<int>))
    requires
        move_fits(c, m),
    ensures
        count_sum(moved(c, m)) == count_sum(c) - (if m.0 is Some { 1int } else { 0 }) + (if m.1 is Some {
            1int
        } else {
            0
        }),
{
    let c1 = match m.0 {
        Some(b) => c.update(b, (c[b] - 1) as usize),
        None => c,
    };
    if let Some(b) = m.0 {
        lemma_count_sum_update(c, b, (c[b] - 1) as usize);
    }
    if let Some(b) = m.1 {
        lemma_count_sum_update(c1, b, (c1[b] + 1) as usize);
    }
}

} // verus!

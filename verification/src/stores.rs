//! The records of the addresses of one type as a block's outputs reach them
//! and its inputs spend from them: funded addresses, emptied addresses, and
//! their counts.

use std::collections::BTreeMap;
use vstd::prelude::*;

use crate::address::{source_inner, with_inner, WithAddressDataSource};
use crate::ledger::{
    count_received, count_sent, receive, received_spec, send, sent_spec, AddressCounts, Found,
    Received, Sent,
};

verus! {

/// What is kept of a funded address: the satoshis it sent and received in
/// all, and the number of its unspent outputs.
#[derive(Clone, Copy, PartialEq, Eq, Structural, Debug)]
pub struct AddressData {
    pub sent: u64,
    pub received: u64,
    pub outputs_len: u32,
}

/// What is kept of an address whose outputs are all spent: the satoshis
/// that passed through it.
#[derive(Clone, Copy, PartialEq, Eq, Structural, Debug)]
pub struct EmptyAddressData {
    pub transfered: u64,
}

/// The balance of an address: received minus sent.
pub open spec fn balance(d: AddressData) -> int {
    d.received - d.sent
}

/// The record of an emptied address when it is funded again: everything it
/// received it sent, and it holds no output.
pub open spec fn loaded_from_empty(e: EmptyAddressData) -> AddressData {
    AddressData { sent: e.transfered, received: e.transfered, outputs_len: 0 }
}

/// The same source tag around other data.
pub open spec fn retagged<A, B>(w: WithAddressDataSource<A>, v: B) -> WithAddressDataSource<B> {
    match w {
        WithAddressDataSource::New(_) => WithAddressDataSource::New(v),
        WithAddressDataSource::FromAddressDataStore(_) => WithAddressDataSource::FromAddressDataStore(v),
        WithAddressDataSource::FromEmptyAddressDataStore(_) => WithAddressDataSource::FromEmptyAddressDataStore(v),
    }
}

/// The source tag alone.
pub open spec fn tag_of<A>(w: WithAddressDataSource<A>) -> WithAddressDataSource<()> {
    retagged(w, ())
}

/// A record loaded from the empty store, as a record of a funded address;
/// its source tag stays.
pub fn loaded_from_empty_store(w: WithAddressDataSource<EmptyAddressData>) -> (r: WithAddressDataSource<AddressData>)
    ensures
        r == retagged(w, loaded_from_empty(source_inner(w))),
{
    match w {
        WithAddressDataSource::New(e) => WithAddressDataSource::New(
            AddressData { sent: e.transfered, received: e.transfered, outputs_len: 0 },
        ),
        WithAddressDataSource::FromAddressDataStore(e) => WithAddressDataSource::FromAddressDataStore(
            AddressData { sent: e.transfered, received: e.transfered, outputs_len: 0 },
        ),
        WithAddressDataSource::FromEmptyAddressDataStore(e) => WithAddressDataSource::FromEmptyAddressDataStore(
            AddressData { sent: e.transfered, received: e.transfered, outputs_len: 0 },
        ),
    }
}

/// The record of a funded address whose balance is zero, as the record of
/// an emptied address; its source tag stays. A record with a balance left
/// cannot be emptied.
pub fn emptied(w: WithAddressDataSource<AddressData>) -> (r: WithAddressDataSource<EmptyAddressData>)
    requires
        source_inner(w).sent == source_inner(w).received,
    ensures
        r == retagged(w, EmptyAddressData { transfered: source_inner(w).sent }),
{
    match w {
        WithAddressDataSource::New(d) => WithAddressDataSource::New(EmptyAddressData { transfered: d.sent }),
        WithAddressDataSource::FromAddressDataStore(d) => WithAddressDataSource::FromAddressDataStore(
            EmptyAddressData { transfered: d.sent },
        ),
        WithAddressDataSource::FromEmptyAddressDataStore(d) => WithAddressDataSource::FromEmptyAddressDataStore(
            EmptyAddressData { transfered: d.sent },
        ),
    }
}

/// Address indexes are ordered as integers, so the maps keyed by them
/// behave as their specifications say.
proof fn lemma_keys_ordered()
    ensures
        vstd::laws_cmp::obeys_cmp::<u32>(),
{
    broadcast use vstd::laws_cmp::group_laws_cmp;

}

/// The records of the addresses of one type loaded so far, and how many
/// addresses of the type are funded and empty.
pub struct AddressStore {
    pub funded: BTreeMap<u32, WithAddressDataSource<AddressData>>,
    pub empty: BTreeMap<u32, WithAddressDataSource<EmptyAddressData>>,
    pub counts: AddressCounts,
}

pub struct StoreView {
    pub funded: Map<u32, WithAddressDataSource<AddressData>>,
    pub empty: Map<u32, WithAddressDataSource<EmptyAddressData>>,
    pub counts: AddressCounts,
}

impl View for AddressStore {
    type V = StoreView;

    open spec fn view(&self) -> StoreView {
        StoreView { funded: self.funded@, empty: self.empty@, counts: self.counts }
    }
}

/// Where the record of address `ti` is found.
pub open spec fn found_in(st: StoreView, ti: u32) -> Found {
    if st.funded.contains_key(ti) {
        Found::Funded
    } else if st.empty.contains_key(ti) {
        Found::Empty
    } else {
        Found::Neither
    }
}

/// The record of address `ti` before it receives: the funded one, else the
/// emptied one funded again, else the one handed in.
pub open spec fn record_to_receive(st: StoreView, ti: u32, provided: WithAddressDataSource<AddressData>) -> WithAddressDataSource<
    AddressData,
> {
    if st.funded.contains_key(ti) {
        st.funded[ti]
    } else if st.empty.contains_key(ti) {
        retagged(st.empty[ti], loaded_from_empty(source_inner(st.empty[ti])))
    } else {
        provided
    }
}

/// A record after an output of `value` satoshis reaches it.
pub open spec fn received_data(d: AddressData, value: u64) -> AddressData {
    AddressData { received: (d.received + value) as u64, outputs_len: (d.outputs_len + 1) as u32, ..d }
}

/// A record after an output of `value` satoshis is spent from it.
pub open spec fn sent_data(d: AddressData, value: u64) -> AddressData {
    AddressData { sent: (d.sent + value) as u64, outputs_len: (d.outputs_len - 1) as u32, ..d }
}

/// The counts after a decision on received coins.
pub open spec fn counted_received(c: AddressCounts, r: Received) -> AddressCounts {
    AddressCounts {
        funded: (c.funded + if r.becomes_funded { 1int } else { 0 }) as usize,
        empty: (c.empty - if r.becomes_funded && r.leaves_empty { 1int } else { 0 }) as usize,
    }
}

/// The counts after a decision on sent coins.
pub open spec fn counted_sent(c: AddressCounts, s: Sent) -> AddressCounts {
    AddressCounts {
        funded: (c.funded - if s.becomes_empty { 1int } else { 0 }) as usize,
        empty: (c.empty + if s.becomes_empty { 1int } else { 0 }) as usize,
    }
}

/// What receiving decides for address `ti`.
pub open spec fn receive_decision(st: StoreView, ti: u32, value: u64, provided: WithAddressDataSource<AddressData>) -> Received {
    let w = record_to_receive(st, ti, provided);
    received_spec(found_in(st, ti), tag_of(provided), balance(source_inner(w)) as u64, value)
}

/// The records after an output of `value` satoshis reaches address `ti`:
/// its record (taken out of the empty store when it was there) is funded
/// and receives the value, and the counts follow the decision.
pub open spec fn receive_step(st: StoreView, ti: u32, value: u64, provided: WithAddressDataSource<AddressData>) -> StoreView {
    let w = record_to_receive(st, ti, provided);
    StoreView {
        funded: st.funded.insert(ti, with_inner(w, received_data(source_inner(w), value))),
        empty: if found_in(st, ti) == Found::Empty {
            st.empty.remove(ti)
        } else {
            st.empty
        },
        counts: counted_received(st.counts, receive_decision(st, ti, value, provided)),
    }
}

/// Whether address `ti` can receive without a panic or an overflow: a record
/// is handed in when none is stored, its balance is not negative, and its
/// totals and the counts fit.
pub open spec fn receive_fits(st: StoreView, ti: u32, value: u64, provided: Option<WithAddressDataSource<AddressData>>) -> bool {
    let w = record_to_receive(st, ti, provided_or_new(provided));
    let d = source_inner(w);
    let r = receive_decision(st, ti, value, provided_or_new(provided));
    &&& (found_in(st, ti) == Found::Neither ==> provided is Some)
    &&& d.sent <= d.received
    &&& d.received + value <= u64::MAX
    &&& d.outputs_len + 1 <= u32::MAX
    &&& (r.becomes_funded && r.leaves_empty ==> st.counts.empty >= 1)
    &&& (r.becomes_funded ==> st.counts.funded < usize::MAX)
}

/// The entry handed in for a receive, or a placeholder when none was.
pub open spec fn provided_or_new(p: Option<WithAddressDataSource<AddressData>>) -> WithAddressDataSource<AddressData> {
    p.unwrap_or(WithAddressDataSource::New(AddressData { sent: 0, received: 0, outputs_len: 0 }))
}

/// The records and decisions after the outputs `entries` reach their
/// addresses in turn.
pub open spec fn receive_all(st: StoreView, entries: Seq<(u32, u64, Option<WithAddressDataSource<AddressData>>)>) -> (
    StoreView,
    Seq<Received>,
)
    decreases entries.len(),
{
    if entries.len() == 0 {
        (st, Seq::empty())
    } else {
        let (s1, rs) = receive_all(st, entries.drop_last());
        let x = entries.last();
        (receive_step(s1, x.0, x.1, provided_or_new(x.2)), rs.push(receive_decision(s1, x.0, x.1, provided_or_new(x.2))))
    }
}

/// Whether every output in turn can reach its address.
pub open spec fn receive_all_fits(st: StoreView, entries: Seq<(u32, u64, Option<WithAddressDataSource<AddressData>>)>) -> bool
    decreases entries.len(),
{
    entries.len() == 0 || (receive_all_fits(st, entries.drop_last()) && {
        let x = entries.last();
        receive_fits(receive_all(st, entries.drop_last()).0, x.0, x.1, x.2)
    })
}


/// Records that the outputs `entries` (address index, value, and the record
/// loaded for the address when the caller had to load one) reach their
/// addresses, in turn; returns the decision taken for each, which says how
/// its amount cohort changes. Stops at the first output that cannot be
/// taken (no record, a negative balance, a total or count that would not
/// fit) and returns its position, with the outputs before it taken.
pub fn process_received(
    store: &mut AddressStore,
    entries: &Vec<(u32, u64, Option<WithAddressDataSource<AddressData>>)>,
) -> (r: Result<Vec<Received>, usize>)
    ensures
        r matches Ok(v) ==> receive_all_fits(old(store)@, entries@) && (final(store)@, v@) == receive_all(
            old(store)@,
            entries@,
        ),
        r matches Err(k) ==> {
            &&& k < entries@.len()
            &&& receive_all_fits(old(store)@, entries@.take(k as int))
            &&& final(store)@ == receive_all(old(store)@, entries@.take(k as int)).0
            &&& !receive_fits(final(store)@, entries@[k as int].0, entries@[k as int].1, entries@[k as int].2)
        },
{
    broadcast use vstd::std_specs::btree::group_btree_axioms;

    proof {
        lemma_keys_ordered();
    }

    let mut out: Vec<Received> = Vec::new();
    let mut i: usize = 0;
    proof {
        assert(entries@.take(0) =~= Seq::<(u32, u64, Option<WithAddressDataSource<AddressData>>)>::empty());
    }
    while i < entries.len()
        invariant
            0 <= i <= entries@.len(),
            receive_all_fits(old(store)@, entries@.take(i as int)),
            (store@, out@) == receive_all(old(store)@, entries@.take(i as int)),
        decreases entries@.len() - i,
    {
        let (ti, value, provided) = entries[i];
        proof {
            assert(entries@.take(i + 1).drop_last() =~= entries@.take(i as int));
            assert(entries@.take(i + 1).last() == entries@[i as int]);
        }
        let ghost s1 = store@;
        let ghost pw = provided_or_new(provided);
        let in_funded = store.funded.contains_key(&ti);
        let in_empty = !in_funded && store.empty.contains_key(&ti);
        if !in_funded && !in_empty && provided.is_none() {
            return Err(i);
        }
        let (found, w) = if in_funded {
            (Found::Funded, *store.funded.get(&ti).unwrap())
        } else if in_empty {
            (Found::Empty, loaded_from_empty_store(*store.empty.get(&ti).unwrap()))
        } else {
            (Found::Neither, provided.unwrap())
        };
        proof {
            assert(found == found_in(s1, ti));
            assert(w == record_to_receive(s1, ti, pw));
        }
        let d = *w.deref();
        if d.sent > d.received || value > 18446744073709551615 - d.received || d.outputs_len == 4294967295 {
            return Err(i);
        }
        let tag = match provided {
            Some(p) => Some(match p {
                WithAddressDataSource::New(_) => WithAddressDataSource::New(()),
                WithAddressDataSource::FromAddressDataStore(_) => WithAddressDataSource::FromAddressDataStore(()),
                WithAddressDataSource::FromEmptyAddressDataStore(_) => WithAddressDataSource::FromEmptyAddressDataStore(()),
            }),
            None => None,
        };
        let decision = receive(found, tag, d.received - d.sent, value);
        proof {
            assert(decision == receive_decision(s1, ti, value, pw));
        }
        if decision.becomes_funded && decision.leaves_empty && store.counts.empty == 0 {
            return Err(i);
        }
        if decision.becomes_funded && store.counts.funded == usize::MAX {
            return Err(i);
        }
        proof {
            assert(receive_fits(s1, ti, value, provided));
        }
        if in_empty {
            store.empty.remove(&ti);
        }
        let mut w2 = w;
        let data = w2.deref_mut();
        *data = AddressData { sent: d.sent, received: d.received + value, outputs_len: d.outputs_len + 1 };
        store.funded.insert(ti, w2);
        count_received(&mut store.counts, &decision);
        out.push(decision);
        proof {
            assert(store@.funded == receive_step(s1, ti, value, pw).funded);
            assert(store@.empty == receive_step(s1, ti, value, pw).empty);
        }
        i = i + 1;
    }
    proof {
        assert(entries@.take(entries@.len() as int) =~= entries@);
    }
    Ok(out)
}

/// The record of address `ti` before it spends: the funded one, else the
/// one handed in.
pub open spec fn record_to_send(st: StoreView, ti: u32, provided: WithAddressDataSource<AddressData>) -> WithAddressDataSource<
    AddressData,
> {
    if st.funded.contains_key(ti) {
        st.funded[ti]
    } else {
        provided
    }
}

/// What spending decides for address `ti`.
pub open spec fn send_decision(st: StoreView, ti: u32, value: u64, provided: WithAddressDataSource<AddressData>) -> Sent {
    let d = source_inner(record_to_send(st, ti, provided));
    sent_spec(d.outputs_len, balance(d) as u64, value)
}

/// The records after an output of `value` satoshis is spent from address
/// `ti`: the record spends the value; when its last output is spent it
/// moves from the funded store to the empty one, and the counts follow.
pub open spec fn send_step(st: StoreView, ti: u32, value: u64, provided: WithAddressDataSource<AddressData>) -> StoreView {
    let w = record_to_send(st, ti, provided);
    let w2 = with_inner(w, sent_data(source_inner(w), value));
    let s = send_decision(st, ti, value, provided);
    if s.becomes_empty {
        StoreView {
            funded: st.funded.remove(ti),
            empty: st.empty.insert(ti, retagged(w2, EmptyAddressData { transfered: source_inner(w2).sent })),
            counts: counted_sent(st.counts, s),
        }
    } else {
        StoreView { funded: st.funded.insert(ti, w2), empty: st.empty, counts: counted_sent(st.counts, s) }
    }
}

/// Whether address `ti` can spend without a panic or an overflow: a record
/// is handed in when none is stored, it holds an output and the value,
/// spending its last output empties it, and its totals and the counts fit.
pub open spec fn send_fits(st: StoreView, ti: u32, value: u64, provided: Option<WithAddressDataSource<AddressData>>) -> bool {
    let d = source_inner(record_to_send(st, ti, provided_or_new(provided)));
    &&& (!st.funded.contains_key(ti) ==> provided is Some)
    &&& d.sent <= d.received
    &&& value <= d.received - d.sent
    &&& d.outputs_len >= 1
    &&& (d.outputs_len == 1 ==> value == d.received - d.sent)
    &&& (d.outputs_len == 1 ==> st.counts.funded >= 1 && st.counts.empty < usize::MAX)
}

/// The records and decisions after the outputs `entries` are spent in turn.
pub open spec fn send_all(st: StoreView, entries: Seq<(u32, u64, Option<WithAddressDataSource<AddressData>>)>) -> (
    StoreView,
    Seq<Sent>,
)
    decreases entries.len(),
{
    if entries.len() == 0 {
        (st, Seq::empty())
    } else {
        let (s1, rs) = send_all(st, entries.drop_last());
        let x = entries.last();
        (send_step(s1, x.0, x.1, provided_or_new(x.2)), rs.push(send_decision(s1, x.0, x.1, provided_or_new(x.2))))
    }
}

/// Whether every output in turn can be spent.
pub open spec fn send_all_fits(st: StoreView, entries: Seq<(u32, u64, Option<WithAddressDataSource<AddressData>>)>) -> bool
    decreases entries.len(),
{
    entries.len() == 0 || (send_all_fits(st, entries.drop_last()) && {
        let x = entries.last();
        send_fits(send_all(st, entries.drop_last()).0, x.0, x.1, x.2)
    })
}


/// Records that the outputs `entries` (address index, value, and the record
/// loaded for the address when the caller had to load one) are spent from
/// their addresses, in turn; returns the decision taken for each. Stops at
/// the first output that cannot be spent (no record, no output left, more
/// than the balance, a last output that leaves a balance, a count that would
/// not fit) and returns its position, with the outputs before it spent.
pub fn process_sent(
    store: &mut AddressStore,
    entries: &Vec<(u32, u64, Option<WithAddressDataSource<AddressData>>)>,
) -> (r: Result<Vec<Sent>, usize>)
    ensures
        r matches Ok(v) ==> send_all_fits(old(store)@, entries@) && (final(store)@, v@) == send_all(
            old(store)@,
            entries@,
        ),
        r matches Err(k) ==> {
            &&& k < entries@.len()
            &&& send_all_fits(old(store)@, entries@.take(k as int))
            &&& final(store)@ == send_all(old(store)@, entries@.take(k as int)).0
            &&& !send_fits(final(store)@, entries@[k as int].0, entries@[k as int].1, entries@[k as int].2)
        },
{
    broadcast use vstd::std_specs::btree::group_btree_axioms;

    proof {
        lemma_keys_ordered();
    }

    let mut out: Vec<Sent> = Vec::new();
    let mut i: usize = 0;
    proof {
        assert(entries@.take(0) =~= Seq::<(u32, u64, Option<WithAddressDataSource<AddressData>>)>::empty());
    }
    while i < entries.len()
        invariant
            0 <= i <= entries@.len(),
            send_all_fits(old(store)@, entries@.take(i as int)),
            (store@, out@) == send_all(old(store)@, entries@.take(i as int)),
        decreases entries@.len() - i,
    {
        let (ti, value, provided) = entries[i];
        proof {
            assert(entries@.take(i + 1).drop_last() =~= entries@.take(i as int));
            assert(entries@.take(i + 1).last() == entries@[i as int]);
        }
        let ghost s1 = store@;
        let ghost pw = provided_or_new(provided);
        let w = match store.funded.get(&ti) {
            Some(w) => *w,
            None => match provided {
                Some(p) => p,
                None => return Err(i),
            },
        };
        proof {
            assert(w == record_to_send(s1, ti, pw));
        }
        let d = *w.deref();
        if d.sent > d.received || value > d.received - d.sent || d.outputs_len == 0 {
            return Err(i);
        }
        if d.outputs_len == 1 && (value != d.received - d.sent || store.counts.funded == 0
            || store.counts.empty == usize::MAX) {
            return Err(i);
        }
        proof {
            assert(send_fits(s1, ti, value, provided));
        }
        let decision = send(d.outputs_len, d.received - d.sent, value);
        let mut w2 = w;
        let data = w2.deref_mut();
        *data = AddressData { sent: d.sent + value, received: d.received, outputs_len: d.outputs_len - 1 };
        if decision.becomes_empty {
            store.funded.remove(&ti);
            store.empty.insert(ti, emptied(w2));
        } else {
            store.funded.insert(ti, w2);
        }
        count_sent(&mut store.counts, &decision);
        out.push(decision);
        proof {
            assert(store@.funded == send_step(s1, ti, value, pw).funded);
            assert(store@.empty == send_step(s1, ti, value, pw).empty);
        }
        i = i + 1;
    }
    proof {
        assert(entries@.take(entries@.len() as int) =~= entries@);
    }
    Ok(out)
}

/// Whether no address is both funded and empty.
pub open spec fn stores_disjoint(st: StoreView) -> bool {
    forall|ti: u32| !(#[trigger] st.funded.contains_key(ti) && st.empty.contains_key(ti))
}

/// Receiving keeps the funded and empty stores apart, and leaves the
/// receiving address funded.
pub proof fn lemma_receive_keeps_stores_apart(st: StoreView, ti: u32, value: u64, provided: WithAddressDataSource<AddressData>)
    requires
        stores_disjoint(st),
    ensures
        stores_disjoint(receive_step(st, ti, value, provided)),
        receive_step(st, ti, value, provided).funded.contains_key(ti),
        !receive_step(st, ti, value, provided).empty.contains_key(ti),
{
    let n = receive_step(st, ti, value, provided);
    assert forall|k: u32| !(#[trigger] n.funded.contains_key(k) && n.empty.contains_key(k)) by {
        if k != ti {
            assert(n.funded.contains_key(k) == st.funded.contains_key(k));
        }
    }
}

/// Spending keeps the funded and empty stores apart; an address whose last
/// output is spent leaves the funded store for the empty one, any other
/// stays funded.
pub proof fn lemma_send_keeps_stores_apart(st: StoreView, ti: u32, value: u64, provided: WithAddressDataSource<AddressData>)
    requires
        stores_disjoint(st),
        !st.empty.contains_key(ti),
    ensures
        stores_disjoint(send_step(st, ti, value, provided)),
        send_decision(st, ti, value, provided).becomes_empty ==> send_step(st, ti, value, provided).empty.contains_key(ti)
            && !send_step(st, ti, value, provided).funded.contains_key(ti),
        !send_decision(st, ti, value, provided).becomes_empty ==> send_step(st, ti, value, provided).funded.contains_key(ti)
            && !send_step(st, ti, value, provided).empty.contains_key(ti),
{
    let n = send_step(st, ti, value, provided);
    assert forall|k: u32| !(#[trigger] n.funded.contains_key(k) && n.empty.contains_key(k)) by {
        if k != ti {
            assert(n.funded.contains_key(k) == st.funded.contains_key(k));
            assert(n.empty.contains_key(k) == st.empty.contains_key(k));
        }
    }
}

/// Spending never changes how many addresses are known: an address whose
/// last output is spent moves from the funded count to the empty count,
/// any other leaves both counts as they are.
pub proof fn lemma_send_keeps_known_count(st: StoreView, entries: Seq<(u32, u64, Option<WithAddressDataSource<AddressData>>)>)
    requires
        send_all_fits(st, entries),
    ensures
        send_all(st, entries).0.counts.funded + send_all(st, entries).0.counts.empty == st.counts.funded
            + st.counts.empty,
    decreases entries.len(),
{
    if entries.len() > 0 {
        lemma_send_keeps_known_count(st, entries.drop_last());
    }
}

} // verus!

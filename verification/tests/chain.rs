use std::collections::BTreeMap;

use brk_computer::address::WithAddressDataSource;
use brk_computer::cohorts::GroupFilter;
use brk_computer::column::{Column, ColumnError};
use brk_computer::ledger::{amount_bucket_of, AddressCounts, CohortUpdate};
use brk_computer::stores::{
    emptied, loaded_from_empty_store, process_received, process_sent, AddressData, AddressStore,
    EmptyAddressData,
};
use brk_computer::supply::{
    age_range_cohorts, apply_block, block_event, block_fits_check, overlapping_supply, BlockEvent, BlockState, ChainState, CohortSeries, DateCohort,
    Supply, FIFTY_BTC, P2PK65_CODE,
};

const DAY: u32 = 86_400;

fn supply(utxos: u64, value: u64) -> Supply {
    Supply { utxos, value }
}

fn cohort(filter: GroupFilter, s: Supply) -> DateCohort {
    DateCohort { filter, supply: s }
}

fn fresh_state() -> ChainState {
    ChainState {
        unspendable: 0,
        opreturn: 0,
        blocks: Vec::new(),
        by_date_range: vec![
            cohort(GroupFilter::Range(0, 1), supply(0, 0)),
            cohort(GroupFilter::Range(1, 7), supply(0, 0)),
            cohort(GroupFilter::From(7), supply(0, 0)),
        ],
        by_epoch: vec![supply(0, 0); 5],
        by_type: vec![supply(0, 0); 10],
        by_size: vec![supply(0, 0); 15],
    }
}

/// A block whose outputs are all P2PKH (type code 2) and which spends
/// P2PKH outputs; supplies count in the amount cohort of their value.
fn event(timestamp: u32, received: Supply, sent: Vec<(usize, Supply)>) -> BlockEvent {
    BlockEvent {
        timestamp,
        unspendable_received: 0,
        opreturn_received: 0,
        unclaimed_rewards: 0,
        received,
        received_by_type: vec![(2, received)],
        received_by_size: vec![(amount_bucket_of(received.value) as usize, received)],
        sent: sent.iter().map(|(h, s)| (*h, 2, *s)).collect(),
        sent_by_size: sent.iter().map(|(_, s)| (amount_bucket_of(s.value) as usize, *s)).collect(),
    }
}

#[test]
fn genesis_output_is_unspendable_and_reaches_no_cohort() {
    let mut s = fresh_state();
    apply_block(&mut s, &event(1_000, supply(1, FIFTY_BTC), vec![]));
    assert_eq!(s.unspendable, FIFTY_BTC);
    assert_eq!(s.blocks, vec![BlockState { supply: supply(0, 0), timestamp: 1_000 }]);
    assert!(s.by_date_range.iter().all(|c| c.supply == supply(0, 0)));
    assert!(s.by_epoch.iter().all(|e| *e == supply(0, 0)));
    assert!(s.by_type.iter().all(|e| *e == supply(0, 0)));
}

#[test]
fn unspendable_and_opreturn_supply_grow() {
    let mut s = fresh_state();
    apply_block(&mut s, &event(1_000, supply(1, FIFTY_BTC), vec![]));
    let mut e = event(1_600, supply(2, 5_000), vec![]);
    e.unspendable_received = 10;
    e.opreturn_received = 4;
    e.unclaimed_rewards = 3;
    apply_block(&mut s, &e);
    assert_eq!(s.unspendable, FIFTY_BTC + 13);
    assert_eq!(s.opreturn, 4);
}

#[test]
fn blocks_move_between_age_cohorts_and_spends_are_debited() {
    let mut s = fresh_state();
    apply_block(&mut s, &event(1_000, supply(1, FIFTY_BTC), vec![]));
    apply_block(&mut s, &event(1_600, supply(2, 5_000), vec![]));
    assert_eq!(s.by_date_range[0].supply, supply(2, 5_000));
    assert_eq!(s.by_epoch[0], supply(2, 5_000));
    // two days later block 1 is two days old; part of it is spent
    apply_block(&mut s, &event(1_600 + 2 * DAY, supply(1, 100), vec![(1, supply(1, 2_000))]));
    assert_eq!(s.blocks[1].supply, supply(1, 3_000));
    assert_eq!(s.blocks[2].supply, supply(1, 100));
    assert_eq!(s.by_date_range[0].supply, supply(1, 100));
    assert_eq!(s.by_date_range[1].supply, supply(1, 3_000));
    assert_eq!(s.by_date_range[2].supply, supply(0, 0));
    assert_eq!(s.by_epoch[0], supply(2, 3_100));
    assert_eq!(s.by_type[2], supply(2, 3_100));
    assert_eq!(s.by_size[4], supply(1, 3_000));
    assert_eq!(s.by_size[3], supply(1, 100));
    // the age cohorts hold the unspent supply of the blocks
    let total: u64 = s.by_date_range.iter().map(|c| c.supply.value).sum();
    let unspent: u64 = s.blocks.iter().map(|b| b.supply.value).sum();
    assert_eq!(total, unspent);
}

#[test]
fn outputs_spent_in_their_own_block() {
    let mut s = fresh_state();
    apply_block(&mut s, &event(1_000, supply(1, FIFTY_BTC), vec![]));
    apply_block(&mut s, &event(1_600, supply(3, 900), vec![(1, supply(1, 300))]));
    assert_eq!(s.blocks[1].supply, supply(2, 600));
    assert_eq!(s.by_date_range[0].supply, supply(2, 600));
    assert_eq!(s.by_epoch[0], supply(2, 600));
}

#[test]
fn duplicate_coinbase_is_destroyed() {
    let mut s = fresh_state();
    let n = 91_842usize;
    s.blocks = vec![BlockState { supply: supply(0, 0), timestamp: 5_000 }; n];
    s.blocks[91_812].supply = supply(1, FIFTY_BTC);
    s.blocks[91_000].supply = supply(1, 7);
    s.by_date_range[0].supply = supply(2, FIFTY_BTC + 7);
    s.by_epoch[0] = supply(2, FIFTY_BTC + 7);
    s.by_type[P2PK65_CODE] = supply(1, FIFTY_BTC);
    s.by_type[2] = supply(1, 7);
    s.by_size[10] = supply(1, FIFTY_BTC);
    s.by_size[1] = supply(1, 7);
    apply_block(&mut s, &event(5_000, supply(1, 1), vec![]));
    assert_eq!(s.by_size[10], supply(0, 0));
    assert_eq!(s.by_size[1], supply(2, 8));
    assert_eq!(s.blocks[91_812].supply, supply(0, 0));
    assert_eq!(s.by_type[P2PK65_CODE], supply(0, 0));
    assert_eq!(s.by_type[2], supply(2, 8));
    assert_eq!(s.blocks[n].supply, supply(1, 1));
    assert_eq!(s.by_date_range[0].supply, supply(2, 8));
    assert_eq!(s.by_epoch[0], supply(2, 8));
}

#[test]
fn overlapping_cohorts_sum_the_ranges_they_cover() {
    let cohorts = vec![
        cohort(GroupFilter::Range(0, 1), supply(1, 10)),
        cohort(GroupFilter::Range(1, 7), supply(2, 20)),
        cohort(GroupFilter::From(7), supply(4, 40)),
    ];
    assert_eq!(overlapping_supply(&GroupFilter::To(7), &cohorts), supply(3, 30));
    assert_eq!(overlapping_supply(&GroupFilter::From(1), &cohorts), supply(6, 60));
    assert_eq!(overlapping_supply(&GroupFilter::All, &cohorts), supply(7, 70));
}

#[test]
fn cohort_series_resume_and_record() {
    let mut c = CohortSeries {
        starting_height: 3,
        height_to_supply: Column::from_values(String::from("supply"), 0, 0, vec![5u64, 6, 7]),
        height_to_utxo_count: Column::from_values(String::from("utxo_count"), 0, 0, vec![1u64, 2, 3]),
    };
    assert_eq!(c.init(2), Some(supply(2, 6)));
    assert_eq!(c.starting_height, 2);
    assert_eq!(c.forced_pushed_at(2, supply(9, 90)), Ok(()));
    assert_eq!(c.height_to_supply.values, vec![5, 6, 90]);
    assert_eq!(c.height_to_utxo_count.values, vec![1, 2, 9]);
    assert_eq!(c.forced_pushed_at(1, supply(0, 0)), Ok(()));
    assert_eq!(c.height_to_supply.values, vec![5, 6, 90]);
    assert_eq!(c.forced_pushed_at(9, supply(0, 0)), Err(ColumnError::IndexTooHigh));
    assert_eq!(c.init(0), None);
}

#[test]
fn cohort_series_resume_anywhere_within_the_stored_heights() {
    let mut c = CohortSeries {
        starting_height: 0,
        height_to_supply: Column::from_values(String::from("supply"), 0, 0, (0u64..10).collect()),
        height_to_utxo_count: Column::from_values(String::from("utxo_count"), 0, 0, vec![1u64; 10]),
    };
    assert_eq!(c.init(5), Some(supply(1, 4)));
    assert_eq!(c.starting_height, 5);
}

fn empty_store() -> AddressStore {
    AddressStore {
        funded: BTreeMap::new(),
        empty: BTreeMap::new(),
        counts: AddressCounts { funded: 10, empty: 3 },
    }
}

fn data(sent: u64, received: u64, outputs_len: u32) -> AddressData {
    AddressData { sent, received, outputs_len }
}

#[test]
fn received_on_a_new_address() {
    let mut st = empty_store();
    let r = process_received(
        &mut st,
        &vec![(5, 1_000, Some(WithAddressDataSource::New(data(0, 0, 0))))],
    ).unwrap();
    assert_eq!(r.len(), 1);
    assert!(r[0].becomes_funded);
    assert_eq!(r[0].update, CohortUpdate::Move { leave_previous: false });
    assert!(matches!(st.funded.get(&5), Some(WithAddressDataSource::New(d)) if *d == data(0, 1_000, 1)));
    assert_eq!(st.counts, AddressCounts { funded: 11, empty: 3 });
}

#[test]
fn received_on_an_emptied_address_funds_it_again() {
    let mut st = empty_store();
    st.empty.insert(
        6,
        WithAddressDataSource::FromEmptyAddressDataStore(EmptyAddressData { transfered: 700 }),
    );
    let r = process_received(&mut st, &vec![(6, 50, None)]).unwrap();
    assert!(r[0].becomes_funded && r[0].leaves_empty);
    assert!(st.empty.is_empty());
    assert!(matches!(
        st.funded.get(&6),
        Some(WithAddressDataSource::FromEmptyAddressDataStore(d)) if *d == data(700, 750, 1)
    ));
    assert_eq!(st.counts, AddressCounts { funded: 11, empty: 2 });
}

#[test]
fn received_twice_in_one_block() {
    let mut st = empty_store();
    let r = process_received(
        &mut st,
        &vec![
            (5, 40, Some(WithAddressDataSource::FromAddressDataStore(data(0, 60, 1)))),
            (5, 5, None),
        ],
    ).unwrap();
    assert_eq!(r[0].update, CohortUpdate::Move { leave_previous: true });
    assert_eq!(r[1].update, CohortUpdate::InPlace);
    assert!(matches!(
        st.funded.get(&5),
        Some(WithAddressDataSource::FromAddressDataStore(d)) if *d == data(0, 105, 3)
    ));
    assert_eq!(st.counts, AddressCounts { funded: 10, empty: 3 });
}

#[test]
fn spending_the_last_output_empties_the_address() {
    let mut st = empty_store();
    st.funded.insert(5, WithAddressDataSource::New(data(0, 2_000, 2)));
    let r = process_sent(&mut st, &vec![(5, 400, None), (5, 1_600, None)]).unwrap();
    assert!(!r[0].becomes_empty);
    assert_eq!(r[0].update, CohortUpdate::InPlace);
    assert!(r[1].becomes_empty);
    assert_eq!(r[1].update, CohortUpdate::Empty);
    assert!(st.funded.is_empty());
    assert!(matches!(
        st.empty.get(&5),
        Some(WithAddressDataSource::New(e)) if *e == EmptyAddressData { transfered: 2_000 }
    ));
    assert_eq!(st.counts, AddressCounts { funded: 9, empty: 4 });
}

#[test]
fn spending_from_a_loaded_address() {
    let mut st = empty_store();
    let r = process_sent(
        &mut st,
        &vec![(8, 90, Some(WithAddressDataSource::FromAddressDataStore(data(0, 100, 2))))],
    ).unwrap();
    assert_eq!(r[0].update, CohortUpdate::Move { leave_previous: true });
    assert!(matches!(
        st.funded.get(&8),
        Some(WithAddressDataSource::FromAddressDataStore(d)) if *d == data(90, 100, 1)
    ));
}

#[test]
fn spending_more_than_the_balance_stops() {
    let mut st = empty_store();
    st.funded.insert(5, WithAddressDataSource::New(data(0, 100, 2)));
    st.funded.insert(6, WithAddressDataSource::New(data(0, 100, 2)));
    assert_eq!(process_sent(&mut st, &vec![(6, 10, None), (5, 101, None)]), Err(1));
    assert!(matches!(st.funded.get(&6), Some(WithAddressDataSource::New(d)) if *d == data(10, 100, 1)));
    assert_eq!(process_sent(&mut st, &vec![(9, 1, None)]), Err(0));
}

#[test]
fn receiving_without_a_record_stops() {
    let mut st = empty_store();
    assert_eq!(process_received(&mut st, &vec![(3, 1, None)]), Err(0));
    assert!(st.funded.is_empty());
}

#[test]
fn block_checks_before_the_pass() {
    let mut s = fresh_state();
    apply_block(&mut s, &event(1_000, supply(1, FIFTY_BTC), vec![]));
    apply_block(&mut s, &event(1_600, supply(2, 5_000), vec![]));
    assert!(block_fits_check(&s, &event(2_000, supply(1, 1), vec![(1, supply(1, 4_000))])));
    // more than block 1 holds
    assert!(!block_fits_check(&s, &event(2_000, supply(1, 1), vec![(1, supply(1, 3_000)), (1, supply(1, 3_000))])));
    // a block that does not exist yet
    assert!(!block_fits_check(&s, &event(2_000, supply(1, 1), vec![(3, supply(0, 0))])));
    // time going back
    assert!(!block_fits_check(&s, &event(1_500, supply(1, 1), vec![])));
}

#[test]
fn records_convert_between_stores() {
    let w = loaded_from_empty_store(WithAddressDataSource::FromEmptyAddressDataStore(
        EmptyAddressData { transfered: 5 },
    ));
    assert!(matches!(w, WithAddressDataSource::FromEmptyAddressDataStore(d) if d == data(5, 5, 0)));
    let e = emptied(WithAddressDataSource::FromAddressDataStore(data(9, 9, 0)));
    assert!(matches!(
        e,
        WithAddressDataSource::FromAddressDataStore(x) if x == EmptyAddressData { transfered: 9 }
    ));
}

#[test]
fn block_facts_from_outputs_and_spends() {
    let outputs = vec![(1_000u64, 2usize), (0, 5), (70, 5), (300, 0)];
    let inputs = vec![(4usize, 2usize, 500u64), (7, 0, 9)];
    let e = block_event(123, 4, &outputs, &inputs).unwrap();
    assert_eq!(e.timestamp, 123);
    assert_eq!(e.unclaimed_rewards, 4);
    assert_eq!(e.unspendable_received, 70);
    assert_eq!(e.opreturn_received, 70);
    assert_eq!(e.received, supply(2, 1_300));
    assert_eq!(
        e.received_by_type,
        vec![(2, supply(1, 1_000)), (5, supply(0, 0)), (5, supply(0, 0)), (0, supply(1, 300))]
    );
    assert_eq!(e.sent, vec![(4, 2, supply(1, 500)), (7, 0, supply(1, 9))]);
    assert_eq!(e.sent_by_size, vec![(3, supply(1, 500)), (1, supply(1, 9))]);
    assert_eq!(
        e.received_by_size,
        vec![(4, supply(1, 1_000)), (0, supply(0, 0)), (2, supply(0, 0)), (3, supply(1, 300))]
    );
    assert!(block_event(1, 0, &vec![], &vec![(0, 5, 1)]).is_none());
}

#[test]
fn age_range_cohorts_hold_all_unspent_supply() {
    let table = age_range_cohorts();
    assert_eq!(table.len(), 20);
    assert_eq!(table[0].filter, GroupFilter::To(1));
    assert_eq!(table[19].filter, GroupFilter::From(5_475));
    let mut s = fresh_state();
    s.by_date_range = table;
    apply_block(&mut s, &event(1_000, supply(1, FIFTY_BTC), vec![]));
    apply_block(&mut s, &event(1_600, supply(2, 5_000), vec![]));
    apply_block(&mut s, &event(1_600 + 40 * DAY, supply(3, 700), vec![(1, supply(1, 1_000))]));
    apply_block(&mut s, &event(1_600 + 400 * DAY, supply(1, 50), vec![(2, supply(1, 100))]));
    let total: u64 = s.by_date_range.iter().map(|c| c.supply.value).sum();
    let unspent: u64 = s.blocks.iter().map(|b| b.supply.value).sum();
    assert_eq!(total, unspent);
    assert_eq!(s.by_date_range[9].supply, supply(1, 4_000));
    assert_eq!(s.by_date_range[8].supply, supply(2, 600));
}

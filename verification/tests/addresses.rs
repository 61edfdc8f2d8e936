use std::collections::BTreeMap;

use brk_computer::address::{
    AddressTypeToTypeIndexTree, AddressTypeToTypeIndexVec, AddressTypeToVec, WithAddressDataSource,
};
use brk_computer::ledger::{
    amount_bucket_of, apply_cohort_update, count_received, count_sent, receive, send, AddressCounts, CohortUpdate, Found,
};

#[test]
fn source_tag_and_data() {
    let n = WithAddressDataSource::New(5u64);
    assert!(n.is_new());
    assert_eq!(*n.deref(), 5);
    let mut s = WithAddressDataSource::FromAddressDataStore(7u64);
    assert!(!s.is_new());
    *s.deref_mut() += 3;
    assert_eq!(*s.deref(), 10);
    assert!(matches!(s, WithAddressDataSource::FromAddressDataStore(10)));
    let e = WithAddressDataSource::FromEmptyAddressDataStore(0u64);
    assert!(!e.is_new());
}

#[test]
fn vec_merge_puts_the_longer_list_first() {
    let mut a: AddressTypeToTypeIndexVec<u8> = AddressTypeToTypeIndexVec::default();
    a.0.p2pkh = vec![(1, 10)];
    a.0.p2tr = vec![(1, 1), (2, 2)];
    let mut b: AddressTypeToTypeIndexVec<u8> = AddressTypeToTypeIndexVec::default();
    b.0.p2pkh = vec![(5, 50), (6, 60)];
    b.0.p2tr = vec![(3, 3)];
    a.merge(b);
    let r = a.unwrap();
    assert_eq!(r.p2pkh, vec![(5, 50), (6, 60), (1, 10)]);
    assert_eq!(r.p2tr, vec![(1, 1), (2, 2), (3, 3)]);
    assert!(r.p2sh.is_empty());
}

#[test]
fn extend_from_sent_skips_p2pk65() {
    let mut own: AddressTypeToTypeIndexVec<u64> = AddressTypeToTypeIndexVec::default();
    own.0.p2wpkh = vec![(9, 90)];
    let mut other: AddressTypeToTypeIndexVec<(u64, i32)> = AddressTypeToTypeIndexVec::default();
    other.0.p2pk65 = vec![(1, (11, -1))];
    other.0.p2wpkh = vec![(2, (22, -2)), (3, (33, -3))];
    other.0.p2a = vec![(4, (44, -4))];
    own.extend_from_sent(&other);
    assert!(own.0.p2pk65.is_empty());
    assert_eq!(own.0.p2wpkh, vec![(9, 90), (2, 22), (3, 33)]);
    assert_eq!(own.0.p2a, vec![(4, 44)]);
    own.extend_from_received(&other);
    assert!(own.0.p2pk65.is_empty());
    assert_eq!(own.0.p2a, vec![(4, 44), (4, 44)]);
}

#[test]
fn tree_merge_moves_the_smaller_map_into_the_larger() {
    let mut a: AddressTypeToTypeIndexTree<&str> = AddressTypeToTypeIndexTree::default();
    a.0.p2sh.insert(1, "a1");
    a.0.p2sh.insert(2, "a2");
    let mut b: AddressTypeToTypeIndexTree<&str> = AddressTypeToTypeIndexTree::default();
    b.0.p2sh.insert(2, "b2");
    b.0.p2sh.insert(3, "b3");
    b.0.p2sh.insert(4, "b4");
    b.0.p2pk33.insert(8, "b8");
    a.merge(b);
    let r = a.unwrap();
    let mut expected = BTreeMap::new();
    expected.insert(1, "a1");
    expected.insert(2, "a2");
    expected.insert(3, "b3");
    expected.insert(4, "b4");
    assert_eq!(r.p2sh, expected);
    assert_eq!(r.p2pk33.get(&8), Some(&"b8"));
    assert!(r.p2a.is_empty());
}

#[test]
fn tree_merge_of_equal_sizes_prefers_the_other() {
    let mut a: AddressTypeToTypeIndexTree<u8> = AddressTypeToTypeIndexTree::default();
    a.0.p2tr.insert(1, 1);
    let mut b: AddressTypeToTypeIndexTree<u8> = AddressTypeToTypeIndexTree::default();
    b.0.p2tr.insert(1, 2);
    a.merge(b);
    assert_eq!(a.0.p2tr.get(&1), Some(&2));
    assert_eq!(a.0.p2tr.len(), 1);
}

#[test]
fn vec_per_type_starts_empty() {
    let v: AddressTypeToVec<u32> = AddressTypeToVec::default();
    assert!(v.0.p2pk65.is_empty() && v.0.p2a.is_empty() && v.0.p2wsh.is_empty());
}

#[test]
fn amount_buckets_by_digits() {
    assert_eq!(amount_bucket_of(0), 0);
    assert_eq!(amount_bucket_of(1), 1);
    assert_eq!(amount_bucket_of(9), 1);
    assert_eq!(amount_bucket_of(10), 2);
    assert_eq!(amount_bucket_of(99), 2);
    assert_eq!(amount_bucket_of(100_000_000), 9);
    assert_eq!(amount_bucket_of(9_999_999_999_999), 13);
    assert_eq!(amount_bucket_of(10_000_000_000_000), 14);
    assert_eq!(amount_bucket_of(u64::MAX), 14);
}

#[test]
fn receiving_on_a_new_address() {
    let r = receive(Found::Neither, Some(WithAddressDataSource::New(())), 0, 500);
    assert!(r.becomes_funded);
    assert!(!r.leaves_empty);
    assert_eq!(r.amount, 500);
    assert_eq!(r.update, CohortUpdate::Move { leave_previous: false });
}

#[test]
fn receiving_on_an_emptied_address() {
    let r = receive(Found::Empty, None, 0, 50);
    assert!(r.becomes_funded && r.leaves_empty);
    assert_eq!(r.update, CohortUpdate::Move { leave_previous: false });
    let s = receive(
        Found::Neither,
        Some(WithAddressDataSource::FromEmptyAddressDataStore(())),
        0,
        50,
    );
    assert_eq!(s, r);
}

#[test]
fn receiving_on_a_funded_address() {
    let same = receive(Found::Funded, None, 120, 5);
    assert!(!same.becomes_funded && !same.leaves_empty);
    assert_eq!(same.amount, 125);
    assert_eq!(same.update, CohortUpdate::InPlace);
    let moved = receive(
        Found::Neither,
        Some(WithAddressDataSource::FromAddressDataStore(())),
        95,
        10,
    );
    assert_eq!(moved.update, CohortUpdate::Move { leave_previous: true });
}

#[test]
fn sending_coins() {
    let all = send(1, 700, 700);
    assert!(all.becomes_empty);
    assert_eq!(all.amount, 0);
    assert_eq!(all.update, CohortUpdate::Empty);
    let some = send(3, 700, 100);
    assert!(!some.becomes_empty);
    assert_eq!(some.amount, 600);
    assert_eq!(some.update, CohortUpdate::InPlace);
    let fewer = send(2, 1000, 950);
    assert_eq!(fewer.update, CohortUpdate::Move { leave_previous: true });
}

#[test]
fn address_counts_follow_the_changes() {
    let mut c = AddressCounts { funded: 4, empty: 2 };
    count_received(&mut c, &receive(Found::Empty, None, 0, 1));
    assert_eq!(c, AddressCounts { funded: 5, empty: 1 });
    count_received(&mut c, &receive(Found::Neither, Some(WithAddressDataSource::New(())), 0, 1));
    assert_eq!(c, AddressCounts { funded: 6, empty: 1 });
    count_received(&mut c, &receive(Found::Funded, None, 3, 1));
    assert_eq!(c, AddressCounts { funded: 6, empty: 1 });
    count_sent(&mut c, &send(1, 4, 4));
    assert_eq!(c, AddressCounts { funded: 5, empty: 2 });
    count_sent(&mut c, &send(2, 4, 1));
    assert_eq!(c, AddressCounts { funded: 5, empty: 2 });
}

#[test]
fn amount_cohorts_count_the_funded_addresses() {
    let mut counts = vec![0usize; 15];
    // a new address receives 500 sats: it joins cohort 3
    let r = receive(Found::Neither, Some(WithAddressDataSource::New(())), 0, 500);
    assert!(apply_cohort_update(&mut counts, r.update, r.prev_amount, r.amount));
    assert_eq!(counts[3], 1);
    // it receives 600 more: it moves to cohort 4
    let r = receive(Found::Funded, None, 500, 600);
    assert!(apply_cohort_update(&mut counts, r.update, r.prev_amount, r.amount));
    assert_eq!((counts[3], counts[4]), (0, 1));
    // it spends everything: it leaves cohort 4
    let s = send(1, 1_100, 1_100);
    assert!(apply_cohort_update(&mut counts, s.update, s.prev_amount, s.amount));
    assert_eq!(counts.iter().sum::<usize>(), 0);
    // an address that is not counted cannot leave
    let s = send(1, 1_100, 1_100);
    assert!(!apply_cohort_update(&mut counts, s.update, s.prev_amount, s.amount));
    assert_eq!(counts.iter().sum::<usize>(), 0);
}

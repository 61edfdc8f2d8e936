use brk_computer::cohorts::{
    days_between, halving_epoch, included_cohorts, sent_block, sent_filter_matches,
    tick_tock_next_block, GroupFilter, Transition,
};

#[test]
fn halving_epochs() {
    assert_eq!(halving_epoch(0), 0);
    assert_eq!(halving_epoch(209_999), 0);
    assert_eq!(halving_epoch(210_000), 1);
    assert_eq!(halving_epoch(420_000), 2);
    assert_eq!(halving_epoch(840_000), 4);
}

#[test]
fn whole_days_between_timestamps() {
    assert_eq!(days_between(1_000, 1_000), 0);
    assert_eq!(days_between(0, 86_399), 0);
    assert_eq!(days_between(0, 86_400), 1);
    assert_eq!(days_between(100, 100 + 3 * 86_400 + 5), 3);
}

#[test]
fn filters_contain_values() {
    assert!(GroupFilter::All.contains(12345));
    assert!(GroupFilter::To(7).contains(6));
    assert!(!GroupFilter::To(7).contains(7));
    assert!(GroupFilter::From(7).contains(7));
    assert!(!GroupFilter::From(7).contains(6));
    assert!(GroupFilter::Range(3, 5).contains(3));
    assert!(GroupFilter::Range(3, 5).contains(4));
    assert!(!GroupFilter::Range(3, 5).contains(5));
    assert!(!GroupFilter::Epoch(1).contains(1));
    assert!(!GroupFilter::Type(2).contains(2));
}

#[test]
fn filters_include_filters() {
    assert!(GroupFilter::All.includes(&GroupFilter::Epoch(3)));
    assert!(GroupFilter::To(30).includes(&GroupFilter::To(7)));
    assert!(!GroupFilter::To(7).includes(&GroupFilter::To(30)));
    assert!(GroupFilter::To(30).includes(&GroupFilter::Range(7, 30)));
    assert!(!GroupFilter::To(30).includes(&GroupFilter::Range(7, 31)));
    assert!(GroupFilter::From(7).includes(&GroupFilter::Range(7, 30)));
    assert!(GroupFilter::From(7).includes(&GroupFilter::From(30)));
    assert!(!GroupFilter::From(30).includes(&GroupFilter::From(7)));
    assert!(!GroupFilter::Range(0, 10).includes(&GroupFilter::Range(1, 2)));
    assert!(!GroupFilter::Epoch(1).includes(&GroupFilter::Epoch(1)));
}

#[test]
fn included_cohorts_in_order() {
    let others = vec![
        GroupFilter::Range(0, 1),
        GroupFilter::From(10),
        GroupFilter::Range(1, 7),
        GroupFilter::Epoch(0),
        GroupFilter::To(7),
    ];
    assert_eq!(included_cohorts(&GroupFilter::To(7), &others), vec![0, 2, 4]);
    assert_eq!(included_cohorts(&GroupFilter::From(5), &others), vec![1]);
    assert_eq!(included_cohorts(&GroupFilter::All, &others), vec![0, 1, 2, 3, 4]);
    assert!(included_cohorts(&GroupFilter::Epoch(0), &others).is_empty());
}

#[test]
fn tick_tock_moves_blocks_between_cohorts() {
    let day = 86_400u32;
    // ages at the tip: 2 days, 0 days, 0 days
    let blocks = vec![0u32, day + 1, 2 * day];
    // the tip moves forward by one day: ages become 3, 1 and 1 days
    let r = tick_tock_next_block(&GroupFilter::To(1), &blocks, 3 * day);
    assert_eq!(
        r,
        vec![Transition::Unchanged, Transition::Decrement, Transition::Decrement]
    );
    let r = tick_tock_next_block(&GroupFilter::From(1), &blocks, 3 * day);
    assert_eq!(
        r,
        vec![Transition::Unchanged, Transition::Increment, Transition::Increment]
    );
    let r = tick_tock_next_block(&GroupFilter::Range(2, 3), &blocks, 3 * day);
    assert_eq!(
        r,
        vec![Transition::Decrement, Transition::Unchanged, Transition::Unchanged]
    );
    // five seconds later only the block that was a second short of a day moves
    let r = tick_tock_next_block(&GroupFilter::To(1), &blocks, 2 * day + 5);
    assert_eq!(
        r,
        vec![Transition::Unchanged, Transition::Decrement, Transition::Unchanged]
    );
    assert!(tick_tock_next_block(&GroupFilter::All, &Vec::new(), 5).is_empty());
}

#[test]
fn sent_filter_matches_by_age_and_epoch() {
    assert!(sent_filter_matches(&GroupFilter::From(3), 3, 0));
    assert!(!sent_filter_matches(&GroupFilter::To(3), 3, 0));
    assert!(sent_filter_matches(&GroupFilter::Range(1, 4), 1, 0));
    assert!(sent_filter_matches(&GroupFilter::Epoch(2), 0, 420_000));
    assert!(!sent_filter_matches(&GroupFilter::Epoch(2), 0, 419_999));
}

#[test]
fn age_of_a_spent_block() {
    let b = sent_block(100, 90, 1_000, 1_000 + 2 * 86_400 + 10);
    assert_eq!(b.blocks_old, 9);
    assert_eq!(b.days_old, 2);
    assert!(b.older_than_hour);
    let fresh = sent_block(10, 9, 500, 500 + 3_599);
    assert_eq!(fresh.blocks_old, 0);
    assert_eq!(fresh.days_old, 0);
    assert!(!fresh.older_than_hour);
    assert!(sent_block(10, 9, 500, 500 + 3_600).older_than_hour);
}

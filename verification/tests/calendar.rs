use brk_computer::dates::{dates_of, first_and_count, time_indexes};

// 2009-01-03 18:15:05 UTC, the first block.
const GENESIS: u32 = 1_231_006_505;
// 2009-01-09 02:54:25 UTC, the second block.
const SECOND: u32 = 1_231_469_665;
const DAY: u32 = 86_400;

#[test]
fn dates_of_block_times() {
    let fixed = vec![GENESIS, SECOND, SECOND + DAY];
    assert_eq!(dates_of(&fixed, 0), vec![(2009, 1, 3), (2009, 1, 9), (2009, 1, 10)]);
    assert_eq!(dates_of(&fixed, 2), vec![(2009, 1, 10)]);
    assert_eq!(dates_of(&vec![0], 0), vec![(1970, 1, 1)]);
}

#[test]
fn first_and_count_of_sorted_keys() {
    assert_eq!(first_and_count(&vec![0, 0, 1, 2, 2, 2]), Some((vec![0, 2, 3], vec![2, 1, 3])));
    assert_eq!(first_and_count(&vec![]), Some((vec![], vec![])));
    assert_eq!(first_and_count(&vec![0, 2]), None);
    assert_eq!(first_and_count(&vec![1, 1]), None);
    assert_eq!(first_and_count(&vec![0, 1, 0]), None);
}

#[test]
fn calendar_maps_of_the_first_blocks() {
    let fixed = vec![GENESIS, SECOND, SECOND + 60, SECOND + DAY];
    let t = time_indexes(&fixed).unwrap();
    assert_eq!(t.height_to_dateindex, vec![0, 1, 1, 2]);
    assert_eq!(t.dateindex_to_first_height, vec![0, 1, 3]);
    assert_eq!(t.dateindex_to_height_count, vec![1, 2, 1]);
    assert_eq!(t.dateindex_to_weekindex, vec![0, 1, 1]);
    assert_eq!(t.weekindex_to_first_dateindex, vec![0, 1]);
    assert_eq!(t.weekindex_to_dateindex_count, vec![1, 2]);
    assert_eq!(t.dateindex_to_monthindex, vec![0, 0, 0]);
    assert_eq!(t.monthindex_to_first_dateindex, vec![0]);
    assert_eq!(t.monthindex_to_dateindex_count, vec![3]);
    assert_eq!(t.monthindex_to_quarterindex, vec![0]);
    assert_eq!(t.quarterindex_to_monthindex_count, vec![1]);
    assert_eq!(t.monthindex_to_yearindex, vec![0]);
    assert_eq!(t.yearindex_to_decadeindex, vec![0]);
    assert_eq!(t.decadeindex_to_yearindex_count, vec![1]);
    assert_eq!(t.height_to_difficultyepoch, vec![0, 0, 0, 0]);
    assert_eq!(t.difficultyepoch_to_first_height, vec![0]);
    assert_eq!(t.difficultyepoch_to_height_count, vec![4]);
}

#[test]
fn calendar_refuses_days_without_blocks_and_early_dates() {
    // 2009-01-11 follows 2009-01-03 with no block in between
    assert!(time_indexes(&vec![GENESIS, SECOND + 2 * DAY]).is_none());
    // 1970 has no date index
    assert!(time_indexes(&vec![0]).is_none());
    assert!(time_indexes(&vec![]).is_some());
}

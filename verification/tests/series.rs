use brk_computer::column::{Column, ColumnError};
use brk_computer::prices::{assemble_ohlc, day_source, stitch_day, DaySource, Ohlc};
use brk_computer::stats::{collect_group, midpoint_of, percentile_of, sort_values, sum_values};
use brk_computer::timeline::{fixed_timestamps, resume_dateindex, resume_plan, starting_height};

#[test]
fn column_starts_empty() {
    let c: Column<u64> = Column::new(String::from("close"), 3);
    assert!(c.is_empty());
    assert_eq!(c.len(), 0);
    assert_eq!(c.get(0), None);
    assert_eq!(c.version, 3);
    assert_eq!(c.computed_version, 0);
}

#[test]
fn forced_push_at_truncates_and_appends() {
    let mut c = Column::from_values(String::from("x"), 1, 1, vec![10u64, 20, 30, 40]);
    assert_eq!(c.forced_push_at(2, 99), Ok(()));
    assert_eq!(c.values, vec![10, 20, 99]);
    assert_eq!(c.forced_push_at(3, 7), Ok(()));
    assert_eq!(c.values, vec![10, 20, 99, 7]);
    assert_eq!(c.get(3), Some(7));
}

#[test]
fn forced_push_at_refuses_a_gap() {
    let mut c = Column::from_values(String::from("x"), 1, 1, vec![1u64, 2]);
    assert_eq!(c.forced_push_at(3, 5), Err(ColumnError::IndexTooHigh));
    assert_eq!(c.values, vec![1, 2]);
}

#[test]
fn validate_resets_on_other_version() {
    let mut c = Column::from_values(String::from("x"), 1, 4, vec![1u64, 2]);
    c.validate_computed_version_or_reset_file(4);
    assert_eq!(c.values, vec![1, 2]);
    c.validate_computed_version_or_reset_file(5);
    assert!(c.values.is_empty());
    assert_eq!(c.computed_version, 5);
    assert_eq!(c.version, 1);
}

#[test]
fn sort_and_sum() {
    let mut v = vec![5u64, 1, 4, 1, 3];
    sort_values(&mut v);
    assert_eq!(v, vec![1, 1, 3, 4, 5]);
    assert_eq!(sum_values(&v), 14);
    assert_eq!(sum_values(&Vec::new()), 0);
}

#[test]
fn midpoint_rounds_down_without_overflow() {
    assert_eq!(midpoint_of(3, 8), 5);
    assert_eq!(midpoint_of(8, 3), 5);
    assert_eq!(midpoint_of(u64::MAX, u64::MAX - 1), u64::MAX - 1);
}

#[test]
fn percentiles_of_sorted_values() {
    let v = vec![10u64, 20, 30, 40, 50];
    assert_eq!(percentile_of(&v, 0), 10);
    assert_eq!(percentile_of(&v, 50), 30);
    assert_eq!(percentile_of(&v, 100), 50);
    assert_eq!(percentile_of(&v, 25), 20);
    // (5 - 1) * 10 = 40: between the first and the second value
    assert_eq!(percentile_of(&v, 10), 15);
    let w = vec![1u64, 2, 3, 4];
    // (4 - 1) * 50 = 150: between the second and the third value
    assert_eq!(percentile_of(&w, 50), 2);
    assert_eq!(percentile_of(&vec![7u64], 90), 7);
}

#[test]
fn collect_group_takes_a_window() {
    let src = vec![1u64, 2, 3, 4, 5, 6];
    assert_eq!(collect_group(&src, 2, 3), vec![3, 4, 5]);
    assert_eq!(collect_group(&src, 4, 0), Vec::<u64>::new());
}

#[test]
fn day_source_fetches_the_last_days() {
    assert_eq!(day_source(0, 5), DaySource::Stored);
    assert_eq!(day_source(3, 5), DaySource::Stored);
    assert_eq!(day_source(4, 5), DaySource::Fetch);
    assert_eq!(day_source(9, 5), DaySource::Fetch);
    assert_eq!(day_source(0, 0), DaySource::Fetch);
}

#[test]
fn stitch_day_opens_at_previous_close() {
    let day = Ohlc { open: 100, high: 120, low: 90, close: 110 };
    assert_eq!(stitch_day(day, None), day);
    assert_eq!(
        stitch_day(day, Some(130)),
        Ohlc { open: 130, high: 130, low: 90, close: 110 }
    );
    assert_eq!(
        stitch_day(day, Some(80)),
        Ohlc { open: 80, high: 120, low: 80, close: 110 }
    );
    assert_eq!(stitch_day(day, Some(95)), Ohlc { open: 95, high: 120, low: 90, close: 110 });
}

#[test]
fn assemble_ohlc_reads_the_four_columns() {
    let o = Column::from_values(String::from("o"), 0, 0, vec![1u64, 2, 3]);
    let h = Column::from_values(String::from("h"), 0, 0, vec![4u64, 5, 6]);
    let l = Column::from_values(String::from("l"), 0, 0, vec![0u64, 1, 2]);
    let c = Column::from_values(String::from("c"), 0, 0, vec![2u64, 3, 4]);
    let r = assemble_ohlc(1, &o, &h, &l, &c);
    assert_eq!(
        r,
        vec![
            Ohlc { open: 2, high: 5, low: 1, close: 3 },
            Ohlc { open: 3, high: 6, low: 2, close: 4 }
        ]
    );
    assert!(assemble_ohlc(3, &o, &h, &l, &c).is_empty());
    assert!(assemble_ohlc(7, &o, &h, &l, &c).is_empty());
}

#[test]
fn fixed_timestamps_never_go_back() {
    let raw = vec![100u32, 90, 120, 110, 130];
    assert_eq!(fixed_timestamps(&Vec::new(), &raw, 0), vec![100, 100, 120, 120, 130]);
    let stored = vec![100u32, 100, 125, 125, 130];
    assert_eq!(fixed_timestamps(&stored, &raw, 3), vec![125, 130]);
    assert_eq!(fixed_timestamps(&stored, &raw, 5), Vec::<u32>::new());
}

#[test]
fn resume_dateindex_takes_the_smaller() {
    assert_eq!(resume_dateindex(None, None), 0);
    assert_eq!(resume_dateindex(Some(7), None), 7);
    assert_eq!(resume_dateindex(Some(7), Some(5)), 5);
    assert_eq!(resume_dateindex(Some(7), Some(9)), 7);
    assert_eq!(resume_dateindex(None, Some(3)), 0);
}

#[test]
fn starting_height_is_the_shortest_series() {
    assert_eq!(starting_height(&vec![Some(10), None, Some(4), Some(8)]), 4);
    assert_eq!(starting_height(&vec![None, None]), usize::MAX);
    assert_eq!(starting_height(&Vec::new()), usize::MAX);
}

#[test]
fn resume_plan_uses_the_saved_state_when_everything_reaches_it() {
    let p = resume_plan(usize::MAX, &vec![50, 60], &vec![55], 50, 70, 80, 90);
    assert!(p.load_chain_state);
    assert_eq!(p.starting_height, 50);
    assert!(!p.reset);
    let asked = resume_plan(20, &vec![50, 60], &vec![55], 50, 70, 80, 90);
    assert_eq!(asked.starting_height, 20);
    assert!(asked.load_chain_state);
}

#[test]
fn resume_plan_restarts_when_a_cohort_lags() {
    let p = resume_plan(usize::MAX, &vec![40, 60], &vec![55], 50, 70, 80, 90);
    assert!(!p.load_chain_state);
    assert_eq!(p.starting_height, 0);
    assert!(p.reset);
    let q = resume_plan(usize::MAX, &vec![60], &vec![55], 50, 49, 80, 90);
    assert!(q.reset);
}

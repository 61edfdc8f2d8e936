use brk_computer::column::Column;
use brk_computer::grouped::{
    ComputedVecsFromDateIndex, ComputedVecsFromHeightStrict, Indexes, StartingIndexes,
};
use brk_computer::options::StorableVecGeneatorOptions;

fn idx(name: &str, values: Vec<usize>) -> Column<usize> {
    Column::from_values(String::from(name), 0, 0, values)
}

fn indexes() -> Indexes {
    Indexes {
        weekindex_to_first_dateindex: idx("w_first", vec![0, 7]),
        weekindex_to_dateindex_count: idx("w_count", vec![7, 3]),
        monthindex_to_first_dateindex: idx("m_first", vec![0, 5]),
        monthindex_to_dateindex_count: idx("m_count", vec![5, 5]),
        quarterindex_to_first_monthindex: idx("q_first", vec![0]),
        quarterindex_to_monthindex_count: idx("q_count", vec![2]),
        yearindex_to_first_monthindex: idx("y_first", vec![0]),
        yearindex_to_monthindex_count: idx("y_count", vec![2]),
        decadeindex_to_first_yearindex: idx("d_first", vec![0]),
        decadeindex_to_yearindex_count: idx("d_count", vec![1]),
        difficultyepoch_to_first_height: idx("e_first", vec![0, 4]),
        difficultyepoch_to_height_count: idx("e_count", vec![4, 2]),
    }
}

fn from_start() -> StartingIndexes {
    StartingIndexes {
        height: 0,
        dateindex: 0,
        weekindex: 0,
        monthindex: 0,
        quarterindex: 0,
        yearindex: 0,
        decadeindex: 0,
        difficultyepoch: 0,
    }
}

fn options() -> StorableVecGeneatorOptions {
    StorableVecGeneatorOptions::default()
        .add_sum()
        .add_max()
        .add_cumulative()
}

#[test]
fn date_family_imports_every_timescale() {
    let f = ComputedVecsFromDateIndex::forced_import("tx", true, 2, options().add_median());
    assert_eq!(f.dateindex.as_ref().unwrap().name, "tx");
    assert!(f.dateindex_extra.cumulative.is_some());
    assert!(f.dateindex_extra.sum.is_none());
    assert_eq!(f.dateindex_extra.unwrap_cumulative().name, "cumulative_tx");
    assert!(f.weekindex.median.is_none());
    assert_eq!(f.weekindex.unwrap_sum().name, "tx_sum");
    assert_eq!(f.decadeindex.unwrap_max().version, 2);
    let g = ComputedVecsFromDateIndex::forced_import("tx", false, 2, options());
    assert!(g.dateindex.is_none());
}

#[test]
fn date_family_computes_every_timescale() {
    let mut f = ComputedVecsFromDateIndex::forced_import("tx", true, 0, options());
    f.dateindex.as_mut().unwrap().values = (1u64..=10).collect();
    f.compute_rest(&indexes(), &from_start(), None);
    assert_eq!(
        f.dateindex_extra.unwrap_cumulative().values,
        vec![1, 3, 6, 10, 15, 21, 28, 36, 45, 55]
    );
    assert_eq!(f.weekindex.unwrap_sum().values, vec![28, 27]);
    assert_eq!(f.weekindex.unwrap_max().values, vec![7, 10]);
    assert_eq!(f.weekindex.unwrap_cumulative().values, vec![28, 55]);
    assert_eq!(f.monthindex.unwrap_sum().values, vec![15, 40]);
    assert_eq!(f.monthindex.unwrap_max().values, vec![5, 10]);
    assert_eq!(f.quarterindex.unwrap_sum().values, vec![55]);
    assert_eq!(f.quarterindex.unwrap_max().values, vec![10]);
    assert_eq!(f.yearindex.unwrap_cumulative().values, vec![55]);
    assert_eq!(f.decadeindex.unwrap_sum().values, vec![55]);
}

#[test]
fn date_family_can_take_a_given_daily_series() {
    let mut f = ComputedVecsFromDateIndex::forced_import("tx", false, 0, options());
    let days = Column::from_values(String::from("days"), 0, 0, vec![2u64; 10]);
    f.compute_rest(&indexes(), &from_start(), Some(&days));
    assert_eq!(f.weekindex.unwrap_sum().values, vec![14, 6]);
    assert_eq!(f.monthindex.unwrap_sum().values, vec![10, 10]);
    assert_eq!(f.decadeindex.unwrap_cumulative().values, vec![20]);
}

#[test]
fn height_family_computes_epochs() {
    let mut f = ComputedVecsFromHeightStrict::forced_import("fee", 0, options());
    assert_eq!(f.height.name, "fee");
    f.height.values = vec![5, 1, 4, 2, 8, 3];
    f.compute(&indexes(), &from_start());
    assert_eq!(f.height_extra.unwrap_cumulative().values, vec![5, 6, 10, 12, 20, 23]);
    assert_eq!(f.difficultyepoch.unwrap_sum().values, vec![12, 11]);
    assert_eq!(f.difficultyepoch.unwrap_max().values, vec![5, 8]);
    assert_eq!(f.difficultyepoch.unwrap_cumulative().values, vec![12, 23]);
    assert_eq!(f.height.values, vec![5, 1, 4, 2, 8, 3]);
}

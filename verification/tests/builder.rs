use brk_computer::builder::ComputedVecBuilder;
use brk_computer::column::Column;
use brk_computer::options::StorableVecGeneatorOptions;

fn col(name: &str, cv: u64, values: Vec<u64>) -> Column<u64> {
    Column::from_values(String::from(name), 0, cv, values)
}

fn idx(name: &str, cv: u64, values: Vec<usize>) -> Column<usize> {
    Column::from_values(String::from(name), 0, cv, values)
}

fn everything() -> StorableVecGeneatorOptions {
    StorableVecGeneatorOptions::default()
        .add_first()
        .add_last()
        .add_minmax()
        .add_average()
        .add_sum()
        .add_cumulative()
        .add_percentiles()
}

// Three groups: [1, 3], [50, 10, 40, 20, 30] and [6, 8].
fn grouped_inputs() -> (Column<u64>, Column<usize>, Column<usize>) {
    (
        col("src", 1, vec![1, 3, 50, 10, 40, 20, 30, 6, 8]),
        idx("firsts", 2, vec![0, 2, 7]),
        idx("counts", 3, vec![2, 5, 2]),
    )
}

#[test]
fn forced_import_names_every_series() {
    let b = ComputedVecBuilder::forced_import("fee", 4, everything());
    let names: Vec<String> = b.vecs().iter().map(|c| c.name.clone()).collect();
    assert_eq!(
        names,
        vec![
            "first_fee", "fee", "fee_min", "fee_max", "fee_median", "fee_average", "fee_sum",
            "cumulative_fee", "fee_90p", "fee_75p", "fee_25p", "fee_10p"
        ]
    );
    for c in b.vecs() {
        assert_eq!(c.version, 4);
        assert!(c.values.is_empty());
    }
}

#[test]
fn forced_import_with_one_statistic_takes_the_plain_name() {
    let sum = ComputedVecBuilder::forced_import("fee", 1, StorableVecGeneatorOptions::default().add_sum());
    assert_eq!(sum.unwrap_sum().name, "fee");
    assert!(sum.first.is_none() && sum.cumulative.is_none());
    let first = ComputedVecBuilder::forced_import("fee", 1, StorableVecGeneatorOptions::default().add_first());
    assert_eq!(first.unwrap_first().name, "fee");
    let cum = ComputedVecBuilder::forced_import(
        "fee",
        1,
        StorableVecGeneatorOptions::default().add_cumulative(),
    );
    assert_eq!(cum.unwrap_cumulative().name, "cumulative_fee");
    assert_eq!(cum.vecs().len(), 1);
}

#[test]
fn compute_from_scratch() {
    let (src, firsts, counts) = grouped_inputs();
    let mut b = ComputedVecBuilder::forced_import("x", 0, everything());
    b.compute(usize::MAX, &src, &firsts, &counts);
    assert_eq!(b.unwrap_sum().values, vec![4, 150, 14]);
    assert_eq!(b.unwrap_average().values, vec![2, 30, 7]);
    assert_eq!(b.unwrap_min().values, vec![1, 10, 6]);
    assert_eq!(b.unwrap_max().values, vec![3, 50, 8]);
    assert_eq!(b.unwrap_median().values, vec![2, 30, 7]);
    assert_eq!(b.unwrap_90p().values, vec![2, 45, 7]);
    assert_eq!(b.unwrap_75p().values, vec![2, 40, 7]);
    assert_eq!(b.unwrap_25p().values, vec![2, 20, 7]);
    assert_eq!(b.unwrap_10p().values, vec![2, 15, 7]);
    assert_eq!(b.unwrap_cumulative().values, vec![4, 154, 168]);
    // the first and last values are written at the resume index
    assert_eq!(b.unwrap_first().values, vec![6]);
    assert_eq!(b.unwrap_last().values, vec![8]);
    for c in b.vecs() {
        assert_eq!(c.computed_version, 6);
    }
}

#[test]
fn compute_resumed_matches_compute_from_scratch() {
    let (src, firsts, counts) = grouped_inputs();
    let opts = StorableVecGeneatorOptions::default()
        .add_minmax()
        .add_average()
        .add_sum()
        .add_cumulative()
        .add_percentiles();
    let mut full = ComputedVecBuilder::forced_import("x", 0, opts);
    full.compute(usize::MAX, &src, &firsts, &counts);
    let mut resumed = ComputedVecBuilder::forced_import("x", 0, opts);
    resumed.compute(usize::MAX, &src, &firsts, &counts);
    resumed.compute(1, &src, &firsts, &counts);
    let a: Vec<Vec<u64>> = full.vecs().iter().map(|c| c.values.clone()).collect();
    let b: Vec<Vec<u64>> = resumed.vecs().iter().map(|c| c.values.clone()).collect();
    assert_eq!(a, b);
}

#[test]
fn compute_resets_on_new_input_versions() {
    let (src, firsts, counts) = grouped_inputs();
    let mut b = ComputedVecBuilder::forced_import(
        "x",
        0,
        StorableVecGeneatorOptions::default().add_sum().add_cumulative(),
    );
    b.compute(usize::MAX, &src, &firsts, &counts);
    // the source changes version: everything is recomputed, even from index 2
    let src2 = col("src", 9, vec![1, 1, 1, 1, 1, 1, 1, 1, 1]);
    b.compute(2, &src2, &firsts, &counts);
    assert_eq!(b.unwrap_sum().values, vec![2, 5, 2]);
    assert_eq!(b.unwrap_cumulative().values, vec![2, 7, 9]);
    assert_eq!(b.unwrap_sum().computed_version, 14);
}

#[test]
fn starting_index_is_the_shortest_series() {
    let mut b = ComputedVecBuilder::forced_import(
        "x",
        0,
        StorableVecGeneatorOptions::default().add_sum().add_cumulative(),
    );
    b.sum = Some(col("x_sum", 0, vec![1, 2, 3]));
    b.cumulative = Some(col("cumulative_x", 0, vec![1, 3]));
    assert_eq!(b.starting_index(10), 2);
    assert_eq!(b.starting_index(1), 1);
}

#[test]
fn extend_adds_running_totals() {
    let mut b = ComputedVecBuilder::forced_import(
        "x",
        0,
        StorableVecGeneatorOptions::default().add_cumulative(),
    );
    b.extend(usize::MAX, &col("s", 0, vec![1, 2, 3]));
    assert_eq!(b.unwrap_cumulative().values, vec![1, 3, 6]);
    b.extend(usize::MAX, &col("s", 0, vec![1, 2, 3, 4, 5]));
    assert_eq!(b.unwrap_cumulative().values, vec![1, 3, 6, 10, 15]);
    // resuming earlier rewrites the same totals
    b.extend(2, &col("s", 0, vec![1, 2, 3, 4, 5]));
    assert_eq!(b.unwrap_cumulative().values, vec![1, 3, 6, 10, 15]);
    let mut none = ComputedVecBuilder::forced_import("y", 0, StorableVecGeneatorOptions::default().add_sum());
    none.extend(0, &col("s", 0, vec![7]));
    assert!(none.unwrap_sum().values.is_empty());
}

#[test]
fn from_aligned_combines_groups_of_groups() {
    let mut daily = ComputedVecBuilder::forced_import("d", 0, everything().remove_percentiles());
    daily.first = Some(col("first_d", 0, vec![1, 50, 6]));
    daily.last = Some(col("d", 0, vec![3, 30, 8]));
    daily.max = Some(col("d_max", 0, vec![3, 50, 8]));
    daily.min = Some(col("d_min", 0, vec![1, 10, 6]));
    daily.average = Some(col("d_average", 0, vec![2, 30, 7]));
    daily.sum = Some(col("d_sum", 0, vec![4, 150, 14]));
    let firsts = idx("firsts", 1, vec![0, 2]);
    let counts = idx("counts", 1, vec![2, 1]);
    let mut weekly = ComputedVecBuilder::forced_import("w", 0, everything().remove_percentiles());
    weekly.from_aligned(usize::MAX, &daily, &firsts, &counts);
    assert_eq!(weekly.unwrap_max().values, vec![50, 8]);
    assert_eq!(weekly.unwrap_min().values, vec![1, 6]);
    assert_eq!(weekly.unwrap_average().values, vec![16, 7]);
    assert_eq!(weekly.unwrap_sum().values, vec![154, 14]);
    assert_eq!(weekly.unwrap_cumulative().values, vec![154, 168]);
    assert_eq!(weekly.unwrap_first().values, vec![6]);
    assert_eq!(weekly.unwrap_last().values, vec![8]);
    assert_eq!(weekly.unwrap_sum().computed_version, 2);
}

#[test]
fn builder_validation_empties_every_series() {
    let (src, firsts, counts) = grouped_inputs();
    let mut b = ComputedVecBuilder::forced_import(
        "x",
        0,
        StorableVecGeneatorOptions::default().add_sum().add_max(),
    );
    b.compute(usize::MAX, &src, &firsts, &counts);
    b.validate_computed_version_or_reset_file(6);
    assert_eq!(b.unwrap_sum().values.len(), 3);
    b.validate_computed_version_or_reset_file(7);
    assert!(b.unwrap_sum().values.is_empty());
    assert!(b.unwrap_max().values.is_empty());
    assert_eq!(b.unwrap_max().computed_version, 7);
}

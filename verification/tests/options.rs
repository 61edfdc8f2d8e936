use brk_computer::options::StorableVecGeneatorOptions;

#[test]
fn default_has_nothing_active() {
    let o = StorableVecGeneatorOptions::default();
    let f = o.flags();
    assert!(!f.average && !f.sum && !f.max && !f.min && !f.first && !f.last && !f.cumulative);
    assert!(!f.p90 && !f.p75 && !f.median && !f.p25 && !f.p10);
    assert!(!o.is_only_one_active());
}

#[test]
fn single_statistic_is_only_one_active() {
    let d = StorableVecGeneatorOptions::default();
    assert!(d.add_first().is_only_one_active());
    assert!(d.add_last().is_only_one_active());
    assert!(d.add_min().is_only_one_active());
    assert!(d.add_max().is_only_one_active());
    assert!(d.add_median().is_only_one_active());
    assert!(d.add_average().is_only_one_active());
    assert!(d.add_sum().is_only_one_active());
    assert!(d.add_90p().is_only_one_active());
    assert!(d.add_75p().is_only_one_active());
    assert!(d.add_25p().is_only_one_active());
    assert!(d.add_10p().is_only_one_active());
    assert!(d.add_cumulative().is_only_one_active());
    assert!(!d.add_min().add_max().is_only_one_active());
    assert!(!d.add_minmax().is_only_one_active());
}

#[test]
fn add_then_remove_is_remove() {
    let o = StorableVecGeneatorOptions::default().add_sum().add_last();
    assert!(o.add_min().rm_min().flags() == o.rm_min().flags());
    assert!(o.add_max().rm_max().flags() == o.rm_max().flags());
    assert!(o.add_median().rm_median().flags() == o.rm_median().flags());
    assert!(o.add_average().rm_average().flags() == o.rm_average().flags());
    assert!(o.add_cumulative().rm_cumulative().flags() == o.rm_cumulative().flags());
    assert!(o.add_90p().rm_90p().flags() == o.rm_90p().flags());
    assert!(o.add_75p().rm_75p().flags() == o.rm_75p().flags());
    assert!(o.add_25p().rm_25p().flags() == o.rm_25p().flags());
    assert!(o.add_10p().rm_10p().flags() == o.rm_10p().flags());
    assert!(o.rm_sum().flags().sum == false);
    assert!(o.rm_sum().flags().last);
}

#[test]
fn grouped_adds_and_removes() {
    let o = StorableVecGeneatorOptions::default().add_average();
    assert!(o.add_minmax().flags() == o.add_min().add_max().flags());
    let p = o.add_percentiles();
    assert!(p.flags() == o.add_90p().add_75p().add_median().add_25p().add_10p().flags());
    assert!(p.remove_percentiles().flags() == o.flags());
    assert!(p.remove_percentiles().flags().average);
}

#[test]
fn copy_self_extra_keeps_only_cumulative() {
    let o = StorableVecGeneatorOptions::default()
        .add_sum()
        .add_cumulative()
        .add_percentiles();
    let e = o.copy_self_extra();
    assert!(e.flags().cumulative);
    assert!(e.is_only_one_active());
    assert!(!e.flags().sum && !e.flags().median);
    let none = StorableVecGeneatorOptions::default().add_sum().copy_self_extra();
    assert!(!none.flags().cumulative);
    assert!(e.copy_self_extra().flags() == e.flags());
}

//! Series of one source kept at every timescale: per day, week, month,
//! quarter, year and decade, or per height and difficulty epoch.

use vstd::prelude::*;
use vstd::string::*;

use crate::builder::{
    aligned_ready_at, aligned_slots, compute_ready, computed_slots, extend_ready, extended_slots,
    imported_slots, inputs_version, keeps_percentiles, ComputedVecBuilder, StatKind,
};
use crate::column::{Column, ColumnView};
use crate::options::{no_flags, StatFlags, StorableVecGeneatorOptions};

verus! {

/// The maps between timescales that grouped series are computed with: for
/// each period, its first entry at the finer timescale and its count.
pub struct Indexes {
    pub weekindex_to_first_dateindex: Column<usize>,
    pub weekindex_to_dateindex_count: Column<usize>,
    pub monthindex_to_first_dateindex: Column<usize>,
    pub monthindex_to_dateindex_count: Column<usize>,
    pub quarterindex_to_first_monthindex: Column<usize>,
    pub quarterindex_to_monthindex_count: Column<usize>,
    pub yearindex_to_first_monthindex: Column<usize>,
    pub yearindex_to_monthindex_count: Column<usize>,
    pub decadeindex_to_first_yearindex: Column<usize>,
    pub decadeindex_to_yearindex_count: Column<usize>,
    pub difficultyepoch_to_first_height: Column<usize>,
    pub difficultyepoch_to_height_count: Column<usize>,
}

/// Where recomputation starts at each timescale.
#[derive(Clone, Copy)]
pub struct StartingIndexes {
    pub height: usize,
    pub dateindex: usize,
    pub weekindex: usize,
    pub monthindex: usize,
    pub quarterindex: usize,
    pub yearindex: usize,
    pub decadeindex: usize,
    pub difficultyepoch: usize,
}

/// The options for the running total kept beside a source.
pub open spec fn extra_flags(f: StatFlags) -> StatFlags {
    StatFlags { cumulative: f.cumulative, ..no_flags() }
}

/// The options for the coarser timescales: no percentiles.
pub open spec fn coarse_flags(f: StatFlags) -> StatFlags {
    StatFlags { p90: false, p75: false, median: false, p25: false, p10: false, ..f }
}

/// Whether two builders keep the same statistics with the same values.
pub open spec fn same_slots(b: ComputedVecBuilder, s: spec_fn(StatKind) -> Option<ColumnView<u64>>) -> bool {
    forall|k: StatKind| #[trigger] b.slot(k) == s(k)
}

/// A series per day and its statistics per week, month, quarter, year and decade.
pub struct ComputedVecsFromDateIndex {
    pub dateindex: Option<Column<u64>>,
    pub dateindex_extra: ComputedVecBuilder,
    pub weekindex: ComputedVecBuilder,
    pub monthindex: ComputedVecBuilder,
    pub quarterindex: ComputedVecBuilder,
    pub yearindex: ComputedVecBuilder,
    pub decadeindex: ComputedVecBuilder,
}

impl ComputedVecsFromDateIndex {
    /// The daily series (when it is computed here), its running total when
    /// the options keep one, and the statistics of the coarser timescales
    /// without percentiles.
    pub fn forced_import(
        name: &str,
        compute_source: bool,
        version: u64,
        options: StorableVecGeneatorOptions,
    ) -> (r: Self)
        ensures
            compute_source ==> r.dateindex is Some && r.dateindex.unwrap()@ == (ColumnView::<u64> {
                name: name@,
                version,
                computed_version: 0,
                values: Seq::empty(),
            }),
            !compute_source ==> r.dateindex is None,
            same_slots(r.dateindex_extra, imported_slots(name@, version, extra_flags(options@))),
            same_slots(r.weekindex, imported_slots(name@, version, coarse_flags(options@))),
            same_slots(r.monthindex, imported_slots(name@, version, coarse_flags(options@))),
            same_slots(r.quarterindex, imported_slots(name@, version, coarse_flags(options@))),
            same_slots(r.yearindex, imported_slots(name@, version, coarse_flags(options@))),
            same_slots(r.decadeindex, imported_slots(name@, version, coarse_flags(options@))),
    {
        let dateindex = if compute_source {
            Some(Column::new(String::from_str(name), version))
        } else {
            None
        };
        let dateindex_extra = ComputedVecBuilder::forced_import(
            name,
            version,
            options.copy_self_extra(),
        );
        let options = options.remove_percentiles();
        ComputedVecsFromDateIndex {
            dateindex,
            dateindex_extra,
            weekindex: ComputedVecBuilder::forced_import(name, version, options),
            monthindex: ComputedVecBuilder::forced_import(name, version, options),
            quarterindex: ComputedVecBuilder::forced_import(name, version, options),
            yearindex: ComputedVecBuilder::forced_import(name, version, options),
            decadeindex: ComputedVecBuilder::forced_import(name, version, options),
        }
    }
}

/// The daily values a date-indexed family is computed from: the given
/// series, or its own daily series when none is given.
pub open spec fn daily_source(own: Option<Column<u64>>, given: Option<&Column<u64>>) -> ColumnView<u64> {
    match given {
        Some(c) => c@,
        None => own.unwrap()@,
    }
}

/// The month statistics after a date-indexed family is computed.
pub open spec fn month_slots(
    b: ComputedVecsFromDateIndex,
    ix: Indexes,
    st: StartingIndexes,
    src: ColumnView<u64>,
) -> spec_fn(StatKind) -> Option<ColumnView<u64>> {
    computed_slots(
        b.monthindex.slots(),
        inputs_version(src, ix.monthindex_to_first_dateindex@, ix.monthindex_to_dateindex_count@),
        st.monthindex as int,
        src.values,
        ix.monthindex_to_first_dateindex@.values,
        ix.monthindex_to_dateindex_count@.values,
    )
}

/// The year statistics after a date-indexed family is computed.
pub open spec fn year_slots(
    b: ComputedVecsFromDateIndex,
    ix: Indexes,
    st: StartingIndexes,
    src: ColumnView<u64>,
) -> spec_fn(StatKind) -> Option<ColumnView<u64>> {
    aligned_slots(
        b.yearindex.slots(),
        ix.yearindex_to_first_monthindex.computed_version + ix.yearindex_to_monthindex_count.computed_version,
        st.yearindex as int,
        month_slots(b, ix, st, src),
        ix.yearindex_to_first_monthindex@.values,
        ix.yearindex_to_monthindex_count@.values,
    )
}

/// Whether a date-indexed family can be computed: the daily values exist,
/// every step can take its groups, coarse timescales keep no percentiles,
/// and the versions add up without overflow.
pub open spec fn date_family_ready(
    b: ComputedVecsFromDateIndex,
    ix: Indexes,
    st: StartingIndexes,
    given: Option<&Column<u64>>,
) -> bool {
    let src = daily_source(b.dateindex, given);
    &&& (given is Some || b.dateindex is Some)
    &&& extend_ready(b.dateindex_extra.slots(), st.dateindex as int, src.values)
    &&& b.weekindex.keeps_any()
    &&& b.monthindex.keeps_any()
    &&& b.quarterindex.keeps_any()
    &&& b.yearindex.keeps_any()
    &&& b.decadeindex.keeps_any()
    &&& !keeps_percentiles(b.quarterindex)
    &&& !keeps_percentiles(b.yearindex)
    &&& !keeps_percentiles(b.decadeindex)
    &&& inputs_version(src, ix.weekindex_to_first_dateindex@, ix.weekindex_to_dateindex_count@)
        <= u64::MAX
    &&& inputs_version(src, ix.monthindex_to_first_dateindex@, ix.monthindex_to_dateindex_count@)
        <= u64::MAX
    &&& ix.quarterindex_to_first_monthindex.computed_version
        + ix.quarterindex_to_monthindex_count.computed_version <= u64::MAX
    &&& ix.yearindex_to_first_monthindex.computed_version
        + ix.yearindex_to_monthindex_count.computed_version <= u64::MAX
    &&& ix.decadeindex_to_first_yearindex.computed_version
        + ix.decadeindex_to_yearindex_count.computed_version <= u64::MAX
    &&& compute_ready(
        b.weekindex.slots(),
        inputs_version(src, ix.weekindex_to_first_dateindex@, ix.weekindex_to_dateindex_count@),
        st.weekindex as int,
        src.values,
        ix.weekindex_to_first_dateindex@.values,
        ix.weekindex_to_dateindex_count@.values,
    )
    &&& compute_ready(
        b.monthindex.slots(),
        inputs_version(src, ix.monthindex_to_first_dateindex@, ix.monthindex_to_dateindex_count@),
        st.monthindex as int,
        src.values,
        ix.monthindex_to_first_dateindex@.values,
        ix.monthindex_to_dateindex_count@.values,
    )
    &&& aligned_ready_at(
        b.quarterindex.slots(),
        ix.quarterindex_to_first_monthindex.computed_version
            + ix.quarterindex_to_monthindex_count.computed_version,
        st.quarterindex as int,
        month_slots(b, ix, st, src),
        ix.quarterindex_to_first_monthindex@.values,
        ix.quarterindex_to_monthindex_count@.values,
    )
    &&& aligned_ready_at(
        b.yearindex.slots(),
        ix.yearindex_to_first_monthindex.computed_version
            + ix.yearindex_to_monthindex_count.computed_version,
        st.yearindex as int,
        month_slots(b, ix, st, src),
        ix.yearindex_to_first_monthindex@.values,
        ix.yearindex_to_monthindex_count@.values,
    )
    &&& aligned_ready_at(
        b.decadeindex.slots(),
        ix.decadeindex_to_first_yearindex.computed_version
            + ix.decadeindex_to_yearindex_count.computed_version,
        st.decadeindex as int,
        year_slots(b, ix, st, src),
        ix.decadeindex_to_first_yearindex@.values,
        ix.decadeindex_to_yearindex_count@.values,
    )
}

impl ComputedVecsFromDateIndex {
    /// Brings every timescale up to date from the daily values: the
    /// running total, then weeks and months from days, quarters and years
    /// from months, and decades from years.
    pub fn compute_rest(
        &mut self,
        indexes: &Indexes,
        starting_indexes: &StartingIndexes,
        dateindex: Option<&Column<u64>>,
    )
        requires
            date_family_ready(*old(self), *indexes, *starting_indexes, dateindex),
        ensures
            ({
                let b = *old(self);
                let ix = *indexes;
                let st = *starting_indexes;
                let src = daily_source(b.dateindex, dateindex);
                &&& final(self).dateindex == b.dateindex
                &&& same_slots(
                    final(self).dateindex_extra,
                    extended_slots(b.dateindex_extra.slots(), st.dateindex as int, src.values),
                )
                &&& same_slots(
                    final(self).weekindex,
                    computed_slots(
                        b.weekindex.slots(),
                        inputs_version(
                            src,
                            ix.weekindex_to_first_dateindex@,
                            ix.weekindex_to_dateindex_count@,
                        ),
                        st.weekindex as int,
                        src.values,
                        ix.weekindex_to_first_dateindex@.values,
                        ix.weekindex_to_dateindex_count@.values,
                    ),
                )
                &&& same_slots(final(self).monthindex, month_slots(b, ix, st, src))
                &&& same_slots(
                    final(self).quarterindex,
                    aligned_slots(
                        b.quarterindex.slots(),
                        ix.quarterindex_to_first_monthindex.computed_version
                            + ix.quarterindex_to_monthindex_count.computed_version,
                        st.quarterindex as int,
                        month_slots(b, ix, st, src),
                        ix.quarterindex_to_first_monthindex@.values,
                        ix.quarterindex_to_monthindex_count@.values,
                    ),
                )
                &&& same_slots(final(self).yearindex, year_slots(b, ix, st, src))
                &&& same_slots(
                    final(self).decadeindex,
                    aligned_slots(
                        b.decadeindex.slots(),
                        ix.decadeindex_to_first_yearindex.computed_version
                            + ix.decadeindex_to_yearindex_count.computed_version,
                        st.decadeindex as int,
                        year_slots(b, ix, st, src),
                        ix.decadeindex_to_first_yearindex@.values,
                        ix.decadeindex_to_yearindex_count@.values,
                    ),
                )
            }),
    {
        let ghost b = *self;
        let ghost src = daily_source(b.dateindex, dateindex);
        let source: &Column<u64> = match dateindex {
            Some(c) => c,
            None => self.dateindex.as_ref().unwrap(),
        };
        assert(source@ == src);
        self.dateindex_extra.extend(starting_indexes.dateindex, source);
        proof {
            assert forall|k: StatKind| #[trigger] self.dateindex_extra.slot(k) == extended_slots(
                b.dateindex_extra.slots(),
                starting_indexes.dateindex as int,
                src.values,
            )(k) by {}
        }
        self.weekindex.compute(
            starting_indexes.weekindex,
            source,
            &indexes.weekindex_to_first_dateindex,
            &indexes.weekindex_to_dateindex_count,
        );
        self.monthindex.compute(
            starting_indexes.monthindex,
            source,
            &indexes.monthindex_to_first_dateindex,
            &indexes.monthindex_to_dateindex_count,
        );
        proof {
            assert(self.monthindex.slots() =~= month_slots(b, *indexes, *starting_indexes, src));
        }
        self.quarterindex.from_aligned(
            starting_indexes.quarterindex,
            &self.monthindex,
            &indexes.quarterindex_to_first_monthindex,
            &indexes.quarterindex_to_monthindex_count,
        );
        self.yearindex.from_aligned(
            starting_indexes.yearindex,
            &self.monthindex,
            &indexes.yearindex_to_first_monthindex,
            &indexes.yearindex_to_monthindex_count,
        );
        proof {
            assert(self.yearindex.slots() =~= year_slots(b, *indexes, *starting_indexes, src));
        }
        self.decadeindex.from_aligned(
            starting_indexes.decadeindex,
            &self.yearindex,
            &indexes.decadeindex_to_first_yearindex,
            &indexes.decadeindex_to_yearindex_count,
        );
    }
}

/// A series per height, its running total, and its statistics per
/// difficulty epoch.
pub struct ComputedVecsFromHeightStrict {
    pub height: Column<u64>,
    pub height_extra: ComputedVecBuilder,
    pub difficultyepoch: ComputedVecBuilder,
}

impl ComputedVecsFromHeightStrict {
    /// The per-height series, its running total when the options keep one,
    /// and the epoch statistics without percentiles.
    pub fn forced_import(name: &str, version: u64, options: StorableVecGeneatorOptions) -> (r: Self)
        ensures
            r.height@ == (ColumnView::<u64> {
                name: name@,
                version,
                computed_version: 0,
                values: Seq::empty(),
            }),
            same_slots(r.height_extra, imported_slots(name@, version, extra_flags(options@))),
            same_slots(r.difficultyepoch, imported_slots(name@, version, coarse_flags(options@))),
    {
        let height = Column::new(String::from_str(name), version);
        let height_extra = ComputedVecBuilder::forced_import(name, version, options.copy_self_extra());
        let options = options.remove_percentiles();
        ComputedVecsFromHeightStrict {
            height,
            height_extra,
            difficultyepoch: ComputedVecBuilder::forced_import(name, version, options),
        }
    }

    /// Brings the running total and the epoch statistics up to date with the
    /// per-height series, which the caller has computed first.
    pub fn compute(&mut self, indexes: &Indexes, starting_indexes: &StartingIndexes)
        requires
            ({
                let b = *old(self);
                let ix = *indexes;
                let st = *starting_indexes;
                &&& extend_ready(b.height_extra.slots(), st.height as int, b.height@.values)
                &&& b.difficultyepoch.keeps_any()
                &&& inputs_version(
                    b.height@,
                    ix.difficultyepoch_to_first_height@,
                    ix.difficultyepoch_to_height_count@,
                ) <= u64::MAX
                &&& compute_ready(
                    b.difficultyepoch.slots(),
                    inputs_version(
                        b.height@,
                        ix.difficultyepoch_to_first_height@,
                        ix.difficultyepoch_to_height_count@,
                    ),
                    st.difficultyepoch as int,
                    b.height@.values,
                    ix.difficultyepoch_to_first_height@.values,
                    ix.difficultyepoch_to_height_count@.values,
                )
            }),
        ensures
            ({
                let b = *old(self);
                let ix = *indexes;
                let st = *starting_indexes;
                &&& final(self).height == b.height
                &&& same_slots(
                    final(self).height_extra,
                    extended_slots(b.height_extra.slots(), st.height as int, b.height@.values),
                )
                &&& same_slots(
                    final(self).difficultyepoch,
                    computed_slots(
                        b.difficultyepoch.slots(),
                        inputs_version(
                            b.height@,
                            ix.difficultyepoch_to_first_height@,
                            ix.difficultyepoch_to_height_count@,
                        ),
                        st.difficultyepoch as int,
                        b.height@.values,
                        ix.difficultyepoch_to_first_height@.values,
                        ix.difficultyepoch_to_height_count@.values,
                    ),
                )
            }),
    {
        self.height_extra.extend(starting_indexes.height, &self.height);
        self.difficultyepoch.compute(
            starting_indexes.difficultyepoch,
            &self.height,
            &indexes.difficultyepoch_to_first_height,
            &indexes.difficultyepoch_to_height_count,
        );
    }
}

} // verus!

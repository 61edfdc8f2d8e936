//! Which statistics a grouped series keeps: a small set of switches with a
//! builder-style interface.

use vstd::prelude::*;

verus! {

/// The twelve switches of a set of options, as plain booleans.
#[derive(Clone, Copy, PartialEq, Eq, Structural, Debug)]
pub struct StatFlags {
    pub average: bool,
    pub sum: bool,
    pub max: bool,
    pub p90: bool,
    pub p75: bool,
    pub median: bool,
    pub p25: bool,
    pub p10: bool,
    pub min: bool,
    pub first: bool,
    pub last: bool,
    pub cumulative: bool,
}

/// All switches off.
pub open spec fn no_flags() -> StatFlags {
    StatFlags {
        average: false,
        sum: false,
        max: false,
        p90: false,
        p75: false,
        median: false,
        p25: false,
        p10: false,
        min: false,
        first: false,
        last: false,
        cumulative: false,
    }
}

pub open spec fn bool_count(b: bool) -> nat {
    if b {
        1
    } else {
        0
    }
}

/// How many switches are on.
pub open spec fn active_count(f: StatFlags) -> nat {
    count_true(flag_seq(f))
}

/// Options that select the statistics kept for a grouped series.
#[derive(Clone, Copy)]
pub struct StorableVecGeneatorOptions {
    average: bool,
    sum: bool,
    max: bool,
    _90p: bool,
    _75p: bool,
    median: bool,
    _25p: bool,
    _10p: bool,
    min: bool,
    first: bool,
    last: bool,
    cumulative: bool,
}

impl View for StorableVecGeneatorOptions {
    type V = StatFlags;

    closed spec fn view(&self) -> StatFlags {
        StatFlags {
            average: self.average,
            sum: self.sum,
            max: self.max,
            p90: self._90p,
            p75: self._75p,
            median: self.median,
            p25: self._25p,
            p10: self._10p,
            min: self.min,
            first: self.first,
            last: self.last,
            cumulative: self.cumulative,
        }
    }
}

impl Default for StorableVecGeneatorOptions {
    /// Every switch off.
    fn default() -> (r: Self)
        ensures
            r@ == no_flags(),
    {
        StorableVecGeneatorOptions {
            average: false,
            sum: false,
            max: false,
            _90p: false,
            _75p: false,
            median: false,
            _25p: false,
            _10p: false,
            min: false,
            first: false,
            last: false,
            cumulative: false,
        }
    }
}

impl StorableVecGeneatorOptions {
    /// The options whose switches are the given flags.
    pub fn from_flags(f: StatFlags) -> (r: Self)
        ensures
            r@ == f,
    {
        StorableVecGeneatorOptions {
            average: f.average,
            sum: f.sum,
            max: f.max,
            _90p: f.p90,
            _75p: f.p75,
            median: f.median,
            _25p: f.p25,
            _10p: f.p10,
            min: f.min,
            first: f.first,
            last: f.last,
            cumulative: f.cumulative,
        }
    }

    /// The switches as plain booleans.
    pub fn flags(&self) -> (r: StatFlags)
        ensures
            r == self@,
    {
        StatFlags {
            average: self.average,
            sum: self.sum,
            max: self.max,
            p90: self._90p,
            p75: self._75p,
            median: self.median,
            p25: self._25p,
            p10: self._10p,
            min: self.min,
            first: self.first,
            last: self.last,
            cumulative: self.cumulative,
        }
    }

    pub fn add_first(self) -> (r: Self)
        ensures
            r@ == (StatFlags { first: true, ..self@ }),
    {
        let mut o = self;
        o.first = true;
        o
    }

    pub fn add_last(self) -> (r: Self)
        ensures
            r@ == (StatFlags { last: true, ..self@ }),
    {
        let mut o = self;
        o.last = true;
        o
    }

    pub fn add_min(self) -> (r: Self)
        ensures
            r@ == (StatFlags { min: true, ..self@ }),
    {
        let mut o = self;
        o.min = true;
        o
    }

    pub fn add_max(self) -> (r: Self)
        ensures
            r@ == (StatFlags { max: true, ..self@ }),
    {
        let mut o = self;
        o.max = true;
        o
    }

    pub fn add_median(self) -> (r: Self)
        ensures
            r@ == (StatFlags { median: true, ..self@ }),
    {
        let mut o = self;
        o.median = true;
        o
    }

    pub fn add_average(self) -> (r: Self)
        ensures
            r@ == (StatFlags { average: true, ..self@ }),
    {
        let mut o = self;
        o.average = true;
        o
    }

    pub fn add_sum(self) -> (r: Self)
        ensures
            r@ == (StatFlags { sum: true, ..self@ }),
    {
        let mut o = self;
        o.sum = true;
        o
    }

    pub fn add_90p(self) -> (r: Self)
        ensures
            r@ == (StatFlags { p90: true, ..self@ }),
    {
        let mut o = self;
        o._90p = true;
        o
    }

    pub fn add_75p(self) -> (r: Self)
        ensures
            r@ == (StatFlags { p75: true, ..self@ }),
    {
        let mut o = self;
        o._75p = true;
        o
    }

    pub fn add_25p(self) -> (r: Self)
        ensures
            r@ == (StatFlags { p25: true, ..self@ }),
    {
        let mut o = self;
        o._25p = true;
        o
    }

    pub fn add_10p(self) -> (r: Self)
        ensures
            r@ == (StatFlags { p10: true, ..self@ }),
    {
        let mut o = self;
        o._10p = true;
        o
    }

    pub fn add_cumulative(self) -> (r: Self)
        ensures
            r@ == (StatFlags { cumulative: true, ..self@ }),
    {
        let mut o = self;
        o.cumulative = true;
        o
    }

    pub fn rm_min(self) -> (r: Self)
        ensures
            r@ == (StatFlags { min: false, ..self@ }),
    {
        let mut o = self;
        o.min = false;
        o
    }

    pub fn rm_max(self) -> (r: Self)
        ensures
            r@ == (StatFlags { max: false, ..self@ }),
    {
        let mut o = self;
        o.max = false;
        o
    }

    pub fn rm_median(self) -> (r: Self)
        ensures
            r@ == (StatFlags { median: false, ..self@ }),
    {
        let mut o = self;
        o.median = false;
        o
    }

    pub fn rm_average(self) -> (r: Self)
        ensures
            r@ == (StatFlags { average: false, ..self@ }),
    {
        let mut o = self;
        o.average = false;
        o
    }

    pub fn rm_sum(self) -> (r: Self)
        ensures
            r@ == (StatFlags { sum: false, ..self@ }),
    {
        let mut o = self;
        o.sum = false;
        o
    }

    pub fn rm_90p(self) -> (r: Self)
        ensures
            r@ == (StatFlags { p90: false, ..self@ }),
    {
        let mut o = self;
        o._90p = false;
        o
    }

    pub fn rm_75p(self) -> (r: Self)
        ensures
            r@ == (StatFlags { p75: false, ..self@ }),
    {
        let mut o = self;
        o._75p = false;
        o
    }

    pub fn rm_25p(self) -> (r: Self)
        ensures
            r@ == (StatFlags { p25: false, ..self@ }),
    {
        let mut o = self;
        o._25p = false;
        o
    }

    pub fn rm_10p(self) -> (r: Self)
        ensures
            r@ == (StatFlags { p10: false, ..self@ }),
    {
        let mut o = self;
        o._10p = false;
        o
    }

    pub fn rm_cumulative(self) -> (r: Self)
        ensures
            r@ == (StatFlags { cumulative: false, ..self@ }),
    {
        let mut o = self;
        o.cumulative = false;
        o
    }

    pub fn add_minmax(self) -> (r: Self)
        ensures
            r@ == (StatFlags { min: true, max: true, ..self@ }),
    {
        let mut o = self;
        o.min = true;
        o.max = true;
        o
    }

    pub fn add_percentiles(self) -> (r: Self)
        ensures
            r@ == (StatFlags { p90: true, p75: true, median: true, p25: true, p10: true, ..self@ }),
    {
        let mut o = self;
        o._90p = true;
        o._75p = true;
        o.median = true;
        o._25p = true;
        o._10p = true;
        o
    }

    pub fn remove_percentiles(self) -> (r: Self)
        ensures
            r@ == (StatFlags {
                p90: false,
                p75: false,
                median: false,
                p25: false,
                p10: false,
                ..self@
            }),
    {
        let mut o = self;
        o._90p = false;
        o._75p = false;
        o.median = false;
        o._25p = false;
        o._10p = false;
        o
    }

    /// Whether exactly one switch is on.
    pub fn is_only_one_active(&self) -> (r: bool)
        ensures
            r == (active_count(self@) == 1),
    {
        let fields: [bool; 12] = [
            self.average,
            self.sum,
            self.max,
            self._90p,
            self._75p,
            self.median,
            self._25p,
            self._10p,
            self.min,
            self.first,
            self.last,
            self.cumulative,
        ];
        let mut count: u8 = 0;
        let mut i: usize = 0;
        while i < 12
            invariant
                0 <= i <= 12,
                fields@ == flag_seq(self@),
                count == count_true(fields@.take(i as int)),
                count <= i,
            decreases 12 - i,
        {
            proof {
                assert(fields@.take(i + 1).drop_last() =~= fields@.take(i as int));
            }
            if fields[i] {
                count = count + 1;
            }
            i = i + 1;
        }
        proof {
            assert(fields@.take(12) =~= fields@);
        }
        count == 1
    }

    /// Keeps only the running-total switch of these options, all others off.
    pub fn copy_self_extra(&self) -> (r: Self)
        ensures
            r@ == (StatFlags { cumulative: self@.cumulative, ..no_flags() }),
    {
        StorableVecGeneatorOptions {
            cumulative: self.cumulative,
            ..Self::default()
        }
    }
}

/// How many entries of a sequence of switches are on.
pub open spec fn count_true(s: Seq<bool>) -> nat
    decreases s.len(),
{
    if s.len() == 0 {
        0
    } else {
        count_true(s.drop_last()) + bool_count(s.last())
    }
}

/// The switches in the order the options list them.
pub open spec fn flag_seq(f: StatFlags) -> Seq<bool> {
    seq![
        f.average,
        f.sum,
        f.max,
        f.p90,
        f.p75,
        f.median,
        f.p25,
        f.p10,
        f.min,
        f.first,
        f.last,
        f.cumulative,
    ]
}

/// Adding a statistic and then removing it is the same as removing it.
pub proof fn lemma_add_then_rm(o: StatFlags)
    ensures
        (StatFlags { min: false, ..(StatFlags { min: true, ..o }) }) == (StatFlags { min: false, ..o }),
        (StatFlags { max: false, ..(StatFlags { max: true, ..o }) }) == (StatFlags { max: false, ..o }),
        (StatFlags { median: false, ..(StatFlags { median: true, ..o }) }) == (StatFlags {
            median: false,
            ..o
        }),
        (StatFlags { average: false, ..(StatFlags { average: true, ..o }) }) == (StatFlags {
            average: false,
            ..o
        }),
        (StatFlags { sum: false, ..(StatFlags { sum: true, ..o }) }) == (StatFlags { sum: false, ..o }),
        (StatFlags { p90: false, ..(StatFlags { p90: true, ..o }) }) == (StatFlags { p90: false, ..o }),
        (StatFlags { p75: false, ..(StatFlags { p75: true, ..o }) }) == (StatFlags { p75: false, ..o }),
        (StatFlags { p25: false, ..(StatFlags { p25: true, ..o }) }) == (StatFlags { p25: false, ..o }),
        (StatFlags { p10: false, ..(StatFlags { p10: true, ..o }) }) == (StatFlags { p10: false, ..o }),
        (StatFlags { cumulative: false, ..(StatFlags { cumulative: true, ..o }) }) == (StatFlags {
            cumulative: false,
            ..o
        }),
{
}

/// Adding both extremes is adding the minimum and then the maximum, and
/// adding the percentiles is adding each of the five.
pub proof fn lemma_grouped_adds(o: StatFlags)
    ensures
        (StatFlags { min: true, max: true, ..o }) == (StatFlags {
            max: true,
            ..(StatFlags { min: true, ..o })
        }),
        (StatFlags { p90: true, p75: true, median: true, p25: true, p10: true, ..o }) == (StatFlags {
            p10: true,
            ..(StatFlags {
                p25: true,
                ..(StatFlags { median: true, ..(StatFlags { p75: true, ..(StatFlags { p90: true, ..o }) }) })
            })
        }),
{
}

/// Removing the percentiles undoes adding them, apart from percentiles that were kept before.
pub proof fn lemma_remove_after_add_percentiles(o: StatFlags)
    ensures
        (StatFlags {
            p90: false,
            p75: false,
            median: false,
            p25: false,
            p10: false,
            ..(StatFlags { p90: true, p75: true, median: true, p25: true, p10: true, ..o })
        }) == (StatFlags { p90: false, p75: false, median: false, p25: false, p10: false, ..o }),
{
}

/// The running-total options keep at most that one statistic, and taking
/// them twice changes nothing.
pub proof fn lemma_extra_flags(o: StatFlags)
    ensures
        active_count(StatFlags { cumulative: o.cumulative, ..no_flags() }) == bool_count(o.cumulative),
        (StatFlags {
            cumulative: (StatFlags { cumulative: o.cumulative, ..no_flags() }).cumulative,
            ..no_flags()
        }) == (StatFlags { cumulative: o.cumulative, ..no_flags() }),
{
    reveal_with_fuel(count_true, 13);
}

/// Options with one statistic added to none have exactly one active.
pub proof fn lemma_single_statistic_is_only_one()
    ensures
        active_count(StatFlags { first: true, ..no_flags() }) == 1,
        active_count(StatFlags { last: true, ..no_flags() }) == 1,
        active_count(StatFlags { min: true, ..no_flags() }) == 1,
        active_count(StatFlags { max: true, ..no_flags() }) == 1,
        active_count(StatFlags { median: true, ..no_flags() }) == 1,
        active_count(StatFlags { average: true, ..no_flags() }) == 1,
        active_count(StatFlags { sum: true, ..no_flags() }) == 1,
        active_count(StatFlags { p90: true, ..no_flags() }) == 1,
        active_count(StatFlags { p75: true, ..no_flags() }) == 1,
        active_count(StatFlags { p25: true, ..no_flags() }) == 1,
        active_count(StatFlags { p10: true, ..no_flags() }) == 1,
        active_count(StatFlags { cumulative: true, ..no_flags() }) == 1,
        active_count(no_flags()) == 0,
{
    reveal_with_fuel(count_true, 13);
}

} // verus!

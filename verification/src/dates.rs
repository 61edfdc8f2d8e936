//! The calendar of the chain: the date of each block from its fixed time,
//! the index of each date, and the maps between heights, days, weeks,
//! months, quarters, years, decades and difficulty epochs that grouped
//! series are computed with.

use vstd::prelude::*;

verus! {

/// The UTC calendar date (year, month, day) of a timestamp in seconds.
pub uninterp spec fn date_of(timestamp: u32) -> (u16, u8, u8);

/// The index of a date counted in days from the chain's first day
/// (2009-01-03 is day zero and 2009-01-09 day one), or nothing for a date
/// that has no index.
pub uninterp spec fn dateindex_of(date: (u16, u8, u8)) -> Option<u16>;

/// The index of the week of a date index.
pub uninterp spec fn weekindex_of(dateindex: usize) -> usize;

/// The index of the month of a date index.
pub uninterp spec fn monthindex_of(dateindex: usize) -> usize;

/// The date of a timestamp in UTC (`brk_core::Date::from(Timestamp)`, which
/// converts through `jiff` in the UTC time zone), read out as year, month
/// and day. Nothing is claimed of the result but that it is the named date
/// of the timestamp: the calendar arithmetic is `jiff`'s.
#[verifier::external_body]
fn date_of_timestamp(t: u32) -> (r: (u16, u8, u8))
    ensures
        r == date_of(t),
{
    let d = brk_core::Date::from(brk_core::Timestamp::new(t));
    (d.year(), d.month(), d.day())
}

/// The index of a date (`brk_core::DateIndex::try_from(Date)`), nothing
/// where it refuses the date. Only dates of timestamps are handed in: they
/// are valid calendar dates, and the count of days from 2009 fits.
#[verifier::external_body]
fn dateindex_of_date(date: (u16, u8, u8)) -> (r: Option<u16>)
    requires
        exists|t: u32| date_of(t) == date,
    ensures
        r == dateindex_of(date),
{
    match brk_core::DateIndex::try_from(brk_core::Date::new(date.0, date.1, date.2)) {
        Ok(i) => Some(usize::from(i) as u16),
        Err(_) => None,
    }
}

/// The week of a date index (`brk_core::WeekIndex::from(DateIndex)`).
#[verifier::external_body]
fn weekindex_of_dateindex(dateindex: usize) -> (r: usize)
    requires
        dateindex <= u16::MAX,
    ensures
        r == weekindex_of(dateindex),
{
    usize::from(brk_core::WeekIndex::from(brk_core::DateIndex::from(dateindex)))
}

/// The month of a date index (`brk_core::MonthIndex::from(DateIndex)`).
#[verifier::external_body]
fn monthindex_of_dateindex(dateindex: usize) -> (r: usize)
    requires
        dateindex <= u16::MAX,
    ensures
        r == monthindex_of(dateindex),
{
    usize::from(brk_core::MonthIndex::from(brk_core::DateIndex::from(dateindex)))
}

/// The dates of the fixed block times from `start` on.
pub fn dates_of(fixed: &Vec<u32>, start: usize) -> (r: Vec<(u16, u8, u8)>)
    requires
        start <= fixed@.len(),
    ensures
        r@.len() == fixed@.len() - start,
        forall|j: int| 0 <= j < r@.len() ==> #[trigger] r@[j] == date_of(fixed@[start + j]),
{
    let mut out: Vec<(u16, u8, u8)> = Vec::new();
    let mut i = start;
    while i < fixed.len()
        invariant
            start <= i <= fixed@.len(),
            out@.len() == i - start,
            forall|j: int| 0 <= j < out@.len() ==> #[trigger] out@[j] == date_of(fixed@[start + j]),
        decreases fixed@.len() - i,
    {
        out.push(date_of_timestamp(fixed[i]));
        i = i + 1;
    }
    out
}

/// Whether keys start at zero and each is the one before or the next.
pub open spec fn steps_by_one(keys: Seq<usize>) -> bool {
    keys.len() > 0 ==> {
        &&& keys[0] == 0
        &&& forall|i: int| 0 <= i < keys.len() - 1 ==> #[trigger] keys[i + 1] == keys[i] || keys[i + 1] == keys[i] + 1
    }
}

/// The number of distinct keys of keys that step by one.
pub open spec fn key_count(keys: Seq<usize>) -> int {
    if keys.len() == 0 {
        0
    } else {
        keys.last() + 1
    }
}

/// Whether `firsts` and `counts` cut the positions of `keys` into runs, one
/// per key in order: run `k` starts at `firsts[k]`, holds `counts[k]`
/// positions, all with key `k`, and starts where run `k - 1` ends. So
/// `firsts[k]` is the first position holding `k` and `counts[k]` the number
/// of positions holding it.
pub open spec fn runs_of(keys: Seq<usize>, firsts: Seq<usize>, counts: Seq<usize>) -> bool {
    let n = key_count(keys);
    &&& firsts.len() == n
    &&& counts.len() == n
    &&& n > 0 ==> firsts[0] == 0 && firsts[n - 1] + counts[n - 1] == keys.len()
    &&& forall|k: int| 0 <= k < n - 1 ==> #[trigger] firsts[k + 1] == firsts[k] + counts[k]
    &&& forall|k: int| 0 <= k < n ==> #[trigger] counts[k] >= 1 && firsts[k] + counts[k] <= keys.len()
    &&& forall|k: int, j: int|
        #![trigger keys[j], firsts[k]]
        0 <= k < n && firsts[k] <= j < firsts[k] + counts[k] ==> keys[j] == k
}

/// For keys that start at zero and step by one, the first position and the
/// number of positions of each key; nothing when they do not (a key would
/// have no position).
pub fn first_and_count(keys: &Vec<usize>) -> (r: Option<(Vec<usize>, Vec<usize>)>)
    ensures
        r is Some <==> steps_by_one(keys@),
        r matches Some(fc) ==> runs_of(keys@, fc.0@, fc.1@),
{
    let mut firsts: Vec<usize> = Vec::new();
    let mut counts: Vec<usize> = Vec::new();
    let mut i: usize = 0;
    while i < keys.len()
        invariant
            0 <= i <= keys@.len(),
            steps_by_one(keys@.take(i as int)),
            runs_of(keys@.take(i as int), firsts@, counts@),
        decreases keys@.len() - i,
    {
        let k = keys[i];
        let ghost pre = keys@.take(i as int);
        let ghost now = keys@.take(i + 1);
        proof {
            assert(now.drop_last() =~= pre);
            assert(now[i as int] == k);
            if i > 0 {
                assert(pre.last() == keys@[i - 1]);
            }
        }
        if i > 0 && k == keys[i - 1] {
            let n = counts.len();
            let ghost old_counts = counts@;
            counts.set(n - 1, counts[n - 1] + 1);
            proof {
                assert forall|j: int| 0 <= j < now.len() - 1 implies #[trigger] now[j + 1] == now[j] || now[j + 1]
                    == now[j] + 1 by {
                    if j < i - 1 {
                        assert(pre[j + 1] == now[j + 1] && pre[j] == now[j]);
                    }
                }
                assert forall|kk: int, j: int|
                    #![trigger now[j], firsts@[kk]]
                    0 <= kk < key_count(now) && firsts@[kk] <= j < firsts@[kk] + counts@[kk] implies now[j] == kk by {
                    if j < i {
                        assert(now[j] == pre[j]);
                        assert(counts@[kk] == old_counts[kk] || (kk == n - 1 && j < firsts@[kk] + old_counts[kk]));
                    }
                }
                assert forall|kk: int| 0 <= kk < key_count(now) - 1 implies #[trigger] firsts@[kk + 1] == firsts@[kk]
                    + counts@[kk] by {
                    assert(counts@[kk] == old_counts[kk]);
                }
            }
        } else if k == firsts.len() {
            firsts.push(i);
            counts.push(1);
            proof {
                assert forall|j: int| 0 <= j < now.len() - 1 implies #[trigger] now[j + 1] == now[j] || now[j + 1]
                    == now[j] + 1 by {
                    if j < i - 1 {
                        assert(pre[j + 1] == now[j + 1] && pre[j] == now[j]);
                    }
                }
                assert forall|kk: int, j: int|
                    #![trigger now[j], firsts@[kk]]
                    0 <= kk < key_count(now) && firsts@[kk] <= j < firsts@[kk] + counts@[kk] implies now[j] == kk by {
                    if kk < k {
                        assert(now[j] == pre[j]);
                    }
                }
            }
        } else {
            proof {
                if i == 0 {
                    assert(keys@[0] != 0);
                } else {
                    assert(keys@[(i - 1) + 1] == k);
                    assert(!(keys@[(i - 1) + 1] == keys@[i - 1] || keys@[(i - 1) + 1] == keys@[i - 1] + 1));
                }
            }
            return None;
        }
        i = i + 1;
    }
    proof {
        assert(keys@.take(keys@.len() as int) =~= keys@);
    }
    Some((firsts, counts))
}

/// The date index of each block from its fixed time.
pub open spec fn height_dateindexes(fixed: Seq<u32>) -> Seq<Option<u16>> {
    fixed.map_values(|t: u32| dateindex_of(date_of(t)))
}

/// Whether every block's date has an index.
pub open spec fn all_indexed(s: Seq<Option<u16>>) -> bool {
    forall|i: int| 0 <= i < s.len() ==> (#[trigger] s[i]) is Some
}

pub open spec fn unwrapped(s: Seq<Option<u16>>) -> Seq<usize> {
    s.map_values(|o: Option<u16>| o.unwrap() as usize)
}

/// The week of each of the first `n` date indexes.
pub open spec fn weeks_of(n: int) -> Seq<usize> {
    Seq::new(n as nat, |d: int| weekindex_of(d as usize))
}

/// The month of each of the first `n` date indexes.
pub open spec fn months_of(n: int) -> Seq<usize> {
    Seq::new(n as nat, |d: int| monthindex_of(d as usize))
}

/// Each of the first `n` indexes divided by `c`: the quarter (3) or year
/// (12) of a month, the difficulty epoch (2016) of a height.
pub open spec fn divided(n: int, c: int) -> Seq<usize> {
    Seq::new(n as nat, |i: int| (i / c) as usize)
}

/// The decade of a year index: the first decade holds only the first year
/// (2009), each later one ten years.
pub open spec fn decade_of(y: int) -> int {
    if y == 0 {
        0
    } else {
        (y - 1) / 10 + 1
    }
}

pub open spec fn decades_of(n: int) -> Seq<usize> {
    Seq::new(n as nat, |y: int| decade_of(y) as usize)
}

/// Whether the calendar maps can be built from the fixed block times: every
/// date has an index, and the date indexes of the blocks, and the weeks and
/// months of the date indexes, start at zero and step by one.
pub open spec fn calendar_ok(fixed: Seq<u32>) -> bool {
    let di = height_dateindexes(fixed);
    let days = key_count(unwrapped(di));
    &&& all_indexed(di)
    &&& steps_by_one(unwrapped(di))
    &&& steps_by_one(weeks_of(days))
    &&& steps_by_one(months_of(days))
}

/// The maps between timescales: for each timescale, the coarser index of
/// each finer index, and for each coarser index its first finer index and
/// its number of finer indexes.
pub struct TimeIndexes {
    pub height_to_dateindex: Vec<usize>,
    pub dateindex_to_first_height: Vec<usize>,
    pub dateindex_to_height_count: Vec<usize>,
    pub dateindex_to_weekindex: Vec<usize>,
    pub weekindex_to_first_dateindex: Vec<usize>,
    pub weekindex_to_dateindex_count: Vec<usize>,
    pub dateindex_to_monthindex: Vec<usize>,
    pub monthindex_to_first_dateindex: Vec<usize>,
    pub monthindex_to_dateindex_count: Vec<usize>,
    pub monthindex_to_quarterindex: Vec<usize>,
    pub quarterindex_to_first_monthindex: Vec<usize>,
    pub quarterindex_to_monthindex_count: Vec<usize>,
    pub monthindex_to_yearindex: Vec<usize>,
    pub yearindex_to_first_monthindex: Vec<usize>,
    pub yearindex_to_monthindex_count: Vec<usize>,
    pub yearindex_to_decadeindex: Vec<usize>,
    pub decadeindex_to_first_yearindex: Vec<usize>,
    pub decadeindex_to_yearindex_count: Vec<usize>,
    pub height_to_difficultyepoch: Vec<usize>,
    pub difficultyepoch_to_first_height: Vec<usize>,
    pub difficultyepoch_to_height_count: Vec<usize>,
}

/// What the maps are for the fixed block times `fixed`.
pub open spec fn calendar_of(fixed: Seq<u32>, t: TimeIndexes) -> bool {
    let heights = unwrapped(height_dateindexes(fixed));
    let days = key_count(heights);
    let months = key_count(months_of(days));
    let years = key_count(divided(months, 12));
    &&& t.height_to_dateindex@ == heights
    &&& runs_of(heights, t.dateindex_to_first_height@, t.dateindex_to_height_count@)
    &&& t.dateindex_to_weekindex@ == weeks_of(days)
    &&& runs_of(weeks_of(days), t.weekindex_to_first_dateindex@, t.weekindex_to_dateindex_count@)
    &&& t.dateindex_to_monthindex@ == months_of(days)
    &&& runs_of(months_of(days), t.monthindex_to_first_dateindex@, t.monthindex_to_dateindex_count@)
    &&& t.monthindex_to_quarterindex@ == divided(months, 3)
    &&& runs_of(divided(months, 3), t.quarterindex_to_first_monthindex@, t.quarterindex_to_monthindex_count@)
    &&& t.monthindex_to_yearindex@ == divided(months, 12)
    &&& runs_of(divided(months, 12), t.yearindex_to_first_monthindex@, t.yearindex_to_monthindex_count@)
    &&& t.yearindex_to_decadeindex@ == decades_of(years)
    &&& runs_of(decades_of(years), t.decadeindex_to_first_yearindex@, t.decadeindex_to_yearindex_count@)
    &&& t.height_to_difficultyepoch@ == divided(fixed.len() as int, 2016)
    &&& runs_of(
        divided(fixed.len() as int, 2016),
        t.difficultyepoch_to_first_height@,
        t.difficultyepoch_to_height_count@,
    )
}

/// Indexes divided by a constant step by one.
pub proof fn lemma_divided_steps(n: int, c: int)
    requires
        n >= 0,
        c == 3 || c == 12 || c == 2016,
        n / c <= usize::MAX,
    ensures
        steps_by_one(divided(n, c)),
{
    let s = divided(n, c);
    assert forall|i: int| 0 <= i < s.len() - 1 implies #[trigger] s[i + 1] == s[i] || s[i + 1] == s[i] + 1 by {
        assert((i + 1) / c == i / c || (i + 1) / c == i / c + 1) by (nonlinear_arith)
            requires
                i >= 0,
                c > 0,
        ;
        assert(0 <= i / c <= n / c) by (nonlinear_arith)
            requires
                0 <= i < n,
                c > 0,
        ;
        assert(0 <= (i + 1) / c <= n / c) by (nonlinear_arith)
            requires
                0 <= i + 1 < n,
                c > 0,
        ;
    }
    if n > 0 {
        assert(s[0] == 0);
    }
}

/// Decades of years step by one.
pub proof fn lemma_decades_step(n: int)
    requires
        0 <= n <= usize::MAX,
    ensures
        steps_by_one(decades_of(n)),
{
    let s = decades_of(n);
    assert forall|i: int| 0 <= i < s.len() - 1 implies #[trigger] s[i + 1] == s[i] || s[i + 1] == s[i] + 1 by {
        assert(decade_of(i + 1) == decade_of(i) || decade_of(i + 1) == decade_of(i) + 1);
        assert(0 <= decade_of(i) <= i + 1 && 0 <= decade_of(i + 1) <= i + 1);
    }
}

/// Year index `y` is the calendar year 2009 + y, and its decade index counts
/// calendar decades from the 2000s: 2009 is alone in decade 0, and each
/// later decade `k` holds the ten years 2000 + 10k to 2009 + 10k.
pub proof fn lemma_decade_is_calendar_decade(y: int)
    requires
        y >= 0,
    ensures
        decade_of(y) == (2009 + y) / 10 - 200,
        y >= 1 ==> (decade_of(y) == decade_of(y - 1) + 1 <==> (2009 + y) % 10 == 0),
{
}

/// The number of years in the maps built from block times fits in a
/// `usize`.
proof fn lemma_years_fit(fixed: Seq<u32>)
    ensures
        key_count(divided(key_count(months_of(key_count(unwrapped(height_dateindexes(fixed))))), 12))
            <= usize::MAX,
{
    let days = key_count(unwrapped(height_dateindexes(fixed)));
    let months = key_count(months_of(days));
    let q = divided(months, 12);
    if days > 0 {
        assert(months == months_of(days).last() + 1);
    }
    if months > 0 {
        assert(q.last() == ((months - 1) / 12) as usize);
        assert(0 <= (months - 1) / 12 <= usize::MAX);
    }
}

/// In the maps built from block times, each year index lies in its calendar
/// decade: decade 0 starts at year index 0 (2009) and holds that one year,
/// each later decade `k` starts at year index 10k - 9 (the year 20k0), and
/// every decade but the last holds ten years.
pub proof fn lemma_calendar_decades(fixed: Seq<u32>, t: TimeIndexes)
    requires
        calendar_of(fixed, t),
    ensures
        forall|y: int|
            0 <= y < t.yearindex_to_decadeindex@.len() ==> #[trigger] t.yearindex_to_decadeindex@[y] == (2009
                + y) / 10 - 200,
        forall|k: int|
            0 <= k < t.decadeindex_to_first_yearindex@.len() ==> #[trigger] t.decadeindex_to_first_yearindex@[k]
                == if k == 0 {
                0int
            } else {
                10 * k - 9
            },
        forall|k: int|
            0 <= k < t.decadeindex_to_yearindex_count@.len() - 1 ==> #[trigger] t.decadeindex_to_yearindex_count@[k]
                == if k == 0 {
                1int
            } else {
                10int
            },
{
    let keys = t.yearindex_to_decadeindex@;
    let firsts = t.decadeindex_to_first_yearindex@;
    let counts = t.decadeindex_to_yearindex_count@;
    let years = keys.len();
    lemma_years_fit(fixed);
    assert forall|y: int| 0 <= y < years implies #[trigger] keys[y] == decade_of(y) && keys[y] == (2009 + y) / 10
        - 200 by {
        lemma_decade_is_calendar_decade(y);
    }
    let n = key_count(keys);
    assert forall|k: int| 0 <= k < n implies #[trigger] firsts[k] == if k == 0 {
        0int
    } else {
        10 * k - 9
    } by {
        let f = firsts[k] as int;
        assert(keys[f] == k);
        if k > 0 {
            assert(firsts[k] == firsts[k - 1] + counts[k - 1]);
            assert(keys[f - 1] == k - 1);
            lemma_decade_is_calendar_decade(f);
            lemma_decade_is_calendar_decade(f - 1);
        }
    }
    assert forall|k: int| 0 <= k < n - 1 implies #[trigger] counts[k] == if k == 0 {
        1int
    } else {
        10int
    } by {
        assert(firsts[k + 1] == firsts[k] + counts[k]);
        assert(firsts[k] == if k == 0 {
            0int
        } else {
            10 * k - 9
        });
        assert(firsts[k + 1] == 10 * (k + 1) - 9);
    }
}

fn divided_upto(n: usize, c: usize) -> (r: Vec<usize>)
    requires
        c > 0,
    ensures
        r@ == divided(n as int, c as int),
{
    let mut out: Vec<usize> = Vec::new();
    let mut i: usize = 0;
    while i < n
        invariant
            0 <= i <= n,
            c > 0,
            out@ == divided(i as int, c as int),
        decreases n - i,
    {
        out.push(i / c);
        proof {
            assert(out@ =~= divided(i + 1, c as int));
        }
        i = i + 1;
    }
    out
}

fn decades_upto(n: usize) -> (r: Vec<usize>)
    ensures
        r@ == decades_of(n as int),
{
    let mut out: Vec<usize> = Vec::new();
    let mut i: usize = 0;
    while i < n
        invariant
            0 <= i <= n,
            out@ == decades_of(i as int),
        decreases n - i,
    {
        out.push(if i == 0 { 0 } else { (i - 1) / 10 + 1 });
        proof {
            assert(out@ =~= decades_of(i + 1));
        }
        i = i + 1;
    }
    out
}

fn weeks_upto(n: usize) -> (r: Vec<usize>)
    requires
        n <= u16::MAX + 1,
    ensures
        r@ == weeks_of(n as int),
{
    let mut out: Vec<usize> = Vec::new();
    let mut i: usize = 0;
    while i < n
        invariant
            0 <= i <= n,
            n <= u16::MAX + 1,
            out@ == weeks_of(i as int),
        decreases n - i,
    {
        out.push(weekindex_of_dateindex(i));
        proof {
            assert(out@ =~= weeks_of(i + 1));
        }
        i = i + 1;
    }
    out
}

fn months_upto(n: usize) -> (r: Vec<usize>)
    requires
        n <= u16::MAX + 1,
    ensures
        r@ == months_of(n as int),
{
    let mut out: Vec<usize> = Vec::new();
    let mut i: usize = 0;
    while i < n
        invariant
            0 <= i <= n,
            n <= u16::MAX + 1,
            out@ == months_of(i as int),
        decreases n - i,
    {
        out.push(monthindex_of_dateindex(i));
        proof {
            assert(out@ =~= months_of(i + 1));
        }
        i = i + 1;
    }
    out
}

/// The date index of each block from its fixed time, nothing when a date
/// has no index.
fn dateindexes_of(fixed: &Vec<u32>) -> (r: Option<Vec<usize>>)
    ensures
        r is Some <==> all_indexed(height_dateindexes(fixed@)),
        r matches Some(v) ==> v@ == unwrapped(height_dateindexes(fixed@)),
{
    let dates = dates_of(fixed, 0);
    let ghost di = height_dateindexes(fixed@);
    let mut out: Vec<usize> = Vec::new();
    let mut i: usize = 0;
    while i < dates.len()
        invariant
            0 <= i <= dates@.len(),
            dates@.len() == fixed@.len(),
            forall|j: int| 0 <= j < dates@.len() ==> #[trigger] dates@[j] == date_of(fixed@[j]),
            di == height_dateindexes(fixed@),
            forall|j: int| 0 <= j < i ==> (#[trigger] di[j]) is Some,
            out@ == unwrapped(di.take(i as int)),
        decreases dates@.len() - i,
    {
        proof {
            assert(dates@[i as int] == date_of(fixed@[0 + i]));
        }
        match dateindex_of_date(dates[i]) {
            Some(d) => {
                out.push(d as usize);
                proof {
                    assert(out@ =~= unwrapped(di.take(i + 1)));
                }
            },
            None => {
                proof {
                    assert(di[i as int] is None);
                }
                return None;
            },
        }
        i = i + 1;
    }
    proof {
        assert(di.take(i as int) =~= di);
    }
    Some(out)
}

/// All the maps between timescales from the fixed block times; nothing when
/// a date has no index, or when a day, week or month would hold no entry.
pub fn time_indexes(fixed: &Vec<u32>) -> (r: Option<TimeIndexes>)
    ensures
        r is Some <==> calendar_ok(fixed@),
        r matches Some(t) ==> calendar_of(fixed@, t),
{
    let height_to_dateindex = match dateindexes_of(fixed) {
        Some(v) => v,
        None => return None,
    };
    let (dateindex_to_first_height, dateindex_to_height_count) = match first_and_count(&height_to_dateindex) {
        Some(fc) => fc,
        None => return None,
    };
    let days = dateindex_to_first_height.len();
    proof {
        let h = height_to_dateindex@;
        if h.len() > 0 {
            assert(h.last() == unwrapped(height_dateindexes(fixed@)).last());
            assert(h.last() <= u16::MAX);
        }
    }
    let dateindex_to_weekindex = weeks_upto(days);
    let (weekindex_to_first_dateindex, weekindex_to_dateindex_count) = match first_and_count(&dateindex_to_weekindex) {
        Some(fc) => fc,
        None => return None,
    };
    let dateindex_to_monthindex = months_upto(days);
    let (monthindex_to_first_dateindex, monthindex_to_dateindex_count) = match first_and_count(&dateindex_to_monthindex) {
        Some(fc) => fc,
        None => return None,
    };
    let months = monthindex_to_first_dateindex.len();
    let monthindex_to_quarterindex = divided_upto(months, 3);
    let monthindex_to_yearindex = divided_upto(months, 12);
    proof {
        lemma_divided_steps(months as int, 3);
        lemma_divided_steps(months as int, 12);
        lemma_divided_steps(fixed@.len() as int, 2016);
    }
    let (quarterindex_to_first_monthindex, quarterindex_to_monthindex_count) = first_and_count(&monthindex_to_quarterindex).unwrap();
    let (yearindex_to_first_monthindex, yearindex_to_monthindex_count) = first_and_count(&monthindex_to_yearindex).unwrap();
    let years = yearindex_to_first_monthindex.len();
    let yearindex_to_decadeindex = decades_upto(years);
    proof {
        lemma_decades_step(years as int);
    }
    let (decadeindex_to_first_yearindex, decadeindex_to_yearindex_count) = first_and_count(&yearindex_to_decadeindex).unwrap();
    let height_to_difficultyepoch = divided_upto(fixed.len(), 2016);
    let (difficultyepoch_to_first_height, difficultyepoch_to_height_count) = first_and_count(&height_to_difficultyepoch).unwrap();
    Some(
        TimeIndexes {
            height_to_dateindex,
            dateindex_to_first_height,
            dateindex_to_height_count,
            dateindex_to_weekindex,
            weekindex_to_first_dateindex,
            weekindex_to_dateindex_count,
            dateindex_to_monthindex,
            monthindex_to_first_dateindex,
            monthindex_to_dateindex_count,
            monthindex_to_quarterindex,
            quarterindex_to_first_monthindex,
            quarterindex_to_monthindex_count,
            monthindex_to_yearindex,
            yearindex_to_first_monthindex,
            yearindex_to_monthindex_count,
            yearindex_to_decadeindex,
            decadeindex_to_first_yearindex,
            decadeindex_to_yearindex_count,
            height_to_difficultyepoch,
            difficultyepoch_to_first_height,
            difficultyepoch_to_height_count,
        },
    )
}

} // verus!

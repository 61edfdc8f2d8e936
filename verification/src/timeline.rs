//! Where recomputation resumes along the chain, and block times made
//! monotonic.

use vstd::prelude::*;

verus! {

pub open spec fn max_u32(a: u32, b: u32) -> u32 {
    if a >= b {
        a
    } else {
        b
    }
}

/// The fixed time of block `i` when fixing starts at `start` with the
/// fixed time `prev` of the block before (if any): the latest raw time
/// seen so far.
pub open spec fn fixed_at(prev: Option<u32>, raw: Seq<u32>, start: int, i: int) -> u32
    decreases i - start,
{
    if i <= start {
        match prev {
            Some(p) => max_u32(p, raw[start]),
            None => raw[start],
        }
    } else {
        max_u32(fixed_at(prev, raw, start, i - 1), raw[i])
    }
}

/// Block times made non-decreasing, from block `start` on: each block gets
/// the latest of its own time and the fixed time of the block before. The
/// fixed time before `start` is read from `stored_fixed`.
pub fn fixed_timestamps(stored_fixed: &Vec<u32>, raw: &Vec<u32>, start: usize) -> (r: Vec<u32>)
    requires
        start <= raw@.len(),
        start > 0 ==> start - 1 < stored_fixed@.len(),
    ensures
        r@.len() == raw@.len() - start,
        forall|j: int|
            0 <= j < r@.len() ==> #[trigger] r@[j] == fixed_at(
                if start > 0 {
                    Some(stored_fixed@[start - 1])
                } else {
                    None
                },
                raw@,
                start as int,
                start + j,
            ),
{
    let ghost prev = if start > 0 {
        Some(stored_fixed@[start - 1])
    } else {
        None::<u32>
    };
    let mut last: Option<u32> = if start > 0 {
        Some(stored_fixed[start - 1])
    } else {
        None
    };
    let mut out: Vec<u32> = Vec::new();
    let mut i = start;
    while i < raw.len()
        invariant
            start <= i <= raw@.len(),
            out@.len() == i - start,
            forall|j: int|
                0 <= j < out@.len() ==> #[trigger] out@[j] == fixed_at(prev, raw@, start as int, start + j),
            i == start ==> last == prev,
            i > start ==> last == Some(fixed_at(prev, raw@, start as int, i - 1)),
        decreases raw@.len() - i,
    {
        let t = raw[i];
        let fixed = match last {
            Some(p) => if p >= t {
                p
            } else {
                t
            },
            None => t,
        };
        out.push(fixed);
        last = Some(fixed);
        i = i + 1;
    }
    out
}

/// The date index where recomputation resumes: the one recorded for the
/// block before the resume height before the recomputation (zero when
/// there is none), or the one recorded after it when that is smaller.
pub fn resume_dateindex(before: Option<usize>, after: Option<usize>) -> (r: usize)
    ensures
        r == match after {
            Some(d) => if d < before.unwrap_or(0) {
                d
            } else {
                before.unwrap_or(0)
            },
            None => before.unwrap_or(0),
        },
{
    let start = match before {
        Some(d) => d,
        None => 0,
    };
    match after {
        Some(d) => if d < start {
            d
        } else {
            start
        },
        None => start,
    }
}

/// The length a series counts for: its own, or no bound when it is absent.
pub open spec fn len_or_max(l: Option<usize>) -> int {
    match l {
        Some(v) => v as int,
        None => usize::MAX as int,
    }
}

/// The smallest of the lengths counted so far.
pub open spec fn min_len(lens: Seq<Option<usize>>) -> int
    decreases lens.len(),
{
    if lens.len() == 0 {
        usize::MAX as int
    } else {
        let rest = min_len(lens.drop_last());
        let l = len_or_max(lens.last());
        if l < rest {
            l
        } else {
            rest
        }
    }
}

/// The height from which a cohort's series must be recomputed: the length
/// of the shortest of them; series that are not kept set no bound.
pub fn starting_height(lens: &Vec<Option<usize>>) -> (r: usize)
    ensures
        r == min_len(lens@),
{
    let mut m: usize = usize::MAX;
    let mut i: usize = 0;
    while i < lens.len()
        invariant
            0 <= i <= lens@.len(),
            m == min_len(lens@.take(i as int)),
        decreases lens@.len() - i,
    {
        proof {
            assert(lens@.take(i + 1).drop_last() =~= lens@.take(i as int));
        }
        let l = match lens[i] {
            Some(v) => v,
            None => usize::MAX,
        };
        if l < m {
            m = l;
        }
        i = i + 1;
    }
    proof {
        assert(lens@.take(lens@.len() as int) =~= lens@);
    }
    m
}

/// The smallest entry, zero when there is none.
pub open spec fn min_or_zero(s: Seq<usize>) -> int
    decreases s.len(),
{
    if s.len() == 0 {
        0
    } else if s.len() == 1 {
        s[0] as int
    } else {
        let rest = min_or_zero(s.drop_last());
        if (s.last() as int) < rest {
            s.last() as int
        } else {
            rest
        }
    }
}

fn min_or_zero_exec(s: &Vec<usize>) -> (r: usize)
    ensures
        r == min_or_zero(s@),
{
    if s.len() == 0 {
        return 0;
    }
    let mut m = s[0];
    let mut i: usize = 1;
    proof {
        assert(s@.take(1) =~= seq![s@[0]]);
    }
    while i < s.len()
        invariant
            1 <= i <= s@.len(),
            m == min_or_zero(s@.take(i as int)),
        decreases s@.len() - i,
    {
        proof {
            assert(s@.take(i + 1).drop_last() =~= s@.take(i as int));
        }
        if s[i] < m {
            m = s[i];
        }
        i = i + 1;
    }
    proof {
        assert(s@.take(s@.len() as int) =~= s@);
    }
    m
}

/// How the block-by-block pass over the chain resumes.
#[derive(Clone, Copy, PartialEq, Eq, Structural, Debug)]
pub struct ResumePlan {
    /// Whether the saved per-block chain state is loaded back.
    pub load_chain_state: bool,
    /// The height from which blocks are processed again.
    pub starting_height: usize,
    /// Whether everything restarts from the first block.
    pub reset: bool,
}

/// Where the block-by-block pass resumes. The saved state counts only when
/// every cohort, every address cohort, the stores and the supply series
/// reach at least as far as the saved chain state; then the pass resumes
/// there (or earlier, when asked), otherwise from the first block.
pub fn resume_plan(
    requested: usize,
    cohort_heights: &Vec<usize>,
    address_cohort_heights: &Vec<usize>,
    chain_state_len: usize,
    stores_height: usize,
    unspendable_len: usize,
    opreturn_len: usize,
) -> (r: ResumePlan)
    ensures
        ({
            let m1 = min_or_zero(cohort_heights@);
            let m2 = min_or_zero(address_cohort_heights@);
            let saved_ok = m1 >= chain_state_len && m2 >= chain_state_len && stores_height
                >= chain_state_len && unspendable_len >= chain_state_len && opreturn_len
                >= chain_state_len;
            let resumed = if saved_ok {
                chain_state_len as int
            } else {
                0
            };
            &&& r.load_chain_state == saved_ok
            &&& r.starting_height == if (requested as int) < resumed {
                requested as int
            } else {
                resumed
            }
            &&& r.reset == (r.starting_height == 0)
        }),
{
    let m1 = min_or_zero_exec(cohort_heights);
    let m2 = min_or_zero_exec(address_cohort_heights);
    let mut m = if m1 < m2 {
        m1
    } else {
        m2
    };
    if chain_state_len < m {
        m = chain_state_len;
    }
    if stores_height < m {
        m = stores_height;
    }
    if unspendable_len < m {
        m = unspendable_len;
    }
    if opreturn_len < m {
        m = opreturn_len;
    }
    let load = m == chain_state_len;
    let resumed = if load {
        chain_state_len
    } else {
        0
    };
    let starting = if requested < resumed {
        requested
    } else {
        resumed
    };
    ResumePlan { load_chain_state: load, starting_height: starting, reset: starting == 0 }
}

/// Fixed times never go back, and each is at least the raw time of its block.
pub proof fn lemma_fixed_monotone(prev: Option<u32>, raw: Seq<u32>, start: int, i: int, j: int)
    requires
        0 <= start <= i <= j < raw.len(),
    ensures
        fixed_at(prev, raw, start, i) <= fixed_at(prev, raw, start, j),
        raw[j] <= fixed_at(prev, raw, start, j),
        prev matches Some(p) ==> p <= fixed_at(prev, raw, start, j),
    decreases j,
{
    if j > i {
        lemma_fixed_monotone(prev, raw, start, i, j - 1);
    } else if j > start {
        lemma_fixed_monotone(prev, raw, start, start, j - 1);
    }
}

/// The pass never resumes past what was asked nor past the saved chain
/// state, and it restarts from scratch exactly when it resumes at zero.
pub proof fn lemma_resume_plan_bounds(
    requested: usize,
    cohort_heights: Seq<usize>,
    address_cohort_heights: Seq<usize>,
    chain_state_len: usize,
    stores_height: usize,
    unspendable_len: usize,
    opreturn_len: usize,
    r: ResumePlan,
)
    requires
        ({
            let m1 = min_or_zero(cohort_heights);
            let m2 = min_or_zero(address_cohort_heights);
            let saved_ok = m1 >= chain_state_len && m2 >= chain_state_len && stores_height
                >= chain_state_len && unspendable_len >= chain_state_len && opreturn_len
                >= chain_state_len;
            let resumed = if saved_ok {
                chain_state_len as int
            } else {
                0
            };
            &&& r.load_chain_state == saved_ok
            &&& r.starting_height == if (requested as int) < resumed {
                requested as int
            } else {
                resumed
            }
            &&& r.reset == (r.starting_height == 0)
        }),
    ensures
        r.starting_height <= requested,
        r.starting_height <= chain_state_len,
        !r.load_chain_state ==> r.reset,
{
}

} // verus!

//! Where a percentile lies among sorted measurements: the rank
//! `percent / 100 * (len - 1)`, split into the order statistic below it, the
//! one above it, and how far between the two it falls. The measurements are
//! real numbers and stay with the caller; the rank is exact. Without
//! measurements there is no rank.

use vstd::prelude::*;

verus! {

/// The position of a percentile between two neighbouring order statistics.
#[derive(Clone, Copy, Debug, PartialEq, Eq, Structural)]
pub struct Rank {
    /// Index of the order statistic at or below the rank.
    pub lower: usize,
    /// Index of the order statistic at or above the rank.
    pub upper: usize,
    /// How far the rank lies from `lower` towards `upper`, in hundredths.
    pub hundredths: usize,
}

/// The rank of percentile `percent` among `len` sorted values, times 100.
pub open spec fn scaled_rank(len: int, percent: int) -> int {
    percent * (len - 1)
}

/// The split of the rank: whole part, the index above it (the same index
/// when the rank is whole), and the hundredths in between.
pub open spec fn rank_spec(len: int, percent: int) -> Rank {
    let whole = scaled_rank(len, percent) / 100;
    let part = scaled_rank(len, percent) % 100;
    Rank {
        lower: whole as usize,
        upper: (if part == 0 {
            whole
        } else {
            whole + 1
        }) as usize,
        hundredths: part as usize,
    }
}

/// The rank lies inside the sorted values; percentile 0 is the first value
/// and percentile 100 the last, both exactly.
pub proof fn lemma_rank_in_range(len: int, percent: int)
    requires
        1 <= len <= usize::MAX,
        0 <= percent <= 100,
    ensures
        0 <= scaled_rank(len, percent) / 100 <= len - 1,
        0 <= scaled_rank(len, percent) % 100 < 100,
        scaled_rank(len, percent) % 100 != 0 ==> scaled_rank(len, percent) / 100 + 1 <= len - 1,
        100 * (scaled_rank(len, percent) / 100) + scaled_rank(len, percent) % 100 == percent * (len
            - 1),
        percent == 0 ==> rank_spec(len, percent) == (Rank { lower: 0, upper: 0, hundredths: 0 }),
        percent == 100 ==> rank_spec(len, percent) == (Rank {
            lower: (len - 1) as usize,
            upper: (len - 1) as usize,
            hundredths: 0,
        }),
        len == 1 ==> rank_spec(len, percent) == (Rank { lower: 0, upper: 0, hundredths: 0 }),
{
    let m = len - 1;
    let s = percent * m;
    assert(0 <= s <= 100 * m) by (nonlinear_arith)
        requires
            s == percent * m,
            0 <= percent <= 100,
            m >= 0,
    ;
    vstd::arithmetic::div_mod::lemma_fundamental_div_mod(s, 100);
    let q = s / 100;
    let r = s % 100;
    assert(0 <= r < 100);
    assert(s == 100 * q + r);
    if percent == 0 {
        assert(s == 0) by (nonlinear_arith)
            requires
                s == percent * m,
                percent == 0,
        ;
    }
    if percent == 100 {
        assert(s == 100 * m + 0);
        vstd::arithmetic::div_mod::lemma_fundamental_div_mod_converse(s, 100, m, 0);
    }
    if len == 1 {
        assert(s == 0) by (nonlinear_arith)
            requires
                s == percent * m,
                m == 0,
        ;
    }
}

/// Where percentile `percent` lies among `len` sorted values; `None` when
/// there are no values.
pub fn percentile_rank(len: usize, percent: usize) -> (found: Option<Rank>)
    requires
        percent <= 100,
    ensures
        len == 0 <==> found is None,
        found matches Some(rank) ==> {
            &&& rank == rank_spec(len as int, percent as int)
            &&& rank.lower <= rank.upper < len
            &&& rank.hundredths < 100
            &&& rank.upper - rank.lower == if rank.hundredths == 0 {
                0int
            } else {
                1int
            }
            &&& 100 * rank.lower + rank.hundredths == percent * (len - 1)
        },
{
    if len == 0 {
        return None;
    }
    proof {
        lemma_rank_in_range(len as int, percent as int);
        assert(percent * (len - 1) <= 100 * usize::MAX) by (nonlinear_arith)
            requires
                0 <= percent <= 100,
                0 <= len - 1 <= usize::MAX,
        ;
    }
    let scaled: u128 = (percent as u128) * ((len - 1) as u128);
    let whole = (scaled / 100) as usize;
    let part = (scaled % 100) as usize;
    let upper = if part == 0 {
        whole
    } else {
        whole + 1
    };
    Some(Rank { lower: whole, upper, hundredths: part })
}

} // verus!

use vstd::prelude::*;

verus! {

/// Smallest value of a uniform draw.
pub const DRAW_MIN: u8 = 1;

/// Largest value of a uniform draw.
pub const DRAW_MAX: u8 = 255;

/// Number of buckets of the draw table.
pub const BUCKETS: usize = 7;

/// The value a tile may carry, `128` included.
pub open spec fn is_tile(v: int) -> bool {
    v == 2 || v == 4 || v == 8 || v == 16 || v == 32 || v == 64 || v == 128
}

/// The tile that a uniform draw `n` in `1..=255` turns into: larger tiles are
/// exponentially rarer.
pub open spec fn tile_for_draw(n: int) -> int {
    if n == 1 {
        128
    } else if n <= 3 {
        64
    } else if n <= 7 {
        32
    } else if n <= 15 {
        16
    } else if n <= 31 {
        8
    } else if n <= 63 {
        4
    } else {
        2
    }
}

/// `v` is the outcome of some draw.
pub open spec fn is_draw_outcome(v: int) -> bool {
    exists|n: int| DRAW_MIN <= n <= DRAW_MAX && tile_for_draw(n) == v
}

pub open spec fn bucket_spec(k: int) -> (u8, u8) {
    if k == 0 {
        (1, 128)
    } else if k == 1 {
        (3, 64)
    } else if k == 2 {
        (7, 32)
    } else if k == 3 {
        (15, 16)
    } else if k == 4 {
        (31, 8)
    } else if k == 5 {
        (63, 4)
    } else {
        (255, 2)
    }
}

/// Row `k` of the draw table, in increasing order of its bound: a draw at most
/// `upper` (and above the bound of the row before) gives `value`.
pub fn bucket(k: usize) -> (r: (u8, u8))
    requires
        k < BUCKETS,
    ensures
        r == bucket_spec(k as int),
{
    match k {
        0 => (1, 128),
        1 => (3, 64),
        2 => (7, 32),
        3 => (15, 16),
        4 => (31, 8),
        5 => (63, 4),
        _ => (255, 2),
    }
}

/// Maps a uniform draw to a tile through the draw table.
pub fn value_for_draw(n: u8) -> (r: u8)
    requires
        DRAW_MIN <= n,
    ensures
        r == tile_for_draw(n as int),
{
    let mut k: usize = 0;
    while k < BUCKETS - 1
        invariant
            k < BUCKETS,
            DRAW_MIN <= n,
            k > 0 ==> n > bucket_spec(k - 1).0,
        decreases BUCKETS - k,
    {
        let (upper, value) = bucket(k);
        if n <= upper {
            return value;
        }
        k = k + 1;
    }
    bucket(k).1
}

/// Number of draws in `lo..hi` that give tile `v`.
pub open spec fn draws_giving(v: int, lo: int, hi: int) -> nat
    decreases hi - lo,
{
    if hi <= lo {
        0
    } else {
        draws_giving(v, lo, hi - 1) + if tile_for_draw(hi - 1) == v {
            1nat
        } else {
            0nat
        }
    }
}

proof fn lemma_draws_split(v: int, lo: int, mid: int, hi: int)
    requires
        lo <= mid <= hi,
    ensures
        draws_giving(v, lo, hi) == draws_giving(v, lo, mid) + draws_giving(v, mid, hi),
    decreases hi - mid,
{
    if hi > mid {
        lemma_draws_split(v, lo, mid, hi - 1);
    }
}

proof fn lemma_draws_in_bucket(v: int, lo: int, hi: int, w: int)
    requires
        lo <= hi,
        forall|n: int| lo <= n < hi ==> #[trigger] tile_for_draw(n) == w,
    ensures
        draws_giving(v, lo, hi) == if v == w {
            (hi - lo) as nat
        } else {
            0
        },
    decreases hi - lo,
{
    if hi > lo {
        lemma_draws_in_bucket(v, lo, hi - 1, w);
    }
}

/// Of the 255 equally likely draws, 192 give 2, 32 give 4, 16 give 8, 8 give
/// 16, 4 give 32, 2 give 64 and 1 gives 128; no draw gives anything else.
pub proof fn lemma_draw_distribution(v: int)
    ensures
        draws_giving(v, DRAW_MIN as int, DRAW_MAX + 1) == if v == 2 {
            192
        } else if v == 4 {
            32
        } else if v == 8 {
            16
        } else if v == 16 {
            8
        } else if v == 32 {
            4
        } else if v == 64 {
            2
        } else if v == 128 {
            1nat
        } else {
            0
        },
{
    lemma_draws_split(v, 1, 2, 256);
    lemma_draws_split(v, 2, 4, 256);
    lemma_draws_split(v, 4, 8, 256);
    lemma_draws_split(v, 8, 16, 256);
    lemma_draws_split(v, 16, 32, 256);
    lemma_draws_split(v, 32, 64, 256);
    lemma_draws_in_bucket(v, 1, 2, 128);
    lemma_draws_in_bucket(v, 2, 4, 64);
    lemma_draws_in_bucket(v, 4, 8, 32);
    lemma_draws_in_bucket(v, 8, 16, 16);
    lemma_draws_in_bucket(v, 16, 32, 8);
    lemma_draws_in_bucket(v, 32, 64, 4);
    lemma_draws_in_bucket(v, 64, 256, 2);
}

/// Horizontal and vertical padding of a button showing `num`: one-digit values
/// and the star get more room than two-digit values.
pub fn get_padding(num: u8) -> (r: [u16; 2])
    ensures
        r[0] == 0,
        r[1] == if 10 <= num < 100 {
            10u16
        } else {
            20u16
        },
{
    if num < 10 {
        [0, 20]
    } else if num < 100 {
        [0, 10]
    } else {
        [0, 20]
    }
}

} // verus!

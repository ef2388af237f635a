//! Integer structure of the health decomposition: the width of the centred
//! moving average that extracts the trend, the window of samples averaged at
//! each index, and the choice of the seasonal (dominant non-DC) bin.
use vstd::prelude::*;
use vstd::arithmetic::div_mod::lemma_fundamental_div_mod;
use crate::float_order::key_gt;

verus! {

/// `r` is the integer square root of `n`: `r*r <= n < (r+1)*(r+1)`.
pub open spec fn is_floor_sqrt(n: int, r: int) -> bool {
    0 <= r && r * r <= n && n < (r + 1) * (r + 1)
}

/// The integer square root `floor(sqrt(n))`.
pub open spec fn floor_sqrt(n: nat) -> int {
    choose|r: int| is_floor_sqrt(n as int, r)
}

/// Every natural number has an integer square root.
proof fn lemma_floor_sqrt_exists(n: nat) -> (r: int)
    ensures
        is_floor_sqrt(n as int, r),
    decreases n,
{
    if n == 0 {
        0
    } else {
        let p = lemma_floor_sqrt_exists((n - 1) as nat);
        if (p + 1) * (p + 1) <= n {
            let r = p + 1;
            assert(is_floor_sqrt(n as int, r)) by (nonlinear_arith)
                requires
                    r >= 1,
                    n == r * r,
            ;
            r
        } else {
            assert(is_floor_sqrt(n as int, p));
            p
        }
    }
}

/// `floor_sqrt(n)` is the one `r` with `r*r <= n < (r+1)*(r+1)`.
pub proof fn lemma_floor_sqrt_is(n: nat, r: int)
    requires
        is_floor_sqrt(n as int, r),
    ensures
        floor_sqrt(n) == r,
{
    lemma_floor_sqrt_unique(n as int, r, floor_sqrt(n));
}

/// At most one integer is the square root of `n`.
proof fn lemma_floor_sqrt_unique(n: int, r: int, s: int)
    requires
        is_floor_sqrt(n, r),
        is_floor_sqrt(n, s),
    ensures
        r == s,
{
    if r < s {
        assert((r + 1) * (r + 1) <= s * s) by (nonlinear_arith)
            requires
                0 <= r + 1 <= s,
        ;
    } else if s < r {
        assert((s + 1) * (s + 1) <= r * r) by (nonlinear_arith)
            requires
                0 <= s + 1 <= r,
        ;
    }
}

/// For `m > 0`: `m <= n / m` exactly when `m * m <= n`.
proof fn lemma_le_quotient_iff_square_le(m: int, n: int)
    requires
        m > 0,
        n >= 0,
    ensures
        (m <= n / m) <==> (m * m <= n),
{
    lemma_fundamental_div_mod(n, m);
    let q = n / m;
    let r = n % m;
    assert(n == m * q + r && 0 <= r < m);
    if m <= q {
        assert(m * m <= m * q) by (nonlinear_arith)
            requires
                0 < m <= q,
        ;
    } else {
        assert(m * (q + 1) <= m * m) by (nonlinear_arith)
            requires
                0 < m,
                q + 1 <= m,
        ;
        assert(m * (q + 1) == m * q + m) by (nonlinear_arith);
    }
}

/// The integer square root of `n`, `floor(sqrt(n))`.
pub fn isqrt(n: usize) -> (r: usize)
    ensures
        is_floor_sqrt(n as int, r as int),
        r == floor_sqrt(n as nat),
        r * r <= n,
        n < (r + 1) * (r + 1),
{
    let r: usize = if n < 2 {
        n
    } else {
        // lo * lo <= n < hi * hi
        let mut lo: usize = 1;
        let mut hi: usize = n;
        assert(n < n * n) by (nonlinear_arith)
            requires
                n >= 2,
        ;
        while hi - lo > 1
            invariant
                1 <= lo < hi <= n,
                lo * lo <= n,
                n < hi * hi,
            decreases hi - lo,
        {
            let mid = lo + (hi - lo) / 2;
            proof {
                lemma_le_quotient_iff_square_le(mid as int, n as int);
            }
            if mid <= n / mid {
                lo = mid;
            } else {
                hi = mid;
            }
        }
        assert(hi == lo + 1);
        lo
    };
    proof {
        assert(is_floor_sqrt(n as int, r as int)) by {
            if n < 2 {
                assert(r * r <= n && n < (r + 1) * (r + 1)) by (nonlinear_arith)
                    requires
                        r == n,
                        n < 2,
                ;
            }
        }
        let s = floor_sqrt(n as nat);
        lemma_floor_sqrt_unique(n as int, r as int, s);
    }
    r
}

/// `r | 1`: `r` rounded up to an odd number.
pub open spec fn round_up_to_odd(r: int) -> int {
    if r % 2 == 0 {
        r + 1
    } else {
        r
    }
}

/// Width of the centred moving average for a series of `n` samples:
/// `floor(sqrt(n))` rounded up to an odd number, at least 3 and at most `n`.
pub open spec fn spec_trend_window(n: nat) -> int {
    let w = round_up_to_odd(floor_sqrt(n));
    let w = if w < 3 {
        3
    } else {
        w
    };
    if w > n {
        n as int
    } else {
        w
    }
}

/// Half the width: how far the window reaches on each side of its centre.
pub open spec fn spec_half_window(n: nat) -> int {
    spec_trend_window(n) / 2
}

/// First index of the window averaged at index `i` (inclusive).
pub open spec fn window_start(n: nat, i: int) -> int {
    if i >= spec_half_window(n) {
        i - spec_half_window(n)
    } else {
        0
    }
}

/// End of the window averaged at index `i` (exclusive).
pub open spec fn window_end(n: nat, i: int) -> int {
    if i + spec_half_window(n) + 1 <= n {
        i + spec_half_window(n) + 1
    } else {
        n as int
    }
}

/// Width of the moving-average window that smooths a series of `n` samples.
pub fn trend_window(n: usize) -> (w: usize)
    ensures
        w == spec_trend_window(n as nat),
        n >= 3 ==> w % 2 == 1 && 3 <= w <= n,
        n < 3 ==> w == n,
        forall|r: int|
            is_floor_sqrt(n as int, r) && n >= 3 ==> w % 2 == 1 && w >= 3 && w >= r && (w <= r + 1
                || w == 3),
{
    let r = isqrt(n);
    let odd = r | 1;
    assert(odd == round_up_to_odd(r as int)) by {
        assert(r | 1usize == if r % 2 == 0 {
            (r + 1) as usize
        } else {
            r
        }) by (bit_vector);
    }
    let at_least_three = if odd < 3 {
        3
    } else {
        odd
    };
    let w = if at_least_three > n {
        n
    } else {
        at_least_three
    };
    proof {
        if n >= 3 && r >= 2 {
            assert(r + 1 <= r * r) by (nonlinear_arith)
                requires
                    r >= 2,
            ;
        }
        assert forall|s: int|
            is_floor_sqrt(n as int, s) && n >= 3 implies w % 2 == 1 && w >= 3
            && w >= s && (w <= s + 1 || w == 3) by {
            lemma_floor_sqrt_unique(n as int, r as int, s);
        }
    }
    w
}

/// The window `[start, end)` of samples averaged at each index of a series
/// of `n` samples: the centred window of `trend_window(n)` samples, cut at
/// both ends of the series.
pub fn trend_window_bounds(n: usize) -> (bounds: Vec<(usize, usize)>)
    ensures
        bounds.len() == n,
        forall|i: int|
            0 <= i < n ==> bounds@[i].0 == window_start(n as nat, i) && bounds@[i].1
                == window_end(n as nat, i),
        forall|i: int|
            #![trigger bounds@[i]]
            0 <= i < n ==> {
                let h = spec_trend_window(n as nat) / 2;
                &&& (i >= h ==> bounds@[i].0 == i - h)
                &&& (i < h ==> bounds@[i].0 == 0)
                &&& (i + h + 1 <= n ==> bounds@[i].1 == i + h + 1)
                &&& (i + h + 1 > n ==> bounds@[i].1 == n)
            },
{
    let half = trend_window(n) / 2;
    let mut bounds: Vec<(usize, usize)> = Vec::with_capacity(n);
    for i in 0..n
        invariant
            half == spec_half_window(n as nat),
            bounds.len() == i,
            forall|j: int|
                0 <= j < i ==> bounds@[j].0 == window_start(n as nat, j) && bounds@[j].1
                    == window_end(n as nat, j),
    {
        let start = if i >= half {
            i - half
        } else {
            0
        };
        let end = if half < n - i {
            i + half + 1
        } else {
            n
        };
        bounds.push((start, end));
    }
    proof {
        assert forall|i: int| #![trigger bounds@[i]] 0 <= i < n implies {
            let h = spec_trend_window(n as nat) / 2;
            &&& (i >= h ==> bounds@[i].0 == i - h)
            &&& (i < h ==> bounds@[i].0 == 0)
            &&& (i + h + 1 <= n ==> bounds@[i].1 == i + h + 1)
            &&& (i + h + 1 > n ==> bounds@[i].1 == n)
        } by {
            assert(bounds@[i].0 == window_start(n as nat, i));
            assert(bounds@[i].1 == window_end(n as nat, i));
        }
    }
    bounds
}

/// Shape of the moving-average windows of a series of at least three
/// samples: each window holds its own index, lies within the series, is
/// never wider than the trend window, reaches at least half a window on
/// each side where the series allows, and away from both ends is the full
/// trend window centred on its index.
pub proof fn lemma_trend_windows_centred(n: nat, i: int)
    requires
        n >= 3,
        0 <= i < n,
    ensures
        i < spec_trend_window(n) / 2 ==> window_start(n, i) == 0,
        i >= spec_trend_window(n) / 2 ==> window_start(n, i) == i - spec_trend_window(n) / 2,
        i + spec_trend_window(n) / 2 + 1 <= n ==> window_end(n, i) == i + spec_trend_window(n) / 2
            + 1,
        i + spec_trend_window(n) / 2 + 1 > n ==> window_end(n, i) == n,
        i < spec_trend_window(n) / 2 ==> window_end(n, i) - window_start(n, i) == window_end(n, i)
            && window_end(n, i) >= i + 1,
        0 <= window_start(n, i) <= i < window_end(n, i) <= n,
        window_end(n, i) - window_start(n, i) <= spec_trend_window(n),
        window_end(n, i) - window_start(n, i) >= spec_half_window(n) + 1,
        spec_half_window(n) <= i && i + spec_half_window(n) < n ==> window_end(n, i)
            - window_start(n, i) == spec_trend_window(n) && i - window_start(n, i) == window_end(
            n,
            i,
        ) - 1 - i,
{
    trend_window_facts(n);
}

/// The trend window of `n >= 3` samples is odd and lies in `[3, n]`.
proof fn trend_window_facts(n: nat)
    requires
        n >= 3,
    ensures
        spec_trend_window(n) % 2 == 1,
        3 <= spec_trend_window(n) <= n,
{
    let r = floor_sqrt(n);
    assert(exists|s: int| is_floor_sqrt(n as int, s)) by {
        let s = lemma_floor_sqrt_exists(n);
    }
    if r >= 2 {
        assert(r + 1 <= r * r) by (nonlinear_arith)
            requires
                r >= 2,
        ;
    }
}

/// The bin that `Iterator::max_by` picks among the bins `1..end` (at least
/// one), comparing amplitudes with `partial_cmp` and taking a NaN comparison
/// as `Equal`: a later bin replaces the one held unless the held one is
/// strictly greater.
pub open spec fn max_by_bin(keys: Seq<Option<i64>>, end: nat) -> int
    decreases end,
{
    if end <= 2 {
        1
    } else {
        let held = max_by_bin(keys, (end - 1) as nat);
        if key_gt(keys[held], keys[end - 1]) {
            held
        } else {
            end - 1
        }
    }
}

/// No key stands for a NaN.
pub open spec fn all_numbers(keys: Seq<Option<i64>>) -> bool {
    forall|i: int| 0 <= i < keys.len() ==> keys[i] is Some
}

/// The seasonal bin of a detrended series: the dominant bin other than DC,
/// as `max_by` on amplitudes chooses it; `None` when there is no bin besides
/// DC. Without NaN amplitudes it is the last bin of greatest amplitude.
pub fn seasonal_bin(keys: &Vec<Option<i64>>) -> (bin: Option<usize>)
    ensures
        keys.len() < 2 ==> bin is None,
        keys.len() >= 2 ==> bin == Some(max_by_bin(keys@, keys.len() as nat) as usize),
        bin matches Some(b) ==> 1 <= b < keys.len(),
        bin matches Some(b) ==> forall|j: int|
            b < j < keys.len() ==> keys@[b as int] is Some && keys@[j] is Some && keys@[b as int]->0
                > keys@[j]->0,
        keys.len() >= 2 && (forall|i: int| 0 <= i < keys.len() ==> keys@[i] is Some) ==> ({
            let b = bin->0 as int;
            &&& 1 <= b < keys.len()
            &&& forall|i: int| 1 <= i < keys.len() ==> keys@[i]->0 <= keys@[b]->0
            &&& forall|i: int| b < i < keys.len() ==> keys@[i]->0 < keys@[b]->0
        }),
{
    let n = keys.len();
    if n < 2 {
        return None;
    }
    let mut held: usize = 1;
    let mut i: usize = 2;
    while i < n
        invariant
            n == keys.len(),
            2 <= i <= n,
            held == max_by_bin(keys@, i as nat),
            1 <= held < i,
            forall|j: int|
                held < j < i ==> keys@[held as int] is Some && keys@[j] is Some && keys@[held as int]->0
                    > keys@[j]->0,
            all_numbers(keys@) ==> forall|j: int| 1 <= j < i ==> keys@[j]->0 <= keys@[held as int]->0,
            all_numbers(keys@) ==> forall|j: int| held < j < i ==> keys@[j]->0 < keys@[held as int]->0,
        decreases n - i,
    {
        let replace = match (keys[held], keys[i]) {
            (Some(a), Some(b)) => !(a > b),
            _ => true,
        };
        if replace {
            held = i;
        }
        i = i + 1;
    }
    Some(held)
}

} // verus!

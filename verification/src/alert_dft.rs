//! Bin layout of the discrete Fourier transform and the ranking of its
//! dominant frequencies.
//!
//! Amplitudes are handed in as order keys (see `float_order`), one per bin,
//! in bin order.
use vstd::prelude::*;
use crate::float_order::key_ge;

verus! {

/// Number of bins of a real DFT of `n` samples: the frequencies `k / n`
/// for `k` in `0..=n/2`, from the DC bin to the Nyquist bin; none for an
/// empty series.
pub open spec fn spec_bin_count(n: nat) -> nat {
    if n == 0 {
        0
    } else {
        n / 2 + 1
    }
}

/// Number of frequency bins that the DFT of `n` samples returns.
pub fn dft_bin_count(n: usize) -> (count: usize)
    ensures
        count == spec_bin_count(n as nat),
        n == 0 ==> count == 0,
        n > 0 ==> count == n / 2 + 1,
        n > 0 ==> 1 <= count <= n,
        n > 0 ==> 2 * (count - 1) <= n < 2 * count,
{
    if n == 0 {
        0
    } else {
        n / 2 + 1
    }
}

/// The bins of a series of `n > 0` samples are the frequencies `k / n` for
/// every `k` from 0 (DC) up to `n / 2` (Nyquist): `k` has a bin exactly when
/// `2 * k <= n`, so there are `n / 2 + 1` of them; an empty series has none.
pub proof fn lemma_bins_from_dc_to_nyquist(n: nat)
    ensures
        n == 0 ==> spec_bin_count(n) == 0,
        n > 0 ==> spec_bin_count(n) == n / 2 + 1,
        n > 0 ==> 2 * (spec_bin_count(n) - 1) <= n < 2 * spec_bin_count(n),
        n > 0 && n % 2 == 0 ==> 2 * (spec_bin_count(n) - 1) == n,
{
}

/// The bin `i` passes the amplitude threshold: `amplitude >= threshold`.
pub open spec fn passes_threshold(keys: Seq<Option<i64>>, threshold: Option<i64>, i: int) -> bool {
    key_ge(keys[i], threshold)
}

/// The key of a bin that is known not to stand for a NaN.
pub open spec fn key_at(keys: Seq<Option<i64>>, i: int) -> int {
    keys[i]->0 as int
}

/// `order` lists, without repetition, exactly the bins of `keys` that pass
/// `threshold`, by amplitude from the largest down, bins of equal amplitude
/// in increasing bin order.
pub open spec fn is_dominant_order(
    keys: Seq<Option<i64>>,
    threshold: Option<i64>,
    order: Seq<usize>,
) -> bool {
    &&& forall|j: int|
        0 <= j < order.len() ==> (order[j] < keys.len() && passes_threshold(
            keys,
            threshold,
            order[j] as int,
        ))
    &&& forall|i: int|
        0 <= i < keys.len() && passes_threshold(keys, threshold, i) ==> order.contains(i as usize)
    &&& forall|j1: int, j2: int| 0 <= j1 < j2 < order.len() ==> order[j1] != order[j2]
    &&& forall|j1: int, j2: int|
        0 <= j1 < j2 < order.len() ==> key_at(keys, order[j1] as int) >= key_at(
            keys,
            order[j2] as int,
        )
    &&& forall|j1: int, j2: int|
        0 <= j1 < j2 < order.len() && key_at(keys, order[j1] as int) == key_at(
            keys,
            order[j2] as int,
        ) ==> order[j1] < order[j2]
}

/// `order` ranks, as `is_dominant_order` says, the passing bins below `bound`.
spec fn ranks_bins_below(
    keys: Seq<Option<i64>>,
    threshold: Option<i64>,
    order: Seq<usize>,
    bound: int,
) -> bool {
    &&& forall|j: int|
        0 <= j < order.len() ==> (order[j] < bound && passes_threshold(
            keys,
            threshold,
            order[j] as int,
        ))
    &&& forall|i: int|
        0 <= i < bound && passes_threshold(keys, threshold, i) ==> order.contains(i as usize)
    &&& forall|j1: int, j2: int| 0 <= j1 < j2 < order.len() ==> order[j1] != order[j2]
    &&& forall|j1: int, j2: int|
        0 <= j1 < j2 < order.len() ==> key_at(keys, order[j1] as int) >= key_at(
            keys,
            order[j2] as int,
        )
    &&& forall|j1: int, j2: int|
        0 <= j1 < j2 < order.len() && key_at(keys, order[j1] as int) == key_at(
            keys,
            order[j2] as int,
        ) ==> order[j1] < order[j2]
}

/// `peak` is the first bin of greatest positive amplitude, or `None` when no
/// bin has a positive amplitude. NaN amplitudes are skipped. This is the value
/// of folding the amplitudes with `f64::max` from `0.0`: the amplitude of
/// bin `peak`, or zero.
pub open spec fn is_peak_bin(keys: Seq<Option<i64>>, peak: Option<usize>) -> bool {
    match peak {
        None => forall|i: int| 0 <= i < keys.len() && keys[i] is Some ==> key_at(keys, i) <= 0,
        Some(p) => {
            &&& p < keys.len()
            &&& keys[p as int] is Some
            &&& key_at(keys, p as int) > 0
            &&& forall|i: int|
                0 <= i < keys.len() && keys[i] is Some ==> key_at(keys, i) <= key_at(keys, p as int)
            &&& forall|i: int|
                0 <= i < p && keys[i] is Some ==> key_at(keys, i) < key_at(keys, p as int)
        },
    }
}

/// The bin that holds the peak amplitude, the reference for the dominance
/// threshold; `None` when the peak is zero (no bin has a positive amplitude).
pub fn peak_amplitude_bin(keys: &Vec<Option<i64>>) -> (peak: Option<usize>)
    ensures
        is_peak_bin(keys@, peak),
        peak is None ==> forall|i: int| 0 <= i < keys.len() && keys@[i] is Some ==> keys@[i]->0 <= 0,
        peak matches Some(p) ==> p < keys.len() && keys@[p as int] is Some && keys@[p as int]->0 > 0
            && (forall|i: int|
            0 <= i < keys.len() && keys@[i] is Some ==> keys@[i]->0 <= keys@[p as int]->0) && (
        forall|i: int| 0 <= i < p && keys@[i] is Some ==> keys@[i]->0 < keys@[p as int]->0),
{
    let n = keys.len();
    let mut peak: Option<usize> = None;
    let mut best: i64 = 0;
    for i in 0..n
        invariant
            n == keys.len(),
            is_peak_bin(keys@.subrange(0, i as int), peak),
            peak is None ==> best == 0,
            peak matches Some(p) ==> best == key_at(keys@, p as int),
    {
        proof {
            assert forall|j: int| 0 <= j < i implies keys@.subrange(0, i as int)[j] == keys@[j] by {}
            assert forall|j: int| 0 <= j <= i implies keys@.subrange(0, i + 1)[j] == keys@[j] by {}
        }
        if let Some(k) = keys[i] {
            if k > best {
                peak = Some(i);
                best = k;
            }
        }
    }
    proof {
        assert(keys@.subrange(0, n as int) =~= keys@);
    }
    peak
}

/// `key >= bound`, false for a NaN key.
fn reaches(key: Option<i64>, bound: i64) -> (r: bool)
    ensures
        r == key_ge(key, Some(bound)),
{
    match key {
        Some(v) => v >= bound,
        None => false,
    }
}

/// The bins whose amplitude reaches `threshold`, ranked by amplitude from the
/// largest down; bins of equal amplitude keep their bin order (a stable
/// sort). A NaN amplitude or a NaN threshold passes no bin.
pub fn dominant_order(keys: &Vec<Option<i64>>, threshold: Option<i64>) -> (order: Vec<usize>)
    ensures
        is_dominant_order(keys@, threshold, order@),
        forall|j: int|
            0 <= j < order.len() ==> order@[j] < keys.len() && keys@[order@[j] as int] is Some
                && threshold is Some && keys@[order@[j] as int]->0 >= threshold->0,
        forall|i: int|
            0 <= i < keys.len() && keys@[i] is Some && threshold is Some && keys@[i]->0
                >= threshold->0 ==> exists|j: int| 0 <= j < order.len() && order@[j] == i,
        forall|j1: int, j2: int| 0 <= j1 < j2 < order.len() ==> order@[j1] != order@[j2],
        forall|j1: int, j2: int|
            0 <= j1 < j2 < order.len() ==> keys@[order@[j1] as int]->0 >= keys@[order@[j2] as int]->0,
        forall|j1: int, j2: int|
            0 <= j1 < j2 < order.len() && keys@[order@[j1] as int]->0
                == keys@[order@[j2] as int]->0 ==> order@[j1] < order@[j2],
{
    let n = keys.len();
    let mut order: Vec<usize> = Vec::new();
    for i in 0..n
        invariant
            n == keys.len(),
            ranks_bins_below(keys@, threshold, order@, i as int),
    {
        let passing: Option<i64> = match (keys[i], threshold) {
            (Some(k), Some(t)) => if k >= t {
                Some(k)
            } else {
                None
            },
            _ => None,
        };
        if let Some(k) = passing {
            let mut p: usize = 0;
            while p < order.len() && reaches(keys[order[p]], k)
                invariant
                    n == keys.len(),
                    i < n,
                    keys@[i as int] == Some(k),
                    p <= order.len(),
                    ranks_bins_below(keys@, threshold, order@, i as int),
                    forall|q: int| 0 <= q < p ==> key_at(keys@, order@[q] as int) >= k,
                decreases order.len() - p,
            {
                p = p + 1;
            }
            proof {
                if p < order.len() {
                    assert(passes_threshold(keys@, threshold, order@[p as int] as int));
                }
                assert forall|q: int| p <= q < order@.len() implies key_at(
                    keys@,
                    order@[q] as int,
                ) < k by {
                    if q > p {
                        assert(key_at(keys@, order@[p as int] as int) >= key_at(
                            keys@,
                            order@[q] as int,
                        ));
                    }
                }
            }
            let ghost old_order = order@;
            order.insert(p, i);
            proof {
                let new_order = order@;
                assert(key_at(keys@, i as int) == k);
                assert forall|j: int| 0 <= j < new_order.len() implies (new_order[j] < i + 1
                    && passes_threshold(keys@, threshold, new_order[j] as int)) by {
                    if j < p {
                        assert(new_order[j] == old_order[j]);
                    } else if j > p {
                        assert(new_order[j] == old_order[j - 1]);
                    }
                }
                assert forall|b: int|
                    0 <= b < i + 1 && passes_threshold(keys@, threshold, b) implies new_order.contains(
                    b as usize,
                ) by {
                    if b == i {
                        assert(new_order[p as int] == i);
                    } else {
                        let j = choose|j: int| 0 <= j < old_order.len() && old_order[j] == b as usize;
                        if j < p {
                            assert(new_order[j] == b as usize);
                        } else {
                            assert(new_order[j + 1] == b as usize);
                        }
                    }
                }
                assert forall|j1: int, j2: int|
                    0 <= j1 < j2 < new_order.len() implies new_order[j1] != new_order[j2]
                    && key_at(keys@, new_order[j1] as int) >= key_at(keys@, new_order[j2] as int)
                    && (key_at(keys@, new_order[j1] as int) == key_at(
                    keys@,
                    new_order[j2] as int,
                ) ==> new_order[j1] < new_order[j2]) by {
                    let o1 = if j1 < p {
                        j1
                    } else {
                        j1 - 1
                    };
                    let o2 = if j2 < p {
                        j2
                    } else {
                        j2 - 1
                    };
                    if j1 != p && j2 != p {
                        assert(new_order[j1] == old_order[o1]);
                        assert(new_order[j2] == old_order[o2]);
                    } else if j1 == p {
                        assert(new_order[j2] == old_order[o2]);
                    } else {
                        assert(new_order[j1] == old_order[o1]);
                    }
                }
            }
        }
    }
    proof {
        assert forall|b: int|
            0 <= b < keys.len() && keys@[b] is Some && threshold is Some && keys@[b]->0
                >= threshold->0 implies exists|j: int| 0 <= j < order.len() && order@[j] == b by {
            assert(passes_threshold(keys@, threshold, b));
            assert(order@.contains(b as usize));
        }
    }
    order
}

/// Whenever the peak amplitude reaches the threshold, the ranking is not
/// empty and its first bin has the peak amplitude: the strongest frequency
/// leads the dominant ones.
pub proof fn lemma_dominant_order_leads_with_peak(
    keys: Seq<Option<i64>>,
    threshold: Option<i64>,
    order: Seq<usize>,
    peak: usize,
)
    requires
        is_dominant_order(keys, threshold, order),
        is_peak_bin(keys, Some(peak)),
        passes_threshold(keys, threshold, peak as int),
    ensures
        order.len() > 0,
        key_at(keys, order[0] as int) == key_at(keys, peak as int),
{
    assert(order.contains(peak));
    let j = choose|j: int| 0 <= j < order.len() && order[j] == peak;
    assert(passes_threshold(keys, threshold, order[0] as int));
    if j > 0 {
        assert(key_at(keys, order[0] as int) >= key_at(keys, order[j] as int));
    }
}

} // verus!

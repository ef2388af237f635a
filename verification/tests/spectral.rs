use plato_spectral::alert_dft::{dft_bin_count, dominant_order, peak_amplitude_bin};
use plato_spectral::conservation::chain_conserves_energy;
use plato_spectral::distill_transport::cost_matrix_fits;
use plato_spectral::fisher_rooms::{informative_components, kl_term_kinds, KlTerm};
use plato_spectral::float_order::float_order_key;
use plato_spectral::health_spectral::{isqrt, seasonal_bin, trend_window, trend_window_bounds};

fn key(x: f64) -> Option<i64> {
    float_order_key(x.to_bits())
}

fn keys(xs: &[f64]) -> Vec<Option<i64>> {
    xs.iter().map(|&x| key(x)).collect()
}

// ─── float order keys ───────────────────────────────────────────────────

#[test]
fn order_key_zeros_are_equal() {
    assert_eq!(key(0.0), Some(0));
    assert_eq!(key(-0.0), Some(0));
}

#[test]
fn order_key_follows_numeric_order() {
    let values = [
        f64::NEG_INFINITY,
        -1.0e300,
        -2.5,
        -1.0,
        -1.0e-310,
        0.0,
        1.0e-310,
        1.0e-15,
        1.0,
        2.5,
        1.0e300,
        f64::INFINITY,
    ];
    for a in values.iter() {
        for b in values.iter() {
            let (ka, kb) = (key(*a).unwrap(), key(*b).unwrap());
            assert_eq!(ka < kb, a < b, "{} vs {}", a, b);
            assert_eq!(ka == kb, a == b, "{} vs {}", a, b);
        }
    }
}

#[test]
fn order_key_exact_values() {
    assert_eq!(key(1.0), Some(0x3FF0_0000_0000_0000));
    assert_eq!(key(-1.0), Some(-0x3FF0_0000_0000_0000));
    assert_eq!(key(f64::INFINITY), Some(0x7FF0_0000_0000_0000));
}

#[test]
fn order_key_nan_has_none() {
    assert_eq!(key(f64::NAN), None);
    assert_eq!(key(-f64::NAN), None);
    assert_eq!(float_order_key(0x7FF0_0000_0000_0001), None);
    assert_eq!(float_order_key(0xFFF8_0000_0000_0000), None);
}

// ─── DFT bins ───────────────────────────────────────────────────────────

#[test]
fn bin_count_empty() {
    assert_eq!(dft_bin_count(0), 0);
}

#[test]
fn bin_count_single_sample() {
    assert_eq!(dft_bin_count(1), 1);
}

#[test]
fn bin_count_odd_and_even() {
    assert_eq!(dft_bin_count(5), 3);
    assert_eq!(dft_bin_count(4), 3);
    assert_eq!(dft_bin_count(8), 5);
    assert_eq!(dft_bin_count(16), 9);
}

#[test]
fn dominant_order_sorted_descending_and_filtered() {
    let k = keys(&[1.0, 5.0, 3.0, 5.0, 0.5, 2.0]);
    assert_eq!(dominant_order(&k, key(2.0)), vec![1, 3, 2, 5]);
}

#[test]
fn dominant_order_ties_keep_bin_order() {
    let k = keys(&[4.0, 4.0, 4.0]);
    assert_eq!(dominant_order(&k, key(0.0)), vec![0, 1, 2]);
}

#[test]
fn dominant_order_empty() {
    assert_eq!(dominant_order(&Vec::new(), key(0.5)), Vec::<usize>::new());
}

#[test]
fn dominant_order_skips_nan() {
    let k = keys(&[f64::NAN, 1.0, 2.0]);
    assert_eq!(dominant_order(&k, key(0.0)), vec![2, 1]);
}

#[test]
fn dominant_order_nan_threshold_passes_nothing() {
    let k = keys(&[1.0, 2.0]);
    assert_eq!(dominant_order(&k, key(f64::NAN)), Vec::<usize>::new());
}

#[test]
fn dominant_order_negative_threshold_passes_all() {
    let k = keys(&[0.0, 3.0, 1.0]);
    assert_eq!(dominant_order(&k, key(-0.5)), vec![1, 2, 0]);
}

#[test]
fn peak_bin_first_maximum() {
    assert_eq!(peak_amplitude_bin(&keys(&[1.0, 5.0, 3.0, 5.0])), Some(1));
}

#[test]
fn peak_bin_zero_signal() {
    assert_eq!(peak_amplitude_bin(&keys(&[0.0, 0.0, 0.0])), None);
    assert_eq!(peak_amplitude_bin(&Vec::new()), None);
}

#[test]
fn peak_bin_ignores_nan() {
    assert_eq!(peak_amplitude_bin(&keys(&[f64::NAN, 2.0, f64::NAN])), Some(1));
    assert_eq!(peak_amplitude_bin(&keys(&[f64::NAN])), None);
}

// ─── health windows ─────────────────────────────────────────────────────

#[test]
fn isqrt_values() {
    let cases: [(usize, usize); 10] =
        [(0, 0), (1, 1), (2, 1), (3, 1), (4, 2), (15, 3), (16, 4), (17, 4), (99, 9), (100, 10)];
    for (n, r) in cases.iter() {
        assert_eq!(isqrt(*n), *r);
    }
    let big = isqrt(usize::MAX);
    assert!((big as u128) * (big as u128) <= usize::MAX as u128);
    assert!((big as u128 + 1) * (big as u128 + 1) > usize::MAX as u128);
}

#[test]
fn trend_window_values() {
    let cases: [(usize, usize); 10] =
        [(2, 2), (3, 3), (4, 3), (9, 3), (16, 5), (20, 5), (25, 5), (36, 7), (50, 7), (100, 11)];
    for (n, w) in cases.iter() {
        assert_eq!(trend_window(*n), *w, "n = {}", n);
    }
}

#[test]
fn trend_window_is_odd_and_bounded() {
    for n in 3..2000usize {
        let w = trend_window(n);
        assert_eq!(w % 2, 1);
        assert!(3 <= w && w <= n);
    }
}

#[test]
fn trend_window_bounds_five() {
    assert_eq!(trend_window_bounds(5), vec![(0, 2), (0, 3), (1, 4), (2, 5), (3, 5)]);
}

#[test]
fn trend_window_bounds_centred() {
    let n = 20;
    let w = trend_window(n);
    let half = w / 2;
    let bounds = trend_window_bounds(n);
    assert_eq!(bounds.len(), n);
    for (i, &(lo, hi)) in bounds.iter().enumerate() {
        assert!(lo <= i && i < hi && hi <= n);
        assert!(hi - lo <= w && hi - lo >= half + 1);
        if i >= half && i + half < n {
            assert_eq!(hi - lo, w);
            assert_eq!(i - lo, hi - 1 - i);
        }
    }
}

#[test]
fn trend_window_bounds_empty() {
    assert!(trend_window_bounds(0).is_empty());
}

#[test]
fn seasonal_bin_last_maximum() {
    assert_eq!(seasonal_bin(&keys(&[9.0, 1.0, 3.0, 3.0, 2.0])), Some(3));
}

#[test]
fn seasonal_bin_skips_dc() {
    assert_eq!(seasonal_bin(&keys(&[100.0, 0.0])), Some(1));
    assert_eq!(seasonal_bin(&keys(&[100.0])), None);
    assert_eq!(seasonal_bin(&Vec::new()), None);
}

#[test]
fn seasonal_bin_nan_compares_equal() {
    assert_eq!(seasonal_bin(&keys(&[0.0, 5.0, f64::NAN, 1.0])), Some(3));
    assert_eq!(seasonal_bin(&keys(&[0.0, 5.0, 7.0, f64::NAN])), Some(3));
}

// ─── conservation and transport ─────────────────────────────────────────

#[test]
fn chain_empty_conserves() {
    assert!(chain_conserves_energy(&Vec::new(), &Vec::new()));
}

#[test]
fn chain_single_step() {
    assert!(chain_conserves_energy(&vec![true], &Vec::new()));
    assert!(!chain_conserves_energy(&vec![false], &Vec::new()));
}

#[test]
fn chain_discontinuity_breaks_conservation() {
    assert!(chain_conserves_energy(&vec![true, true], &vec![true]));
    assert!(!chain_conserves_energy(&vec![true, true], &vec![false]));
}

#[test]
fn cost_matrix_shapes() {
    assert!(cost_matrix_fits(&vec![3, 3], 2, 3));
    assert!(!cost_matrix_fits(&vec![3, 2], 2, 3));
    assert!(!cost_matrix_fits(&vec![3], 2, 3));
    assert!(cost_matrix_fits(&Vec::new(), 0, 5));
}

#[test]
fn dominant_order_leads_with_peak() {
    let k = keys(&[0.5, 2.0, 7.5, 7.5, 1.0]);
    let peak = peak_amplitude_bin(&k).unwrap();
    assert_eq!(peak, 2);
    let order = dominant_order(&k, key(7.5 * 0.3));
    assert_eq!(order, vec![2, 3]);
    assert_eq!(k[order[0]], k[peak]);
}

// ─── Fisher rooms ───────────────────────────────────────────────────────

#[test]
fn kl_terms_classified() {
    let p = keys(&[0.5, 0.5, 0.0, 1e-16, 0.3]);
    let q = keys(&[0.25, 0.0, 0.5, 0.0, f64::NAN]);
    let kinds = kl_term_kinds(&p, &q, key(1e-15));
    assert_eq!(
        kinds,
        vec![KlTerm::Finite, KlTerm::Divergent, KlTerm::Negligible, KlTerm::Negligible, KlTerm::Finite]
    );
}

#[test]
fn kl_terms_pair_up_to_shorter() {
    let p = keys(&[0.5, 0.5, 0.5]);
    let q = keys(&[0.5]);
    assert_eq!(kl_term_kinds(&p, &q, key(1e-15)).len(), 1);
}

#[test]
fn fisher_information_fallback() {
    let f = keys(&[1.0, 0.0, 1e-13, -2.0, -1e-13, f64::NAN, 1e-12]);
    assert_eq!(
        informative_components(&f, key(1e-12)),
        vec![true, false, false, true, false, false, false]
    );
}

#[test]
fn fisher_information_negative_floor() {
    let f = keys(&[0.0, -0.0]);
    assert_eq!(informative_components(&f, key(-1.0)), vec![true, true]);
    assert_eq!(informative_components(&f, key(f64::NAN)), vec![false, false]);
}

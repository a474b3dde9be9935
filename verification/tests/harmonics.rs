use endfed::bands::BandEdge;
use endfed::harmonics::{high_v, Segment};
use endfed::Length;

fn value(length: &Length) -> f64 {
    length.num as f64 / length.den as f64
}

fn close(a: f64, b: f64) -> bool {
    (a - b).abs() <= 1e-9 * b.abs().max(1.0)
}

const BAND_40: BandEdge = BandEdge { freq_low: 40, freq_high: 7000 };

#[test]
fn band_40_under_half_a_wave_has_175_harmonics() {
    let res = high_v(BAND_40, Length { num: 468, den: 40 });
    assert_eq!(res.len(), 175);
    assert!(close(value(&res[0].start), 468.0 / 7000.0));
    assert!(close(value(&res[0].start), 0.0668571428571));
    assert!(close(value(&res[0].end), 11.7));
    assert!(close(value(&res[174].start), 175.0 * 468.0 / 7000.0));
    assert!(close(value(&res[174].end), 175.0 * 11.7));
}

#[test]
fn harmonics_are_exact_multiples() {
    let res = high_v(BAND_40, Length { num: 468, den: 40 });
    for (i, segment) in res.iter().enumerate() {
        let n = i as u64 + 1;
        assert_eq!((segment.start.num, segment.start.den), (468 * n, 7000));
        assert_eq!((segment.end.num, segment.end.den), (468 * n, 40));
    }
}

#[test]
fn cutoff_at_twice_the_unit_length_keeps_the_second_harmonic() {
    let band_10 = BandEdge { freq_low: 10, freq_high: 28000 };
    let res = high_v(band_10, Length { num: 2 * 468, den: 28000 });
    assert_eq!(res.len(), 2);
    let res = high_v(band_10, Length { num: 2 * 468 - 1, den: 28000 });
    assert_eq!(res.len(), 1);
}

#[test]
fn cutoff_below_the_fundamental_gives_nothing() {
    let res = high_v(BAND_40, Length { num: 467, den: 7000 });
    assert!(res.is_empty());
    let res = high_v(BAND_40, Length { num: 0, den: 1 });
    assert!(res.is_empty());
}

#[test]
fn cutoff_in_other_terms_gives_the_same_count() {
    let res = high_v(BAND_40, Length { num: 117, den: 10 });
    assert_eq!(res.len(), 175);
}

#[test]
fn raising_the_cutoff_never_loses_harmonics() {
    let mut last = 0;
    for num in 0..2000u64 {
        let count = high_v(BAND_40, Length { num, den: 100 }).len();
        assert!(count >= last);
        last = count;
    }
    assert_eq!(last, 298);
}

#[test]
fn every_window_starts_before_it_ends_and_after_the_one_before() {
    let res: Vec<Segment> = high_v(BAND_40, Length { num: 468, den: 40 });
    for segment in &res {
        assert!(segment.start.le(&segment.end));
    }
    for pair in res.windows(2) {
        assert!(value(&pair[0].start) < value(&pair[1].start));
        assert!(value(&pair[0].end) < value(&pair[1].end));
        assert!(!pair[1].start.le(&pair[0].start));
        assert!(!pair[1].end.le(&pair[0].end));
    }
}

#[test]
fn lengths_compare_as_fractions() {
    let half = Length { num: 1, den: 2 };
    let two_quarters = Length { num: 2, den: 4 };
    let third = Length { num: 1, den: 3 };
    assert!(half.le(&two_quarters));
    assert!(two_quarters.le(&half));
    assert!(third.le(&half));
    assert!(!half.le(&third));
    let big = Length { num: u64::MAX, den: 1 };
    let bigger = Length { num: u64::MAX, den: u64::MAX };
    assert!(bigger.le(&big));
    assert!(!big.le(&bigger));
}

#[test]
fn a_length_in_metres_is_scaled_by_12_over_39_37() {
    let feet = Length { num: 234, den: 40 };
    let metres = feet.to_metric();
    assert_eq!((metres.num, metres.den), (234 * 1200, 40 * 3937));
    assert!(close(value(&metres), 5.85 * 12.0 / 39.37));
}

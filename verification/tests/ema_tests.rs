use ema::Ema;
use ema::EmaError;
use ema::Rat;

/// Converts an exact rational result to a double for comparison against
/// decimal expectations.
fn to_f64(r: &Rat) -> f64 {
    (r.numer() as f64) / (r.denom() as f64)
}

fn approx(a: f64, b: f64) -> bool {
    (a - b).abs() <= 1e-9
}

/// Asserts that `r` equals the rational `num / den` exactly, by
/// cross-multiplication.
fn assert_rat_eq(r: &Rat, num: i128, den: i128) {
    assert_eq!(r.numer() * den, num * r.denom());
}

#[test]
fn small_series() {
    let mut ema = Ema::new(11).unwrap();
    assert!(approx(-1.0, to_f64(&ema.update(Rat::from_int(55)))));
    assert!(approx(-1.0, to_f64(&ema.update(Rat::from_int(57)))));
    assert!(approx(-1.0, to_f64(&ema.update(Rat::from_int(80)))));
    assert!(approx(-1.0, to_f64(&ema.update(Rat::from_int(74)))));
    assert!(approx(-1.0, to_f64(&ema.update(Rat::from_int(52)))));
    assert!(approx(-1.0, to_f64(&ema.update(Rat::from_int(72)))));
    assert!(approx(-1.0, to_f64(&ema.update(Rat::from_int(90)))));
    assert!(approx(-1.0, to_f64(&ema.update(Rat::from_int(41)))));
    assert!(approx(-1.0, to_f64(&ema.update(Rat::from_int(58)))));
    assert!(approx(-1.0, to_f64(&ema.update(Rat::from_int(16)))));
    assert!(approx(63.0, to_f64(&ema.update(Rat::from_int(98)))));
    assert!(approx(65.33333333333333, to_f64(&ema.update(Rat::from_int(77)))));
    assert!(approx(65.11111111111111, to_f64(&ema.update(Rat::from_int(64)))));
    assert!(approx(61.92592592592593, to_f64(&ema.update(Rat::from_int(46)))));
    assert!(approx(58.77160493827161, to_f64(&ema.update(Rat::from_int(43)))));
    assert!(approx(58.976337448559676, to_f64(&ema.update(Rat::from_int(60)))));
    assert!(approx(63.14694787379973, to_f64(&ema.update(Rat::from_int(84)))));
    assert!(approx(56.62245656149978, to_f64(&ema.update(Rat::from_int(24)))));
    assert!(approx(50.18538046791649, to_f64(&ema.update(Rat::from_int(18)))));
    assert!(approx(56.32115038993041, to_f64(&ema.update(Rat::from_int(87)))));
}

#[test]
fn small_series_exact() {
    // The same reference series, checked as exact rationals.
    let mut ema = Ema::new(11).unwrap();
    let warm = [55, 57, 80, 74, 52, 72, 90, 41, 58, 16];
    for s in warm {
        assert_rat_eq(&ema.update(Rat::from_int(s)), -1, 1);
    }
    // The 11th sample completes warm-up with the mean of the first eleven.
    assert_rat_eq(&ema.update(Rat::from_int(98)), 63, 1);
    // Afterwards each step is (sample + 5 * ema) / 6 exactly.
    assert_rat_eq(&ema.update(Rat::from_int(77)), 196, 3);
    assert_rat_eq(&ema.update(Rat::from_int(64)), 586, 9);
    assert_rat_eq(&ema.update(Rat::from_int(46)), 1672, 27);
    assert_rat_eq(&ema.update(Rat::from_int(43)), 9521, 162);
    assert_rat_eq(&ema.update(Rat::from_int(60)), 57325, 972);
    assert_rat_eq(&ema.update(Rat::from_int(84)), 368273, 5832);
    assert_rat_eq(&ema.update(Rat::from_int(24)), 1981333, 34992);
    assert_rat_eq(&ema.update(Rat::from_int(18)), 10536521, 209952);
    assert_rat_eq(&ema.update(Rat::from_int(87)), 70948429, 1259712);
}

#[test]
fn sentinel_before_warm_up() {
    let mut ema = Ema::new(3).unwrap();
    assert_rat_eq(&ema.update(Rat::from_int(10)), -1, 1);
    assert_rat_eq(&ema.update(Rat::from_int(-20)), -1, 1);
}

#[test]
fn completing_call_returns_mean() {
    let mut ema = Ema::new(3).unwrap();
    ema.update(Rat::from_int(1));
    ema.update(Rat::from_int(2));
    // (1 + 2 + 6) / 3 == 3
    assert_rat_eq(&ema.update(Rat::from_int(6)), 3, 1);
}

#[test]
fn ema_formula_after_warm_up() {
    let mut ema = Ema::new(3).unwrap();
    ema.update(Rat::from_int(1));
    ema.update(Rat::from_int(2));
    ema.update(Rat::from_int(6));
    // alpha = 2 / 4 = 1/2, so the next value is 7 * 1/2 + 3 * 1/2 == 5.
    assert_rat_eq(&ema.update(Rat::from_int(7)), 5, 1);
}

#[test]
fn fractional_samples() {
    // Mean of 1/2 and 3/2 is 1.
    let mut ema = Ema::new(2).unwrap();
    assert_rat_eq(&ema.update(Rat::new(1, 2).unwrap()), -1, 1);
    assert_rat_eq(&ema.update(Rat::new(3, 2).unwrap()), 1, 1);
    // alpha = 2/3: 4 * 2/3 + 1 * 1/3 == 3.
    assert_rat_eq(&ema.update(Rat::from_int(4)), 3, 1);
}

#[test]
fn identical_runs_are_identical() {
    let series = [3, 1, 4, 1, 5, 9, 2, 6];
    let mut a = Ema::new(4).unwrap();
    let mut b = Ema::new(4).unwrap();
    for s in series {
        let ra = a.update(Rat::from_int(s));
        let rb = b.update(Rat::from_int(s));
        assert_eq!(ra.numer(), rb.numer());
        assert_eq!(ra.denom(), rb.denom());
    }
}

#[test]
fn update_twice_is_not_idempotent() {
    // Repeating a sample moves the average again: this is expected,
    // not a defect.
    let mut ema = Ema::new(3).unwrap();
    ema.update(Rat::from_int(1));
    ema.update(Rat::from_int(2));
    ema.update(Rat::from_int(6));
    let first = ema.update(Rat::from_int(7));
    let second = ema.update(Rat::from_int(7));
    // 5 and then 6: the repeated sample produced a different value.
    assert_rat_eq(&first, 5, 1);
    assert_rat_eq(&second, 6, 1);
    assert_ne!(first.numer() * second.denom(), second.numer() * first.denom());
}

#[test]
fn smoothing_length_one() {
    // Warm-up completes immediately and alpha = 1: every call returns
    // its own sample.
    let mut ema = Ema::new(1).unwrap();
    assert_rat_eq(&ema.update(Rat::from_int(42)), 42, 1);
    assert_rat_eq(&ema.update(Rat::from_int(7)), 7, 1);
    assert_rat_eq(&ema.update(Rat::from_int(-5)), -5, 1);
}

#[test]
fn zero_smoothing_length_is_rejected() {
    assert_eq!(Ema::new(0).unwrap_err(), EmaError::InvalidConfiguration);
    assert!(Ema::new(1).is_ok());
}

#[test]
fn rational_constructors() {
    assert!(Rat::new(1, 0).is_none());
    assert!(Rat::new(1, -2).is_none());
    let r = Rat::new(3, 6).unwrap();
    assert_eq!(r.numer(), 3);
    assert_eq!(r.denom(), 6);
    let m = Rat::from_int(-1);
    assert_eq!(m.numer(), -1);
    assert_eq!(m.denom(), 1);
}

#[test]
fn checked_update_matches_update() {
    let mut a = Ema::new(2).unwrap();
    let mut b = Ema::new(2).unwrap();
    for s in [5, 9, 13] {
        let ra = a.update(Rat::from_int(s));
        let rb = b.checked_update(Rat::from_int(s)).unwrap();
        assert_eq!(ra.numer(), rb.numer());
        assert_eq!(ra.denom(), rb.denom());
    }
}

#[test]
fn checked_update_reports_overflow() {
    // Denominators multiply at every exponential step; with extreme
    // samples they leave i128 after a few calls.
    let huge = Rat::new(1, i64::MAX).unwrap();
    let mut ema = Ema::new(1).unwrap();
    assert!(ema.checked_update(huge).is_some());
    assert!(ema.checked_update(huge).is_some());
    // 2 * (2 * i64::MAX^2) * i64::MAX no longer fits.
    assert!(ema.checked_update(huge).is_none());
    // The failed call left the state unchanged, so it fails again.
    assert!(ema.checked_update(huge).is_none());
}

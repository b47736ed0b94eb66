use database::methods::prec_double::{truncate, PrecisionBound, MAX_POSITION};

fn bounded(tolerance: f64, value: f64) -> f64 {
    let mut bound = PrecisionBound::new(tolerance.to_bits());
    f64::from_bits(bound.precision_bound(value.to_bits()))
}

/// The coarsest truncation within the tolerance, found by trying them all.
fn coarsest(tolerance: f64, value: f64) -> u64 {
    let bits = value.to_bits();
    let mut best = bits;
    for p in 0..=52u64 {
        let cut = bits & (!0u64 << p);
        if (value - f64::from_bits(cut)).abs() < tolerance {
            best = cut;
        }
    }
    best
}

fn next(state: &mut u64) -> u64 {
    *state ^= *state << 13;
    *state ^= *state >> 7;
    *state ^= *state << 17;
    *state
}

#[test]
fn test_precision_bounded_double() {
    let mut pre = 0.1f64;
    let cur = 0.2f64;
    let mut preu = pre.to_bits();
    let curu = cur.to_bits();
    println!("{:#066b}^{:#066b}={:#066b}", preu, curu, preu ^ curu);

    let a = 0u64;
    let mask = !a;
    for i in 0..53 {
        let res = preu & (mask << i);
        println!("{:#066b} after conversion: {:#066b}", mask << i, res);
        let after = f64::from_bits(res);
        println!("{} float number got: {}, formatted : {:.1}", i, after, after);
        assert_eq!(truncate(preu, i), res);
    }
    let mut bound = PrecisionBound::new(0.05f64.to_bits());
    let bd = f64::from_bits(bound.precision_bound(pre.to_bits()));
    let bdu = bd.to_bits();
    println!("{:#066b} => {:#066b}", preu, bdu);
    println!("float number got: {}, formatted : {:.1}", bd, bd);
    assert_eq!(bd, 0.0625);
    pre = 0.2f64;
    preu = pre.to_bits();
    let bd = f64::from_bits(bound.precision_bound(pre.to_bits()));
    let bdu = bd.to_bits();
    println!("{:#066b} => {:#066b}", preu, bdu);
    println!("float number got: {}, formatted : {:.1}", bd, bd);
    assert_eq!(bd, 0.1875);
    pre = 33.3f64;
    preu = pre.to_bits();
    let bd = f64::from_bits(bound.precision_bound(pre.to_bits()));
    let bdu = bd.to_bits();
    println!("{:#066b} => {:#066b}", preu, bdu);
    println!("float number got: {}, formatted : {:.1}", bd, bd);
    assert_eq!(bd, 33.25);
    pre = -33.3f64;
    preu = pre.to_bits();
    let bd = f64::from_bits(bound.precision_bound(pre.to_bits()));
    let bdu = bd.to_bits();
    println!("{:#066b} => {:#066b}", preu, bdu);
    println!("float number got: {}, formatted : {:.1}", bd, bd);
    assert_eq!(bd, -33.25);
    pre = 0.4f64;
    preu = pre.to_bits();
    let bd = f64::from_bits(bound.precision_bound(pre.to_bits()));
    let bdu = bd.to_bits();
    println!("{:#066b} => {:#066b}", preu, bdu);
    println!("float number got: {}, formatted : {:.1}", bd, bd);
    assert_eq!(bd, 0.375);
    pre = 0.5f64;
    preu = pre.to_bits();
    let bd = f64::from_bits(bound.precision_bound(pre.to_bits()));
    let bdu = bd.to_bits();
    println!("{:#066b} => {:#066b}", preu, bdu);
    println!("float number got: {}, formatted : {:.1}", bd, bd);
    assert_eq!(bd, 0.5);
    pre = 0.6f64;
    preu = pre.to_bits();
    let bd = f64::from_bits(bound.precision_bound(pre.to_bits()));
    let bdu = bd.to_bits();
    println!("{:#066b} => {:#066b}", preu, bdu);
    println!("float number got: {}, formatted : {:.1}", bd, bd);
    assert_eq!(bd, 0.5625);

    pre = 36.7f64;
    preu = pre.to_bits();
    let bd = f64::from_bits(bound.precision_bound(pre.to_bits()));
    let bdu = bd.to_bits();
    println!("{:#066b} => {:#066b}", preu, bdu);
    println!("float number got: {}, formatted : {:.1}", bd, bd);
    assert_eq!(bd, 36.6875);
    pre = -36.7f64;
    preu = pre.to_bits();
    let bd = f64::from_bits(bound.precision_bound(pre.to_bits()));
    let bdu = bd.to_bits();
    println!("{:#066b} => {:#066b}", preu, bdu);
    println!("float number got: {}, formatted : {:.1}", bd, bd);
    assert_eq!(bd, -36.6875);
    pre = 242.8f64;
    preu = pre.to_bits();
    let bd = f64::from_bits(bound.precision_bound(pre.to_bits()));
    let bdu = bd.to_bits();
    println!("{:#066b} => {:#066b}", preu, bdu);
    println!("float number got: {}, formatted : {:.1}", bd, bd);
    assert_eq!(bd, 242.78125);
    pre = 2.9f64;
    preu = pre.to_bits();
    let bd = f64::from_bits(bound.precision_bound(pre.to_bits()));
    let bdu = bd.to_bits();
    println!("{:#066b} => {:#066b}", preu, bdu);
    println!("float number got: {}, formatted : {:.1}", bd, bd);
    assert_eq!(bd, 2.875);
}

#[test]
fn a_tenth_within_a_twentieth() {
    let result = bounded(0.05, 0.1);
    assert!((0.1 - result).abs() < 0.05);
    // the whole fraction is cleared
    assert_eq!(result.to_bits(), 0x3fb0_0000_0000_0000);
    assert_eq!(result.to_bits(), truncate(0.1f64.to_bits(), 52));
    assert_eq!(result.to_bits(), coarsest(0.05, 0.1));
}

#[test]
fn the_position_is_the_number_of_bits_cleared() {
    let mut bound = PrecisionBound::new(0.05f64.to_bits());
    assert_eq!(bound.truncation_position(), 0);
    bound.precision_bound(0.1f64.to_bits());
    assert_eq!(bound.truncation_position(), 52);
    bound.precision_bound(33.3f64.to_bits());
    assert_eq!(bound.truncation_position(), 45);
    bound.precision_bound(242.8f64.to_bits());
    assert_eq!(bound.truncation_position(), 40);
    bound.precision_bound(f64::NAN.to_bits());
    assert_eq!(bound.truncation_position(), 0);
    bound.precision_bound(0.6f64.to_bits());
    assert_eq!(bound.truncation_position(), 49);
}

#[test]
fn the_coarsest_truncation_is_not_the_last() {
    // clearing 45 bits of 33.3 gives 33.25; clearing one more gives 33.0
    let result = bounded(0.05, 33.3);
    assert_eq!(result.to_bits(), truncate(33.3f64.to_bits(), 45));
    assert!((33.3 - f64::from_bits(truncate(33.3f64.to_bits(), 46))).abs() >= 0.05);
}

#[test]
fn truncating_nothing_changes_nothing() {
    for v in [0.0f64, -0.0, 0.1, -33.3, 1e300, f64::MIN_POSITIVE, f64::INFINITY, f64::NAN] {
        assert_eq!(truncate(v.to_bits(), 0), v.to_bits());
    }
    assert_eq!(truncate(u64::MAX, 0), u64::MAX);
}

#[test]
fn truncating_clears_low_bits() {
    assert_eq!(MAX_POSITION, 52);
    assert_eq!(truncate(u64::MAX, 1), u64::MAX - 1);
    assert_eq!(truncate(u64::MAX, 52), 0xfff0_0000_0000_0000);
    assert_eq!(truncate(0x3fb9_9999_9999_999a, 4), 0x3fb9_9999_9999_9990);
}

#[test]
fn the_error_grows_with_the_bits_cleared() {
    for v in [0.1f64, 0.2, 33.3, -36.7, 242.8, 1e-310, 1.7976931348623157e308] {
        let mut last = 0.0f64;
        for p in 0..=52 {
            let error = (v - f64::from_bits(truncate(v.to_bits(), p))).abs();
            assert!(error >= last, "{} at {}", v, p);
            last = error;
        }
    }
}

#[test]
fn no_tolerance_no_truncation() {
    for tolerance in [0.0f64, -0.0, -1.0, f64::NEG_INFINITY, f64::NAN] {
        for v in [0.1f64, 33.3, -2.9, 0.0] {
            assert_eq!(bounded(tolerance, v).to_bits(), v.to_bits());
        }
    }
}

#[test]
fn any_tolerance_clears_what_is_zero_already() {
    // 0.5 has an empty fraction: every truncation is exact
    let mut bound = PrecisionBound::new(f64::MIN_POSITIVE.to_bits());
    assert_eq!(bound.precision_bound(0.5f64.to_bits()), 0.5f64.to_bits());
    assert!(bound.is_bounded(0.5f64.to_bits(), truncate(0.5f64.to_bits(), 52)));
}

#[test]
fn an_infinite_tolerance_clears_the_fraction() {
    for v in [0.1f64, 33.3, -2.9, 1e300] {
        assert_eq!(bounded(f64::INFINITY, v).to_bits(), truncate(v.to_bits(), 52));
    }
}

#[test]
fn what_is_not_finite_is_left_alone() {
    for v in [f64::INFINITY, f64::NEG_INFINITY, f64::NAN] {
        assert_eq!(bounded(0.05, v).to_bits(), v.to_bits());
        assert_eq!(bounded(f64::INFINITY, v).to_bits(), v.to_bits());
    }
}

#[test]
fn the_start_of_the_search_does_not_matter() {
    let values = [0.1f64, 242.8, 0.6, 33.3, 0.5, 2.9, 1e-3, 7e9, 0.2];
    let mut warm = PrecisionBound::new(0.05f64.to_bits());
    for round in 0..3 {
        for v in values {
            let cold = bounded(0.05, v);
            let got = f64::from_bits(warm.precision_bound(v.to_bits()));
            assert_eq!(got.to_bits(), cold.to_bits(), "round {} value {}", round, v);
            assert_eq!(got.to_bits(), coarsest(0.05, v));
        }
    }
}

#[test]
fn bound_agrees_with_doubles() {
    let mut seed = 0x2545_f491_4f6c_dd1du64;
    for _ in 0..20_000 {
        let value = f64::from_bits(next(&mut seed));
        let tolerance = match next(&mut seed) % 4 {
            0 => f64::from_bits(next(&mut seed)),
            1 => value.abs() / ((next(&mut seed) % 1_000_000) as f64 + 1.0),
            2 => f64::from_bits(next(&mut seed) >> 1),
            _ => 0.05,
        };
        let got = bounded(tolerance, value);
        if value.is_finite() {
            assert_eq!(got.to_bits(), coarsest(tolerance, value), "{:e} {:e}", value, tolerance);
        } else {
            assert_eq!(got.to_bits(), value.to_bits());
        }
    }
}

#[test]
fn is_bounded_agrees_with_doubles() {
    let mut seed = 0x1234_5678_9abc_def1u64;
    let exponents: [u64; 8] = [0, 1, 2, 1022, 1023, 1024, 2046, 2047];
    for round in 0..50_000u64 {
        let mut a = next(&mut seed);
        if round % 3 == 0 {
            let e = exponents[(next(&mut seed) % 8) as usize];
            a = (a & !(0x7ffu64 << 52)) | (e << 52);
        }
        let b = if round % 2 == 0 {
            (a & !((1u64 << 52) - 1)) | (next(&mut seed) >> 12)
        } else {
            truncate(a, next(&mut seed) % 53)
        };
        let (fa, fb) = (f64::from_bits(a), f64::from_bits(b));
        let tolerance = match next(&mut seed) % 4 {
            0 => next(&mut seed),
            1 => (fa - fb).abs().to_bits().wrapping_add(next(&mut seed) % 5).wrapping_sub(2),
            2 => next(&mut seed) >> 1,
            _ => (fa - fb).abs().to_bits(),
        };
        let bound = PrecisionBound::new(tolerance);
        let expected = (fa - fb).abs() < f64::from_bits(tolerance);
        assert_eq!(bound.is_bounded(a, b), expected, "{:x} {:x} {:x}", a, b, tolerance);
    }
}

#[test]
fn is_bounded_at_the_edge_of_the_tolerance() {
    let bound = PrecisionBound::new(0.0625f64.to_bits());
    // 1.0625 - 1.0 is the tolerance itself, which is not below it
    assert!(!bound.is_bounded(1.0625f64.to_bits(), 1.0f64.to_bits()));
    assert!(bound.is_bounded(1.0624f64.to_bits(), 1.0f64.to_bits()));
    assert!(bound.is_bounded(1.0f64.to_bits(), 1.0624f64.to_bits()));
    assert!(bound.is_bounded(1.0f64.to_bits(), 1.0f64.to_bits()));
}

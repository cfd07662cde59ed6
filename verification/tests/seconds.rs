use libremeet::seconds::Seconds;

fn seconds(x: f64) -> Seconds {
    Seconds::from_bits(x.to_bits())
}

fn value(s: Seconds) -> f64 {
    f64::from_bits(s.to_bits())
}

/// Equal as numbers, where all that is no number is alike.
fn same(a: f64, b: f64) -> bool {
    a == b || a.is_nan() && b.is_nan()
}

fn samples() -> Vec<f64> {
    let mut all = vec![
        0.0,
        1.0,
        2.0,
        0.1,
        0.2,
        0.3,
        1.0 / 3.0,
        3.75,
        1e10,
        1e16,
        9007199254740992.0,
        9007199254740993.0,
        1e-300,
        1e300,
        f64::MIN_POSITIVE,
        f64::MIN_POSITIVE / 2.0,
        5e-324,
        f64::MAX,
        f64::MAX / 2.0,
        f64::EPSILON,
        f64::INFINITY,
        f64::NAN,
    ];
    // A fixed walk through bit patterns of all kinds.
    let mut x: u64 = 0x9e37_79b9_7f4a_7c15;
    for _ in 0..120 {
        x ^= x << 13;
        x ^= x >> 7;
        x ^= x << 17;
        all.push(f64::from_bits(x));
        // Neighbours in magnitude, where rounding matters most.
        all.push(f64::from_bits((x & 0x000f_ffff_ffff_ffff) | 0x3ff0_0000_0000_0000));
        all.push(f64::from_bits((x & 0x000f_ffff_ffff_ffff) | 0x4010_0000_0000_0000));
        all.push(f64::from_bits(x & 0x001f_ffff_ffff_ffff));
    }
    let negative: Vec<f64> = all.iter().map(|v| -v).collect();
    all.extend(negative);
    all
}

#[test]
fn sums_are_those_of_floating_point() {
    let all = samples();
    for &a in &all {
        for &b in &all {
            let got = value(seconds(a).plus(seconds(b)));
            assert!(same(got, a + b), "{:e} + {:e}: {:e}", a, b, got);
        }
    }
}

#[test]
fn differences_are_those_of_floating_point() {
    let all = samples();
    for &a in &all {
        for &b in &all {
            let got = value(seconds(a).minus(seconds(b)));
            assert!(same(got, a - b), "{:e} - {:e}: {:e}", a, b, got);
        }
    }
}

#[test]
fn order_is_that_of_floating_point() {
    let all = samples();
    for &a in &all {
        for &b in &all {
            assert_eq!(seconds(a).before(seconds(b)), a < b);
            assert!(same(value(seconds(a).later(seconds(b))), a.max(b)));
            assert!(same(value(seconds(a).earlier(seconds(b))), a.min(b)));
        }
    }
}

#[test]
fn exact_values() {
    assert_eq!(value(seconds(0.1).plus(seconds(0.2))), 0.30000000000000004);
    assert_eq!(value(seconds(9007199254740992.0).plus(seconds(1.0))), 9007199254740992.0);
    assert_eq!(value(seconds(9007199254740992.0).plus(seconds(3.0))), 9007199254740996.0);
    assert_eq!(value(seconds(f64::MAX).plus(seconds(f64::MAX))), f64::INFINITY);
    assert_eq!(value(seconds(5e-324).minus(seconds(1e-323))), -5e-324);
    assert!(seconds(f64::INFINITY).minus(seconds(f64::INFINITY)).is_nan());
    assert_eq!(value(seconds(2.5).opposite()), -2.5);
    assert_eq!(Seconds::zero().to_bits(), 0);
    assert!(!seconds(f64::INFINITY).is_nan());
}

use log_stream_gc::multiplier::Multiplier;

fn scale(days: i32, multiplier: f64) -> i64 {
    Multiplier { bits: multiplier.to_bits() }.scale(days)
}

/// The product in floating-point arithmetic.
fn product(days: i32, multiplier: f64) -> i64 {
    (days as i64 as f64 * multiplier) as i64
}

const DAYS: [i32; 22] = [
    0, 1, 2, 3, 5, 7, 14, 30, 60, 90, 365, 731, 3653, 65537, 16777217, 123456789, 1000000007,
    i32::MAX, -1, -7, i32::MIN, i32::MIN + 1,
];

#[test]
fn whole_multipliers_are_exact() {
    assert_eq!(scale(7, 2.0), 14);
    assert_eq!(scale(30, 3.0), 90);
    assert_eq!(scale(i32::MAX, 2.0), 4294967294);
    assert_eq!(scale(365, 1.0), 365);
    assert_eq!(scale(1, 9007199254740991.0), 9007199254740991);
}

#[test]
fn fractions_of_a_day_are_dropped() {
    assert_eq!(scale(7, 1.5), 10);
    assert_eq!(scale(1, 0.99), 0);
    assert_eq!(scale(3, 0.1), 0);
    assert_eq!(scale(-7, 1.5), -10);
    // The nearest number to 1.1 lies above it; the product is rounded to 33 exactly.
    assert_eq!(scale(30, 1.1), 33);
    // The nearest number to 0.29 lies below it.
    assert_eq!(scale(100, 0.29), 28);
}

#[test]
fn products_beyond_the_range_end_at_its_ends() {
    assert_eq!(scale(1, 1e19), i64::MAX);
    assert_eq!(scale(-1, 1e19), i64::MIN);
    assert_eq!(scale(1, -1e19), i64::MIN);
    assert_eq!(scale(2, 4611686018427387904.0), i64::MAX);
    assert_eq!(scale(-2, 4611686018427387904.0), i64::MIN);
    assert_eq!(scale(1, f64::MAX), i64::MAX);
    assert_eq!(scale(1, f64::INFINITY), i64::MAX);
    assert_eq!(scale(1, f64::NEG_INFINITY), i64::MIN);
}

#[test]
fn what_is_not_a_number_makes_no_days() {
    assert_eq!(scale(7, f64::NAN), 0);
    assert_eq!(scale(0, f64::INFINITY), 0);
    assert_eq!(scale(0, f64::NEG_INFINITY), 0);
    assert_eq!(scale(0, 2.0), 0);
    assert_eq!(scale(7, 5e-324), 0);
}

#[test]
fn scaling_agrees_with_floating_point_on_notable_numbers() {
    let notable = [
        0.0, -0.0, 1.0, -1.0, 2.0, 0.5, 1.1, 0.1, 0.29, 2.675, 1e-300, 1e300, 5e-324,
        f64::MIN_POSITIVE, f64::MAX, f64::MIN, f64::EPSILON, f64::INFINITY, f64::NEG_INFINITY,
        f64::NAN, 1.0 + f64::EPSILON, 1.0 - f64::EPSILON / 2.0, 4294967296.0, 4503599627370497.5,
        9007199254740993.0, 9223372036854775807.0, 1.7976931348623157e308, 1e9, 1e10, 3.3333333333333335,
    ];
    for days in DAYS {
        for multiplier in notable {
            assert_eq!(scale(days, multiplier), product(days, multiplier), "{days} {multiplier}");
        }
    }
}

#[test]
fn scaling_agrees_with_floating_point_on_many_numbers() {
    let mut state: u64 = 0x9e37_79b9_7f4a_7c15;
    for round in 0..200_000u64 {
        state ^= state << 13;
        state ^= state >> 7;
        state ^= state << 17;
        // Every other number has an exponent near those of products that fit.
        let bits = if round % 2 == 0 {
            state
        } else {
            (state & 0x800f_ffff_ffff_ffff) | ((1023 - 40 + (state >> 52) % 110) << 52)
        };
        let multiplier = f64::from_bits(bits);
        let days = if round % 3 == 0 { DAYS[(round % 22) as usize] } else { (state >> 20) as i32 };
        assert_eq!(scale(days, multiplier), product(days, multiplier), "{days} {bits:#x}");
    }
}

#[test]
fn larger_multipliers_and_longer_periods_make_no_fewer_days() {
    let multipliers = [0.0, 5e-324, 0.1, 0.5, 1.0, 1.1, 1.5, 2.0, 3.0, 1e6, 1e300, f64::INFINITY];
    for pair in multipliers.windows(2) {
        for days in [0, 1, 7, 30, 3653, i32::MAX] {
            assert!(scale(days, pair[0]) <= scale(days, pair[1]));
        }
    }
    for multiplier in multipliers {
        for pair in [0, 1, 7, 30, 3653, i32::MAX].windows(2) {
            assert!(scale(pair[0], multiplier) <= scale(pair[1], multiplier));
        }
    }
}

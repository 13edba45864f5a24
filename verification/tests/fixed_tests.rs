use capsule_collision::fixed::{integer_sqrt, COORD_MAX, EPSILON, REACH, SCALE};
use capsule_collision::math::{approx, in_between, slice_excess};

#[test]
fn integer_sqrt_rounds_down() {
    assert_eq!(integer_sqrt(0), 0);
    assert_eq!(integer_sqrt(1), 1);
    assert_eq!(integer_sqrt(2), 1);
    assert_eq!(integer_sqrt(3), 1);
    assert_eq!(integer_sqrt(4), 2);
    assert_eq!(integer_sqrt(24), 4);
    assert_eq!(integer_sqrt(25), 5);
    assert_eq!(integer_sqrt(26), 5);
    assert_eq!(integer_sqrt(250_000_000_000), 500_000);
    assert_eq!(integer_sqrt(249_999_999_999), 499_999);
    assert_eq!(integer_sqrt(u128::MAX), u64::MAX);
}

#[test]
fn integer_sqrt_brackets_its_argument() {
    let mut n: u128 = 1;
    for _ in 0..120 {
        let r = integer_sqrt(n) as u128;
        assert!(r * r <= n);
        assert!((r + 1) * (r + 1) > n);
        n = n * 2 + 1;
    }
}

#[test]
fn constants_are_in_raw_units() {
    assert_eq!(SCALE, 1_000_000);
    assert_eq!(COORD_MAX, 500 * SCALE);
    assert_eq!(REACH, 8 * COORD_MAX);
    assert_eq!(EPSILON, SCALE / 10_000);
}

#[test]
fn in_between_includes_both_ends() {
    assert!(in_between(0, 0, 1_000_000));
    assert!(in_between(1_000_000, 0, 1_000_000));
    assert!(in_between(500_000, 0, 1_000_000));
    assert!(!in_between(-1, 0, 1_000_000));
    assert!(!in_between(1_000_001, 0, 1_000_000));
}

#[test]
fn approx_is_equality_up_to_epsilon() {
    assert!(approx(1_000_000, 1_000_000));
    assert!(approx(1_000_000, 1_000_099));
    assert!(approx(1_000_099, 1_000_000));
    assert!(!approx(1_000_000, 1_000_100));
    assert!(!approx(1_000_100, 1_000_000));
    assert!(!approx(i64::MIN, i64::MAX));
}

#[test]
fn slice_excess_rounds_to_hundredths() {
    assert_eq!(slice_excess(0), 0);
    assert_eq!(slice_excess(1_234_567), 1_230_000);
    assert_eq!(slice_excess(1_235_000), 1_240_000);
    assert_eq!(slice_excess(1_234_999), 1_230_000);
    assert_eq!(slice_excess(-1_234_567), -1_230_000);
    assert_eq!(slice_excess(-1_235_000), -1_240_000);
    assert_eq!(slice_excess(14_999), 10_000);
    assert_eq!(slice_excess(15_000), 20_000);
    assert_eq!(slice_excess(4_999), 0);
    assert_eq!(slice_excess(-4_999), 0);
    assert_eq!(slice_excess(500_000_000), 500_000_000);
}

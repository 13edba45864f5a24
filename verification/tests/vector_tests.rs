use capsule_collision::vector::{magnitude_wide, mul_wide, scale_div, scale_div_wide, Vec3};

#[test]
fn sums_and_differences_are_componentwise() {
    let a = Vec3::new(1, -2, 3);
    let b = Vec3::new(10, 20, -30);
    assert_eq!(a.plus(b), Vec3::new(11, 18, -27));
    assert_eq!(a.minus(b), Vec3::new(-9, -22, 33));
    assert_eq!(a.negated(), Vec3::new(-1, 2, -3));
    assert_eq!(Vec3::zero(), Vec3::new(0, 0, 0));
}

#[test]
fn products_are_exact() {
    let a = Vec3::new(1, 2, 3);
    let b = Vec3::new(4, 5, 6);
    assert_eq!(a.dot(b), 32);
    assert_eq!(a.cross(b), Vec3::new(-3, 6, -3));
    assert_eq!(b.cross(a), Vec3::new(3, -6, 3));
    assert_eq!(a.cross(a), Vec3::new(0, 0, 0));
    assert_eq!(a.norm2(), 14);
    let x = Vec3::new(1_000_000, 0, 0);
    let y = Vec3::new(0, 1_000_000, 0);
    assert_eq!(x.cross(y), Vec3::new(0, 0, 1_000_000_000_000));
    assert_eq!(mul_wide(i64::MAX, i64::MAX), (i64::MAX as i128) * (i64::MAX as i128));
    assert_eq!(mul_wide(i64::MIN, i64::MIN), (i64::MIN as i128) * (i64::MIN as i128));
    assert_eq!(magnitude_wide(-5), 5);
    assert_eq!(magnitude_wide(5), 5);
}

#[test]
fn length_is_rounded_down() {
    assert_eq!(Vec3::new(3, 4, 0).length(), 5);
    assert_eq!(Vec3::new(1, 1, 1).length(), 1);
    assert_eq!(Vec3::new(2, 2, 2).length(), 3);
    assert_eq!(Vec3::new(0, 0, 0).length(), 0);
    assert_eq!(Vec3::new(-3_000_000, 0, 4_000_000).length(), 5_000_000);
}

#[test]
fn normalized_axis_vector_has_unit_length() {
    let v = Vec3::new(0, -3_364_000_000_000_000, 0).normalized();
    assert_eq!(v, Vec3::new(0, -1_000_000, 0));
}

#[test]
fn normalized_rounds_each_component_towards_zero() {
    assert_eq!(Vec3::new(3, 0, -4).normalized(), Vec3::new(600_000, 0, -800_000));
    assert_eq!(Vec3::new(1, 1, 0).normalized(), Vec3::new(707_106, 707_106, 0));
    assert_eq!(Vec3::new(0, -1, 0).normalized(), Vec3::new(0, -1_000_000, 0));
    assert_eq!(Vec3::new(1, -2, 2).normalized(), Vec3::new(333_333, -666_666, 666_666));
    assert_eq!(
        Vec3::new(1_000_000, 1_000_000, 0).normalized(),
        Vec3::new(707_106, 707_106, 0)
    );
    // A long vector: scaled, and divided by its rounded-down length.
    assert_eq!(
        Vec3::new(-8_000_000_000_000, 16_000_000_000_000, 0).normalized(),
        Vec3::new(-447_213, 894_427, 0)
    );
    assert_eq!(
        Vec3::new(1_099_511_627_776, 0, 0).normalized(),
        Vec3::new(1_000_000, 0, 0)
    );
    assert_eq!(
        Vec3::new(1_099_511_627_775, 0, 0).normalized(),
        Vec3::new(1_000_000, 0, 0)
    );
    assert_eq!(
        Vec3::new(-1_000_000, 1_000_000, 1_000_000).normalized(),
        Vec3::new(-577_350, 577_350, 577_350)
    );
    assert_eq!(Vec3::new(0, 0, 0).normalized(), Vec3::new(0, 0, 0));
}

#[test]
fn scaling_rounds_towards_zero() {
    assert_eq!(scale_div(7, 3, 2), 10);
    assert_eq!(scale_div(-7, 3, 2), -10);
    assert_eq!(scale_div(7, -3, 2), -10);
    assert_eq!(scale_div_wide(7, 1_000_000_000_000_000_000_000, 2_000_000_000_000_000_000_000), 3);
    let v = Vec3::new(1_000_000, -500_000, 3);
    assert_eq!(v.scaled_over(490_000, 1_000_000), Vec3::new(490_000, -245_000, 1));
    assert_eq!(v.scaled_over_wide(1, 2), Vec3::new(500_000, -250_000, 1));
    assert!(v.is_within(1_000_000));
    assert!(!v.is_within(999_999));
}

use rustcar2::policy::Policy;

#[test]
fn build_default_policy() {
    // Act
    let dpolicy = Policy::new(4, 4, 2);
    // Assert
    let vdims = dpolicy.value_dim();
    let pdims = dpolicy.policy_dim();
    assert_eq!(vdims.0, 5);
    assert_eq!(vdims.1, 5);
    assert_eq!(vdims.2, 5);
    assert_eq!(f64::from_bits(dpolicy.get_value(0, 0, -2)), 0.0);
    assert_eq!(pdims.0, 5);
    assert_eq!(pdims.1, 5);
    assert_eq!(dpolicy.get_action(0, 0), 0);
}

#[test]
fn policy_dimensions_follow_the_bounds() {
    let p = Policy::new(3, 7, 1);
    assert_eq!(p.value_dim(), (4, 8, 3));
    assert_eq!(p.policy_dim(), (4, 8));
    assert_eq!(p.max1, 3);
    assert_eq!(p.max2, 7);
    assert_eq!(p.max_move, 1);
    let p = Policy::new(0, 0, 0);
    assert_eq!(p.value_dim(), (1, 1, 1));
    assert_eq!(p.policy_dim(), (1, 1));
    let p = Policy::new(255, 255, 127);
    assert_eq!(p.value_dim(), (256, 256, 255));
    assert_eq!(p.policy_dim(), (256, 256));
}

#[test]
fn policy_starts_at_zero_everywhere() {
    let p = Policy::new(2, 3, 1);
    for n1 in 0u8..=2 {
        for n2 in 0u8..=3 {
            assert_eq!(p.get_action(n1, n2), 0);
            for a in -1i8..=1 {
                assert_eq!(p.get_value(n1, n2, a), 0);
            }
        }
    }
}

#[test]
fn policy_set_value_then_get_value() {
    let mut p = Policy::new(4, 4, 2);
    let v = 12.5f64.to_bits();
    p.set_value(3, 1, -2, v);
    assert_eq!(p.get_value(3, 1, -2), v);
    assert_eq!(f64::from_bits(p.get_value(3, 1, -2)), 12.5);
    p.set_value(3, 1, 2, 7);
    assert_eq!(p.get_value(3, 1, 2), 7);
    assert_eq!(p.get_value(3, 1, -2), v);
}

#[test]
fn policy_set_value_leaves_other_cells() {
    let mut p = Policy::new(2, 2, 1);
    p.set_value(1, 2, 0, 99);
    for n1 in 0u8..=2 {
        for n2 in 0u8..=2 {
            assert_eq!(p.get_action(n1, n2), 0);
            for a in -1i8..=1 {
                let expected = if (n1, n2, a) == (1, 2, 0) { 99 } else { 0 };
                assert_eq!(p.get_value(n1, n2, a), expected);
            }
        }
    }
    assert_eq!(p.value_dim(), (3, 3, 3));
}

#[test]
fn policy_actions_are_shifted_into_the_table() {
    let mut p = Policy::new(1, 1, 127);
    p.set_value(0, 0, -127, 1);
    p.set_value(0, 0, 0, 2);
    p.set_value(0, 0, 127, 3);
    assert_eq!(p.get_value(0, 0, -127), 1);
    assert_eq!(p.get_value(0, 0, 0), 2);
    assert_eq!(p.get_value(0, 0, 127), 3);
    assert_eq!(p.get_value(0, 0, -126), 0);
    assert_eq!(p.get_value(0, 0, 126), 0);
}

use braind::units::{wrap, PI, TAU};

#[test]
fn angles_wrap_to_half_a_turn_either_way() {
    assert_eq!(wrap(0), 0);
    assert_eq!(wrap(PI), -PI);
    assert_eq!(wrap(-PI), -PI);
    assert_eq!(wrap(3 * TAU + 5), 5);
    assert_eq!(wrap(-TAU - 5), -5);
    assert_eq!(wrap(wrap(i64::MAX)), wrap(i64::MAX));
}

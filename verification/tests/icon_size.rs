use waddle::icon_size::{stepped, DEFAULT, MAX, MIN};

#[test]
fn resizing_is_bounded_even_with_extreme_input() {
    assert_eq!(stepped(DEFAULT, 1), 56);
    assert_eq!(stepped(DEFAULT, -1), 40);
    assert_eq!(stepped(MAX, i32::MAX), MAX);
    assert_eq!(stepped(MIN, i32::MIN), MIN);
}

#[test]
fn sixteen_steps_is_the_most_one_gesture_moves() {
    assert_eq!(stepped(MIN, 10), 104);
    assert_eq!(stepped(MIN, 17), MAX);
    assert_eq!(stepped(100, -3), 76);
    assert_eq!(stepped(0, 0), MIN);
    assert_eq!(stepped(u16::MAX, 0), MAX);
}

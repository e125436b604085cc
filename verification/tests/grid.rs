use waddle::grid::Motion;

#[test]
fn only_arrow_and_hjkl_motions_are_directional() {
    for motion in [Motion::Left, Motion::Right, Motion::Up, Motion::Down] {
        assert!(motion.is_directional());
    }
    for motion in [
        Motion::First,
        Motion::Last,
        Motion::ViewportTop,
        Motion::HalfPageDown,
    ] {
        assert!(!motion.is_directional());
    }
}

use waddle::drag_hover::{Effect, State, Target};

#[test]
fn changing_target_restarts_progress_and_moving_away_cancels() {
    let now = 10_000;
    let mut state = State::default();
    state.set(Some(Target::Folder("/one".to_owned())), now);
    assert!(state.elapsed_toward_enter("/one", now).is_some());

    state.set(Some(Target::Folder("/two".to_owned())), now + 900);
    assert_eq!(state.elapsed_toward_enter("/two", now + 900), Some(0));
    state.set(None, now + 901);
    assert!(!state.is_active());
}

#[test]
fn sidebar_expands_once_before_the_longer_enter_deadline() {
    let now = 10_000;
    let mut state = State::default();
    state.set(Some(Target::Sidebar { id: 7, path: "/folder".to_owned() }), now);
    assert_eq!(state.tick(now + 349), None);
    assert_eq!(state.tick(now + 350), Some(Effect::Expand(7)));
    assert_eq!(state.tick(now + 700), None);
    assert_eq!(state.tick(now + 1_100), Some(Effect::Enter("/folder".to_owned())));
    assert!(!state.is_active());
}

#[test]
fn resting_on_the_same_target_keeps_its_start_and_progress_is_capped() {
    let mut state = State::new();
    state.set(Some(Target::Folder("/a".to_owned())), 100);
    state.set(Some(Target::Folder("/a".to_owned())), 600);
    assert_eq!(state.elapsed_toward_enter("/a", 600), Some(500));
    assert_eq!(state.elapsed_toward_enter("/a", 5_000), Some(1_100));
    assert_eq!(state.elapsed_toward_enter("/b", 600), None);
    assert_eq!(state.elapsed_toward_enter("/a", 50), Some(0));
    assert_eq!(state.tick(500), None);
    assert_eq!(state.tick(1_200), Some(Effect::Enter("/a".to_owned())));
    assert_eq!(state.tick(1_300), None);
    state.set(Some(Target::Folder("/a".to_owned())), 0);
    state.cancel();
    assert!(!state.is_active());
}

use waddle::native_clipboard::{Action, DndSource, Platform, X11Drop};

#[test]
fn x11_drop_staging_deduplicates_paths_and_rejects_stale_generations() {
    let mut drop = X11Drop::default();
    let first = "/tmp/first".to_owned();
    let second = "/tmp/second".to_owned();

    assert_eq!(drop.hover(first.clone(), Action::Move), Action::Move);
    assert_eq!(drop.hover(first.clone(), Action::Copy), Action::Move);
    let generation = drop.drop_path(second.clone());

    assert!(drop.take(generation.wrapping_sub(1)).is_none());
    let (paths, action) = drop.take(generation).unwrap();
    assert_eq!(paths, [first, second]);
    assert_eq!(action, Action::Move);
    assert!(drop.take(generation).is_none());
}

#[test]
fn leaving_x11_drop_staging_resets_paths_and_action() {
    let mut drop = X11Drop::default();
    let _ = drop.hover("/tmp/first".to_owned(), Action::Move);
    drop.leave();

    assert!(drop.paths().is_empty());
    assert_eq!(drop.action(), Action::Copy);
}

#[test]
fn dropping_twice_keeps_one_path_and_advances_the_generation() {
    let mut drop = X11Drop::default();
    assert_eq!(drop.drop_path("/a".to_owned()), 1);
    assert_eq!(drop.drop_path("/a".to_owned()), 2);
    assert_eq!(drop.paths().len(), 1);
    assert!(drop.take(1).is_none());
    let (paths, action) = drop.take(2).unwrap();
    assert_eq!(paths, ["/a".to_owned()]);
    assert_eq!(action, Action::Copy);
}

#[test]
fn platform_stages_x11_drops_only_under_x11() {
    let mut platform = Platform::new();
    assert_eq!(platform.hover_x11_file("/a".to_owned()), None);
    assert!(!platform.leave_x11_files());
    assert_eq!(platform.drop_x11_file("/a".to_owned()), None);

    assert!(platform.install(Ok(DndSource::Wayland)).is_ok());
    assert!(!platform.x11_active());
    assert_eq!(platform.hover_x11_file("/a".to_owned()), None);

    assert_eq!(platform.install(Err("no display".to_owned())), Err("no display".to_owned()));
    assert_eq!(platform.dnd_error(), Some("no display"));

    assert!(platform.install(Ok(DndSource::X11 { incoming: Action::Move })).is_ok());
    assert_eq!(platform.dnd_error(), None);
    assert_eq!(platform.hover_x11_file("/a".to_owned()), Some(Action::Move));
    let generation = platform.drop_x11_file("/b".to_owned()).unwrap();
    let (paths, action) = platform.take_x11_drop(generation).unwrap();
    assert_eq!(paths, ["/a".to_owned(), "/b".to_owned()]);
    assert_eq!(action, Action::Move);
    assert_eq!(DndSource::Wayland.incoming_action(), Action::Copy);
    assert!(platform.take_dnd().unwrap().is_x11());
    assert!(!platform.x11_active());
}

use waddle::focus::{BrowserFocus, FocusDirection, FocusSession};

#[test]
fn tab_order_wraps_in_both_directions() {
    assert_eq!(BrowserFocus::Sidebar.moved(false), BrowserFocus::Entries);
    assert_eq!(BrowserFocus::Entries.moved(false), BrowserFocus::Sidebar);
    assert_eq!(BrowserFocus::Sidebar.moved(true), BrowserFocus::Entries);
    assert_eq!(BrowserFocus::Entries.moved(true), BrowserFocus::Sidebar);
    assert_eq!(BrowserFocus::Sidebar.label(), "sidebar");
    assert_eq!(BrowserFocus::Entries.label(), "files");
}

#[test]
fn arrows_cross_only_towards_a_visible_sidebar() {
    assert_eq!(
        BrowserFocus::Sidebar.moved_in(FocusDirection::Right, true),
        BrowserFocus::Entries
    );
    assert_eq!(
        BrowserFocus::Entries.moved_in(FocusDirection::Left, true),
        BrowserFocus::Sidebar
    );
    assert_eq!(
        BrowserFocus::Entries.moved_in(FocusDirection::Left, false),
        BrowserFocus::Entries
    );
    assert_eq!(
        BrowserFocus::Sidebar.moved_in(FocusDirection::Down, true),
        BrowserFocus::Sidebar
    );
}

#[test]
fn focusing_a_hidden_sidebar_keeps_the_files() {
    let mut focus = FocusSession::default();
    assert!(focus.is(BrowserFocus::Entries));
    let update = focus.focus_browser(BrowserFocus::Sidebar, false);
    assert_eq!(update.target, BrowserFocus::Entries);
    assert!(!update.clear_sequence);
    assert_eq!(focus.generation(), 1);

    let update = focus.move_browser_focus(false, false);
    assert_eq!(update.target, BrowserFocus::Entries);

    let update = focus.move_browser_focus(false, true);
    assert_eq!(update.target, BrowserFocus::Sidebar);
    assert!(update.clear_sequence);
    assert_eq!(focus.label(), "sidebar");
}

#[test]
fn leaving_location_editing_asks_for_an_unfocus() {
    let mut focus = FocusSession::default();
    focus.focus_location();
    assert!(focus.location_editing());
    let update = focus.focus_browser(BrowserFocus::Entries, true);
    assert!(update.left_location);
    assert!(!focus.location_editing());
    assert!(focus.take_pending_unfocus());
    assert!(!focus.take_pending_unfocus());
    focus.release_location();
    assert_eq!(focus.generation(), 3);
}

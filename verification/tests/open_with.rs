use waddle::open_with::{
    application_path, arrange_applications, Application, Request, Session, SessionView,
};

fn application(id: &str, name: &str, default: bool) -> Application {
    Application { id: id.to_owned(), name: name.to_owned(), default }
}

fn with_applications(path: &str, applications: Vec<Application>) -> Session {
    let mut session = Session::default();
    session.open(path.to_owned(), applications);
    session
}

#[test]
fn keyboard_selection_includes_custom_last_and_preserves_its_input() {
    let mut session = with_applications(
        "/work/file.txt",
        vec![application("editor.desktop", "Editor", true), application("viewer.desktop", "Viewer", false)],
    );
    session.move_selection(-1);
    assert!(matches!(session.view(), SessionView::Open { selected: 0, .. }));
    session.move_selection(1);
    assert_eq!(session.clone().submit().unwrap().application, "viewer.desktop");
    session.move_selection(10);
    assert!(matches!(session.view(), SessionView::Open { selected: 2, editing: false, .. }));
    assert!(session.submit().is_none());
    session.change_custom("/opt/my editor".into());
    session.move_selection(-1);
    assert!(matches!(session.view(), SessionView::Open { selected: 2, editing: true, .. }));
    assert!(session.leave_custom());
    session.move_selection(-1);
    session.move_selection(1);
    assert!(session.submit().is_none());
    assert_eq!(
        session.submit().unwrap(),
        Request { path: "/work/file.txt".into(), application: "/opt/my editor".into() }
    );
}

#[test]
fn empty_application_list_still_offers_custom() {
    let mut session = with_applications("/work/file.txt", vec![]);
    session.move_selection(1);
    session.move_selection(-1);
    assert!(session.submit().is_none());
    assert!(matches!(session.view(), SessionView::Open { selected: 0, editing: true, .. }));
}

#[test]
fn application_paths_expand_home_and_resolve_relative_to_target_folder() {
    let home = "/home/someone";
    assert_eq!(application_path("/work/file.txt", "~/bin/editor", home), "/home/someone/bin/editor");
    assert_eq!(application_path("/work/file.txt", "./editor", home), "/work/./editor");
    assert_eq!(application_path("/work/file.txt", "editor", home), "editor");
    assert_eq!(application_path("/work/file.txt", "/opt/editor", home), "/opt/editor");
}

#[test]
fn session_exposes_options_and_keeps_a_manual_application_input() {
    let mut session = Session::default();
    session.open(
        "/work/document.txt".to_owned(),
        vec![
            application("org.example.Editor.desktop", "Editor", true),
            application("org.example.Viewer.desktop", "Viewer", false),
        ],
    );

    let SessionView::Open { target_name, applications, custom, error, .. } = session.view() else {
        panic!("Open With session should be visible");
    };
    assert_eq!(target_name, "document.txt");
    assert_eq!(applications.len(), 2);
    assert_eq!(custom, "");
    assert_eq!(error, "");

    session.move_selection(2);
    assert!(session.submit().is_none());
    session.change_custom("org.example.Custom.desktop".to_owned());
    assert_eq!(
        session.submit(),
        Some(Request {
            path: "/work/document.txt".to_owned(),
            application: "org.example.Custom.desktop".to_owned(),
        })
    );
    assert!(!session.is_open());
}

#[test]
fn typed_option_uses_the_retained_target_and_empty_input_stays_open() {
    let mut session = Session::default();
    session.open(
        "/work/image.png".to_owned(),
        vec![application("org.example.Viewer.desktop", "Viewer", false)],
    );

    session.move_selection(1);
    assert!(session.submit().is_none());
    assert!(session.submit().is_none());
    assert!(matches!(session.view(), SessionView::Open { error, .. } if !error.is_empty()));
    session.change_custom("  Viewer  ".to_owned());
    assert_eq!(
        session.submit(),
        Some(Request { path: "/work/image.png".to_owned(), application: "Viewer".to_owned() })
    );
}

#[test]
fn listing_puts_the_default_first_then_sorts_by_name_and_drops_repeated_ids() {
    let found = vec![
        ("zeta.desktop".to_owned(), "zeta".to_owned()),
        ("Alpha.desktop".to_owned(), "Alpha".to_owned()),
        ("viewer.desktop".to_owned(), "Viewer".to_owned()),
        ("alpha.DESKTOP".to_owned(), "Another alpha".to_owned()),
        ("beta.desktop".to_owned(), "beta".to_owned()),
    ];
    let listed = arrange_applications(Some("VIEWER.desktop"), &found);
    assert_eq!(
        listed,
        vec![
            application("viewer.desktop", "Viewer", true),
            application("Alpha.desktop", "Alpha", false),
            application("beta.desktop", "beta", false),
            application("zeta.desktop", "zeta", false),
        ]
    );
}

#[test]
fn listing_breaks_name_ties_by_id_and_handles_no_default() {
    let found = vec![
        ("b.desktop".to_owned(), "Same".to_owned()),
        ("a.desktop".to_owned(), "same".to_owned()),
    ];
    let listed = arrange_applications(None, &found);
    assert_eq!(
        listed,
        vec![application("a.desktop", "same", false), application("b.desktop", "Same", false)]
    );
    assert!(arrange_applications(Some("x"), &[]).is_empty());
}

#[test]
fn closed_session_ignores_keys_and_cancel_reports_whether_it_was_open() {
    let mut session = Session::default();
    session.move_selection(3);
    session.change_custom("x".to_owned());
    assert!(!session.leave_custom());
    assert!(session.submit().is_none());
    assert!(matches!(session.view(), SessionView::Closed));
    assert_eq!(session.visible_rows(), None);
    assert!(!session.cancel());

    let mut session = with_applications("/", vec![application("a", "A", false); 7]);
    assert_eq!(session.visible_rows(), Some(5));
    assert!(matches!(session.view(), SessionView::Open { target_name: "/", .. }));
    assert!(session.cancel());
    assert!(!session.is_open());
}

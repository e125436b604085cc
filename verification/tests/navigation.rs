use waddle::entries::{FileEntry, LoadRequest, OpenedDirectory, TrashEntry, TrashReceipt};
use waddle::grid::GridInteraction;
use waddle::navigation::{Completion, DisplayedLocation, NavigationSession, Outcome, Transition};



#[test]
fn navigation_session_first_back_cancels_then_second_back_uses_history() {
    let mut session = NavigationSession::new("/current".to_owned());
    session.seed_history(vec!["/back".to_owned()], Vec::new());
    let pending = session
        .transition(Transition::Open {
            requested: "/slow".to_owned(),
            remember: true,
            select: None,
        })
        .request
        .unwrap();
    assert!(
        session.transition(Transition::Back).request.is_none(),
        "first Back must cancel the pending request inside the Navigation session"
    );
    assert!(!session.loading());
    assert!(matches!(
        session.complete(
            &pending,
            Completion::Folder(Ok(opened("/slow", Vec::new())))
        ),
        Outcome::Ignored
    ));
    let back = session.transition(Transition::Back).request.unwrap();
    assert_eq!(back.requested(), Some("/back"));
}

#[test]
fn unavailable_navigation_still_cancels_a_superseded_request() {
    for transition in [Transition::Parent, Transition::HistoryForward] {
        let mut session = NavigationSession::new("/".to_owned());
        let pending = session
            .transition(Transition::Open {
                requested: "/slow".to_owned(),
                remember: true,
                select: None,
            })
            .request
            .unwrap();
        let start = session.transition(transition);
        assert!(start.request.is_none());
        assert_eq!(
            start.cancelled,
            Some(pending.clone()),
            "a navigation choice with no destination must still cancel the old choice"
        );
        assert!(!session.loading());
        assert!(matches!(
            session.complete(
                &pending,
                Completion::Folder(Ok(opened("/slow", Vec::new())))
            ),
            Outcome::Ignored
        ));
        assert_eq!(session.current(), "/");
    }
}

#[test]
fn navigation_session_keeps_tree_loads_and_deferred_refresh_with_their_request() {
    let mut session = NavigationSession::new("/current".to_owned());
    let load = LoadRequest {
        id: 42,
        path: "/slow".to_owned(),
    };
    let first = session
        .transition(Transition::Sidebar {
            requested: load.path.clone(),
            load: Some(load.clone()),
        })
        .request
        .unwrap();
    assert!(session.defer_refresh());
    let replacement = session.transition(Transition::Open {
        requested: "/current".to_owned(),
        remember: true,
        select: None,
    });
    assert_eq!(replacement.cancelled.unwrap().tree_load(), Some(load.clone()));
    let latest = replacement.request.unwrap();
    let stale = session.complete_with_hidden_paths(
        &first,
        Completion::Folder(Ok(opened("/slow", Vec::new()))),
        &[],
    );
    assert!(matches!(stale.outcome, Outcome::Ignored));
    assert!(stale.tree_load.is_none());
    assert!(!stale.refresh);
    let settled = session.complete_with_hidden_paths(
        &latest,
        Completion::Folder(Ok(opened("/current", Vec::new()))),
        &[],
    );
    assert!(
        !settled.refresh,
        "superseded requests must discard their deferred refresh"
    );

    let refresh = session.refresh(None).request.unwrap();
    assert!(session.defer_refresh());
    assert!(session.defer_refresh());
    let finished = session.complete_with_hidden_paths(
        &refresh,
        Completion::Folder(Ok(opened("/current", Vec::new()))),
        &[],
    );
    assert!(finished.refresh, "changes during a scan require one rescan");
    let duplicate = session.complete_with_hidden_paths(
        &refresh,
        Completion::Folder(Ok(opened("/current", Vec::new()))),
        &[],
    );
    assert!(!duplicate.refresh);
}

#[test]
fn navigation_session_reuses_only_the_displayed_idle_folder() {
    let mut session = NavigationSession::new("/current".to_owned());
    let load = LoadRequest {
        id: 42,
        path: "/current".to_owned(),
    };
    let reuse = session.transition(Transition::Sidebar {
        requested: load.path.clone(),
        load: Some(load.clone()),
    });
    assert!(reuse.request.is_none());
    assert_eq!(reuse.reuse_tree, Some(load.clone()));
    let recent = session.recent().request.unwrap();
    let _ = session.complete(&recent, Completion::Recent(Ok(Vec::new())));
    let open = session.transition(Transition::Sidebar {
        requested: load.path.clone(),
        load: Some(load.clone()),
    });
    assert!(open.reuse_tree.is_none());
    let request = open.request.unwrap();
    let completed = session.complete_with_hidden_paths(
        &request,
        Completion::Folder(Ok(opened("/current", Vec::new()))),
        &[],
    );
    assert_eq!(completed.tree_load, Some(load));
    assert!(session.folder_displayed());
}

fn entry(path: &str) -> FileEntry {
    FileEntry {
        path: path.to_owned(),
        name: path.rsplit('/').next().unwrap().to_owned(),
        directory: false,
    }
}

fn opened(path: &str, entries: Vec<FileEntry>) -> OpenedDirectory {
    OpenedDirectory {
        canonical_path: path.to_owned(),
        entries,
        child_folders: Vec::new(),
    }
}

fn trash_entry(path: &str, original: &str) -> TrashEntry {
    let file = entry(path);
    TrashEntry {
        receipt: TrashReceipt {
            original: original.to_owned(),
            trashed: file.path.clone(),
            info: format!("{path}.trashinfo"),
        },
        file,
    }
}

#[test]
fn forward_back_and_history_forward_share_one_session() {
    let mut session = NavigationSession::new("/start".to_owned());
    let request = session
        .transition(Transition::Open {
            requested: "/next".to_owned(),
            remember: true,
            select: None,
        })
        .request
        .unwrap();
    assert!(matches!(
        session.complete(&request, Completion::Folder(Ok(opened("/next", vec![])))),
        Outcome::Committed(_)
    ));
    assert_eq!(session.current(), "/next");
    assert!(session.can_go_back());

    let request = session.transition(Transition::Back).request.unwrap();
    assert!(matches!(
        session.complete(&request, Completion::Folder(Ok(opened("/start", vec![])))),
        Outcome::Committed(_)
    ));
    assert_eq!(session.current(), "/start");
    assert!(session.can_go_forward());

    let request = session
        .transition(Transition::HistoryForward)
        .request
        .unwrap();
    let _ = session.complete(&request, Completion::Folder(Ok(opened("/next", vec![]))));
    assert_eq!(session.current(), "/next");
}

#[test]
fn stale_and_failed_completions_cannot_commit() {
    let mut session = NavigationSession::new("/start".to_owned());
    let stale = session
        .transition(Transition::Open {
            requested: "/stale".to_owned(),
            remember: true,
            select: None,
        })
        .request
        .unwrap();
    let latest = session
        .transition(Transition::Open {
            requested: "/latest".to_owned(),
            remember: true,
            select: None,
        })
        .request
        .unwrap();

    assert!(matches!(
        session.complete(&stale, Completion::Folder(Ok(opened("/stale", vec![])))),
        Outcome::Ignored
    ));
    assert_eq!(session.current(), "/start");
    assert!(matches!(
        session.complete(
            &latest,
            Completion::Folder(Err("missing".to_owned()))
        ),
        Outcome::Failed(error) if error == "missing"
    ));
    assert_eq!(session.current(), "/start");
}

#[test]
fn cancelling_pending_navigation_preserves_location_and_history() {
    let mut session = NavigationSession::new("/current".to_owned());
    session.seed_history(vec!["/back".to_owned()], Vec::new());
    let pending = session
        .transition(Transition::Open {
            requested: "/slow".to_owned(),
            remember: true,
            select: None,
        })
        .request
        .unwrap();

    assert_eq!(session.cancel_pending(), Some(pending.clone()));
    assert!(!session.loading());
    assert_eq!(session.current(), "/current");
    assert!(session.can_go_back());
    assert!(matches!(
        session.complete(
            &pending,
            Completion::Folder(Ok(OpenedDirectory {
                canonical_path: "/slow".to_owned(),
                entries: Vec::new(),
                child_folders: Vec::new(),
            }))
        ),
        Outcome::Ignored
    ));
    assert_eq!(session.current(), "/current");
}

#[test]
fn same_path_refreshes_are_distinguished_by_request_identity() {
    let mut session = NavigationSession::new("/start".to_owned());
    let stale = session.refresh(None).request.unwrap();
    let latest = session.refresh(None).request.unwrap();

    assert!(matches!(
        session.complete(
            &stale,
            Completion::Folder(Ok(opened("/start", vec![entry("/start/stale")])))
        ),
        Outcome::Ignored
    ));
    assert!(session.loading());
    assert!(matches!(
        session.complete(
            &latest,
            Completion::Folder(Ok(opened("/start", vec![entry("/start/latest")])))
        ),
        Outcome::Committed(_)
    ));
    assert_eq!(session.entries()[0].path, "/start/latest".to_owned());
    assert!(!session.loading());
}

#[test]
fn committed_folder_keeps_child_folders_from_the_same_scan() {
    let mut session = NavigationSession::new("/start".to_owned());
    let request = session.refresh(None).request.unwrap();
    let mut snapshot = opened("/start", vec![entry("/start/file")]);
    snapshot.child_folders = vec!["/start/alpha".to_owned(), "/start/beta".to_owned()];

    assert!(matches!(
        session.complete(&request, Completion::Folder(Ok(snapshot))),
        Outcome::Committed(_)
    ));
    assert_eq!(
        session.child_folders().as_slice(),
        ["/start/alpha".to_owned(), "/start/beta".to_owned()]
    );
}

#[test]
fn back_is_available_from_recent_and_trash_without_folder_history() {
    for trash in [false, true] {
        let mut session = NavigationSession::new("/start".to_owned());
        assert!(!session.can_go_back());
        let (request, completion) = if trash {
            (
                session.trash().request.unwrap(),
                Completion::Trash(Ok(Vec::new())),
            )
        } else {
            (
                session.recent().request.unwrap(),
                Completion::Recent(Ok(Vec::new())),
            )
        };
        assert!(matches!(
            session.complete(&request, completion),
            Outcome::Committed(_)
        ));
        assert!(
            session.can_go_back(),
            "the Back button must let users leave Recent/Trash even on first launch"
        );
        let back = session.transition(Transition::Back).request.unwrap();
        assert_eq!(back.requested(), Some("/start"));
        let _ = session.complete(&back, Completion::Folder(Ok(opened("/start", Vec::new()))));
        assert!(session.folder_displayed());
        assert!(
            !session.can_go_back(),
            "returning must not create a history entry"
        );
    }
}

#[test]
fn recent_and_trash_are_overlays_on_folder_history() {
    let mut session = NavigationSession::new("/start".to_owned());
    session.install_folder_entries(vec![entry("/start/one")]);
    session.seed_history(vec!["/back".to_owned()], Vec::new());

    let recent = session.recent().request.unwrap();
    assert!(matches!(
        session.complete(
            &recent,
            Completion::Recent(Ok(vec![entry("/elsewhere/recent")]))
        ),
        Outcome::Committed(commit) if commit.location() == DisplayedLocation::Recent
    ));
    let exit = session.transition(Transition::Back).request.unwrap();
    assert_eq!(exit.requested(), Some("/start"));
    let _ = session.complete(
        &exit,
        Completion::Folder(Ok(opened("/start", vec![entry("/start/one")]))),
    );
    assert!(session.can_go_back());

    let trash = session.trash().request.unwrap();
    let _ = session.complete(
        &trash,
        Completion::Trash(Ok(vec![trash_entry("/trash/files/item", "/original/item")])),
    );
    assert_eq!(session.displayed_location(), DisplayedLocation::Trash);
    assert_eq!(session.trash_entries().len(), 1);
}

#[test]
fn failed_overlay_keeps_one_coherent_display() {
    let mut session = NavigationSession::new("/start".to_owned());
    session.install_trash_entries(vec![trash_entry("/trash/files/item", "/original/item")]);
    let failed = session.recent().request.unwrap();
    assert!(matches!(
        session.complete(
            &failed,
            Completion::Recent(Err("history unavailable".to_owned()))
        ),
        Outcome::Failed(_)
    ));
    assert_eq!(session.displayed_location(), DisplayedLocation::Trash);
    assert_eq!(session.trash_entries().len(), 1);

    assert_eq!(session.displayed_location(), DisplayedLocation::Trash);
    assert_eq!(
        session.entries()[0].path,
        "/trash/files/item".to_owned()
    );
    assert_eq!(session.trash_entries().len(), 1);
}

#[test]
fn refresh_restores_requested_selection_without_changing_history() {
    let mut session = NavigationSession::new("/start".to_owned());
    let selected = "/start/two".to_owned();
    let request = session.refresh(Some(selected.clone())).request.unwrap();
    let outcome = session.complete(
        &request,
        Completion::Folder(Ok(opened(
            "/start",
            vec![entry("/start/one"), entry("/start/two")],
        ))),
    );

    assert!(matches!(outcome, Outcome::Committed(commit) if commit.selected().as_slice() == [1]));
    assert!(!session.can_go_back());
    assert_eq!(session.entries()[1].path, selected);
}

#[test]
fn refresh_restores_every_requested_selection_in_display_order() {
    let mut session = NavigationSession::new("/start".to_owned());
    let request = session
        .refresh_selected(vec![
            "/start/three".to_owned(),
            "/start/one".to_owned(),
        ])
        .request
        .unwrap();
    let outcome = session.complete(
        &request,
        Completion::Folder(Ok(opened(
            "/start",
            vec![
                entry("/start/one"),
                entry("/start/two"),
                entry("/start/three"),
            ],
        ))),
    );

    assert!(matches!(outcome, Outcome::Committed(commit) if commit.selected().as_slice() == [0, 2]));
}

#[test]
fn explicit_reveal_scrolls_every_selection_but_refresh_does_not() {
    let first = "/start/one".to_owned();
    let second = "/start/two".to_owned();
    let mut session = NavigationSession::new("/start".to_owned());
    let request = session
        .transition(Transition::Reveal {
            requested: "/start".to_owned(),
            selected: vec![second.clone(), first],
        })
        .request
        .unwrap();
    let outcome = session.complete(
        &request,
        Completion::Folder(Ok(opened(
            "/start",
            vec![entry("/start/one"), entry("/start/two")],
        ))),
    );

    assert!(
        matches!(outcome, Outcome::Committed(commit) if commit.reveal_selection() && commit.selected().as_slice() == [0, 1])
    );

    let request = session.refresh(Some(second)).request.unwrap();
    let outcome = session.complete(
        &request,
        Completion::Folder(Ok(opened(
            "/start",
            vec![entry("/start/one"), entry("/start/two")],
        ))),
    );

    assert!(matches!(outcome, Outcome::Committed(commit) if !commit.reveal_selection()));
}

#[test]
fn parent_selects_the_folder_that_was_left() {
    let mut session = NavigationSession::new("/start/child".to_owned());
    let request = session.transition(Transition::Parent).request.unwrap();
    let outcome = session.complete(
        &request,
        Completion::Folder(Ok(opened(
            "/start",
            vec![entry("/start/child"), entry("/start/sibling")],
        ))),
    );

    assert!(matches!(outcome, Outcome::Committed(commit) if commit.selected().as_slice() == [0]));
    assert_eq!(session.current(), "/start");
}



#[test]
fn opening_the_current_folder_does_not_duplicate_history() {
    let mut session = NavigationSession::new("/start".to_owned());
    let request = session
        .transition(Transition::Open {
            requested: "/start".to_owned(),
            remember: true,
            select: None,
        })
        .request
        .unwrap();
    let _ = session.complete(
        &request,
        Completion::Folder(Ok(opened("/start", Vec::new()))),
    );

    assert!(!session.can_go_back());
}

#[test]
fn hover_is_the_only_transition_that_preserves_pointer_interaction() {
    assert!(
        Transition::Hover {
            requested: "/hovered".to_owned()
        }
        .preserves_pointer_interaction()
    );
    assert!(!Transition::Back.preserves_pointer_interaction());
    assert!(!Transition::Parent.preserves_pointer_interaction());
    assert!(!Transition::HistoryForward.preserves_pointer_interaction());
    assert!(
        !Transition::Open {
            requested: "/opened".to_owned(),
            remember: true,
            select: None,
        }
        .preserves_pointer_interaction()
    );
}

#[test]
fn commit_hides_cut_paths_before_restoring_grid_selection() {
    let mut session = NavigationSession::new("/start".to_owned());
    let request = session
        .refresh_selected(vec!["/start/one".to_owned(), "/start/two".to_owned()])
        .request
        .unwrap();
    let outcome = session.complete_with_hidden_paths(
        &request,
        Completion::Folder(Ok(opened("/start", vec![entry("/start/one"), entry("/start/two")]))),
        &["/start/one".to_owned()],
    );
    let Outcome::Committed(commit) = outcome.outcome else {
        panic!("navigation did not commit");
    };
    let mut grid = GridInteraction::default();
    commit.apply_grid(&mut grid, session.entries().len());

    assert_eq!(
        session.entries().iter().map(|entry| entry.path.as_str()).collect::<Vec<_>>(),
        ["/start/two"]
    );
    assert_eq!(grid.selected_entry(), Some(0));
}

#[test]
fn failed_refresh_redirects_to_the_nearest_existing_ancestor() {
    let temp = tempfile::tempdir().unwrap();
    let root = temp.path().to_str().unwrap().to_owned();
    let missing = temp.path().join("gone/child").to_str().unwrap().to_owned();
    let mut session = NavigationSession::new(missing.clone());
    let request = session.refresh(None).request.unwrap();

    let outcome =
        session.complete(&request, Completion::Folder(Err("directory disappeared".to_owned())));
    let Outcome::Redirect { start, notice } = outcome else {
        panic!("missing refresh did not redirect");
    };

    assert_eq!(start.request.unwrap().requested(), Some(root.as_str()));
    assert!(notice.contains(&missing));
    assert!(notice.contains(&root));
}

#[test]
fn settling_forgets_the_request_in_flight() {
    let mut session = NavigationSession::new("/start".to_owned());
    let pending = session
        .transition(Transition::Open { requested: "/next".to_owned(), remember: true, select: None })
        .request
        .unwrap();
    assert!(session.loading());
    session.settle_for_test();
    assert!(!session.loading());
    assert!(matches!(
        session.complete(&pending, Completion::Folder(Ok(opened("/next", Vec::new())))),
        Outcome::Ignored
    ));
    assert_eq!(session.current(), "/start");
}

#[test]
fn a_cancelled_request_takes_its_deferred_refresh_with_it() {
    let mut session = NavigationSession::new("/current".to_owned());
    assert!(!session.defer_refresh());
    let first = session.refresh(None).request.unwrap();
    assert!(session.defer_refresh());
    assert!(session.cancel_pending().is_some());
    let second = session.refresh(None).request.unwrap();
    let late = session.complete_with_hidden_paths(
        &first,
        Completion::Folder(Ok(opened("/current", Vec::new()))),
        &[],
    );
    assert!(!late.refresh);
    let done = session.complete_with_hidden_paths(
        &second,
        Completion::Folder(Ok(opened("/current", Vec::new()))),
        &[],
    );
    assert!(!done.refresh);
}

#[test]
fn folders_are_compared_as_paths() {
    let mut session = NavigationSession::new("/current".to_owned());
    let reuse = session.transition(Transition::Sidebar { requested: "/current/".to_owned(), load: None });
    assert!(reuse.request.is_none());

    let open = session
        .transition(Transition::Open { requested: "/current/".to_owned(), remember: true, select: None })
        .request
        .unwrap();
    let _ = session.complete_with_hidden_paths(
        &open,
        Completion::Folder(Ok(opened(
            "/current/",
            vec![entry("/current/a"), entry("/current/b"), entry("/current/c")],
        ))),
        &["/current//b".to_owned()],
    );
    assert!(!session.can_go_back());
    assert_eq!(
        session.entries().iter().map(|e| e.path.as_str()).collect::<Vec<_>>(),
        ["/current/a", "/current/c"]
    );
}

use waddle::entries::FileEntry;
use waddle::file_operation::{
    deletion_confirmation, failure_detail, permanent_delete_confirmation, run_entries,
    Completion, CompletionKind, Confirmation, DeleteReport, FileOperationSession, JournalRecord,
    NameKind, PromptView, Work,
};
use waddle::prompt::PromptInteraction;

fn entry(name: &str) -> FileEntry {
    FileEntry {
        path: format!("/work/{name}"),
        name: name.to_owned(),
        directory: false,
    }
}

#[test]
fn rename_validation_and_failure_stay_inside_the_session() {
    let mut session = FileOperationSession::default();
    session.begin_rename(entry("old.txt"));
    session.change_name("bad/name".to_owned());

    assert!(session
        .submit_name("/work".to_owned(), Err("names cannot contain a slash".to_owned()))
        .is_none());
    assert!(matches!(
        session.view(),
        PromptView::Rename { value, error }
            if value == "bad/name" && error.contains("slash")
    ));

    session.change_name("new.txt".to_owned());
    assert!(session.submit_name("/work".to_owned(), Ok(())).is_some());
    let effects = session.complete(Completion::prepare(CompletionKind::Name {
        kind: NameKind::Rename {
            source: "/work/old.txt".to_owned(),
        },
        result: Err("collision".to_owned()),
    }));
    assert!(!effects.refresh);
    assert!(effects.select.is_none());
    assert!(!effects.renamed);
    assert!(matches!(
        session.view(),
        PromptView::Rename { value, error } if value == "new.txt" && error == "collision"
    ));
}

#[test]
fn trash_confirmation_returns_a_transfer_and_partial_failure_escalates() {
    let one = entry("one.txt");
    let two = entry("two.txt");
    let mut session = FileOperationSession::default();
    assert!(session.begin_trash(vec![one.clone(), two.clone()]));
    let Some(Confirmation::Trash(entries)) = session.confirm("/work".to_owned(), Ok(())) else {
        panic!("Trash confirmation must return a Transfer request");
    };
    assert_eq!(entries.len(), 2);
    assert!(matches!(session.view(), PromptView::Idle));

    session.finish_trash_transfer(vec![(two, "Trash unavailable".to_owned())]);
    assert!(matches!(
        session.view(),
        PromptView::PermanentDelete { message, detail }
            if message.contains("Permanently delete")
                && detail.contains("Trash unavailable")
                && detail.contains("cannot be undone")
    ));
}

#[test]
fn permanent_delete_failure_and_cancellation_stay_in_the_session() {
    let failed = entry("failed.txt");
    let mut session = FileOperationSession::default();
    assert!(session.begin_trash(vec![failed.clone()]));
    let _ = session.confirm("/work".to_owned(), Ok(()));
    session.finish_trash_transfer(vec![(failed.clone(), "Trash unavailable".to_owned())]);
    assert!(session.cancel());
    assert!(matches!(session.view(), PromptView::Idle));

    assert!(session.begin_trash(vec![failed.clone()]));
    let _ = session.confirm("/work".to_owned(), Ok(()));
    session.finish_trash_transfer(vec![(failed.clone(), "Trash unavailable".to_owned())]);
    assert!(session.confirm("/work".to_owned(), Ok(())).is_some());
    let effects = session.complete(Completion::prepare(CompletionKind::PermanentDelete(vec![(
        failed,
        "Permission denied".to_owned(),
    )])));

    assert!(!effects.refresh);
    assert!(matches!(
        session.view(),
        PromptView::Error { message } if message.contains("Permission denied")
    ));
}

#[test]
fn trash_delete_feedback_is_interpreted_inside_the_session() {
    let failed = entry("failed.txt");
    let mut session = FileOperationSession::default();
    let effects = session.complete(Completion::prepare(CompletionKind::TrashDelete(
        DeleteReport {
            deleted: 2,
            failures: vec![(failed, "Permission denied".to_owned())],
        },
    )));

    assert_eq!(
        effects.status.as_deref(),
        Some("Permanently deleted 2  •  1 failed")
    );
    assert!(effects
        .detail
        .as_deref()
        .is_some_and(|detail| detail.contains("Permission denied")));
    assert!(effects.refresh);
}

#[test]
fn deletion_prompts_distinguish_single_and_multiple_items() {
    assert_eq!(deletion_confirmation(&[entry("one")]), "Move “one” to Trash?");
    assert_eq!(
        deletion_confirmation(&[entry("one"), entry("two")]),
        "Move 2 selected items to Trash?"
    );
    assert_eq!(
        permanent_delete_confirmation(2),
        "Permanently delete these 2 items instead?"
    );
    assert_eq!(
        permanent_delete_confirmation(1),
        "Permanently delete this item instead?"
    );
}

#[test]
fn successful_names_are_selected_and_journaled() {
    let mut session = FileOperationSession::default();
    session.begin_new_folder();
    assert_eq!(session.prompt_interaction(), PromptInteraction::Input);
    session.change_name("created".to_owned());
    let Some(Work::Name { current, value, .. }) =
        session.submit_name("/work".to_owned(), Ok(()))
    else {
        panic!("expected naming work");
    };
    assert_eq!((current.as_str(), value.as_str()), ("/work", "created"));
    assert!(session.is_busy());
    assert!(!session.cancel());
    let completion = Completion::prepare(CompletionKind::Name {
        kind: NameKind::NewFolder,
        result: Ok("/work/created".to_owned()),
    });
    assert_eq!(
        completion.journal_action,
        Some(JournalRecord::NewFolder("/work/created".to_owned()))
    );
    let effects = session.complete(completion);
    assert!(effects.refresh);
    assert_eq!(effects.select.as_deref(), Some("/work/created"));
    assert!(!effects.renamed);
    assert!(matches!(session.view(), PromptView::Idle));

    session.begin_rename(entry("a.txt"));
    let effects = session.complete(Completion::prepare(CompletionKind::Name {
        kind: NameKind::Rename { source: "/work/a.txt".to_owned() },
        result: Ok("/work/b.txt".to_owned()),
    }));
    assert!(effects.renamed);
    assert_eq!(
        effects.journal_action,
        Some(JournalRecord::Rename {
            source: "/work/a.txt".to_owned(),
            destination: "/work/b.txt".to_owned()
        })
    );
}

#[test]
fn failures_keep_order_and_errors_are_acknowledged() {
    let failures = run_entries(
        vec![entry("a"), entry("b"), entry("c")],
        vec![Err("busy".to_owned()), Ok(()), Err("denied".to_owned())],
    );
    assert_eq!(failures.len(), 2);
    assert_eq!(failure_detail(&failures), "a: busy\nc: denied");

    let mut session = FileOperationSession::default();
    session.show_warning("careful".to_owned());
    assert_eq!(session.prompt_interaction(), PromptInteraction::Acknowledgement);
    assert_eq!(session.expanded_detail(), Some("careful"));
    assert!(session.confirm("/work".to_owned(), Ok(())).is_none());
    assert!(matches!(session.view(), PromptView::Idle));
    assert!(!session.begin_trash(Vec::new()));
    assert!(matches!(session.view(), PromptView::Idle));
}

use std::sync::Mutex;

use waddle::command::{
    parse_chmod_arguments, parse_open_with_arguments, parse_single_target, parse_targets,
    resolve_target, Adapter, CommandAction, CommandSession, Completion, Consequences, Failure,
    ShellReport,
};

#[derive(Default)]
struct MemoryAdapter {
    calls: Mutex<Vec<String>>,
    selected_calls: Mutex<Vec<Vec<String>>>,
    shell_result: Mutex<Option<Result<ShellReport, Failure>>>,
    terminal_result: Mutex<Option<Result<(), String>>>,
}

impl Adapter for MemoryAdapter {
    fn execute(
        &self,
        _: &str,
        prefix: char,
        command: &str,
        selected: &[String],
    ) -> Result<ShellReport, Failure> {
        self.calls.lock().unwrap().push(format!("{prefix}{command}"));
        self.selected_calls.lock().unwrap().push(selected.to_vec());
        self.shell_result.lock().unwrap().take().unwrap()
    }

    fn launch_terminal(&self, current: &str) -> Result<(), String> {
        self.calls.lock().unwrap().push(format!("terminal:{current}"));
        self.terminal_result.lock().unwrap().take().unwrap()
    }
}

#[test]
fn help_is_interpreted_inside_the_session() {
    let mut session = CommandSession::default();
    session.begin(':');
    session.change("help".to_owned());

    assert!(matches!(
        session.submit("/work".to_owned()),
        CommandAction::OutputChanged
    ));
    let output = session.output().unwrap();
    assert!(output.summary.starts_with(":help"));
    assert!(output.detail.contains(":terminal, :t"));
    assert!(output.detail.contains(":favorite add [LABEL]"));
    assert!(output.detail.contains("$selected"));
    assert!(output.detail.contains("Tab / Shift+Tab"));
    assert!(output.detail.contains("\"_dd / \"_d{motion}"));
    assert!(output.detail.contains("Name/Type/Size/Modified header"));
    assert!(
        output.detail.lines().all(|line| line.chars().count() <= 64),
        "help lines must fit the narrow output panel"
    );
    assert_eq!(session.prefix(), None);
    assert!(session.text().is_empty());
}

#[test]
fn refresh_is_a_builtin_command_not_a_shell_process() {
    let mut session = CommandSession::default();
    session.begin(':');
    session.change("refresh".to_owned());

    assert!(matches!(
        session.submit("/work".to_owned()),
        CommandAction::Refresh
    ));
}

#[test]
fn diagnostics_is_a_builtin_command_not_a_shell_process() {
    let mut session = CommandSession::default();
    session.begin(':');
    session.change("diagnostics".to_owned());

    assert!(matches!(
        session.submit("/work".to_owned()),
        CommandAction::Diagnostics
    ));
}

#[test]
fn metadata_commands_keep_selection_as_the_default_target() {
    let mut session = CommandSession::default();
    session.begin(':');
    session.change("chmod 640".to_owned());
    assert!(matches!(
        session.submit("/work".to_owned()),
        CommandAction::ChangePermissions { mode, targets }
            if mode == "640" && targets.is_empty()
    ));

    session.begin(':');
    session.change("default-app org.example.Editor.desktop".to_owned());
    assert!(matches!(
        session.submit("/work".to_owned()),
        CommandAction::OpenWith {
            application,
            default: true,
            target: None,
        } if application == "org.example.Editor.desktop"
    ));
}

#[test]
fn metadata_commands_resolve_names_and_paths_from_the_current_folder() {
    let mut session = CommandSession::default();

    session.begin(':');
    session.change("properties \"notes from today.txt\"".to_owned());
    assert!(matches!(
        session.submit("/work".to_owned()),
        CommandAction::ShowProperties { target: Some(target) }
            if target == "/work/notes from today.txt"
    ));

    session.begin(':');
    session.change("chmod 640 notes.txt \"archive copy.txt\" /tmp/shared.txt".to_owned());
    assert!(matches!(
        session.submit("/work".to_owned()),
        CommandAction::ChangePermissions { mode, targets }
            if mode == "640"
                && targets == [
                    "/work/notes.txt".to_owned(),
                    "/work/archive copy.txt".to_owned(),
                    "/tmp/shared.txt".to_owned(),
                ]
    ));

    session.begin(':');
    session.change("open-with org.example.Editor.desktop -- \"notes from today.txt\"".to_owned());
    assert!(matches!(
        session.submit("/work".to_owned()),
        CommandAction::OpenWith {
            application,
            default: false,
            target: Some(target),
        } if application == "org.example.Editor.desktop"
            && target == "/work/notes from today.txt"
    ));

    session.begin(':');
    session.change("open-with -- notes.txt".to_owned());
    assert!(matches!(
        session.submit("/work".to_owned()),
        CommandAction::OpenWith {
            application,
            default: false,
            target: Some(target),
        } if application.is_empty() && target == "/work/notes.txt"
    ));
}

#[test]
fn metadata_commands_reject_ambiguous_or_unclosed_paths() {
    let mut session = CommandSession::default();

    session.begin(':');
    session.change("properties one two".to_owned());
    assert!(matches!(
        session.submit("/work".to_owned()),
        CommandAction::Error(error) if error == "Usage: :properties [PATH]"
    ));

    session.begin(':');
    session.change("default-app Editor -- one two".to_owned());
    assert!(matches!(
        session.submit("/work".to_owned()),
        CommandAction::Error(error) if error == "Usage: :default-app APP_ID [-- PATH]"
    ));
}

#[test]
fn management_commands_return_semantic_actions() {
    let mut session = CommandSession::default();

    session.begin(':');
    session.change("favorite add Work".to_owned());
    assert!(matches!(
        session.submit("/work".to_owned()),
        CommandAction::ManageFavorite(arguments) if arguments == "add Work"
    ));

    session.begin(':');
    session.change("recent clear".to_owned());
    assert!(matches!(
        session.submit("/work".to_owned()),
        CommandAction::ManageRecent(arguments) if arguments == "clear"
    ));

    session.begin(':');
    session.change("volume mount Archive".to_owned());
    assert!(matches!(
        session.submit("/work".to_owned()),
        CommandAction::ManageVolume(arguments) if arguments == "mount Archive"
    ));

    session.begin(':');
    session.change("properties".to_owned());
    assert!(matches!(
        session.submit("/work".to_owned()),
        CommandAction::ShowProperties { target: None }
    ));
}

#[test]
fn setting_commands_preserve_scope_and_complete_unique_names() {
    let mut session = CommandSession::default();
    session.begin(':');
    session.change("setlocal view=list".to_owned());
    assert!(matches!(
        session.submit("/work".to_owned()),
        CommandAction::ChangeSettings {
            local: true,
            arguments
        } if arguments == "view=list"
    ));

    session.begin(':');
    session.change("set vie".to_owned());
    assert!(session.complete_setting());
    assert_eq!(session.text(), "set view=");
    session.change("set view=l".to_owned());
    assert!(session.complete_setting());
    assert_eq!(session.text(), "set view=list");
    session.change("set file-c".to_owned());
    assert!(session.complete_setting());
    assert_eq!(session.text(), "set file-click=");
    session.change("set folder-click=d".to_owned());
    assert!(session.complete_setting());
    assert_eq!(session.text(), "set folder-click=double");
    session.change("set icons=s".to_owned());
    assert!(session.complete_setting());
    assert_eq!(session.text(), "set icons=system");
    session.change("set folders".to_owned());
    assert!(!session.complete_setting());
}

#[test]
fn memory_adapter_is_the_second_adapter_at_the_command_seam() {
    let adapter = MemoryAdapter {
        shell_result: Mutex::new(Some(Ok(ShellReport {
            summary: "!true  •  exit 0".to_owned(),
            detail: String::new(),
            final_directory: None,
            successful: true,
        }))),
        ..MemoryAdapter::default()
    };
    let mut session = CommandSession::default();
    session.begin('!');
    session.change("true".to_owned());
    let CommandAction::Execute(execution) = session.submit("/work".to_owned()) else {
        panic!("expected execution");
    };
    let selected = vec!["/work/a.txt".to_owned(), "/work/b c.txt".to_owned()];

    let completion = execution.with_selected(selected.clone()).run(&adapter);
    let consequences = session.complete(Ok(completion), "/work");

    assert_eq!(adapter.calls.lock().unwrap().as_slice(), ["!true"]);
    assert_eq!(
        adapter.selected_calls.lock().unwrap().as_slice(),
        [selected]
    );
    assert_eq!(consequences.status.as_deref(), Some("!true  •  exit 0"));
    assert!(consequences.refresh);
    assert!(session.output().is_none());
}

#[test]
fn terminal_and_shell_failures_are_interpreted_inside_the_session() {
    let adapter = MemoryAdapter {
        terminal_result: Mutex::new(Some(Err("missing launcher".to_owned()))),
        ..MemoryAdapter::default()
    };
    let mut session = CommandSession::default();
    session.begin(':');
    session.change("terminal".to_owned());
    let CommandAction::Execute(execution) = session.submit("/work".to_owned()) else {
        panic!("expected terminal execution");
    };
    let consequences = session.complete(Ok(execution.run(&adapter)), "/work");

    assert_eq!(consequences, Consequences::default());
    assert!(session.output().unwrap().detail.contains("missing launcher"));

    let consequences = session.complete(
        Ok(Completion::Shell(Err(Failure::RequiresTerminal))),
        "/work",
    );
    assert_eq!(consequences, Consequences::default());
    assert_eq!(
        session.output().unwrap().summary,
        "interactive terminal required"
    );
}

#[test]
fn stateful_shell_completion_requests_navigation() {
    let mut session = CommandSession::default();
    let consequences = session.complete(
        Ok(Completion::Shell(Ok(ShellReport {
            summary: ":cd /tmp  •  exit 0".to_owned(),
            detail: String::new(),
            final_directory: Some("/tmp".to_owned()),
            successful: true,
        }))),
        "/work",
    );

    assert_eq!(consequences.navigate, Some("/tmp".to_owned()));
    assert!(consequences.refresh);
}

#[test]
fn shell_words_split_quotes_and_report_unmatched_quotes() {
    assert_eq!(
        parse_targets("/work", "a 'b c' /abs").unwrap(),
        vec!["/work/a".to_owned(), "/work/b c".to_owned(), "/abs".to_owned()]
    );
    assert_eq!(
        parse_targets("/work", "\"open").unwrap_err(),
        "Could not parse path: unmatched quote"
    );
    assert_eq!(
        parse_single_target("/work", "", ":properties [PATH]").unwrap(),
        None
    );
    assert_eq!(
        parse_single_target("/work", "a b", ":properties [PATH]").unwrap_err(),
        "Usage: :properties [PATH]"
    );
    assert_eq!(
        parse_chmod_arguments("/work", "'unclosed").unwrap_err(),
        "Could not parse :chmod arguments: unmatched quote"
    );
}

#[test]
fn open_with_arguments_cover_every_outcome() {
    assert_eq!(
        parse_open_with_arguments("/work", "open-with", "Editor").unwrap(),
        ("Editor".to_owned(), None)
    );
    assert_eq!(
        parse_open_with_arguments("/work", "open-with", "Text Editor -- a.txt").unwrap(),
        ("Text Editor".to_owned(), Some("/work/a.txt".to_owned()))
    );
    assert_eq!(
        parse_open_with_arguments("/work", "open-with", "Editor --").unwrap_err(),
        "Usage: :open-with [APP_ID] [-- PATH]"
    );
    assert_eq!(
        parse_open_with_arguments("/work", "default-app", "-- a.txt").unwrap_err(),
        "Usage: :default-app APP_ID [-- PATH]"
    );
    assert_eq!(
        parse_open_with_arguments("/work", "open-with", "\"x").unwrap_err(),
        "Could not parse Open With arguments: unmatched quote"
    );
}

#[test]
fn relative_targets_join_the_current_folder() {
    assert_eq!(resolve_target("/work", "a.txt"), "/work/a.txt");
    assert_eq!(resolve_target("/work", "/etc/hosts"), "/etc/hosts");
}

#[test]
fn quitting_and_empty_commands() {
    let mut session = CommandSession::default();
    assert!(matches!(session.submit("/work".to_owned()), CommandAction::Nothing));
    session.begin(':');
    session.change("q".to_owned());
    assert!(matches!(session.submit("/work".to_owned()), CommandAction::Quit));
    assert_eq!(session.prefix(), None);
}

#[test]
fn setting_completion_stops_where_the_candidates_part() {
    let mut session = CommandSession::default();
    session.begin(':');
    session.change("se".to_owned());
    assert!(session.complete_setting());
    assert_eq!(session.text(), "set");
    assert!(!session.complete_setting());
    assert_eq!(session.text(), "set");
    session.change("set d".to_owned());
    assert!(session.complete_setting());
    assert_eq!(session.text(), "set direction=");
    session.change("set direction=x".to_owned());
    assert!(!session.complete_setting());
    assert_eq!(session.text(), "set direction=x");
}

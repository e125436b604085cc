//! The command prompt session: built-in commands, their arguments, and how
//! a finished command changes the window.
use vstd::prelude::*;

use crate::browser_input::HELP;
use crate::paths::{join, join_path, same_path, same_path_spec};
use crate::text::{
    chars_of, concat, prefixed, push_str, same_as, slice_chars, starts_with, string_of,
    trim, trimmed, word_and_rest, word_and_rest_exec, first_space_from, lemma_first_space_bounds,
};

verus! {

/// The command reference shown by `:help`.
pub const COMMAND_HELP: &'static str = "\
Commands
  :help, :h  Show this reference
  :terminal, :t  Open a terminal here
  :refresh  Refresh the current view
  :diagnostics, :diag  Show local command failures
  :set [all|OPTION=VALUE ...]  Change session settings
  :setlocal [all|OPTION=VALUE ...]
    Change folder settings for this session
  :favorite [list]  List Favorites
  :favorite add [LABEL]  Add the current folder
  :favorite remove INDEX  Remove a Favorite
  :recent [open|clear|enable|disable]  Manage Recent
  :volume mount|unmount|eject NAME  Manage a volume
  :properties, :props [PATH]  Inspect an entry
  :chmod MODE [PATH ...]  Change permissions
  :open-with [APP_ID] [-- PATH]  Choose or open an application
  :default-app APP_ID [-- PATH]  Set the default application
  :cd PATH  Change Waddle's current directory
  :q  Quit Waddle
  :COMMAND  Run Bash and keep its final directory
  !COMMAND  Run Bash without changing Waddle's directory
  $selected  Selected paths in Bash; use outside quotes

  Targets default to selection; relative paths use this folder
  Quote paths with spaces; put -- before Open With paths

Command prompt
  Tab         Complete a command name
  Enter       Submit the command
  Esc         Cancel input or close command output

Settings
  Persistent settings: $XDG_CONFIG_HOME/waddle/waddlerc
  view=grid|list
  sort=name|type|size|modified
  direction=ascending|descending
  hidden=true|false
  file-click=single|double
  folder-click=single|double
  icons=waddle|system
  high-contrast=auto|true|false
  reduced-motion=auto|true|false
  reduced-transparency=auto|true|false
  tree=true|false
  startup=last|cwd (waddlerc only)";

/// The words that `shlex::split` finds in a line, with POSIX shell quoting;
/// `None` when a quote or an escape is left open.
pub uninterp spec fn shell_words(line: Seq<char>) -> Option<Seq<Seq<char>>>;

/// `shlex::split`: the line split into words as a POSIX shell would.
#[verifier::external_body]
fn split_shell_words(line: &str) -> (r: Option<Vec<String>>)
    ensures
        r.deep_view() == shell_words(line@),
{
    shlex::split(line)
}

/// What a finished shell command reported.
#[derive(Clone, Debug, Default, PartialEq, Eq)]
pub struct ShellReport {
    pub summary: String,
    pub detail: String,
    pub final_directory: Option<String>,
    pub successful: bool,
}

/// Output shown in the command panel.
#[derive(Clone, Debug, Default, PartialEq, Eq)]
pub struct Output {
    pub summary: String,
    pub detail: String,
}

pub struct OutputView {
    pub summary: Seq<char>,
    pub detail: Seq<char>,
}

impl DeepView for Output {
    type V = OutputView;

    open spec fn deep_view(&self) -> OutputView {
        OutputView { summary: self.summary@, detail: self.detail@ }
    }
}

/// Why a shell command could not run to completion.
#[derive(Clone, Debug, PartialEq, Eq)]
pub enum Failure {
    RequiresTerminal,
    Other(String),
}

/// Runs commands for the session: a process runner, or a double in tests.
/// `executes` and `launches` say which answers an implementation may give to
/// which calls; by default they admit every answer, and an implementation
/// that states its answers overrides them.
pub trait Adapter {
    /// Holds when `result` is an answer this adapter may give to running
    /// `command` with `prefix` in `current` over the paths `selected`.
    closed spec fn executes(
        &self,
        current: Seq<char>,
        prefix: char,
        command: Seq<char>,
        selected: Seq<Seq<char>>,
        result: Result<ShellReport, Failure>,
    ) -> bool {
        true
    }

    /// Holds when `result` is an answer this adapter may give to opening a
    /// terminal in `current`.
    closed spec fn launches(&self, current: Seq<char>, result: Result<(), String>) -> bool {
        true
    }

    fn execute(&self, current: &str, prefix: char, command: &str, selected: &[String]) -> (r:
        Result<ShellReport, Failure>)
        ensures
            self.executes(current@, prefix, command@, selected.deep_view(), r),
    ;

    fn launch_terminal(&self, current: &str) -> (r: Result<(), String>)
        ensures
            self.launches(current@, r),
    ;
}

#[derive(Clone, Debug, PartialEq, Eq)]
pub enum ExecutionKind {
    Shell { prefix: char, command: String },
    Terminal,
}

/// A command to run outside the session.
#[derive(Clone, Debug, PartialEq, Eq)]
pub struct Execution {
    current: String,
    selected: Vec<String>,
    kind: ExecutionKind,
}

pub enum ExecutionKindView {
    Shell { prefix: char, command: Seq<char> },
    Terminal,
}

pub struct ExecutionView {
    pub current: Seq<char>,
    pub selected: Seq<Seq<char>>,
    pub kind: ExecutionKindView,
}

impl DeepView for Execution {
    type V = ExecutionView;

    closed spec fn deep_view(&self) -> ExecutionView {
        ExecutionView {
            current: self.current@,
            selected: self.selected.deep_view(),
            kind: match self.kind {
                ExecutionKind::Shell { prefix, command } => ExecutionKindView::Shell {
                    prefix,
                    command: command@,
                },
                ExecutionKind::Terminal => ExecutionKindView::Terminal,
            },
        }
    }
}

pub open spec fn execution_status(e: ExecutionView) -> Seq<char> {
    match e.kind {
        ExecutionKindView::Shell { prefix, command } => "Running "@ + seq![prefix] + command
            + "\u{2026}"@,
        ExecutionKindView::Terminal => "Opening terminal in "@ + e.current + "\u{2026}"@,
    }
}

/// What a run returned.
#[derive(Debug)]
pub enum Completion {
    Shell(Result<ShellReport, Failure>),
    Terminal { directory: String, result: Result<(), String> },
}

impl Execution {
    /// The status line while the command runs.
    pub fn status(&self) -> (r: String)
        ensures
            r@ == execution_status(self.deep_view()),
    {
        match &self.kind {
            ExecutionKind::Shell { prefix, command } => {
                let mut v = chars_of("Running ");
                v.push(*prefix);
                push_str(&mut v, command.as_str());
                push_str(&mut v, "\u{2026}");
                assert(v@ =~= execution_status(self.deep_view()));
                string_of(v.as_slice())
            },
            ExecutionKind::Terminal => {
                let mut v = chars_of("Opening terminal in ");
                push_str(&mut v, self.current.as_str());
                push_str(&mut v, "\u{2026}");
                assert(v@ =~= execution_status(self.deep_view()));
                string_of(v.as_slice())
            },
        }
    }

    /// The same command, with `selected` as its selected paths.
    pub fn with_selected(self, selected: Vec<String>) -> (r: Self)
        ensures
            r.deep_view() == (ExecutionView { selected: selected.deep_view(), ..self.deep_view() }),
    {
        Execution { current: self.current, selected, kind: self.kind }
    }

    /// Runs the command through `adapter`: a shell command with its prefix,
    /// text and selection, or a terminal in the current folder.
    pub fn run<A: Adapter>(self, adapter: &A) -> (r: Completion)
        ensures
            self.deep_view().kind is Terminal ==> (r matches Completion::Terminal { directory, .. }
                && directory@ == self.deep_view().current),
            self.deep_view().kind matches ExecutionKindView::Shell { prefix, command } ==> (
            r matches Completion::Shell(res) && adapter.executes(
                self.deep_view().current,
                prefix,
                command,
                self.deep_view().selected,
                res,
            )),
            r matches Completion::Terminal { directory, result } ==> adapter.launches(
                directory@,
                result,
            ),
    {
        match self.kind {
            ExecutionKind::Shell { prefix, command } => Completion::Shell(
                adapter.execute(
                    self.current.as_str(),
                    prefix,
                    command.as_str(),
                    self.selected.as_slice(),
                ),
            ),
            ExecutionKind::Terminal => {
                let result = adapter.launch_terminal(self.current.as_str());
                Completion::Terminal { directory: self.current, result }
            },
        }
    }
}

/// What submitting a command asks the window to do.
#[derive(Debug)]
pub enum CommandAction {
    Nothing,
    Error(String),
    Quit,
    OutputChanged,
    Refresh,
    Diagnostics,
    ChangeSettings { local: bool, arguments: String },
    ManageFavorite(String),
    ManageRecent(String),
    ManageVolume(String),
    ShowProperties { target: Option<String> },
    ChangePermissions { mode: String, targets: Vec<String> },
    OpenWith { application: String, default: bool, target: Option<String> },
    Execute(Execution),
}

pub enum ActionView {
    Nothing,
    Error(Seq<char>),
    Quit,
    OutputChanged,
    Refresh,
    Diagnostics,
    ChangeSettings { local: bool, arguments: Seq<char> },
    ManageFavorite(Seq<char>),
    ManageRecent(Seq<char>),
    ManageVolume(Seq<char>),
    ShowProperties { target: Option<Seq<char>> },
    ChangePermissions { mode: Seq<char>, targets: Seq<Seq<char>> },
    OpenWith { application: Seq<char>, default: bool, target: Option<Seq<char>> },
    Execute(ExecutionView),
}

impl DeepView for CommandAction {
    type V = ActionView;

    open spec fn deep_view(&self) -> ActionView {
        match self {
            CommandAction::Nothing => ActionView::Nothing,
            CommandAction::Error(e) => ActionView::Error(e@),
            CommandAction::Quit => ActionView::Quit,
            CommandAction::OutputChanged => ActionView::OutputChanged,
            CommandAction::Refresh => ActionView::Refresh,
            CommandAction::Diagnostics => ActionView::Diagnostics,
            CommandAction::ChangeSettings { local, arguments } => ActionView::ChangeSettings {
                local: *local,
                arguments: arguments@,
            },
            CommandAction::ManageFavorite(a) => ActionView::ManageFavorite(a@),
            CommandAction::ManageRecent(a) => ActionView::ManageRecent(a@),
            CommandAction::ManageVolume(a) => ActionView::ManageVolume(a@),
            CommandAction::ShowProperties { target } => ActionView::ShowProperties {
                target: target.deep_view(),
            },
            CommandAction::ChangePermissions { mode, targets } => ActionView::ChangePermissions {
                mode: mode@,
                targets: targets.deep_view(),
            },
            CommandAction::OpenWith { application, default, target } => ActionView::OpenWith {
                application: application@,
                default: *default,
                target: target.deep_view(),
            },
            CommandAction::Execute(e) => ActionView::Execute(e.deep_view()),
        }
    }
}

/// How a finished command changes the window.
#[derive(Clone, Debug, Default, PartialEq, Eq)]
pub struct Consequences {
    pub status: Option<String>,
    pub error: Option<String>,
    pub refresh: bool,
    pub navigate: Option<String>,
}

pub struct ConsequencesView {
    pub status: Option<Seq<char>>,
    pub error: Option<Seq<char>>,
    pub refresh: bool,
    pub navigate: Option<Seq<char>>,
}

impl DeepView for Consequences {
    type V = ConsequencesView;

    open spec fn deep_view(&self) -> ConsequencesView {
        ConsequencesView {
            status: self.status.deep_view(),
            error: self.error.deep_view(),
            refresh: self.refresh,
            navigate: self.navigate.deep_view(),
        }
    }
}

pub open spec fn no_consequences() -> ConsequencesView {
    ConsequencesView { status: None, error: None, refresh: false, navigate: None }
}

fn empty_consequences() -> (r: Consequences)
    ensures
        r.deep_view() == no_consequences(),
{
    Consequences { status: None, error: None, refresh: false, navigate: None }
}

/// The command prompt: its prefix (`:` or `!`), its text, and its output.
#[derive(Clone, Debug)]
pub struct CommandSession {
    prefix: Option<char>,
    text: String,
    output: Option<Output>,
}

pub struct SessionView {
    pub prefix: Option<char>,
    pub text: Seq<char>,
    pub output: Option<OutputView>,
}

impl DeepView for CommandSession {
    type V = SessionView;

    closed spec fn deep_view(&self) -> SessionView {
        SessionView { prefix: self.prefix, text: self.text@, output: self.output.deep_view() }
    }
}

// ------------------------------------------------------------------ targets

/// `:properties` and friends: a relative target is taken from `current`.
pub open spec fn resolve(current: Seq<char>, target: Seq<char>) -> Seq<char> {
    join(current, target)
}

pub open spec fn resolve_all(current: Seq<char>, words: Seq<Seq<char>>) -> Seq<Seq<char>> {
    words.map_values(|w: Seq<char>| resolve(current, w))
}

pub open spec fn targets_spec(current: Seq<char>, words: Option<Seq<Seq<char>>>) -> Result<
    Seq<Seq<char>>,
    Seq<char>,
> {
    match words {
        None => Err("Could not parse path: unmatched quote"@),
        Some(w) => Ok(resolve_all(current, w)),
    }
}

pub open spec fn single_target_spec(
    current: Seq<char>,
    words: Option<Seq<Seq<char>>>,
    usage: Seq<char>,
) -> Result<Option<Seq<char>>, Seq<char>> {
    match targets_spec(current, words) {
        Err(e) => Err(e),
        Ok(t) => if t.len() == 0 {
            Ok(None)
        } else if t.len() == 1 {
            Ok(Some(t[0]))
        } else {
            Err("Usage: "@ + usage)
        },
    }
}

pub open spec fn chmod_spec(current: Seq<char>, words: Option<Seq<Seq<char>>>) -> Result<
    (Seq<char>, Seq<Seq<char>>),
    Seq<char>,
> {
    match words {
        None => Err("Could not parse :chmod arguments: unmatched quote"@),
        Some(w) => if w.len() == 0 {
            Ok((Seq::empty(), Seq::empty()))
        } else {
            Ok((w[0], resolve_all(current, w.skip(1))))
        },
    }
}

/// Index of the first `--` word at or after `i`.
pub open spec fn separator_from(words: Seq<Seq<char>>, i: int) -> Option<int>
    decreases words.len() - i,
{
    if i >= words.len() {
        None
    } else if words[i] == "--"@ {
        Some(i)
    } else {
        separator_from(words, i + 1)
    }
}

/// Words joined with single spaces (`[String]::join(" ")`).
pub open spec fn joined(words: Seq<Seq<char>>) -> Seq<char>
    decreases words.len(),
{
    if words.len() == 0 {
        Seq::empty()
    } else if words.len() == 1 {
        words[0]
    } else {
        joined(words.drop_last()) + seq![' '] + words.last()
    }
}

pub open spec fn open_with_usage(command: Seq<char>) -> Seq<char> {
    "Usage: :"@ + command + seq![' '] + (if command == "open-with"@ {
        "[APP_ID]"@
    } else {
        "APP_ID"@
    }) + " [-- PATH]"@
}

pub open spec fn open_with_spec(
    current: Seq<char>,
    command: Seq<char>,
    arguments: Seq<char>,
    words: Option<Seq<Seq<char>>>,
) -> Result<(Seq<char>, Option<Seq<char>>), Seq<char>> {
    match words {
        None => Err("Could not parse Open With arguments: unmatched quote"@),
        Some(w) => match separator_from(w, 0) {
            None => Ok((if w.len() == 1 { w[0] } else { arguments }, None)),
            Some(k) => {
                let application = joined(w.take(k));
                let targets = w.skip(k + 1);
                if targets.len() != 1 {
                    Err(open_with_usage(command))
                } else if command == "default-app"@ && application.len() == 0 {
                    Err("Usage: :default-app APP_ID [-- PATH]"@)
                } else {
                    Ok((application, Some(resolve(current, targets[0]))))
                }
            },
        },
    }
}

// ------------------------------------------------------------------ submit

pub open spec fn help_output() -> OutputView {
    OutputView {
        summary: ":help  \u{2022}  Waddle commands"@,
        detail: COMMAND_HELP@ + "\n\n"@ + HELP@,
    }
}

/// The command is `word` alone or `word` followed by a space.
pub open spec fn managed(trimmed: Seq<char>, word: Seq<char>) -> bool {
    trimmed == word || prefixed(trimmed, word + seq![' '])
}

pub open spec fn managed_arguments(trimmed: Seq<char>, word: Seq<char>) -> Seq<char> {
    trim(trimmed.skip(word.len() as int))
}

/// The action of a `:` command (or `!` command); the arguments of
/// `:properties`, `:chmod` and `:open-with`/`:default-app` are split into
/// shell words.
pub open spec fn action_spec(
    prefix: char,
    text: Seq<char>,
    current: Seq<char>,
) -> ActionView {
    let t = trim(text);
    let (command, arguments) = word_and_rest(t);
    let colon = prefix == ':';
    if colon && t == "q"@ {
        ActionView::Quit
    } else if colon && (t == "help"@ || t == "h"@) {
        ActionView::OutputChanged
    } else if colon && (t == "terminal"@ || t == "t"@) {
        ActionView::Execute(
            ExecutionView { current, selected: Seq::empty(), kind: ExecutionKindView::Terminal },
        )
    } else if colon && t == "refresh"@ {
        ActionView::Refresh
    } else if colon && (t == "diagnostics"@ || t == "diag"@) {
        ActionView::Diagnostics
    } else if colon && (command == "set"@ || command == "setlocal"@) {
        ActionView::ChangeSettings { local: command == "setlocal"@, arguments }
    } else if colon && managed(t, "favorite"@) {
        ActionView::ManageFavorite(managed_arguments(t, "favorite"@))
    } else if colon && managed(t, "recent"@) {
        ActionView::ManageRecent(managed_arguments(t, "recent"@))
    } else if colon && managed(t, "volume"@) {
        ActionView::ManageVolume(managed_arguments(t, "volume"@))
    } else if colon && (command == "properties"@ || command == "props"@) {
        match single_target_spec(current, shell_words(arguments), ":properties [PATH]"@) {
            Ok(target) => ActionView::ShowProperties { target },
            Err(e) => ActionView::Error(e),
        }
    } else if colon && managed(t, "chmod"@) {
        match chmod_spec(current, shell_words(managed_arguments(t, "chmod"@))) {
            Ok((mode, targets)) => ActionView::ChangePermissions { mode, targets },
            Err(e) => ActionView::Error(e),
        }
    } else if colon && (command == "open-with"@ || command == "default-app"@) {
        match open_with_spec(current, command, arguments, shell_words(arguments)) {
            Ok((application, target)) => ActionView::OpenWith {
                application,
                default: command == "default-app"@,
                target,
            },
            Err(e) => ActionView::Error(e),
        }
    } else if t.len() == 0 {
        ActionView::Nothing
    } else {
        ActionView::Execute(
            ExecutionView {
                current,
                selected: Seq::empty(),
                kind: ExecutionKindView::Shell { prefix, command: text },
            },
        )
    }
}

/// Submitting consumes the prefix and the text; only `:help` changes the
/// output.
pub open spec fn submit_spec(
    s: SessionView,
    current: Seq<char>,
) -> (SessionView, ActionView) {
    match s.prefix {
        None => (s, ActionView::Nothing),
        Some(prefix) => {
            let action = action_spec(prefix, s.text, current);
            let s1 = SessionView { prefix: None, text: Seq::empty(), ..s };
            if action is OutputChanged {
                (SessionView { output: Some(help_output()), ..s1 }, action)
            } else {
                (s1, action)
            }
        },
    }
}

// ------------------------------------------------------------------ complete

pub enum CompletionView {
    Shell(Result<ReportView, FailureView>),
    Terminal { directory: Seq<char>, result: Result<(), Seq<char>> },
}

pub struct ReportView {
    pub summary: Seq<char>,
    pub detail: Seq<char>,
    pub final_directory: Option<Seq<char>>,
}

pub enum FailureView {
    RequiresTerminal,
    Other(Seq<char>),
}

pub open spec fn completion_view(c: Completion) -> CompletionView {
    match c {
        Completion::Shell(Ok(r)) => CompletionView::Shell(
            Ok(
                ReportView {
                    summary: r.summary@,
                    detail: r.detail@,
                    final_directory: r.final_directory.deep_view(),
                },
            ),
        ),
        Completion::Shell(Err(Failure::RequiresTerminal)) => CompletionView::Shell(
            Err(FailureView::RequiresTerminal),
        ),
        Completion::Shell(Err(Failure::Other(e))) => CompletionView::Shell(
            Err(FailureView::Other(e@)),
        ),
        Completion::Terminal { directory, result } => CompletionView::Terminal {
            directory: directory@,
            result: match result {
                Ok(()) => Ok(()),
                Err(e) => Err(e@),
            },
        },
    }
}

pub open spec fn terminal_required_output() -> OutputView {
    OutputView {
        summary: "interactive terminal required"@,
        detail: "This command tried to take over the terminal screen, so Waddle stopped it."@,
    }
}

/// How a finished run changes the output panel and the window.
pub open spec fn complete_spec(
    s: SessionView,
    completion: Result<CompletionView, Seq<char>>,
    current: Seq<char>,
) -> (SessionView, ConsequencesView) {
    match completion {
        Err(error) => (s, ConsequencesView { error: Some(error), ..no_consequences() }),
        Ok(CompletionView::Terminal { directory, result }) => match result {
            Ok(()) => (
                SessionView { output: None, ..s },
                ConsequencesView {
                    status: Some("Opened terminal in "@ + directory),
                    ..no_consequences()
                },
            ),
            Err(error) => (
                SessionView {
                    output: Some(
                        OutputView {
                            summary: ":terminal  \u{2022}  error"@,
                            detail: "Could not open the default terminal: "@ + error,
                        },
                    ),
                    ..s
                },
                no_consequences(),
            ),
        },
        Ok(CompletionView::Shell(Ok(report))) => {
            let quiet = trim(report.detail).len() == 0;
            let navigate = match report.final_directory {
                Some(d) => if !same_path_spec(d, current) {
                    Some(d)
                } else {
                    None
                },
                None => None,
            };
            (
                SessionView {
                    output: if quiet {
                        None
                    } else {
                        Some(OutputView { summary: report.summary, detail: report.detail })
                    },
                    ..s
                },
                ConsequencesView {
                    status: if quiet {
                        Some(report.summary)
                    } else {
                        None
                    },
                    refresh: true,
                    navigate,
                    error: None,
                },
            )
        },
        Ok(CompletionView::Shell(Err(FailureView::RequiresTerminal))) => (
            SessionView { output: Some(terminal_required_output()), ..s },
            no_consequences(),
        ),
        Ok(CompletionView::Shell(Err(FailureView::Other(error)))) => (
            s,
            ConsequencesView { error: Some("Could not run Bash: "@ + error), ..no_consequences() },
        ),
    }
}

// ------------------------------------------------------------------ settings

pub open spec fn setting_candidates() -> Seq<Seq<char>> {
    seq![
        "set all"@,
        "set view="@,
        "set sort="@,
        "set direction="@,
        "set hidden="@,
        "set file-click="@,
        "set folder-click="@,
        "set icons="@,
        "set high-contrast="@,
        "set reduced-motion="@,
        "set reduced-transparency="@,
        "set tree="@,
        "set view=grid"@,
        "set view=list"@,
        "set sort=name"@,
        "set sort=modified"@,
        "set sort=size"@,
        "set sort=type"@,
        "set direction=ascending"@,
        "set direction=descending"@,
        "set hidden=true"@,
        "set hidden=false"@,
        "set file-click=single"@,
        "set file-click=double"@,
        "set folder-click=single"@,
        "set folder-click=double"@,
        "set icons=waddle"@,
        "set icons=system"@,
        "set high-contrast=auto"@,
        "set high-contrast=true"@,
        "set high-contrast=false"@,
        "set reduced-motion=auto"@,
        "set reduced-motion=true"@,
        "set reduced-motion=false"@,
        "set reduced-transparency=auto"@,
        "set reduced-transparency=true"@,
        "set reduced-transparency=false"@,
        "set tree=true"@,
        "set tree=false"@,
        "setlocal all"@,
        "setlocal view="@,
        "setlocal sort="@,
        "setlocal direction="@,
        "setlocal hidden="@,
        "setlocal view&"@,
        "setlocal sort&"@,
        "setlocal direction&"@,
        "setlocal hidden&"@,
        "setlocal view=grid"@,
        "setlocal view=list"@,
        "setlocal sort=name"@,
        "setlocal sort=modified"@,
        "setlocal sort=size"@,
        "setlocal sort=type"@,
        "setlocal direction=ascending"@,
        "setlocal direction=descending"@,
        "setlocal hidden=true"@,
        "setlocal hidden=false"@,
    ]
}

/// The candidates that start with `text`, in order.
pub open spec fn matching(candidates: Seq<Seq<char>>, text: Seq<char>) -> Seq<Seq<char>>
    decreases candidates.len(),
{
    if candidates.len() == 0 {
        candidates
    } else {
        let rest = matching(candidates.drop_last(), text);
        if prefixed(candidates.last(), text) {
            rest.push(candidates.last())
        } else {
            rest
        }
    }
}

/// Length of the longest common prefix of `a` and `b`.
pub open spec fn common_prefix(a: Seq<char>, b: Seq<char>) -> nat {
    common_from(a, b, 0) as nat
}

/// The first index at or after `i` where `a` and `b` differ or one ends.
pub open spec fn common_from(a: Seq<char>, b: Seq<char>, i: int) -> int
    decreases a.len() - i,
{
    if i < 0 || i >= a.len() || i >= b.len() || a[i] != b[i] {
        if i < 0 { 0 } else { i }
    } else {
        common_from(a, b, i + 1)
    }
}

pub proof fn lemma_common_from_bounds(a: Seq<char>, b: Seq<char>, i: int)
    requires
        0 <= i,
    ensures
        i <= common_from(a, b, i),
        i <= a.len() ==> common_from(a, b, i) <= a.len(),
    decreases a.len() - i,
{
    if !(i >= a.len() || i >= b.len() || a[i] != b[i]) {
        lemma_common_from_bounds(a, b, i + 1);
    }
}

/// The length that `first` shares with every candidate in `others`.
pub open spec fn shared_length(first: Seq<char>, others: Seq<Seq<char>>) -> nat
    decreases others.len(),
{
    if others.len() == 0 {
        first.len()
    } else {
        let rest = shared_length(first, others.drop_last());
        let here = common_prefix(first, others.last());
        if here < rest {
            here
        } else {
            rest
        }
    }
}

/// Completing a `:set` command: the text grows to the longest prefix that
/// every matching candidate shares, when that is longer than the text.
pub open spec fn complete_setting_spec(text: Seq<char>) -> Option<Seq<char>> {
    let ms = matching(setting_candidates(), text);
    if ms.len() == 0 {
        None
    } else {
        let n = shared_length(ms[0], ms);
        if n <= text.len() {
            None
        } else {
            Some(ms[0].take(n as int))
        }
    }
}

// ------------------------------------------------------------------ exec

pub open spec fn strings_result(r: Result<Vec<String>, String>) -> Result<Seq<Seq<char>>, Seq<char>> {
    match r {
        Ok(v) => Ok(v.deep_view()),
        Err(e) => Err(e@),
    }
}

pub open spec fn target_result(r: Result<Option<String>, String>) -> Result<Option<Seq<char>>, Seq<char>> {
    match r {
        Ok(v) => Ok(v.deep_view()),
        Err(e) => Err(e@),
    }
}

pub open spec fn chmod_result(r: Result<(String, Vec<String>), String>) -> Result<(Seq<char>, Seq<Seq<char>>), Seq<char>> {
    match r {
        Ok((m, t)) => Ok((m@, t.deep_view())),
        Err(e) => Err(e@),
    }
}

pub open spec fn open_with_result(r: Result<(String, Option<String>), String>) -> Result<(Seq<char>, Option<Seq<char>>), Seq<char>> {
    match r {
        Ok((a, t)) => Ok((a@, t.deep_view())),
        Err(e) => Err(e@),
    }
}

/// A target relative to `current`, or an absolute one as is.
pub fn resolve_target(current: &str, target: &str) -> (r: String)
    ensures
        r@ == resolve(current@, target@),
{
    join_path(current, target)
}

fn resolve_words(current: &str, words: &Vec<String>, from: usize) -> (r: Vec<String>)
    requires
        from <= words@.len(),
    ensures
        r.deep_view() == resolve_all(current@, words.deep_view().skip(from as int)),
{
    let mut out: Vec<String> = Vec::new();
    let mut i: usize = from;
    let ghost ws = words.deep_view().skip(from as int);
    while i < words.len()
        invariant
            from <= i <= words@.len(),
            ws == words.deep_view().skip(from as int),
            out@.len() == i - from,
            out.deep_view() == resolve_all(current@, ws).take(i - from),
        decreases words@.len() - i,
    {
        let t = resolve_target(current, words[i].as_str());
        out.push(t);
        i = i + 1;
        assert(out.deep_view() =~= resolve_all(current@, ws).take(i - from));
    }
    assert(resolve_all(current@, ws).take(i - from) =~= resolve_all(current@, ws));
    out
}

/// Targets from already split words.
pub fn targets_from_words(current: &str, words: Option<Vec<String>>) -> (r: Result<Vec<String>, String>)
    ensures
        strings_result(r) == targets_spec(current@, words.deep_view()),
{
    match words {
        None => Err(String::from_str("Could not parse path: unmatched quote")),
        Some(w) => {
            let r = resolve_words(current, &w, 0);
            assert(w.deep_view().skip(0) =~= w.deep_view());
            Ok(r)
        },
    }
}

/// Shell-quoted targets, each resolved against `current`.
pub fn parse_targets(current: &str, arguments: &str) -> (r: Result<Vec<String>, String>)
    ensures
        strings_result(r) == targets_spec(current@, shell_words(arguments@)),
{
    targets_from_words(current, split_shell_words(arguments))
}

/// At most one target from already split words.
pub fn single_target_from_words(current: &str, words: Option<Vec<String>>, usage: &str) -> (r: Result<Option<String>, String>)
    ensures
        target_result(r) == single_target_spec(current@, words.deep_view(), usage@),
{
    match targets_from_words(current, words) {
        Err(e) => Err(e),
        Ok(targets) => {
            if targets.len() == 0 {
                Ok(None)
            } else if targets.len() == 1 {
                Ok(Some(targets[0].clone()))
            } else {
                Err(concat("Usage: ", usage))
            }
        },
    }
}

/// At most one shell-quoted target, resolved against `current`.
pub fn parse_single_target(current: &str, arguments: &str, usage: &str) -> (r: Result<Option<String>, String>)
    ensures
        target_result(r) == single_target_spec(current@, shell_words(arguments@), usage@),
{
    single_target_from_words(current, split_shell_words(arguments), usage)
}

/// The mode and resolved targets of `:chmod`, from already split words.
pub fn chmod_from_words(current: &str, words: Option<Vec<String>>) -> (r: Result<(String, Vec<String>), String>)
    ensures
        chmod_result(r) == chmod_spec(current@, words.deep_view()),
{
    match words {
        None => Err(String::from_str("Could not parse :chmod arguments: unmatched quote")),
        Some(w) => {
            if w.len() == 0 {
                let none: Vec<String> = Vec::new();
                assert(none.deep_view() =~= Seq::<Seq<char>>::empty());
                Ok((String::new(), none))
            } else {
                let mode = w[0].clone();
                let targets = resolve_words(current, &w, 1);
                Ok((mode, targets))
            }
        },
    }
}

pub fn parse_chmod_arguments(current: &str, arguments: &str) -> (r: Result<(String, Vec<String>), String>)
    ensures
        chmod_result(r) == chmod_spec(current@, shell_words(arguments@)),
{
    chmod_from_words(current, split_shell_words(arguments))
}

fn separator(words: &Vec<String>) -> (r: Option<usize>)
    ensures
        r matches Some(k) ==> separator_from(words.deep_view(), 0) == Some(k as int) && k < words@.len(),
        r is None ==> separator_from(words.deep_view(), 0) is None,
{
    let mut i: usize = 0;
    let dash = String::from_str("--");
    while i < words.len()
        invariant
            i <= words@.len(),
            dash@ == "--"@,
            separator_from(words.deep_view(), i as int) == separator_from(words.deep_view(), 0),
        decreases words@.len() - i,
    {
        if words[i] == dash {
            return Some(i);
        }
        i = i + 1;
    }
    None
}

fn join_words(words: &Vec<String>, count: usize) -> (r: String)
    requires
        count <= words@.len(),
    ensures
        r@ == joined(words.deep_view().take(count as int)),
{
    let mut v: Vec<char> = Vec::new();
    let mut i: usize = 0;
    let ghost ws = words.deep_view();
    assert(ws.take(0) =~= Seq::<Seq<char>>::empty());
    while i < count
        invariant
            i <= count <= words@.len(),
            ws == words.deep_view(),
            v@ == joined(ws.take(i as int)),
        decreases count - i,
    {
        assert(ws.take(i + 1).drop_last() =~= ws.take(i as int));
        if i > 0 {
            v.push(' ');
        }
        push_str(&mut v, words[i].as_str());
        i = i + 1;
        proof {
            if i == 1 {
                assert(v@ =~= ws.take(1)[0]);
            } else {
                assert(v@ =~= joined(ws.take(i - 1)) + seq![' '] + ws.take(i as int).last());
            }
        }
    }
    string_of(v.as_slice())
}

/// The application and target of `:open-with`/`:default-app`, from already
/// split words.
pub fn open_with_from_words(
    current: &str,
    command: &str,
    arguments: &str,
    words: Option<Vec<String>>,
) -> (r: Result<(String, Option<String>), String>)
    ensures
        open_with_result(r) == open_with_spec(current@, command@, arguments@, words.deep_view()),
{
    let w = match words {
        None => {
            return Err(String::from_str("Could not parse Open With arguments: unmatched quote"));
        },
        Some(w) => w,
    };
    match separator(&w) {
        None => {
            let application = if w.len() == 1 {
                w[0].clone()
            } else {
                String::from_str(arguments)
            };
            Ok((application, None))
        },
        Some(k) => {
            let application = join_words(&w, k);
            let command_chars = chars_of(command);
            proof {
                assert(w.deep_view().skip(k + 1).len() == w@.len() - k - 1);
            }
            if w.len() - k - 1 != 1 {
                let mut v = chars_of("Usage: :");
                push_str(&mut v, command);
                v.push(' ');
                if same_as(command_chars.as_slice(), "open-with") {
                    push_str(&mut v, "[APP_ID]");
                } else {
                    push_str(&mut v, "APP_ID");
                }
                push_str(&mut v, " [-- PATH]");
                assert(v@ =~= open_with_usage(command@));
                return Err(string_of(v.as_slice()));
            }
            if same_as(command_chars.as_slice(), "default-app") && application.as_str().unicode_len() == 0 {
                return Err(String::from_str("Usage: :default-app APP_ID [-- PATH]"));
            }
            assert(w.deep_view().skip(k + 1)[0] == w.deep_view()[k + 1]);
            let target = resolve_target(current, w[k + 1].as_str());
            Ok((application, Some(target)))
        },
    }
}

pub fn parse_open_with_arguments(current: &str, command: &str, arguments: &str) -> (r: Result<(String, Option<String>), String>)
    ensures
        open_with_result(r) == open_with_spec(current@, command@, arguments@, shell_words(arguments@)),
{
    open_with_from_words(current, command, arguments, split_shell_words(arguments))
}

/// The first word of a command and its trimmed arguments.
pub fn command_and_arguments(command: &str) -> (r: (String, String))
    ensures
        r.0@ == word_and_rest(command@).0,
        r.1@ == word_and_rest(command@).1,
{
    let text = chars_of(command);
    let (word, rest) = word_and_rest_exec(text.as_slice());
    (string_of(word.as_slice()), string_of(rest.as_slice()))
}

fn is_managed(t: &Vec<char>, word: &str) -> (r: bool)
    ensures
        r == managed(t@, word@),
{
    let mut spaced = chars_of(word);
    spaced.push(' ');
    assert(spaced@ =~= word@ + seq![' ']);
    same_as(t.as_slice(), word) || starts_with(t.as_slice(), spaced.as_slice())
}

fn managed_rest(t: &Vec<char>, word: &str) -> (r: String)
    requires
        managed(t@, word@),
    ensures
        r@ == managed_arguments(t@, word@),
{
    let w = chars_of(word);
    let rest = slice_chars(t.as_slice(), w.len(), t.len());
    assert(rest@ =~= t@.skip(word@.len() as int));
    let trimmed_rest = trimmed(rest.as_slice());
    string_of(trimmed_rest.as_slice())
}

fn is_word(t: &Vec<char>, word: &str) -> (r: bool)
    ensures
        r == (t@ == word@),
{
    same_as(t.as_slice(), word)
}

fn action(prefix: char, text: &String, current: String) -> (r: CommandAction)
    ensures
        r.deep_view() == action_spec(prefix, text@, current@),
{
    let chars = chars_of(text.as_str());
    let t = trimmed(chars.as_slice());
    let (command, arguments) = word_and_rest_exec(t.as_slice());
    let colon = prefix == ':';
    if colon && is_word(&t, "q") {
        CommandAction::Quit
    } else if colon && (is_word(&t, "help") || is_word(&t, "h")) {
        CommandAction::OutputChanged
    } else if colon && (is_word(&t, "terminal") || is_word(&t, "t")) {
        let selected: Vec<String> = Vec::new();
        assert(selected.deep_view() =~= Seq::<Seq<char>>::empty());
        CommandAction::Execute(Execution { current, selected, kind: ExecutionKind::Terminal })
    } else if colon && is_word(&t, "refresh") {
        CommandAction::Refresh
    } else if colon && (is_word(&t, "diagnostics") || is_word(&t, "diag")) {
        CommandAction::Diagnostics
    } else if colon && (is_word(&command, "set") || is_word(&command, "setlocal")) {
        CommandAction::ChangeSettings {
            local: is_word(&command, "setlocal"),
            arguments: string_of(arguments.as_slice()),
        }
    } else if colon && is_managed(&t, "favorite") {
        CommandAction::ManageFavorite(managed_rest(&t, "favorite"))
    } else if colon && is_managed(&t, "recent") {
        CommandAction::ManageRecent(managed_rest(&t, "recent"))
    } else if colon && is_managed(&t, "volume") {
        CommandAction::ManageVolume(managed_rest(&t, "volume"))
    } else if colon && (is_word(&command, "properties") || is_word(&command, "props")) {
        let args = string_of(arguments.as_slice());
        match parse_single_target(current.as_str(), args.as_str(), ":properties [PATH]") {
            Ok(target) => CommandAction::ShowProperties { target },
            Err(e) => CommandAction::Error(e),
        }
    } else if colon && is_managed(&t, "chmod") {
        let args = managed_rest(&t, "chmod");
        match parse_chmod_arguments(current.as_str(), args.as_str()) {
            Ok((mode, targets)) => CommandAction::ChangePermissions { mode, targets },
            Err(e) => CommandAction::Error(e),
        }
    } else if colon && (is_word(&command, "open-with") || is_word(&command, "default-app")) {
        let args = string_of(arguments.as_slice());
        let name = string_of(command.as_slice());
        match parse_open_with_arguments(current.as_str(), name.as_str(), args.as_str()) {
            Ok((application, target)) => CommandAction::OpenWith {
                application,
                default: is_word(&command, "default-app"),
                target,
            },
            Err(e) => CommandAction::Error(e),
        }
    } else if t.len() == 0 {
        CommandAction::Nothing
    } else {
        let selected: Vec<String> = Vec::new();
        assert(selected.deep_view() =~= Seq::<Seq<char>>::empty());
        CommandAction::Execute(
            Execution {
                current,
                selected,
                kind: ExecutionKind::Shell { prefix, command: text.clone() },
            },
        )
    }
}

/// Every inner vector of characters is seen through its view.
proof fn lemma_nested_deep_view(v: Vec<Vec<char>>)
    ensures
        forall|i: int| 0 <= i < v@.len() ==> #[trigger] v.deep_view()[i] == v@[i]@,
{
    assert forall|i: int| 0 <= i < v@.len() implies #[trigger] v.deep_view()[i] == v@[i]@ by {
        assert(v@[i].deep_view() =~= v@[i]@);
    }
}

fn push_line(v: &mut Vec<Vec<char>>, c: Vec<char>)
    ensures
        final(v).deep_view() == old(v).deep_view().push(c@),
{
    let ghost before = v.deep_view();
    v.push(c);
    proof {
        lemma_nested_deep_view(*v);
        lemma_nested_deep_view(*old(v));
        assert(v.deep_view() =~= before.push(c@));
    }
}

fn push_word(v: &mut Vec<Vec<char>>, s: &str)
    ensures
        final(v).deep_view() == old(v).deep_view().push(s@),
{
    push_line(v, chars_of(s));
}

#[verifier::rlimit(80)]
fn setting_candidate_list() -> (r: Vec<Vec<char>>)
    ensures
        r.deep_view() == setting_candidates(),
{
    let mut v: Vec<Vec<char>> = Vec::new();
    push_word(&mut v, "set all");
    push_word(&mut v, "set view=");
    push_word(&mut v, "set sort=");
    push_word(&mut v, "set direction=");
    push_word(&mut v, "set hidden=");
    push_word(&mut v, "set file-click=");
    push_word(&mut v, "set folder-click=");
    push_word(&mut v, "set icons=");
    push_word(&mut v, "set high-contrast=");
    push_word(&mut v, "set reduced-motion=");
    push_word(&mut v, "set reduced-transparency=");
    push_word(&mut v, "set tree=");
    push_word(&mut v, "set view=grid");
    push_word(&mut v, "set view=list");
    push_word(&mut v, "set sort=name");
    push_word(&mut v, "set sort=modified");
    push_word(&mut v, "set sort=size");
    push_word(&mut v, "set sort=type");
    push_word(&mut v, "set direction=ascending");
    push_word(&mut v, "set direction=descending");
    push_word(&mut v, "set hidden=true");
    push_word(&mut v, "set hidden=false");
    push_word(&mut v, "set file-click=single");
    push_word(&mut v, "set file-click=double");
    push_word(&mut v, "set folder-click=single");
    push_word(&mut v, "set folder-click=double");
    push_word(&mut v, "set icons=waddle");
    push_word(&mut v, "set icons=system");
    push_word(&mut v, "set high-contrast=auto");
    push_word(&mut v, "set high-contrast=true");
    push_word(&mut v, "set high-contrast=false");
    push_word(&mut v, "set reduced-motion=auto");
    push_word(&mut v, "set reduced-motion=true");
    push_word(&mut v, "set reduced-motion=false");
    push_word(&mut v, "set reduced-transparency=auto");
    push_word(&mut v, "set reduced-transparency=true");
    push_word(&mut v, "set reduced-transparency=false");
    push_word(&mut v, "set tree=true");
    push_word(&mut v, "set tree=false");
    push_word(&mut v, "setlocal all");
    push_word(&mut v, "setlocal view=");
    push_word(&mut v, "setlocal sort=");
    push_word(&mut v, "setlocal direction=");
    push_word(&mut v, "setlocal hidden=");
    push_word(&mut v, "setlocal view&");
    push_word(&mut v, "setlocal sort&");
    push_word(&mut v, "setlocal direction&");
    push_word(&mut v, "setlocal hidden&");
    push_word(&mut v, "setlocal view=grid");
    push_word(&mut v, "setlocal view=list");
    push_word(&mut v, "setlocal sort=name");
    push_word(&mut v, "setlocal sort=modified");
    push_word(&mut v, "setlocal sort=size");
    push_word(&mut v, "setlocal sort=type");
    push_word(&mut v, "setlocal direction=ascending");
    push_word(&mut v, "setlocal direction=descending");
    push_word(&mut v, "setlocal hidden=true");
    push_word(&mut v, "setlocal hidden=false");
    v
}

fn common_length(a: &Vec<char>, b: &Vec<char>) -> (r: usize)
    ensures
        r == common_prefix(a@, b@),
        r <= a@.len(),
{
    let mut i: usize = 0;
    while i < a.len() && i < b.len() && a[i] == b[i]
        invariant
            i <= a@.len(),
            common_from(a@, b@, i as int) == common_from(a@, b@, 0),
        decreases a@.len() - i,
    {
        i = i + 1;
    }
    i
}

impl Default for CommandSession {
    fn default() -> (r: Self)
        ensures
            r.deep_view() == (SessionView { prefix: None, text: Seq::empty(), output: None }),
    {
        CommandSession { prefix: None, text: String::new(), output: None }
    }
}

impl CommandSession {
    /// Opens the prompt with `prefix`, clearing its text and output.
    pub fn begin(&mut self, prefix: char)
        ensures
            final(self).deep_view() == (SessionView {
                prefix: Some(prefix),
                text: Seq::empty(),
                output: None,
            }),
    {
        self.prefix = Some(prefix);
        self.text = String::new();
        self.output = None;
    }

    pub fn cancel(&mut self)
        ensures
            final(self).deep_view() == (SessionView {
                prefix: None,
                text: Seq::empty(),
                ..old(self).deep_view()
            }),
    {
        self.prefix = None;
        self.text = String::new();
    }

    pub fn change(&mut self, value: String)
        ensures
            final(self).deep_view() == (SessionView { text: value@, ..old(self).deep_view() }),
    {
        self.text = value;
    }

    pub fn prefix(&self) -> (r: Option<char>)
        ensures
            r == self.deep_view().prefix,
    {
        self.prefix
    }

    pub fn text(&self) -> (r: &str)
        ensures
            r@ == self.deep_view().text,
    {
        self.text.as_str()
    }

    pub fn output(&self) -> (r: Option<&Output>)
        ensures
            r.deep_view() == self.deep_view().output,
    {
        match &self.output {
            Some(o) => Some(o),
            None => None,
        }
    }

    pub fn close_output(&mut self)
        ensures
            final(self).deep_view() == (SessionView { output: None, ..old(self).deep_view() }),
    {
        self.output = None;
    }

    /// Submits the prompt: a built-in command's action, or a command to run.
    pub fn submit(&mut self, current: String) -> (r: CommandAction)
        ensures
            (final(self).deep_view(), r.deep_view()) == submit_spec(
                old(self).deep_view(),
                current@,
            ),
    {
        let prefix = match self.prefix {
            Some(p) => p,
            None => return CommandAction::Nothing,
        };
        self.prefix = None;
        let command = self.text.clone();
        self.text = String::new();
        let r = action(prefix, &command, current);
        if let CommandAction::OutputChanged = r {
            let mut detail = concat(COMMAND_HELP, "\n\n");
            detail.append(HELP);
            self.output = Some(
                Output { summary: String::from_str(":help  \u{2022}  Waddle commands"), detail },
            );
        }
        r
    }

    /// Interprets a finished run.
    pub fn complete(&mut self, completion: Result<Completion, String>, current: &str) -> (r: Consequences)
        ensures
            (final(self).deep_view(), r.deep_view()) == complete_spec(
                old(self).deep_view(),
                match completion {
                    Ok(c) => Ok(completion_view(c)),
                    Err(e) => Err(e@),
                },
                current@,
            ),
    {
        match completion {
            Err(error) => Consequences { status: None, error: Some(error), refresh: false, navigate: None },
            Ok(Completion::Terminal { directory, result }) => match result {
                Ok(()) => {
                    self.output = None;
                    Consequences {
                        status: Some(concat("Opened terminal in ", directory.as_str())),
                        error: None,
                        refresh: false,
                        navigate: None,
                    }
                },
                Err(error) => {
                    self.output = Some(
                        Output {
                            summary: String::from_str(":terminal  \u{2022}  error"),
                            detail: concat("Could not open the default terminal: ", error.as_str()),
                        },
                    );
                    empty_consequences()
                },
            },
            Ok(Completion::Shell(Ok(report))) => {
                let ShellReport { summary, detail, final_directory, successful: _ } = report;
                let detail_chars = chars_of(detail.as_str());
                let quiet = trimmed(detail_chars.as_slice()).len() == 0;
                let navigate = match final_directory {
                    Some(d) => {
                        if same_path(d.as_str(), current) {
                            None
                        } else {
                            Some(d)
                        }
                    },
                    None => None,
                };
                let status = if quiet {
                    self.output = None;
                    Some(summary)
                } else {
                    self.output = Some(Output { summary, detail });
                    None
                };
                Consequences { status, refresh: true, navigate, error: None }
            },
            Ok(Completion::Shell(Err(Failure::RequiresTerminal))) => {
                self.output = Some(
                    Output {
                        summary: String::from_str("interactive terminal required"),
                        detail: String::from_str(
                            "This command tried to take over the terminal screen, so Waddle stopped it.",
                        ),
                    },
                );
                empty_consequences()
            },
            Ok(Completion::Shell(Err(Failure::Other(error)))) => Consequences {
                status: None,
                error: Some(concat("Could not run Bash: ", error.as_str())),
                refresh: false,
                navigate: None,
            },
        }
    }

    pub fn show_diagnostics(&mut self, detail: String)
        ensures
            final(self).deep_view() == (SessionView {
                output: Some(OutputView { summary: ":diagnostics  \u{2022}  local command failures"@, detail: detail@ }),
                ..old(self).deep_view()
            }),
    {
        self.output = Some(
            Output {
                summary: String::from_str(":diagnostics  \u{2022}  local command failures"),
                detail,
            },
        );
    }

    pub fn show_settings(&mut self, detail: String)
        ensures
            final(self).deep_view() == (SessionView {
                output: Some(OutputView { summary: ":set  \u{2022}  session settings"@, detail: detail@ }),
                ..old(self).deep_view()
            }),
    {
        self.output = Some(
            Output { summary: String::from_str(":set  \u{2022}  session settings"), detail },
        );
    }

    pub fn show_output(&mut self, summary: String, detail: String)
        ensures
            final(self).deep_view() == (SessionView {
                output: Some(OutputView { summary: summary@, detail: detail@ }),
                ..old(self).deep_view()
            }),
    {
        self.output = Some(Output { summary, detail });
    }

    /// Completes a `:set`/`:setlocal` command as far as its candidates agree.
    pub fn complete_setting(&mut self) -> (r: bool)
        ensures
            r == complete_setting_spec(old(self).deep_view().text) is Some,
            final(self).deep_view() == (match complete_setting_spec(old(self).deep_view().text) {
                Some(t) => SessionView { text: t, ..old(self).deep_view() },
                None => old(self).deep_view(),
            }),
    {
        let candidates = setting_candidate_list();
        let text = chars_of(self.text.as_str());
        let ghost cs = setting_candidates();
        let mut matches: Vec<Vec<char>> = Vec::new();
        let mut i: usize = 0;
        assert(cs.take(0) =~= Seq::<Seq<char>>::empty());
        assert(matches.deep_view() =~= Seq::<Seq<char>>::empty());
        while i < candidates.len()
            invariant
                i <= candidates@.len(),
                candidates.deep_view() == cs,
                matches.deep_view() == matching(cs.take(i as int), text@),
            decreases candidates@.len() - i,
        {
            assert(cs.take(i + 1).drop_last() =~= cs.take(i as int));
            assert(cs.take(i + 1).last() == cs[i as int]);
            proof {
                lemma_nested_deep_view(candidates);
            }
            if starts_with(candidates[i].as_slice(), text.as_slice()) {
                let c = slice_chars(candidates[i].as_slice(), 0, candidates[i].len());
                assert(c@ =~= cs[i as int]);
                push_line(&mut matches, c);
            }
            i = i + 1;
        }
        assert(cs.take(i as int) =~= cs);
        let ghost ms = matches.deep_view();
        if matches.len() == 0 {
            return false;
        }
        proof {
            lemma_nested_deep_view(matches);
        }
        let mut n: usize = matches[0].len();
        let mut j: usize = 0;
        assert(ms.take(0) =~= Seq::<Seq<char>>::empty());
        while j < matches.len()
            invariant
                j <= matches@.len(),
                matches@.len() > 0,
                ms == matches.deep_view(),
                n == shared_length(ms[0], ms.take(j as int)),
                n <= ms[0].len(),
            decreases matches@.len() - j,
        {
            assert(ms.take(j + 1).drop_last() =~= ms.take(j as int));
            assert(ms.take(j + 1).last() == ms[j as int]);
            proof {
                lemma_nested_deep_view(matches);
            }
            let here = common_length(&matches[0], &matches[j]);
            if here < n {
                n = here;
            }
            j = j + 1;
        }
        assert(ms.take(j as int) =~= ms);
        if n <= text.len() {
            return false;
        }
        let completed = slice_chars(matches[0].as_slice(), 0, n);
        assert(completed@ =~= ms[0].take(n as int));
        self.text = string_of(completed.as_slice());
        true
    }
}


// ------------------------------------------------------------------ laws

/// Submitting always closes the prompt: whatever the command asks for,
/// the prompt has no prefix and no text afterwards.
pub proof fn lemma_submit_closes_the_prompt(s: SessionView, current: Seq<char>)
    requires
        s.prefix is Some,
    ensures
        submit_spec(s, current).0.prefix is None,
        submit_spec(s, current).0.text.len() == 0,
{
}

proof fn lemma_matching_members(candidates: Seq<Seq<char>>, text: Seq<char>)
    ensures
        forall|i: int|
            0 <= i < matching(candidates, text).len() ==> prefixed(
                #[trigger] matching(candidates, text)[i],
                text,
            ) && candidates.contains(matching(candidates, text)[i]),
    decreases candidates.len(),
{
    if candidates.len() > 0 {
        let p = candidates.drop_last();
        lemma_matching_members(p, text);
        let m = matching(candidates, text);
        assert forall|i: int| 0 <= i < m.len() implies prefixed(#[trigger] m[i], text)
            && candidates.contains(m[i]) by {
            if i < matching(p, text).len() {
                assert(m[i] == matching(p, text)[i]);
                let j = choose|j: int| 0 <= j < p.len() && p[j] == m[i];
                assert(candidates[j] == m[i]);
            } else {
                assert(candidates[candidates.len() - 1] == m[i]);
            }
        }
    }
}

proof fn lemma_shared_length_bound(first: Seq<char>, others: Seq<Seq<char>>)
    ensures
        shared_length(first, others) <= first.len(),
    decreases others.len(),
{
    if others.len() > 0 {
        lemma_shared_length_bound(first, others.drop_last());
    }
}

/// `p` begins every sequence of `ms`.
pub open spec fn prefixes_all(ms: Seq<Seq<char>>, p: Seq<char>) -> bool {
    forall|j: int| 0 <= j < ms.len() ==> prefixed(#[trigger] ms[j], p)
}

proof fn lemma_common_from(a: Seq<char>, b: Seq<char>, i: int)
    requires
        0 <= i <= a.len(),
        i <= b.len(),
    ensures
        i <= common_from(a, b, i) <= a.len(),
        common_from(a, b, i) <= b.len(),
        forall|j: int| i <= j < common_from(a, b, i) ==> a[j] == b[j],
        common_from(a, b, i) == a.len() || common_from(a, b, i) == b.len() || a[common_from(
            a,
            b,
            i,
        )] != b[common_from(a, b, i)],
    decreases a.len() - i,
{
    if !(i >= a.len() || i >= b.len() || a[i] != b[i]) {
        lemma_common_from(a, b, i + 1);
    }
}

/// The shared length of two sequences is as long as any prefix they share,
/// and they agree up to it.
proof fn lemma_common_prefix(a: Seq<char>, b: Seq<char>)
    ensures
        common_prefix(a, b) <= a.len(),
        common_prefix(a, b) <= b.len(),
        a.take(common_prefix(a, b) as int) == b.take(common_prefix(a, b) as int),
        forall|p: Seq<char>| prefixed(a, p) && prefixed(b, p) ==> p.len() <= common_prefix(a, b),
{
    lemma_common_from(a, b, 0);
    let k = common_prefix(a, b) as int;
    assert(a.take(k) =~= b.take(k));
    assert forall|p: Seq<char>| prefixed(a, p) && prefixed(b, p) implies p.len() <= k by {
        if p.len() > k {
            assert(a[k] == a.take(p.len() as int)[k]);
            assert(b[k] == b.take(p.len() as int)[k]);
        }
    }
}

proof fn lemma_shared_length(first: Seq<char>, others: Seq<Seq<char>>)
    ensures
        shared_length(first, others) <= first.len(),
        forall|j: int|
            0 <= j < others.len() ==> shared_length(first, others) <= common_prefix(
                first,
                #[trigger] others[j],
            ),
        shared_length(first, others) == first.len() || exists|j: int|
            0 <= j < others.len() && shared_length(first, others) == common_prefix(
                first,
                #[trigger] others[j],
            ),
    decreases others.len(),
{
    if others.len() > 0 {
        let p = others.drop_last();
        lemma_shared_length(first, p);
        let last = others.len() - 1;
        assert(others[last] == others.last());
        assert forall|j: int| 0 <= j < others.len() implies shared_length(first, others)
            <= common_prefix(first, #[trigger] others[j]) by {
            if j < last {
                assert(others[j] == p[j]);
            }
        }
        if shared_length(first, others) != first.len() && shared_length(first, others)
            != common_prefix(first, others[last]) {
            let j = choose|j: int|
                0 <= j < p.len() && shared_length(first, p) == common_prefix(first, #[trigger] p[j]);
            assert(others[j] == p[j]);
        }
    }
}

/// Completing a setting extends the text to the longest prefix that every
/// candidate starting with the text shares: it completes exactly when some
/// candidate starts with the text and they all share more than the text,
/// the completed text begins every such candidate, and every prefix they
/// all share begins the completed text.
pub proof fn lemma_setting_completion_is_longest_shared_prefix(text: Seq<char>)
    ensures
        ({
            let ms = matching(setting_candidates(), text);
            &&& complete_setting_spec(text) is Some <==> (ms.len() > 0 && exists|p: Seq<char>|
                prefixes_all(ms, p) && p.len() > text.len())
            &&& complete_setting_spec(text) matches Some(n) ==> {
                &&& n.len() > text.len()
                &&& prefixes_all(ms, n)
                &&& forall|p: Seq<char>| prefixes_all(ms, p) ==> prefixed(n, p)
            }
        }),
{
    let ms = matching(setting_candidates(), text);
    if ms.len() > 0 {
        let first = ms[0];
        let n = shared_length(first, ms);
        lemma_shared_length(first, ms);
        let t = first.take(n as int);
        assert forall|j: int| 0 <= j < ms.len() implies prefixed(#[trigger] ms[j], t) by {
            lemma_common_prefix(first, ms[j]);
            let k = common_prefix(first, ms[j]) as int;
            assert(ms[j].take(n as int) =~= first.take(k).take(n as int));
            assert(t =~= first.take(k).take(n as int));
        }
        assert forall|p: Seq<char>| prefixes_all(ms, p) implies p.len() <= n && prefixed(t, p) by {
            assert(prefixed(ms[0], p));
            if n != first.len() {
                let j = choose|j: int|
                    0 <= j < ms.len() && n == common_prefix(first, #[trigger] ms[j]);
                lemma_common_prefix(first, ms[j]);
                assert(prefixed(ms[j], p));
            }
            assert(t.take(p.len() as int) =~= first.take(p.len() as int));
        }
        if n > text.len() {
            assert(prefixes_all(ms, t) && t.len() > text.len());
        }
    }
}

/// Completing a setting only ever extends the typed text, and only to the
/// beginning of a setting that exists.
pub proof fn lemma_setting_completion_extends_to_a_candidate(text: Seq<char>)
    ensures
        complete_setting_spec(text) matches Some(n) ==> {
            &&& n.len() > text.len()
            &&& prefixed(n, text)
            &&& exists|i: int|
                0 <= i < setting_candidates().len() && prefixed(
                    #[trigger] setting_candidates()[i],
                    n,
                )
        },
{
    let ms = matching(setting_candidates(), text);
    lemma_matching_members(setting_candidates(), text);
    if ms.len() > 0 {
        lemma_shared_length_bound(ms[0], ms);
        let n = shared_length(ms[0], ms);
        if n > text.len() {
            let c = ms[0];
            assert(prefixed(c, text));
            let t = c.take(n as int);
            assert(t.take(text.len() as int) =~= c.take(text.len() as int));
            let i = choose|i: int| 0 <= i < setting_candidates().len() && setting_candidates()[i] == c;
            assert(setting_candidates()[i].take(n as int) =~= t);
        }
    }
}

/// `:set` and `:setlocal`: submitting a `:` command whose first word is
/// `set` asks for a session-wide change and one whose first word is
/// `setlocal` for a change to this folder only, with the rest of the command
/// as the arguments; whenever a submitted command asks for a settings change,
/// it is local exactly when its first word is `setlocal`.
pub proof fn lemma_set_and_setlocal(s: SessionView, current: Seq<char>)
    requires
        s.prefix == Some(':'),
    ensures
        ({
            let (command, arguments) = word_and_rest(trim(s.text));
            &&& submit_spec(s, current).1 matches ActionView::ChangeSettings { local, .. } ==> local
                == (command == "setlocal"@)
            &&& command == "set"@ ==> submit_spec(s, current).1 == ActionView::ChangeSettings {
                local: false,
                arguments,
            }
            &&& command == "setlocal"@ ==> submit_spec(s, current).1
                == ActionView::ChangeSettings { local: true, arguments }
        }),
{
    let t = trim(s.text);
    let command = word_and_rest(t).0;
    reveal_strlit("set");
    reveal_strlit("setlocal");
    if command == "set"@ || command == "setlocal"@ {
        lemma_first_word_prefix(t);
        let n = command.len() as int;
        assert(t.take(n) == command);
        assert(t.len() >= 3);
        assert(t[0] == 's' && t[1] == 'e' && t[2] == 't') by {
            assert(t.take(n)[0] == command[0]);
            assert(t.take(n)[1] == command[1]);
            assert(t.take(n)[2] == command[2]);
        }
        reveal_strlit("q");
        reveal_strlit("help");
        reveal_strlit("h");
        reveal_strlit("terminal");
        reveal_strlit("t");
        reveal_strlit("refresh");
        reveal_strlit("diagnostics");
        reveal_strlit("diag");
        assert(t != "q"@ && t != "h"@ && t != "t"@) by {
            if t == "q"@ || t == "h"@ || t == "t"@ {
                assert(t.len() == 1);
            }
        }
        assert(t != "help"@ && t != "terminal"@ && t != "refresh"@ && t != "diagnostics"@
            && t != "diag"@) by {
            if t == "help"@ {
                assert(t[0] == 'h');
            }
            if t == "terminal"@ {
                assert(t[0] == 't');
            }
            if t == "refresh"@ {
                assert(t[0] == 'r');
            }
            if t == "diagnostics"@ || t == "diag"@ {
                assert(t[0] == 'd');
            }
        }
    }
}

proof fn lemma_first_word_prefix(t: Seq<char>)
    ensures
        word_and_rest(t).0.len() <= t.len(),
        t.take(word_and_rest(t).0.len() as int) == word_and_rest(t).0,
{
    lemma_first_space_bounds(t, 0);
    match first_space_from(t, 0) {
        Some(k) => {
            assert(t.take(k).len() == k);
        },
        None => {
            assert(t.take(t.len() as int) =~= t);
        },
    }
}

/// A `!` command runs its text, as typed, in the shell with the `!`
/// prefix, in the current folder and with no selection handed over; a
/// blank `!` command does nothing.
pub proof fn lemma_bang_runs_the_text(s: SessionView, current: Seq<char>)
    requires
        s.prefix == Some('!'),
    ensures
        trim(s.text).len() == 0 ==> submit_spec(s, current).1 == ActionView::Nothing,
        trim(s.text).len() > 0 ==> submit_spec(s, current).1 == ActionView::Execute(
            ExecutionView {
                current,
                selected: Seq::empty(),
                kind: ExecutionKindView::Shell { prefix: '!', command: s.text },
            },
        ),
{
}

/// The one-word `:` commands: `q` quits, `help` (or `h`) shows the help,
/// `terminal` (or `t`) opens a terminal in the current folder, `refresh`
/// refreshes and `diagnostics` (or `diag`) shows the failure history;
/// surrounding blanks do not matter. `:open-with` and `:default-app` differ
/// only in that the second makes the application the default.
pub proof fn lemma_one_word_commands(s: SessionView, current: Seq<char>)
    requires
        s.prefix == Some(':'),
    ensures
        ({
            let t = trim(s.text);
            let a = submit_spec(s, current).1;
            &&& t == "q"@ ==> a == ActionView::Quit
            &&& (t == "help"@ || t == "h"@) ==> a == ActionView::OutputChanged
            &&& (t == "terminal"@ || t == "t"@) ==> a == ActionView::Execute(
                ExecutionView { current, selected: Seq::empty(), kind: ExecutionKindView::Terminal },
            )
            &&& t == "refresh"@ ==> a == ActionView::Refresh
            &&& (t == "diagnostics"@ || t == "diag"@) ==> a == ActionView::Diagnostics
            &&& a matches ActionView::OpenWith { default, .. } ==> default == (word_and_rest(t).0
                == "default-app"@)
        }),
{
    reveal_strlit("q");
    reveal_strlit("help");
    reveal_strlit("h");
    reveal_strlit("terminal");
    reveal_strlit("t");
    reveal_strlit("refresh");
    reveal_strlit("diagnostics");
    reveal_strlit("diag");
}

} // verus!

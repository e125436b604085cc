//! The file-operation prompt: naming a new folder or file, renaming, and
//! confirming moves to the Trash and permanent deletion. The session decides
//! what each key and each finished operation does; the file system work
//! itself is handed out as `Work` and comes back as a `Completion`.
use vstd::prelude::*;

use crate::entries::{
    duplicate_entries, duplicate_trash, FileEntry, FileEntryView, TrashEntry, TrashEntryView,
};
use crate::prompt::PromptInteraction;
use crate::text::{chars_of, decimal, push_decimal, push_str, string_of};

verus! {

// ------------------------------------------------------------------ messages

/// The confirmation for moving entries to the Trash.
pub open spec fn deletion_confirmation_spec(entries: Seq<FileEntryView>) -> Seq<char> {
    if entries.len() == 1 {
        "Move \u{201c}"@ + entries[0].name + "\u{201d} to Trash?"@
    } else {
        "Move "@ + decimal(entries.len()) + " selected items to Trash?"@
    }
}

pub fn deletion_confirmation(entries: &[FileEntry]) -> (r: String)
    ensures
        r@ == deletion_confirmation_spec(entries.deep_view()),
{
    let mut v: Vec<char>;
    if entries.len() == 1 {
        v = chars_of("Move \u{201c}");
        push_str(&mut v, entries[0].name.as_str());
        push_str(&mut v, "\u{201d} to Trash?");
    } else {
        v = chars_of("Move ");
        push_decimal(&mut v, entries.len());
        push_str(&mut v, " selected items to Trash?");
    }
    assert(v@ =~= deletion_confirmation_spec(entries.deep_view()));
    string_of(v.as_slice())
}

/// The offer to delete permanently what could not be moved to the Trash.
pub open spec fn permanent_delete_confirmation_spec(count: nat) -> Seq<char> {
    if count == 1 {
        "Permanently delete this item instead?"@
    } else {
        "Permanently delete these "@ + decimal(count) + " items instead?"@
    }
}

pub fn permanent_delete_confirmation(count: usize) -> (r: String)
    ensures
        r@ == permanent_delete_confirmation_spec(count as nat),
{
    if count == 1 {
        return String::from_str("Permanently delete this item instead?");
    }
    let mut v = chars_of("Permanently delete these ");
    push_decimal(&mut v, count);
    push_str(&mut v, " items instead?");
    string_of(v.as_slice())
}

/// `NAME: REASON` for each failure, one per line.
pub open spec fn failure_detail_spec(failures: Seq<(FileEntryView, Seq<char>)>) -> Seq<char>
    decreases failures.len(),
{
    if failures.len() == 0 {
        Seq::empty()
    } else if failures.len() == 1 {
        failures[0].0.name + ": "@ + failures[0].1
    } else {
        failure_detail_spec(failures.drop_last()) + "\n"@ + failures.last().0.name + ": "@
            + failures.last().1
    }
}

pub fn failure_detail(failures: &[(FileEntry, String)]) -> (r: String)
    ensures
        r@ == failure_detail_spec(failures.deep_view()),
{
    let ghost all = failures.deep_view();
    let mut v: Vec<char> = Vec::new();
    let mut i: usize = 0;
    while i < failures.len()
        invariant
            i <= failures@.len(),
            all == failures.deep_view(),
            v@ == failure_detail_spec(all.take(i as int)),
        decreases failures@.len() - i,
    {
        let ghost before = v@;
        assert(all.take(i + 1).drop_last() =~= all.take(i as int));
        assert(all.take(i + 1).last() == all[i as int]);
        if i > 0 {
            push_str(&mut v, "\n");
        }
        push_str(&mut v, failures[i].0.name.as_str());
        push_str(&mut v, ": ");
        push_str(&mut v, failures[i].1.as_str());
        i = i + 1;
        proof {
            if i == 1 {
                assert(all.take(1)[0] == all[0]);
                assert(v@ =~= all[0].0.name + ": "@ + all[0].1);
            } else {
                assert(v@ =~= before + "\n"@ + all[i - 1].0.name + ": "@ + all[i - 1].1);
            }
        }
    }
    assert(all.take(i as int) =~= all);
    string_of(v.as_slice())
}

// ------------------------------------------------------------------ work and completions

/// Which name prompt is open.
#[derive(Clone, Debug)]
pub enum NameOperation {
    NewFolder,
    NewFile,
    Rename(FileEntry),
}

pub enum NameOperationView {
    NewFolder,
    NewFile,
    Rename(FileEntryView),
}

impl DeepView for NameOperation {
    type V = NameOperationView;

    open spec fn deep_view(&self) -> NameOperationView {
        match self {
            NameOperation::NewFolder => NameOperationView::NewFolder,
            NameOperation::NewFile => NameOperationView::NewFile,
            NameOperation::Rename(e) => NameOperationView::Rename(e.deep_view()),
        }
    }
}

/// File-system work that the session asks for.
#[derive(Clone, Debug)]
pub enum Work {
    Name { current: String, operation: NameOperation, value: String },
    PermanentDelete(Vec<FileEntry>),
    TrashDelete(Vec<TrashEntry>),
}

pub enum WorkView {
    Name { current: Seq<char>, operation: NameOperationView, value: Seq<char> },
    PermanentDelete(Seq<FileEntryView>),
    TrashDelete(Seq<TrashEntryView>),
}

impl DeepView for Work {
    type V = WorkView;

    open spec fn deep_view(&self) -> WorkView {
        match self {
            Work::Name { current, operation, value } => WorkView::Name {
                current: current@,
                operation: operation.deep_view(),
                value: value@,
            },
            Work::PermanentDelete(es) => WorkView::PermanentDelete(es.deep_view()),
            Work::TrashDelete(es) => WorkView::TrashDelete(es.deep_view()),
        }
    }
}

/// What the confirm key asks for: work to run, or entries to move to Trash.
pub enum Confirmation {
    Work(Work),
    Trash(Vec<FileEntry>),
}

/// Which naming operation finished.
#[derive(Clone, Debug)]
pub enum NameKind {
    Rename { source: String },
    NewFolder,
    NewFile,
}

pub enum NameKindView {
    Rename { source: Seq<char> },
    NewFolder,
    NewFile,
}

impl DeepView for NameKind {
    type V = NameKindView;

    open spec fn deep_view(&self) -> NameKindView {
        match self {
            NameKind::Rename { source } => NameKindView::Rename { source: source@ },
            NameKind::NewFolder => NameKindView::NewFolder,
            NameKind::NewFile => NameKindView::NewFile,
        }
    }
}

/// What deleting Trash items permanently achieved.
#[derive(Clone, Debug)]
pub struct DeleteReport {
    pub deleted: usize,
    pub failures: Vec<(FileEntry, String)>,
}

/// A finished piece of work.
#[derive(Debug)]
pub enum CompletionKind {
    Name { kind: NameKind, result: Result<String, String> },
    PermanentDelete(Vec<(FileEntry, String)>),
    TrashDelete(DeleteReport),
}

pub enum CompletionKindView {
    Name { kind: NameKindView, result: Result<Seq<char>, Seq<char>> },
    PermanentDelete(Seq<(FileEntryView, Seq<char>)>),
    TrashDelete { deleted: nat, failures: Seq<(FileEntryView, Seq<char>)> },
}

impl DeepView for CompletionKind {
    type V = CompletionKindView;

    open spec fn deep_view(&self) -> CompletionKindView {
        match self {
            CompletionKind::Name { kind, result } => CompletionKindView::Name {
                kind: kind.deep_view(),
                result: match result {
                    Ok(p) => Ok(p@),
                    Err(e) => Err(e@),
                },
            },
            CompletionKind::PermanentDelete(f) => CompletionKindView::PermanentDelete(
                f.deep_view(),
            ),
            CompletionKind::TrashDelete(r) => CompletionKindView::TrashDelete {
                deleted: r.deleted as nat,
                failures: r.failures.deep_view(),
            },
        }
    }
}

/// What the undo journal should record for a finished operation.
#[derive(Clone, Debug, PartialEq, Eq)]
pub enum JournalRecord {
    Rename { source: String, destination: String },
    NewFolder(String),
    NewFile(String),
}

pub enum JournalView {
    Rename { source: Seq<char>, destination: Seq<char> },
    NewFolder(Seq<char>),
    NewFile(Seq<char>),
}

impl DeepView for JournalRecord {
    type V = JournalView;

    open spec fn deep_view(&self) -> JournalView {
        match self {
            JournalRecord::Rename { source, destination } => JournalView::Rename {
                source: source@,
                destination: destination@,
            },
            JournalRecord::NewFolder(p) => JournalView::NewFolder(p@),
            JournalRecord::NewFile(p) => JournalView::NewFile(p@),
        }
    }
}

/// Successful renames and creations are recorded; nothing else is.
pub open spec fn journal_spec(c: CompletionKindView) -> Option<JournalView> {
    match c {
        CompletionKindView::Name { kind, result } => match result {
            Ok(path) => match kind {
                NameKindView::Rename { source } => Some(
                    JournalView::Rename { source, destination: path },
                ),
                NameKindView::NewFolder => Some(JournalView::NewFolder(path)),
                NameKindView::NewFile => Some(JournalView::NewFile(path)),
            },
            Err(_) => None,
        },
        _ => None,
    }
}

pub fn journal_action(completion: &CompletionKind) -> (r: Option<JournalRecord>)
    ensures
        r.deep_view() == journal_spec(completion.deep_view()),
{
    match completion {
        CompletionKind::Name { kind, result: Ok(path) } => match kind {
            NameKind::Rename { source } => Some(
                JournalRecord::Rename { source: source.clone(), destination: path.clone() },
            ),
            NameKind::NewFolder => Some(JournalRecord::NewFolder(path.clone())),
            NameKind::NewFile => Some(JournalRecord::NewFile(path.clone())),
        },
        _ => None,
    }
}

/// Status and detail after deleting Trash items: how many went and how
/// many failed, and the failures one per line.
pub open spec fn feedback_spec(c: CompletionKindView) -> (Option<Seq<char>>, Option<Seq<char>>) {
    match c {
        CompletionKindView::TrashDelete { deleted, failures } => (
            Some(
                "Permanently deleted "@ + decimal(deleted) + "  \u{2022}  "@ + decimal(
                    failures.len(),
                ) + " failed"@,
            ),
            if failures.len() == 0 {
                None
            } else {
                Some(failure_detail_spec(failures))
            },
        ),
        _ => (None, None),
    }
}

pub fn completion_feedback(completion: &CompletionKind) -> (r: (Option<String>, Option<String>))
    ensures
        (r.0.deep_view(), r.1.deep_view()) == feedback_spec(completion.deep_view()),
{
    match completion {
        CompletionKind::TrashDelete(report) => {
            let mut status = chars_of("Permanently deleted ");
            push_decimal(&mut status, report.deleted);
            push_str(&mut status, "  \u{2022}  ");
            push_decimal(&mut status, report.failures.len());
            push_str(&mut status, " failed");
            let detail = if report.failures.len() == 0 {
                None
            } else {
                Some(failure_detail(report.failures.as_slice()))
            };
            (Some(string_of(status.as_slice())), detail)
        },
        _ => (None, None),
    }
}

/// A finished piece of work together with what the journal should record.
pub struct Completion {
    pub kind: CompletionKind,
    pub journal_action: Option<JournalRecord>,
}

impl Completion {
    pub fn prepare(kind: CompletionKind) -> (r: Self)
        ensures
            r.kind.deep_view() == kind.deep_view(),
            r.journal_action.deep_view() == journal_spec(kind.deep_view()),
    {
        let journal_action = journal_action(&kind);
        Completion { kind, journal_action }
    }
}

/// Failures of a run over entries: each entry whose operation failed, with
/// the reason, in order.
pub open spec fn failures_of(
    entries: Seq<FileEntryView>,
    results: Seq<Result<(), Seq<char>>>,
) -> Seq<(FileEntryView, Seq<char>)>
    decreases entries.len(),
{
    if entries.len() == 0 {
        Seq::empty()
    } else {
        let rest = failures_of(entries.drop_last(), results.take(entries.len() - 1));
        match results[entries.len() - 1] {
            Ok(()) => rest,
            Err(e) => rest.push((entries.last(), e)),
        }
    }
}

pub open spec fn results_view(results: Seq<Result<(), String>>) -> Seq<Result<(), Seq<char>>> {
    results.map_values(
        |r: Result<(), String>|
            match r {
                Ok(()) => Ok(()),
                Err(e) => Err(e@),
            },
    )
}

/// Pairs each entry with the result of its operation and keeps the failures.
pub fn run_entries(entries: Vec<FileEntry>, results: Vec<Result<(), String>>) -> (r: Vec<
    (FileEntry, String),
>)
    requires
        entries@.len() == results@.len(),
    ensures
        r.deep_view() == failures_of(entries.deep_view(), results_view(results@)),
{
    let ghost es = entries.deep_view();
    let ghost rs = results_view(results@);
    let mut out: Vec<(FileEntry, String)> = Vec::new();
    let mut i: usize = 0;
    while i < entries.len()
        invariant
            i <= entries@.len(),
            entries@.len() == results@.len(),
            es == entries.deep_view(),
            rs == results_view(results@),
            out.deep_view() == failures_of(es.take(i as int), rs.take(i as int)),
        decreases entries@.len() - i,
    {
        assert(es.take(i + 1).drop_last() =~= es.take(i as int));
        assert(rs.take(i + 1).take(i as int) =~= rs.take(i as int));
        assert(es.take(i + 1).last() == es[i as int]);
        assert(rs.take(i + 1)[i as int] == rs[i as int]);
        match &results[i] {
            Ok(()) => {},
            Err(e) => {
                let ghost before = out.deep_view();
                out.push((entries[i].duplicate(), e.clone()));
                assert(out.deep_view() =~= before.push((es[i as int], e@)));
            },
        }
        i = i + 1;
    }
    assert(es.take(i as int) =~= es);
    assert(rs.take(i as int) =~= rs);
    out
}

// ------------------------------------------------------------------ session

/// What the prompt is doing.
#[derive(Clone, Debug)]
pub enum State {
    Idle,
    Rename { entry: FileEntry, value: String, error: String },
    NewFolder { value: String, error: String },
    NewFile { value: String, error: String },
    Trash { entries: Vec<FileEntry>, message: String },
    PermanentDelete { entries: Vec<FileEntry>, message: String, detail: String },
    TrashDelete { entries: Vec<TrashEntry>, message: String, detail: String },
    Error { message: String },
    Warning { message: String },
}

pub enum StateView {
    Idle,
    Rename { entry: FileEntryView, value: Seq<char>, error: Seq<char> },
    NewFolder { value: Seq<char>, error: Seq<char> },
    NewFile { value: Seq<char>, error: Seq<char> },
    Trash { entries: Seq<FileEntryView>, message: Seq<char> },
    PermanentDelete { entries: Seq<FileEntryView>, message: Seq<char>, detail: Seq<char> },
    TrashDelete { entries: Seq<TrashEntryView>, message: Seq<char>, detail: Seq<char> },
    Error { message: Seq<char> },
    Warning { message: Seq<char> },
}

impl DeepView for State {
    type V = StateView;

    open spec fn deep_view(&self) -> StateView {
        match self {
            State::Idle => StateView::Idle,
            State::Rename { entry, value, error } => StateView::Rename {
                entry: entry.deep_view(),
                value: value@,
                error: error@,
            },
            State::NewFolder { value, error } => StateView::NewFolder {
                value: value@,
                error: error@,
            },
            State::NewFile { value, error } => StateView::NewFile { value: value@, error: error@ },
            State::Trash { entries, message } => StateView::Trash {
                entries: entries.deep_view(),
                message: message@,
            },
            State::PermanentDelete { entries, message, detail } => StateView::PermanentDelete {
                entries: entries.deep_view(),
                message: message@,
                detail: detail@,
            },
            State::TrashDelete { entries, message, detail } => StateView::TrashDelete {
                entries: entries.deep_view(),
                message: message@,
                detail: detail@,
            },
            State::Error { message } => StateView::Error { message: message@ },
            State::Warning { message } => StateView::Warning { message: message@ },
        }
    }
}

/// What the prompt shows.
#[derive(Clone, Copy, Debug)]
pub enum PromptView<'a> {
    Idle,
    Rename { value: &'a str, error: &'a str },
    NewFolder { value: &'a str, error: &'a str },
    NewFile { value: &'a str, error: &'a str },
    Trash { message: &'a str },
    PermanentDelete { message: &'a str, detail: &'a str },
    Error { message: &'a str },
    Warning { message: &'a str },
}

pub enum ShownView {
    Idle,
    Rename { value: Seq<char>, error: Seq<char> },
    NewFolder { value: Seq<char>, error: Seq<char> },
    NewFile { value: Seq<char>, error: Seq<char> },
    Trash { message: Seq<char> },
    PermanentDelete { message: Seq<char>, detail: Seq<char> },
    Error { message: Seq<char> },
    Warning { message: Seq<char> },
}

pub open spec fn view_spec(s: StateView) -> ShownView {
    match s {
        StateView::Idle => ShownView::Idle,
        StateView::Rename { value, error, .. } => ShownView::Rename { value, error },
        StateView::NewFolder { value, error } => ShownView::NewFolder { value, error },
        StateView::NewFile { value, error } => ShownView::NewFile { value, error },
        StateView::Trash { message, .. } => ShownView::Trash { message },
        StateView::PermanentDelete { message, detail, .. } => ShownView::PermanentDelete {
            message,
            detail,
        },
        StateView::TrashDelete { message, detail, .. } => ShownView::PermanentDelete {
            message,
            detail,
        },
        StateView::Error { message } => ShownView::Error { message },
        StateView::Warning { message } => ShownView::Warning { message },
    }
}

pub open spec fn shown(v: PromptView) -> ShownView {
    match v {
        PromptView::Idle => ShownView::Idle,
        PromptView::Rename { value, error } => ShownView::Rename { value: value@, error: error@ },
        PromptView::NewFolder { value, error } => ShownView::NewFolder { value: value@, error: error@ },
        PromptView::NewFile { value, error } => ShownView::NewFile { value: value@, error: error@ },
        PromptView::Trash { message } => ShownView::Trash { message: message@ },
        PromptView::PermanentDelete { message, detail } => ShownView::PermanentDelete {
            message: message@,
            detail: detail@,
        },
        PromptView::Error { message } => ShownView::Error { message: message@ },
        PromptView::Warning { message } => ShownView::Warning { message: message@ },
    }
}

pub open spec fn interaction_spec(s: StateView) -> PromptInteraction {
    match s {
        StateView::NewFolder { .. } | StateView::NewFile { .. } => PromptInteraction::Input,
        StateView::Trash { .. } | StateView::PermanentDelete { .. } | StateView::TrashDelete {
            ..
        } => PromptInteraction::Confirmation,
        StateView::Error { .. } | StateView::Warning { .. } => PromptInteraction::Acknowledgement,
        StateView::Idle | StateView::Rename { .. } => PromptInteraction::Inactive,
    }
}

pub open spec fn detail_spec(s: StateView) -> Option<Seq<char>> {
    match s {
        StateView::PermanentDelete { detail, .. } => Some(detail),
        StateView::TrashDelete { detail, .. } => Some(detail),
        StateView::Error { message } => Some(message),
        StateView::Warning { message } => Some(message),
        _ => None,
    }
}

pub struct SessionView {
    pub state: StateView,
    pub busy: bool,
}

/// The state of the file-operation prompt, and whether its work is running.
#[derive(Clone, Debug)]
pub struct FileOperationSession {
    state: State,
    busy: bool,
}

impl DeepView for FileOperationSession {
    type V = SessionView;

    closed spec fn deep_view(&self) -> SessionView {
        SessionView { state: self.state.deep_view(), busy: self.busy }
    }
}

/// The message of a Trash-deletion confirmation.
pub open spec fn trash_delete_message(entries: Seq<TrashEntryView>, empty: bool) -> Seq<char> {
    if empty {
        "Empty Trash and permanently delete "@ + decimal(entries.len()) + " items?"@
    } else if entries.len() == 1 {
        "Permanently delete \u{201c}"@ + entries[0].file.name + "\u{201d} from Trash?"@
    } else {
        "Permanently delete "@ + decimal(entries.len()) + " selected Trash items?"@
    }
}

/// The prompt's name input after typing.
pub open spec fn change_name_spec(s: SessionView, value: Seq<char>) -> SessionView {
    if s.busy {
        s
    } else {
        match s.state {
            StateView::Rename { entry, .. } => SessionView {
                state: StateView::Rename { entry, value, error: Seq::empty() },
                ..s
            },
            StateView::NewFolder { .. } => SessionView {
                state: StateView::NewFolder { value, error: Seq::empty() },
                ..s
            },
            StateView::NewFile { .. } => SessionView {
                state: StateView::NewFile { value, error: Seq::empty() },
                ..s
            },
            _ => s,
        }
    }
}

/// The name being typed, if a name prompt is open.
pub open spec fn name_value(s: StateView) -> Option<Seq<char>> {
    match s {
        StateView::Rename { value, .. } => Some(value),
        StateView::NewFolder { value, .. } => Some(value),
        StateView::NewFile { value, .. } => Some(value),
        _ => None,
    }
}

/// The name prompt with its error replaced.
pub open spec fn with_name_error(s: StateView, error: Seq<char>) -> StateView {
    match s {
        StateView::Rename { entry, value, .. } => StateView::Rename { entry, value, error },
        StateView::NewFolder { value, .. } => StateView::NewFolder { value, error },
        StateView::NewFile { value, .. } => StateView::NewFile { value, error },
        _ => s,
    }
}

pub open spec fn name_operation_of(s: StateView) -> NameOperationView {
    match s {
        StateView::Rename { entry, .. } => NameOperationView::Rename(entry),
        StateView::NewFile { .. } => NameOperationView::NewFile,
        _ => NameOperationView::NewFolder,
    }
}

/// Submitting a name: with a name prompt open and idle, an invalid name (as
/// `validation` reports it) stays in the prompt with the reason; a valid one
/// becomes work and the session is busy.
pub open spec fn submit_name_spec(
    s: SessionView,
    current: Seq<char>,
    validation: Result<(), Seq<char>>,
) -> (SessionView, Option<WorkView>) {
    if s.busy || name_value(s.state) is None {
        (s, None)
    } else {
        match validation {
            Err(reason) => (SessionView { state: with_name_error(s.state, reason), ..s }, None),
            Ok(()) => (
                SessionView { busy: true, ..s },
                Some(
                    WorkView::Name {
                        current,
                        operation: name_operation_of(s.state),
                        value: name_value(s.state).unwrap(),
                    },
                ),
            ),
        }
    }
}

pub open spec fn work_view(w: Option<Work>) -> Option<WorkView> {
    match w {
        Some(w) => Some(w.deep_view()),
        None => None,
    }
}

pub enum ConfirmationView {
    Work(WorkView),
    Trash(Seq<FileEntryView>),
}

pub open spec fn confirmation_view(c: Option<Confirmation>) -> Option<ConfirmationView> {
    match c {
        Some(Confirmation::Work(w)) => Some(ConfirmationView::Work(w.deep_view())),
        Some(Confirmation::Trash(es)) => Some(ConfirmationView::Trash(es.deep_view())),
        None => None,
    }
}

/// The confirm key: a name prompt submits its name; a Trash confirmation
/// hands its entries over and closes; a permanent deletion becomes work;
/// an error or warning is dismissed.
pub open spec fn confirm_spec(
    s: SessionView,
    current: Seq<char>,
    validation: Result<(), Seq<char>>,
) -> (SessionView, Option<ConfirmationView>) {
    if s.busy {
        (s, None)
    } else {
        match s.state {
            StateView::NewFolder { .. } | StateView::NewFile { .. } => {
                let (n, w) = submit_name_spec(s, current, validation);
                (
                    n,
                    match w {
                        Some(w) => Some(ConfirmationView::Work(w)),
                        None => None,
                    },
                )
            },
            StateView::Trash { entries, .. } => (
                SessionView { state: StateView::Idle, ..s },
                Some(ConfirmationView::Trash(entries)),
            ),
            StateView::PermanentDelete { entries, .. } => (
                SessionView { busy: true, ..s },
                Some(ConfirmationView::Work(WorkView::PermanentDelete(entries))),
            ),
            StateView::TrashDelete { entries, .. } => (
                SessionView { busy: true, ..s },
                Some(ConfirmationView::Work(WorkView::TrashDelete(entries))),
            ),
            StateView::Error { .. } | StateView::Warning { .. } => (
                SessionView { state: StateView::Idle, ..s },
                None,
            ),
            _ => (s, None),
        }
    }
}

/// After moving to the Trash: nothing failed closes the prompt; otherwise
/// the failed entries are offered for permanent deletion.
pub open spec fn finish_trash_spec(
    s: SessionView,
    failures: Seq<(FileEntryView, Seq<char>)>,
) -> SessionView {
    if failures.len() == 0 {
        SessionView { state: StateView::Idle, busy: false }
    } else {
        SessionView {
            state: StateView::PermanentDelete {
                entries: failures.map_values(|f: (FileEntryView, Seq<char>)| f.0),
                message: permanent_delete_confirmation_spec(failures.len()),
                detail: failure_detail_spec(failures) + "\n\nThis cannot be undone."@,
            },
            busy: false,
        }
    }
}

/// What a finished operation means for the window.
pub struct CompletionEffects {
    pub status: Option<String>,
    pub detail: Option<String>,
    pub journal_action: Option<JournalRecord>,
    pub refresh: bool,
    pub select: Option<String>,
    pub renamed: bool,
}

pub struct EffectsView {
    pub status: Option<Seq<char>>,
    pub detail: Option<Seq<char>>,
    pub journal_action: Option<JournalView>,
    pub refresh: bool,
    pub select: Option<Seq<char>>,
    pub renamed: bool,
}

impl DeepView for CompletionEffects {
    type V = EffectsView;

    open spec fn deep_view(&self) -> EffectsView {
        EffectsView {
            status: self.status.deep_view(),
            detail: self.detail.deep_view(),
            journal_action: self.journal_action.deep_view(),
            refresh: self.refresh,
            select: self.select.deep_view(),
            renamed: self.renamed,
        }
    }
}

/// A finished operation: a created or renamed entry is selected after a
/// refresh; a naming failure returns to its prompt (or becomes an error);
/// deletion failures become an error; anything else refreshes.
pub open spec fn complete_spec(
    s: SessionView,
    kind: CompletionKindView,
    journal: Option<JournalView>,
) -> (SessionView, EffectsView) {
    let (status, detail) = feedback_spec(kind);
    let (state, refresh, select, renamed) = match kind {
        CompletionKindView::Name { kind: nk, result } => match result {
            Ok(path) => (StateView::Idle, true, Some(path), nk is Rename),
            Err(error) => (
                if name_value(s.state) is Some {
                    with_name_error(s.state, error)
                } else {
                    StateView::Error { message: error }
                },
                false,
                None,
                false,
            ),
        },
        CompletionKindView::PermanentDelete(failures) => if failures.len() == 0 {
            (StateView::Idle, true, None, false)
        } else {
            (StateView::Error { message: failure_detail_spec(failures) }, false, None, false)
        },
        CompletionKindView::TrashDelete { .. } => (StateView::Idle, true, None, false),
    };
    (
        SessionView { state, busy: false },
        EffectsView { status, detail, journal_action: journal, refresh, select, renamed },
    )
}

fn duplicate_failures(v: &Vec<(FileEntry, String)>) -> (r: Vec<FileEntry>)
    ensures
        r.deep_view() == v.deep_view().map_values(|f: (FileEntryView, Seq<char>)| f.0),
{
    let ghost all = v.deep_view().map_values(|f: (FileEntryView, Seq<char>)| f.0);
    let mut r: Vec<FileEntry> = Vec::new();
    let mut i: usize = 0;
    while i < v.len()
        invariant
            i <= v@.len(),
            r@.len() == i,
            all == v.deep_view().map_values(|f: (FileEntryView, Seq<char>)| f.0),
            r.deep_view() == all.take(i as int),
        decreases v@.len() - i,
    {
        let ghost old_r = r@;
        r.push(v[i].0.duplicate());
        proof {
            let rv = r.deep_view();
            let vv = all.take(i + 1);
            assert forall|k: int| 0 <= k < rv.len() implies rv[k] == vv[k] by {
                if k < i {
                    assert(r@[k] == old_r[k]);
                }
            }
            assert(rv =~= vv);
        }
        i = i + 1;
    }
    assert(all.take(i as int) =~= all);
    r
}

impl Default for FileOperationSession {
    fn default() -> (r: Self)
        ensures
            r.deep_view() == (SessionView { state: StateView::Idle, busy: false }),
    {
        FileOperationSession { state: State::Idle, busy: false }
    }
}

impl FileOperationSession {
    pub fn view(&self) -> (r: PromptView<'_>)
        ensures
            shown(r) == view_spec(self.deep_view().state),
    {
        match &self.state {
            State::Idle => PromptView::Idle,
            State::Rename { value, error, .. } => PromptView::Rename {
                value: value.as_str(),
                error: error.as_str(),
            },
            State::NewFolder { value, error } => PromptView::NewFolder {
                value: value.as_str(),
                error: error.as_str(),
            },
            State::NewFile { value, error } => PromptView::NewFile {
                value: value.as_str(),
                error: error.as_str(),
            },
            State::Trash { message, .. } => PromptView::Trash { message: message.as_str() },
            State::PermanentDelete { message, detail, .. } => PromptView::PermanentDelete {
                message: message.as_str(),
                detail: detail.as_str(),
            },
            State::TrashDelete { message, detail, .. } => PromptView::PermanentDelete {
                message: message.as_str(),
                detail: detail.as_str(),
            },
            State::Error { message } => PromptView::Error { message: message.as_str() },
            State::Warning { message } => PromptView::Warning { message: message.as_str() },
        }
    }

    pub fn is_busy(&self) -> (r: bool)
        ensures
            r == self.deep_view().busy,
    {
        self.busy
    }

    pub fn prompt_interaction(&self) -> (r: PromptInteraction)
        ensures
            r == interaction_spec(self.deep_view().state),
    {
        match self.state {
            State::NewFolder { .. } | State::NewFile { .. } => PromptInteraction::Input,
            State::Trash { .. } | State::PermanentDelete { .. } | State::TrashDelete { .. } => {
                PromptInteraction::Confirmation
            },
            State::Error { .. } | State::Warning { .. } => PromptInteraction::Acknowledgement,
            State::Idle | State::Rename { .. } => PromptInteraction::Inactive,
        }
    }

    pub fn prompt_active(&self) -> (r: bool)
        ensures
            r == interaction_spec(self.deep_view().state).spec_active(),
    {
        self.prompt_interaction().is_active()
    }

    pub fn expanded_detail(&self) -> (r: Option<&str>)
        ensures
            r.deep_view() == detail_spec(self.deep_view().state),
    {
        match &self.state {
            State::PermanentDelete { detail, .. } => Some(detail.as_str()),
            State::TrashDelete { detail, .. } => Some(detail.as_str()),
            State::Error { message } => Some(message.as_str()),
            State::Warning { message } => Some(message.as_str()),
            _ => None,
        }
    }

    /// Opens the rename prompt with the entry's name.
    pub fn begin_rename(&mut self, entry: FileEntry)
        ensures
            final(self).deep_view() == (SessionView {
                state: StateView::Rename {
                    entry: entry.deep_view(),
                    value: entry.name@,
                    error: Seq::empty(),
                },
                busy: false,
            }),
    {
        self.busy = false;
        let value = entry.name.clone();
        self.state = State::Rename { value, entry, error: String::new() };
    }

    pub fn begin_new_folder(&mut self)
        ensures
            final(self).deep_view() == (SessionView {
                state: StateView::NewFolder { value: Seq::empty(), error: Seq::empty() },
                busy: false,
            }),
    {
        self.busy = false;
        self.state = State::NewFolder { value: String::new(), error: String::new() };
    }

    pub fn begin_new_file(&mut self)
        ensures
            final(self).deep_view() == (SessionView {
                state: StateView::NewFile { value: Seq::empty(), error: Seq::empty() },
                busy: false,
            }),
    {
        self.busy = false;
        self.state = State::NewFile { value: String::new(), error: String::new() };
    }

    /// Asks to confirm moving entries to the Trash; nothing to move asks
    /// nothing.
    pub fn begin_trash(&mut self, entries: Vec<FileEntry>) -> (r: bool)
        ensures
            r == (entries@.len() > 0),
            !r ==> final(self).deep_view() == old(self).deep_view(),
            r ==> final(self).deep_view() == (SessionView {
                state: StateView::Trash {
                    entries: entries.deep_view(),
                    message: deletion_confirmation_spec(entries.deep_view()),
                },
                busy: false,
            }),
    {
        if entries.len() == 0 {
            return false;
        }
        let message = deletion_confirmation(entries.as_slice());
        self.busy = false;
        self.state = State::Trash { entries, message };
        true
    }

    /// Asks to confirm deleting Trash items permanently (all of them when
    /// emptying the Trash).
    pub fn begin_trash_delete(&mut self, entries: Vec<TrashEntry>, empty: bool) -> (r: bool)
        ensures
            r == (entries@.len() > 0),
            !r ==> final(self).deep_view() == old(self).deep_view(),
            r ==> final(self).deep_view() == (SessionView {
                state: StateView::TrashDelete {
                    entries: entries.deep_view(),
                    message: trash_delete_message(entries.deep_view(), empty),
                    detail: "This cannot be undone."@,
                },
                busy: false,
            }),
    {
        if entries.len() == 0 {
            return false;
        }
        let mut v: Vec<char>;
        if empty {
            v = chars_of("Empty Trash and permanently delete ");
            push_decimal(&mut v, entries.len());
            push_str(&mut v, " items?");
        } else if entries.len() == 1 {
            v = chars_of("Permanently delete \u{201c}");
            push_str(&mut v, entries[0].file.name.as_str());
            push_str(&mut v, "\u{201d} from Trash?");
        } else {
            v = chars_of("Permanently delete ");
            push_decimal(&mut v, entries.len());
            push_str(&mut v, " selected Trash items?");
        }
        assert(v@ =~= trash_delete_message(entries.deep_view(), empty));
        self.busy = false;
        self.state = State::TrashDelete {
            entries,
            message: string_of(v.as_slice()),
            detail: String::from_str("This cannot be undone."),
        };
        true
    }

    /// Typing in a name prompt replaces the name and clears its error.
    pub fn change_name(&mut self, value: String)
        ensures
            final(self).deep_view() == change_name_spec(old(self).deep_view(), value@),
    {
        if self.busy {
            return;
        }
        match &self.state {
            State::Rename { entry, .. } => {
                let entry = entry.duplicate();
                self.state = State::Rename { entry, value, error: String::new() };
            },
            State::NewFolder { .. } => {
                self.state = State::NewFolder { value, error: String::new() };
            },
            State::NewFile { .. } => {
                self.state = State::NewFile { value, error: String::new() };
            },
            _ => {},
        }
    }

    /// The name being typed, if a name prompt is open.
    pub fn name(&self) -> (r: Option<&str>)
        ensures
            r.deep_view() == name_value(self.deep_view().state),
    {
        match &self.state {
            State::Rename { value, .. } => Some(value.as_str()),
            State::NewFolder { value, .. } => Some(value.as_str()),
            State::NewFile { value, .. } => Some(value.as_str()),
            _ => None,
        }
    }

    /// Submits the typed name, given what validating it reported.
    pub fn submit_name(&mut self, current: String, validation: Result<(), String>) -> (r: Option<
        Work,
    >)
        ensures
            (final(self).deep_view(), work_view(r)) == submit_name_spec(
                old(self).deep_view(),
                current@,
                match validation {
                    Ok(()) => Ok(()),
                    Err(e) => Err(e@),
                },
            ),
    {
        if self.busy {
            return None;
        }
        let (operation, value) = match &self.state {
            State::Rename { entry, value, .. } => (
                NameOperation::Rename(entry.duplicate()),
                value.clone(),
            ),
            State::NewFolder { value, .. } => (NameOperation::NewFolder, value.clone()),
            State::NewFile { value, .. } => (NameOperation::NewFile, value.clone()),
            _ => {
                return None;
            },
        };
        match validation {
            Err(reason) => {
                match &self.state {
                    State::Rename { entry, value, .. } => {
                        let entry = entry.duplicate();
                        let value = value.clone();
                        self.state = State::Rename { entry, value, error: reason };
                    },
                    State::NewFolder { value, .. } => {
                        let value = value.clone();
                        self.state = State::NewFolder { value, error: reason };
                    },
                    State::NewFile { value, .. } => {
                        let value = value.clone();
                        self.state = State::NewFile { value, error: reason };
                    },
                    _ => {},
                }
                None
            },
            Ok(()) => {
                self.busy = true;
                Some(Work::Name { current, operation, value })
            },
        }
    }

    /// The confirm key (Enter or `y`).
    pub fn confirm(&mut self, current: String, validation: Result<(), String>) -> (r: Option<
        Confirmation,
    >)
        ensures
            (final(self).deep_view(), confirmation_view(r)) == confirm_spec(
                old(self).deep_view(),
                current@,
                match validation {
                    Ok(()) => Ok(()),
                    Err(e) => Err(e@),
                },
            ),
    {
        if self.busy {
            return None;
        }
        match &self.state {
            State::NewFolder { .. } | State::NewFile { .. } => {
                match self.submit_name(current, validation) {
                    Some(w) => Some(Confirmation::Work(w)),
                    None => None,
                }
            },
            State::Trash { entries, .. } => {
                let entries = duplicate_entries(entries);
                self.state = State::Idle;
                Some(Confirmation::Trash(entries))
            },
            State::PermanentDelete { entries, .. } => {
                let entries = duplicate_entries(entries);
                self.busy = true;
                Some(Confirmation::Work(Work::PermanentDelete(entries)))
            },
            State::TrashDelete { entries, .. } => {
                let entries = duplicate_trash(entries);
                self.busy = true;
                Some(Confirmation::Work(Work::TrashDelete(entries)))
            },
            State::Error { .. } | State::Warning { .. } => {
                self.state = State::Idle;
                None
            },
            State::Idle | State::Rename { .. } => None,
        }
    }

    /// Escape: closes the prompt unless its work is running.
    pub fn cancel(&mut self) -> (r: bool)
        ensures
            r == !old(self).deep_view().busy,
            !r ==> final(self).deep_view() == old(self).deep_view(),
            r ==> final(self).deep_view() == (SessionView { state: StateView::Idle, busy: false }),
    {
        if self.busy {
            return false;
        }
        self.state = State::Idle;
        true
    }

    pub fn show_error(&mut self, message: String)
        ensures
            final(self).deep_view() == (SessionView {
                state: StateView::Error { message: message@ },
                busy: false,
            }),
    {
        self.busy = false;
        self.state = State::Error { message };
    }

    pub fn show_warning(&mut self, message: String)
        ensures
            final(self).deep_view() == (SessionView {
                state: StateView::Warning { message: message@ },
                busy: false,
            }),
    {
        self.busy = false;
        self.state = State::Warning { message };
    }

    /// Moving to the Trash finished; `failures` could not be moved.
    pub fn finish_trash_transfer(&mut self, failures: Vec<(FileEntry, String)>)
        ensures
            final(self).deep_view() == finish_trash_spec(old(self).deep_view(), failures.deep_view()),
    {
        self.busy = false;
        if failures.len() == 0 {
            self.state = State::Idle;
            return;
        }
        let detail = failure_detail(failures.as_slice());
        let entries = duplicate_failures(&failures);
        let mut d = chars_of(detail.as_str());
        push_str(&mut d, "\n\nThis cannot be undone.");
        let message = permanent_delete_confirmation(failures.len());
        self.state = State::PermanentDelete { message, detail: string_of(d.as_slice()), entries };
    }

    /// Interprets a finished piece of work.
    pub fn complete(&mut self, completion: Completion) -> (r: CompletionEffects)
        ensures
            (final(self).deep_view(), r.deep_view()) == complete_spec(
                old(self).deep_view(),
                completion.kind.deep_view(),
                completion.journal_action.deep_view(),
            ),
    {
        self.busy = false;
        let Completion { kind, journal_action } = completion;
        let (status, detail) = completion_feedback(&kind);
        let (refresh, select, renamed) = match kind {
            CompletionKind::Name { kind: name_kind, result } => match result {
                Ok(path) => {
                    let renamed = match name_kind {
                        NameKind::Rename { .. } => true,
                        _ => false,
                    };
                    self.state = State::Idle;
                    (true, Some(path), renamed)
                },
                Err(error) => {
                    match &self.state {
                        State::Rename { entry, value, .. } => {
                            let entry = entry.duplicate();
                            let value = value.clone();
                            self.state = State::Rename { entry, value, error };
                        },
                        State::NewFolder { value, .. } => {
                            let value = value.clone();
                            self.state = State::NewFolder { value, error };
                        },
                        State::NewFile { value, .. } => {
                            let value = value.clone();
                            self.state = State::NewFile { value, error };
                        },
                        _ => {
                            self.state = State::Error { message: error };
                        },
                    }
                    (false, None, false)
                },
            },
            CompletionKind::PermanentDelete(failures) => {
                if failures.len() == 0 {
                    self.state = State::Idle;
                    (true, None, false)
                } else {
                    self.state = State::Error { message: failure_detail(failures.as_slice()) };
                    (false, None, false)
                }
            },
            CompletionKind::TrashDelete(_) => {
                self.state = State::Idle;
                (true, None, false)
            },
        };
        CompletionEffects { status, detail, journal_action, refresh, select, renamed }
    }
}

/// The journal keeps what a successful naming made: a created file as a new
/// file, a created folder as a new folder, and a rename as a rename from its
/// source, each at the path the operation reported. Failed namings and
/// deletions are not journaled.
pub proof fn lemma_journal_keeps_the_kind(c: CompletionKindView)
    ensures
        c matches CompletionKindView::Name { kind, result: Ok(path) } ==> {
            &&& journal_spec(c) is Some
            &&& (kind is NewFile <==> journal_spec(c) == Some(JournalView::NewFile(path)))
            &&& (kind is NewFolder <==> journal_spec(c) == Some(JournalView::NewFolder(path)))
            &&& (kind matches NameKindView::Rename { source } ==> journal_spec(c) == Some(
                JournalView::Rename { source, destination: path },
            ))
            &&& (journal_spec(c) matches Some(JournalView::Rename { .. }) ==> kind is Rename)
        },
        !(c matches CompletionKindView::Name { result: Ok(_), .. }) ==> journal_spec(c) is None,
{
}

} // verus!

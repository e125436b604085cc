//! The navigation session: one pending request at a time, folder history
//! with Back and Forward, Recent and Trash as overlays, and completions that
//! commit only when they answer the latest request.
use vstd::prelude::*;

use crate::entries::{
    duplicate_entries, duplicate_load, duplicate_strings, duplicate_trash, FileEntry,
    FileEntryView, LoadRequest, LoadView, OpenedDirectory, OpenedView, TrashEntry, TrashEntryView,
};
use crate::paths::{
    contains_same_path, directory_exists, has_path, is_ancestor_or_self, nearest_existing_ancestor,
    parent_of, path_parent, same_path, same_path_spec,
};
use crate::grid::GridInteraction;
use crate::text::{concat, decimal, push_decimal, push_str, string_of};

verus! {

// ---------------------------------------------------------------- requests

/// How a folder request relates to the history.
#[derive(Clone, Debug, PartialEq, Eq)]
pub enum Kind {
    Forward { remember: bool },
    Back { expected: String },
    HistoryForward { expected: String },
    Refresh,
}

/// How a folder request relates to the history.
pub enum KindView {
    Forward { remember: bool },
    Back { expected: Seq<char> },
    HistoryForward { expected: Seq<char> },
    Refresh,
}

impl DeepView for Kind {
    type V = KindView;

    open spec fn deep_view(&self) -> KindView {
        match self {
            Kind::Forward { remember } => KindView::Forward { remember: *remember },
            Kind::Back { expected } => KindView::Back { expected: expected@ },
            Kind::HistoryForward { expected } => KindView::HistoryForward { expected: expected@ },
            Kind::Refresh => KindView::Refresh,
        }
    }
}

impl Kind {
    pub fn duplicate(&self) -> (r: Self)
        ensures
            r.deep_view() == self.deep_view(),
    {
        match self {
            Kind::Forward { remember } => Kind::Forward { remember: *remember },
            Kind::Back { expected } => Kind::Back { expected: expected.clone() },
            Kind::HistoryForward { expected } => Kind::HistoryForward { expected: expected.clone() },
            Kind::Refresh => Kind::Refresh,
        }
    }
}

/// Which view is on screen.
#[derive(Clone, Copy, Debug, PartialEq, Eq, Structural)]
pub enum DisplayedLocation {
    Folder,
    Recent,
    Trash,
}

/// A navigation the user chose.
#[derive(Clone, Debug, PartialEq, Eq)]
pub enum Transition {
    Open { requested: String, remember: bool, select: Option<String> },
    Hover { requested: String },
    Reveal { requested: String, selected: Vec<String> },
    Sidebar { requested: String, load: Option<LoadRequest> },
    Parent,
    Back,
    HistoryForward,
}

pub enum TransitionView {
    Open { requested: Seq<char>, remember: bool, select: Option<Seq<char>> },
    Hover { requested: Seq<char> },
    Reveal { requested: Seq<char>, selected: Seq<Seq<char>> },
    Sidebar { requested: Seq<char>, load: Option<LoadView> },
    Parent,
    Back,
    HistoryForward,
}

impl DeepView for Transition {
    type V = TransitionView;

    open spec fn deep_view(&self) -> TransitionView {
        match self {
            Transition::Open { requested, remember, select } => TransitionView::Open {
                requested: requested@,
                remember: *remember,
                select: select.deep_view(),
            },
            Transition::Hover { requested } => TransitionView::Hover { requested: requested@ },
            Transition::Reveal { requested, selected } => TransitionView::Reveal {
                requested: requested@,
                selected: selected.deep_view(),
            },
            Transition::Sidebar { requested, load } => TransitionView::Sidebar {
                requested: requested@,
                load: load.deep_view(),
            },
            Transition::Parent => TransitionView::Parent,
            Transition::Back => TransitionView::Back,
            Transition::HistoryForward => TransitionView::HistoryForward,
        }
    }
}

impl Transition {
    /// Only hovering (spring-loaded folders) keeps the pointer interaction.
    pub fn preserves_pointer_interaction(&self) -> (r: bool)
        ensures
            r == (self is Hover),
    {
        matches!(self, Transition::Hover { .. })
    }
}

/// What a request opens.
#[derive(Clone, Debug, PartialEq, Eq)]
pub enum Target {
    Folder { requested: String, kind: Kind },
    Recent,
    Trash,
}

pub enum TargetView {
    Folder { requested: Seq<char>, kind: KindView },
    Recent,
    Trash,
}

impl DeepView for Target {
    type V = TargetView;

    open spec fn deep_view(&self) -> TargetView {
        match self {
            Target::Folder { requested, kind } => TargetView::Folder {
                requested: requested@,
                kind: kind.deep_view(),
            },
            Target::Recent => TargetView::Recent,
            Target::Trash => TargetView::Trash,
        }
    }
}

impl Target {
    pub fn duplicate(&self) -> (r: Self)
        ensures
            r.deep_view() == self.deep_view(),
    {
        match self {
            Target::Folder { requested, kind } => Target::Folder {
                requested: requested.clone(),
                kind: kind.duplicate(),
            },
            Target::Recent => Target::Recent,
            Target::Trash => Target::Trash,
        }
    }
}

/// One navigation request, identified by a number unique within the session.
#[derive(Clone, Debug, PartialEq, Eq)]
pub struct Request {
    id: u64,
    target: Target,
    select: Vec<String>,
    tree_load: Option<LoadRequest>,
}

pub struct RequestView {
    pub id: u64,
    pub target: TargetView,
    pub select: Seq<Seq<char>>,
    pub tree_load: Option<LoadView>,
}

impl DeepView for Request {
    type V = RequestView;

    closed spec fn deep_view(&self) -> RequestView {
        RequestView {
            id: self.id,
            target: self.target.deep_view(),
            select: self.select.deep_view(),
            tree_load: self.tree_load.deep_view(),
        }
    }
}

pub open spec fn request_location(r: RequestView) -> DisplayedLocation {
    match r.target {
        TargetView::Folder { .. } => DisplayedLocation::Folder,
        TargetView::Recent => DisplayedLocation::Recent,
        TargetView::Trash => DisplayedLocation::Trash,
    }
}

pub open spec fn request_path(r: RequestView) -> Option<Seq<char>> {
    match r.target {
        TargetView::Folder { requested, .. } => Some(requested),
        _ => None,
    }
}

impl Request {
    pub fn duplicate(&self) -> (r: Self)
        ensures
            r.deep_view() == self.deep_view(),
    {
        Request {
            id: self.id,
            target: self.target.duplicate(),
            select: duplicate_strings(&self.select),
            tree_load: duplicate_load(&self.tree_load),
        }
    }

    pub fn tree_load(&self) -> (r: Option<LoadRequest>)
        ensures
            r.deep_view() == self.deep_view().tree_load,
    {
        duplicate_load(&self.tree_load)
    }

    pub fn location(&self) -> (r: DisplayedLocation)
        ensures
            r == request_location(self.deep_view()),
    {
        match self.target {
            Target::Folder { .. } => DisplayedLocation::Folder,
            Target::Recent => DisplayedLocation::Recent,
            Target::Trash => DisplayedLocation::Trash,
        }
    }

    /// The folder this request opens, if it opens a folder.
    pub fn requested(&self) -> (r: Option<&str>)
        ensures
            r matches Some(p) ==> request_path(self.deep_view()) == Some(p@),
            r is None ==> request_path(self.deep_view()) is None,
    {
        match &self.target {
            Target::Folder { requested, .. } => Some(requested.as_str()),
            _ => None,
        }
    }

    pub fn selected_paths(&self) -> (r: &Vec<String>)
        ensures
            r.deep_view() == self.deep_view().select,
    {
        &self.select
    }
}

fn duplicate_request(r: &Option<Request>) -> (d: Option<Request>)
    ensures
        d.deep_view() == r.deep_view(),
{
    match r {
        Some(q) => Some(q.duplicate()),
        None => None,
    }
}

/// The effects of a navigation decision; callers run them without
/// rechecking policy.
#[derive(Clone, Debug, Default)]
pub struct Start {
    pub request: Option<Request>,
    pub cancelled: Option<Request>,
    pub reuse_tree: Option<LoadRequest>,
    pub reset_pointer: bool,
    pub cancel_search: bool,
}

pub struct StartView {
    pub request: Option<RequestView>,
    pub cancelled: Option<RequestView>,
    pub reuse_tree: Option<LoadView>,
    pub reset_pointer: bool,
    pub cancel_search: bool,
}

impl DeepView for Start {
    type V = StartView;

    open spec fn deep_view(&self) -> StartView {
        StartView {
            request: self.request.deep_view(),
            cancelled: self.cancelled.deep_view(),
            reuse_tree: self.reuse_tree.deep_view(),
            reset_pointer: self.reset_pointer,
            cancel_search: self.cancel_search,
        }
    }
}

pub open spec fn no_start() -> StartView {
    StartView {
        request: None,
        cancelled: None,
        reuse_tree: None,
        reset_pointer: false,
        cancel_search: false,
    }
}

fn empty_start() -> (r: Start)
    ensures
        r.deep_view() == no_start(),
{
    Start {
        request: None,
        cancelled: None,
        reuse_tree: None,
        reset_pointer: false,
        cancel_search: false,
    }
}

/// What the grid and the location bar show after a commit.
#[derive(Clone, Debug)]
pub struct Commit {
    selected: Vec<usize>,
    reset_scroll: bool,
    reveal_selection: bool,
    location: DisplayedLocation,
    location_input: String,
    status: String,
}

pub struct CommitView {
    pub selected: Seq<usize>,
    pub reset_scroll: bool,
    pub reveal_selection: bool,
    pub location: DisplayedLocation,
    pub location_input: Seq<char>,
    pub status: Seq<char>,
}

impl DeepView for Commit {
    type V = CommitView;

    closed spec fn deep_view(&self) -> CommitView {
        CommitView {
            selected: self.selected@,
            reset_scroll: self.reset_scroll,
            reveal_selection: self.reveal_selection,
            location: self.location,
            location_input: self.location_input@,
            status: self.status@,
        }
    }
}

impl Commit {
    pub fn location(&self) -> (r: DisplayedLocation)
        ensures
            r == self.deep_view().location,
    {
        self.location
    }

    pub fn location_input(&self) -> (r: &str)
        ensures
            r@ == self.deep_view().location_input,
    {
        self.location_input.as_str()
    }

    pub fn status(&self) -> (r: &str)
        ensures
            r@ == self.deep_view().status,
    {
        self.status.as_str()
    }

    pub fn reveal_selection(&self) -> (r: bool)
        ensures
            r == self.deep_view().reveal_selection,
    {
        self.reveal_selection
    }

    pub fn reset_scroll(&self) -> (r: bool)
        ensures
            r == self.deep_view().reset_scroll,
    {
        self.reset_scroll
    }

    /// Restores the selection in the grid: the committed indices that
    /// exist are selected and the first becomes active. (List mode and
    /// scrolling are pointer geometry, which the caller applies.)
    pub fn apply_grid(&self, grid: &mut GridInteraction, entry_count: usize)
        ensures
            final(grid)@.selection == self.deep_view().selected.to_set().filter(
                |i: usize| i < entry_count,
            ),
            final(grid)@.selected matches Some(m) ==> final(grid)@.selection.contains(m) && (
            forall|x: usize| final(grid)@.selection.contains(x) ==> m <= x),
            final(grid)@.selected is None ==> final(grid)@.selection.is_empty(),
            final(grid)@.visual_anchor is None,
            final(grid)@.selection_anchor == final(grid)@.selected,
            final(grid)@.context_menu == old(grid)@.context_menu,
    {
        grid.select_indices(self.selected.as_slice(), entry_count);
    }

    /// Display indices of the entries to select.
    pub fn selected(&self) -> (r: &Vec<usize>)
        ensures
            r@ == self.deep_view().selected,
    {
        &self.selected
    }
}

/// The answer to a completed request.
#[derive(Clone, Debug)]
pub enum Outcome {
    Ignored,
    Failed(String),
    Redirect { start: Box<Start>, notice: String },
    Committed(Commit),
}

pub enum OutcomeView {
    Ignored,
    Failed(Seq<char>),
    Redirect { start: StartView, notice: Seq<char> },
    Committed(CommitView),
}

impl DeepView for Outcome {
    type V = OutcomeView;

    open spec fn deep_view(&self) -> OutcomeView {
        match self {
            Outcome::Ignored => OutcomeView::Ignored,
            Outcome::Failed(e) => OutcomeView::Failed(e@),
            Outcome::Redirect { start, notice } => OutcomeView::Redirect {
                start: start.deep_view(),
                notice: notice@,
            },
            Outcome::Committed(c) => OutcomeView::Committed(c.deep_view()),
        }
    }
}

pub struct Completed {
    pub outcome: Outcome,
    pub tree_load: Option<LoadRequest>,
    pub refresh: bool,
}

pub struct CompletedView {
    pub outcome: OutcomeView,
    pub tree_load: Option<LoadView>,
    pub refresh: bool,
}

impl DeepView for Completed {
    type V = CompletedView;

    open spec fn deep_view(&self) -> CompletedView {
        CompletedView {
            outcome: self.outcome.deep_view(),
            tree_load: self.tree_load.deep_view(),
            refresh: self.refresh,
        }
    }
}

/// What a scan returned for a request.
pub enum Completion {
    Folder(Result<OpenedDirectory, String>),
    Recent(Result<Vec<FileEntry>, String>),
    Trash(Result<Vec<TrashEntry>, String>),
    Cancelled,
}

pub enum CompletionView {
    Folder(Result<OpenedView, Seq<char>>),
    Recent(Result<Seq<FileEntryView>, Seq<char>>),
    Trash(Result<Seq<TrashEntryView>, Seq<char>>),
    Cancelled,
}

impl DeepView for Completion {
    type V = CompletionView;

    open spec fn deep_view(&self) -> CompletionView {
        match self {
            Completion::Folder(Ok(o)) => CompletionView::Folder(Ok(o.deep_view())),
            Completion::Folder(Err(e)) => CompletionView::Folder(Err(e@)),
            Completion::Recent(Ok(v)) => CompletionView::Recent(Ok(v.deep_view())),
            Completion::Recent(Err(e)) => CompletionView::Recent(Err(e@)),
            Completion::Trash(Ok(v)) => CompletionView::Trash(Ok(v.deep_view())),
            Completion::Trash(Err(e)) => CompletionView::Trash(Err(e@)),
            Completion::Cancelled => CompletionView::Cancelled,
        }
    }
}

// ---------------------------------------------------------------- session

#[derive(Clone, Debug)]
struct Display {
    location: DisplayedLocation,
    entries: Vec<FileEntry>,
    child_folders: Vec<String>,
    trash_entries: Vec<TrashEntry>,
}

impl Display {
    fn duplicate(&self) -> (r: Self)
        ensures
            r.location == self.location,
            r.entries.deep_view() == self.entries.deep_view(),
            r.child_folders.deep_view() == self.child_folders.deep_view(),
            r.trash_entries.deep_view() == self.trash_entries.deep_view(),
    {
        Display {
            location: self.location,
            entries: duplicate_entries(&self.entries),
            child_folders: duplicate_strings(&self.child_folders),
            trash_entries: duplicate_trash(&self.trash_entries),
        }
    }
}

/// A saved display, restored when a search ends.
#[derive(Clone, Debug)]
pub struct SearchDisplay(Display);

/// What a saved display holds.
pub struct DisplayView {
    pub location: DisplayedLocation,
    pub entries: Seq<FileEntryView>,
    pub child_folders: Seq<Seq<char>>,
    pub trash_entries: Seq<TrashEntryView>,
}

impl DeepView for SearchDisplay {
    type V = DisplayView;

    closed spec fn deep_view(&self) -> DisplayView {
        DisplayView {
            location: self.0.location,
            entries: self.0.entries.deep_view(),
            child_folders: self.0.child_folders.deep_view(),
            trash_entries: self.0.trash_entries.deep_view(),
        }
    }
}

/// The abstract state of a navigation session.
pub struct NavView {
    pub current: Seq<char>,
    pub history: Seq<Seq<char>>,
    pub forward: Seq<Seq<char>>,
    pub location: DisplayedLocation,
    pub entries: Seq<FileEntryView>,
    pub child_folders: Seq<Seq<char>>,
    pub trash_entries: Seq<TrashEntryView>,
    pub pending: Option<RequestView>,
    pub deferred: Option<Seq<char>>,
    pub next_id: u64,
}

/// Folder history, the displayed listing, and the one request in flight.
#[derive(Clone, Debug)]
pub struct NavigationSession {
    current: String,
    history: Vec<String>,
    forward_history: Vec<String>,
    display: Display,
    pending: Option<Request>,
    deferred_refresh: Option<String>,
    next_request_id: u64,
}

impl DeepView for NavigationSession {
    type V = NavView;

    closed spec fn deep_view(&self) -> NavView {
        NavView {
            current: self.current@,
            history: self.history.deep_view(),
            forward: self.forward_history.deep_view(),
            location: self.display.location,
            entries: self.display.entries.deep_view(),
            child_folders: self.display.child_folders.deep_view(),
            trash_entries: self.display.trash_entries.deep_view(),
            pending: self.pending.deep_view(),
            deferred: self.deferred_refresh.deep_view(),
            next_id: self.next_request_id,
        }
    }
}

pub open spec fn next_id(id: u64) -> u64 {
    if id == u64::MAX {
        0
    } else {
        (id + 1) as u64
    }
}

pub open spec fn folder_displayed(s: NavView) -> bool {
    s.location == DisplayedLocation::Folder
}

pub open spec fn can_go_back(s: NavView) -> bool {
    !folder_displayed(s) || s.history.len() > 0
}

pub open spec fn cancel_spec(s: NavView) -> (NavView, Option<RequestView>) {
    (NavView { pending: None, deferred: None, ..s }, s.pending)
}

/// A new request replaces (and reports) the one in flight.
pub open spec fn begin_spec(s: NavView, target: TargetView, select: Seq<Seq<char>>) -> (
    NavView,
    StartView,
) {
    let (s1, cancelled) = cancel_spec(s);
    let request = RequestView { id: s1.next_id, target, select, tree_load: None };
    (
        NavView { pending: Some(request), next_id: next_id(s1.next_id), ..s1 },
        StartView { request: Some(request), cancelled, ..no_start() },
    )
}

pub open spec fn option_seq(o: Option<Seq<char>>) -> Seq<Seq<char>> {
    match o {
        Some(p) => seq![p],
        None => Seq::empty(),
    }
}

pub open spec fn forward_spec(
    s: NavView,
    requested: Seq<char>,
    remember: bool,
    select: Option<Seq<char>>,
) -> (NavView, StartView) {
    begin_spec(
        s,
        TargetView::Folder { requested, kind: KindView::Forward { remember } },
        option_seq(select),
    )
}

/// Leaving Recent or Trash returns to the current folder without history.
pub open spec fn leave_overlay(s: NavView) -> (NavView, StartView) {
    forward_spec(s, s.current, false, None)
}

pub open spec fn parent_spec(s: NavView) -> (NavView, StartView) {
    if !folder_displayed(s) {
        leave_overlay(s)
    } else {
        match parent_of(s.current) {
            Some(p) => forward_spec(s, p, true, Some(s.current)),
            None => (s, no_start()),
        }
    }
}

pub open spec fn back_spec(s: NavView) -> (NavView, StartView) {
    if !folder_displayed(s) {
        leave_overlay(s)
    } else if s.history.len() == 0 {
        (s, no_start())
    } else {
        let target = s.history.last();
        begin_spec(
            s,
            TargetView::Folder { requested: target, kind: KindView::Back { expected: target } },
            Seq::empty(),
        )
    }
}

pub open spec fn history_forward_spec(s: NavView) -> (NavView, StartView) {
    if !folder_displayed(s) {
        leave_overlay(s)
    } else if s.forward.len() == 0 {
        (s, no_start())
    } else {
        let target = s.forward.last();
        begin_spec(
            s,
            TargetView::Folder {
                requested: target,
                kind: KindView::HistoryForward { expected: target },
            },
            Seq::empty(),
        )
    }
}

pub open spec fn sidebar_spec(s: NavView, requested: Seq<char>, load: Option<LoadView>) -> (
    NavView,
    StartView,
) {
    let (s2, st) = forward_spec(s, requested, true, None);
    let request = RequestView { tree_load: load, ..st.request->0 };
    (NavView { pending: Some(request), ..s2 }, StartView { request: Some(request), ..st })
}

pub open spec fn choose_spec(s: NavView, t: TransitionView) -> (NavView, StartView) {
    match t {
        TransitionView::Open { requested, remember, select } => forward_spec(
            s,
            requested,
            remember,
            select,
        ),
        TransitionView::Hover { requested } => forward_spec(s, requested, true, None),
        TransitionView::Reveal { requested, selected } => begin_spec(
            s,
            TargetView::Folder { requested, kind: KindView::Forward { remember: false } },
            selected,
        ),
        TransitionView::Sidebar { requested, load } => sidebar_spec(s, requested, load),
        TransitionView::Parent => parent_spec(s),
        TransitionView::Back => back_spec(s),
        TransitionView::HistoryForward => history_forward_spec(s),
    }
}

/// The tree load to reuse when the sidebar reopens the displayed idle folder.
pub open spec fn reuse_spec(s: NavView, t: TransitionView) -> Option<Option<LoadView>> {
    match t {
        TransitionView::Sidebar { requested, load } => if same_path_spec(requested, s.current)
            && folder_displayed(s) && s.pending is None {
            Some(load)
        } else {
            None
        },
        _ => None,
    }
}

/// A user's navigation choice. A second Back while loading only cancels;
/// reopening the displayed idle folder from the sidebar reuses it; every
/// other choice first cancels the request in flight, even when it has no
/// destination.
pub open spec fn transition_spec(s: NavView, t: TransitionView) -> (NavView, StartView) {
    if s.pending is Some && t is Back {
        let (s1, cancelled) = cancel_spec(s);
        (s1, StartView { cancelled, ..no_start() })
    } else if reuse_spec(s, t) is Some {
        (s, StartView { reuse_tree: reuse_spec(s, t)->0, ..no_start() })
    } else {
        let (s1, cancelled) = cancel_spec(s);
        let (s2, st) = choose_spec(s1, t);
        (
            s2,
            StartView {
                cancelled,
                reset_pointer: !(t is Hover),
                cancel_search: true,
                ..st
            },
        )
    }
}

pub open spec fn refresh_spec(s: NavView, select: Seq<Seq<char>>) -> (NavView, StartView) {
    begin_spec(s, TargetView::Folder { requested: s.current, kind: KindView::Refresh }, select)
}

/// Entries whose path is not hidden, in order.
pub open spec fn visible(entries: Seq<FileEntryView>, hidden: Seq<Seq<char>>) -> Seq<
    FileEntryView,
>
    decreases entries.len(),
{
    if entries.len() == 0 {
        entries
    } else {
        let rest = visible(entries.drop_last(), hidden);
        if has_path(hidden, entries.last().path) {
            rest
        } else {
            rest.push(entries.last())
        }
    }
}

/// Display indices of the entries whose path is selected, ascending.
pub open spec fn selected_indices(entries: Seq<FileEntryView>, select: Seq<Seq<char>>) -> Seq<
    usize,
>
    decreases entries.len(),
{
    if entries.len() == 0 {
        Seq::empty()
    } else {
        let rest = selected_indices(entries.drop_last(), select);
        if has_path(select, entries.last().path) {
            rest.push((entries.len() - 1) as usize)
        } else {
            rest
        }
    }
}

pub open spec fn label_spec(s: NavView) -> Seq<char> {
    match s.location {
        DisplayedLocation::Folder => s.current,
        DisplayedLocation::Recent => "Recent"@,
        DisplayedLocation::Trash => "Trash"@,
    }
}

pub open spec fn status_spec(s: NavView, location: DisplayedLocation) -> Seq<char> {
    match location {
        DisplayedLocation::Folder => Seq::empty(),
        DisplayedLocation::Recent => decimal(s.entries.len()) + " items  \u{2022}  Recent"@,
        DisplayedLocation::Trash => decimal(s.entries.len()) + " items  \u{2022}  Trash"@,
    }
}

pub open spec fn commit_spec(
    s: NavView,
    selected: Seq<usize>,
    refresh: bool,
    reveal: bool,
    location: DisplayedLocation,
) -> OutcomeView {
    OutcomeView::Committed(
        CommitView {
            selected,
            reset_scroll: !refresh,
            reveal_selection: reveal,
            location,
            location_input: label_spec(s),
            status: status_spec(s, location),
        },
    )
}

/// Where the history stands once a folder request for `canonical` lands;
/// `None` when Back or Forward no longer matches the history.
pub open spec fn moved(s: NavView, kind: KindView, canonical: Seq<char>) -> Option<NavView> {
    match kind {
        KindView::Forward { remember } => Some(
            if !same_path_spec(canonical, s.current) && remember {
                NavView {
                    history: s.history.push(s.current),
                    forward: Seq::empty(),
                    current: canonical,
                    ..s
                }
            } else {
                NavView { current: canonical, ..s }
            },
        ),
        KindView::Back { expected } => if s.history.len() > 0 && same_path_spec(
            s.history.last(),
            expected,
        ) {
            Some(
                NavView {
                    history: s.history.drop_last(),
                    forward: s.forward.push(s.current),
                    current: canonical,
                    ..s
                },
            )
        } else {
            None
        },
        KindView::HistoryForward { expected } => if s.forward.len() > 0 && same_path_spec(
            s.forward.last(),
            expected,
        ) {
            Some(
                NavView {
                    forward: s.forward.drop_last(),
                    history: s.history.push(s.current),
                    current: canonical,
                    ..s
                },
            )
        } else {
            None
        },
        KindView::Refresh => Some(NavView { current: canonical, ..s }),
    }
}

pub open spec fn redirect_notice(missing: Seq<char>, ancestor: Seq<char>) -> Seq<char> {
    missing + " disappeared; opened "@ + ancestor
}

/// A folder scan landing. `ancestor` is the folder that a failed refresh
/// falls back to when the current folder no longer exists.
pub open spec fn folder_spec(
    s: NavView,
    kind: KindView,
    select: Seq<Seq<char>>,
    result: Result<OpenedView, Seq<char>>,
    hidden: Seq<Seq<char>>,
    ancestor: Option<Seq<char>>,
) -> (NavView, OutcomeView) {
    match result {
        Err(error) => if kind is Refresh && ancestor is Some {
            let (s2, start) = forward_spec(s, ancestor->0, false, None);
            (s2, OutcomeView::Redirect { start, notice: redirect_notice(s.current, ancestor->0) })
        } else {
            (s, OutcomeView::Failed(error))
        },
        Ok(opened) => match moved(s, kind, opened.canonical_path) {
            None => (s, OutcomeView::Ignored),
            Some(s1) => {
                let entries = visible(opened.entries, hidden);
                let s2 = NavView {
                    location: DisplayedLocation::Folder,
                    entries,
                    child_folders: opened.child_folders,
                    trash_entries: Seq::empty(),
                    ..s1
                };
                (
                    s2,
                    commit_spec(
                        s2,
                        selected_indices(entries, select),
                        kind is Refresh,
                        kind is Forward && select.len() > 0,
                        DisplayedLocation::Folder,
                    ),
                )
            },
        },
    }
}

pub open spec fn recent_spec(s: NavView, result: Result<Seq<FileEntryView>, Seq<char>>) -> (
    NavView,
    OutcomeView,
) {
    match result {
        Err(error) => (s, OutcomeView::Failed(error)),
        Ok(entries) => {
            let s2 = NavView {
                location: DisplayedLocation::Recent,
                entries,
                child_folders: Seq::empty(),
                trash_entries: Seq::empty(),
                ..s
            };
            (s2, commit_spec(s2, Seq::empty(), false, false, DisplayedLocation::Recent))
        },
    }
}

pub open spec fn trash_files(t: Seq<TrashEntryView>) -> Seq<FileEntryView> {
    t.map_values(|e: TrashEntryView| e.file)
}

pub open spec fn trash_spec(s: NavView, result: Result<Seq<TrashEntryView>, Seq<char>>) -> (
    NavView,
    OutcomeView,
) {
    match result {
        Err(error) => (s, OutcomeView::Failed(error)),
        Ok(trash) => {
            let s2 = NavView {
                location: DisplayedLocation::Trash,
                entries: trash_files(trash),
                child_folders: Seq::empty(),
                trash_entries: trash,
                ..s
            };
            (s2, commit_spec(s2, Seq::empty(), false, false, DisplayedLocation::Trash))
        },
    }
}

pub open spec fn outcome_spec(
    s: NavView,
    request: RequestView,
    completion: CompletionView,
    hidden: Seq<Seq<char>>,
    ancestor: Option<Seq<char>>,
) -> (NavView, OutcomeView) {
    match completion {
        CompletionView::Cancelled => (NavView { deferred: None, ..s }, OutcomeView::Ignored),
        CompletionView::Folder(result) => match request.target {
            TargetView::Folder { kind, .. } => folder_spec(
                s,
                kind,
                request.select,
                result,
                hidden,
                ancestor,
            ),
            _ => (s, OutcomeView::Ignored),
        },
        CompletionView::Recent(result) => match request.target {
            TargetView::Recent => recent_spec(s, result),
            _ => (s, OutcomeView::Ignored),
        },
        CompletionView::Trash(result) => match request.target {
            TargetView::Trash => trash_spec(s, result),
            _ => (s, OutcomeView::Ignored),
        },
    }
}

/// A live refresh while a request is in flight is remembered for the
/// current folder; with nothing in flight nothing changes.
pub open spec fn defer_spec(s: NavView) -> NavView {
    if s.pending is Some {
        NavView { deferred: Some(s.current), ..s }
    } else {
        s
    }
}

pub open spec fn answers(s: NavView, request: RequestView) -> bool {
    s.pending matches Some(p) && p.id == request.id
}

/// A completion lands only when it answers the request in flight; a
/// deferred refresh of the displayed folder is reported once.
pub open spec fn complete_spec(
    s: NavView,
    request: RequestView,
    completion: CompletionView,
    hidden: Seq<Seq<char>>,
    ancestor: Option<Seq<char>>,
) -> (NavView, CompletedView) {
    if !answers(s, request) {
        (s, CompletedView { outcome: OutcomeView::Ignored, tree_load: None, refresh: false })
    } else {
        let accepted = s.pending->0;
        let s1 = NavView { pending: None, ..s };
        let (s2, outcome) = outcome_spec(s1, request, completion, hidden, ancestor);
        if s2.pending is None {
            let refresh = s2.deferred matches Some(p) && folder_displayed(s2) && same_path_spec(
                p,
                s2.current,
            );
            (
                NavView { deferred: None, ..s2 },
                CompletedView { outcome, tree_load: accepted.tree_load, refresh },
            )
        } else {
            (s2, CompletedView { outcome, tree_load: accepted.tree_load, refresh: false })
        }
    }
}

/// The probe result that a completion may rest on: only a failed refresh
/// consults the file system, and it falls back to the current folder, one
/// of its ancestors, or the root.
pub open spec fn probe_fits(
    s: NavView,
    request: RequestView,
    completion: CompletionView,
    ancestor: Option<Seq<char>>,
) -> bool {
    match ancestor {
        None => true,
        Some(a) => {
            &&& answers(s, request)
            &&& request.target matches TargetView::Folder { kind: KindView::Refresh, .. }
            &&& completion matches CompletionView::Folder(Err(_))
            &&& (a == "/"@ || is_ancestor_or_self(s.current, a))
        },
    }
}


impl NavigationSession {
    /// A session showing the folder `current`, with empty history.
    pub fn new(current: String) -> (r: Self)
        ensures
            r.deep_view() == (NavView {
                current: current@,
                history: Seq::empty(),
                forward: Seq::empty(),
                location: DisplayedLocation::Folder,
                entries: Seq::empty(),
                child_folders: Seq::empty(),
                trash_entries: Seq::empty(),
                pending: None,
                deferred: None,
                next_id: 1,
            }),
    {
        let r = NavigationSession {
            current,
            history: Vec::new(),
            forward_history: Vec::new(),
            display: Display {
                location: DisplayedLocation::Folder,
                entries: Vec::new(),
                child_folders: Vec::new(),
                trash_entries: Vec::new(),
            },
            pending: None,
            deferred_refresh: None,
            next_request_id: 1,
        };
        assert(r.history.deep_view() =~= Seq::<Seq<char>>::empty());
        assert(r.forward_history.deep_view() =~= Seq::<Seq<char>>::empty());
        assert(r.display.entries.deep_view() =~= Seq::<FileEntryView>::empty());
        assert(r.display.child_folders.deep_view() =~= Seq::<Seq<char>>::empty());
        assert(r.display.trash_entries.deep_view() =~= Seq::<TrashEntryView>::empty());
        r
    }

    pub fn current(&self) -> (r: &str)
        ensures
            r@ == self.deep_view().current,
    {
        self.current.as_str()
    }

    pub fn entries(&self) -> (r: &Vec<FileEntry>)
        ensures
            r.deep_view() == self.deep_view().entries,
    {
        &self.display.entries
    }

    pub fn child_folders(&self) -> (r: &Vec<String>)
        ensures
            r.deep_view() == self.deep_view().child_folders,
    {
        &self.display.child_folders
    }

    pub fn displayed_location(&self) -> (r: DisplayedLocation)
        ensures
            r == self.deep_view().location,
    {
        self.display.location
    }

    pub fn folder_displayed(&self) -> (r: bool)
        ensures
            r == folder_displayed(self.deep_view()),
    {
        matches!(self.display.location, DisplayedLocation::Folder)
    }

    /// The text of the location bar.
    pub fn location_label(&self) -> (r: String)
        ensures
            r@ == label_spec(self.deep_view()),
    {
        match self.display.location {
            DisplayedLocation::Folder => self.current.clone(),
            DisplayedLocation::Recent => String::from_str("Recent"),
            DisplayedLocation::Trash => String::from_str("Trash"),
        }
    }

    pub fn trash_entries(&self) -> (r: &Vec<TrashEntry>)
        ensures
            r.deep_view() == self.deep_view().trash_entries,
    {
        &self.display.trash_entries
    }

    /// Whether a request is in flight.
    pub fn loading(&self) -> (r: bool)
        ensures
            r == (self.deep_view().pending is Some),
    {
        self.pending.is_some()
    }

    /// Drops the request in flight (and any deferred refresh) and returns it.
    pub fn cancel_pending(&mut self) -> (r: Option<Request>)
        ensures
            (final(self).deep_view(), r.deep_view()) == cancel_spec(old(self).deep_view()),
    {
        self.deferred_refresh = None;
        let r = self.pending.take();
        r
    }

    pub fn can_go_back(&self) -> (r: bool)
        ensures
            r == can_go_back(self.deep_view()),
    {
        !self.folder_displayed() || self.history.len() > 0
    }

    pub fn can_go_forward(&self) -> (r: bool)
        ensures
            r == (self.deep_view().forward.len() > 0),
    {
        self.forward_history.len() > 0
    }

    /// Applies a navigation choice.
    pub fn transition(&mut self, transition: Transition) -> (r: Start)
        ensures
            (final(self).deep_view(), r.deep_view()) == transition_spec(
                old(self).deep_view(),
                transition.deep_view(),
            ),
    {
        if self.loading() && matches!(transition, Transition::Back) {
            let cancelled = self.cancel_pending();
            return Start {
                request: None,
                cancelled,
                reuse_tree: None,
                reset_pointer: false,
                cancel_search: false,
            };
        }
        if let Transition::Sidebar { requested, load } = &transition {
            if same_path(requested.as_str(), self.current.as_str()) && self.folder_displayed()
                && !self.loading() {
                return Start {
                    request: None,
                    cancelled: None,
                    reuse_tree: duplicate_load(load),
                    reset_pointer: false,
                    cancel_search: false,
                };
            }
        }
        let ghost t = transition.deep_view();
        let cancelled = self.cancel_pending();
        let ghost s1 = self.deep_view();
        let reset_pointer = !transition.preserves_pointer_interaction();
        let mut start = match transition {
            Transition::Open { requested, remember, select } => self.forward(
                requested,
                remember,
                select,
            ),
            Transition::Hover { requested } => self.forward(requested, true, None),
            Transition::Reveal { requested, selected } => self.begin(
                Target::Folder { requested, kind: Kind::Forward { remember: false } },
                selected,
            ),
            Transition::Sidebar { requested, load } => self.sidebar(requested, load),
            Transition::Parent => self.parent(),
            Transition::Back => self.back(),
            Transition::HistoryForward => self.history_forward(),
        };
        assert((self.deep_view(), start.deep_view()) == choose_spec(s1, t));
        start.cancelled = cancelled;
        start.reset_pointer = reset_pointer;
        start.cancel_search = true;
        start
    }

    pub fn sidebar(&mut self, requested: String, load: Option<LoadRequest>) -> (r: Start)
        ensures
            (final(self).deep_view(), r.deep_view()) == sidebar_spec(
                old(self).deep_view(),
                requested@,
                load.deep_view(),
            ),
    {
        let start = self.forward(requested, true, None);
        match start.request {
            Some(request) => {
                let request = Request {
                    id: request.id,
                    target: request.target,
                    select: request.select,
                    tree_load: load,
                };
                self.pending = Some(request.duplicate());
                Start {
                    request: Some(request),
                    cancelled: start.cancelled,
                    reuse_tree: start.reuse_tree,
                    reset_pointer: start.reset_pointer,
                    cancel_search: start.cancel_search,
                }
            },
            None => Start {
                request: None,
                cancelled: start.cancelled,
                reuse_tree: start.reuse_tree,
                reset_pointer: start.reset_pointer,
                cancel_search: start.cancel_search,
            },
        }
    }

    /// Coalesces a live refresh while a request is in flight.
    pub fn defer_refresh(&mut self) -> (r: bool)
        ensures
            r == (old(self).deep_view().pending is Some),
            final(self).deep_view() == defer_spec(old(self).deep_view()),
    {
        if !self.loading() {
            return false;
        }
        self.deferred_refresh = Some(self.current.clone());
        true
    }

    pub fn parent(&mut self) -> (r: Start)
        ensures
            (final(self).deep_view(), r.deep_view()) == parent_spec(old(self).deep_view()),
    {
        if !self.folder_displayed() {
            let current = self.current.clone();
            return self.forward(current, false, None);
        }
        match path_parent(self.current.as_str()) {
            Some(parent) => {
                let current = self.current.clone();
                self.forward(parent, true, Some(current))
            },
            None => empty_start(),
        }
    }

    pub fn forward(&mut self, requested: String, remember: bool, select: Option<String>) -> (r: Start)
        ensures
            (final(self).deep_view(), r.deep_view()) == forward_spec(
                old(self).deep_view(),
                requested@,
                remember,
                select.deep_view(),
            ),
    {
        let mut selection: Vec<String> = Vec::new();
        if let Some(path) = select {
            selection.push(path);
        }
        assert(selection.deep_view() =~= option_seq(select.deep_view()));
        self.begin(Target::Folder { requested, kind: Kind::Forward { remember } }, selection)
    }

    pub fn back(&mut self) -> (r: Start)
        ensures
            (final(self).deep_view(), r.deep_view()) == back_spec(old(self).deep_view()),
    {
        if !self.folder_displayed() {
            let current = self.current.clone();
            return self.forward(current, false, None);
        }
        let n = self.history.len();
        if n == 0 {
            return empty_start();
        }
        let target = self.history[n - 1].clone();
        let expected = target.clone();
        let selection: Vec<String> = Vec::new();
        assert(selection.deep_view() =~= Seq::<Seq<char>>::empty());
        self.begin(Target::Folder { requested: target, kind: Kind::Back { expected } }, selection)
    }

    pub fn history_forward(&mut self) -> (r: Start)
        ensures
            (final(self).deep_view(), r.deep_view()) == history_forward_spec(
                old(self).deep_view(),
            ),
    {
        if !self.folder_displayed() {
            let current = self.current.clone();
            return self.forward(current, false, None);
        }
        let n = self.forward_history.len();
        if n == 0 {
            return empty_start();
        }
        let target = self.forward_history[n - 1].clone();
        let expected = target.clone();
        let selection: Vec<String> = Vec::new();
        assert(selection.deep_view() =~= Seq::<Seq<char>>::empty());
        self.begin(
            Target::Folder { requested: target, kind: Kind::HistoryForward { expected } },
            selection,
        )
    }

    /// Rescans the current folder, selecting `select` if it is still there.
    pub fn refresh(&mut self, select: Option<String>) -> (r: Start)
        ensures
            (final(self).deep_view(), r.deep_view()) == refresh_spec(
                old(self).deep_view(),
                option_seq(select.deep_view()),
            ),
    {
        let mut selection: Vec<String> = Vec::new();
        if let Some(path) = select {
            selection.push(path);
        }
        assert(selection.deep_view() =~= option_seq(select.deep_view()));
        self.refresh_selected(selection)
    }

    /// Rescans the current folder, selecting every path of `select` found.
    pub fn refresh_selected(&mut self, select: Vec<String>) -> (r: Start)
        ensures
            (final(self).deep_view(), r.deep_view()) == refresh_spec(
                old(self).deep_view(),
                select.deep_view(),
            ),
    {
        let current = self.current.clone();
        self.begin(Target::Folder { requested: current, kind: Kind::Refresh }, select)
    }

    /// Opens Recent as an overlay on the folder history.
    pub fn recent(&mut self) -> (r: Start)
        ensures
            ({
                let (s, st) = begin_spec(old(self).deep_view(), TargetView::Recent, Seq::empty());
                (final(self).deep_view(), r.deep_view()) == (s, StartView {
                    cancel_search: true,
                    ..st
                })
            }),
    {
        let selection: Vec<String> = Vec::new();
        assert(selection.deep_view() =~= Seq::<Seq<char>>::empty());
        let mut start = self.begin(Target::Recent, selection);
        start.cancel_search = true;
        start
    }

    /// Opens Trash as an overlay on the folder history.
    pub fn trash(&mut self) -> (r: Start)
        ensures
            ({
                let (s, st) = begin_spec(old(self).deep_view(), TargetView::Trash, Seq::empty());
                (final(self).deep_view(), r.deep_view()) == (s, StartView {
                    cancel_search: true,
                    ..st
                })
            }),
    {
        let selection: Vec<String> = Vec::new();
        assert(selection.deep_view() =~= Seq::<Seq<char>>::empty());
        let mut start = self.begin(Target::Trash, selection);
        start.cancel_search = true;
        start
    }

    pub fn begin(&mut self, target: Target, select: Vec<String>) -> (r: Start)
        ensures
            (final(self).deep_view(), r.deep_view()) == begin_spec(
                old(self).deep_view(),
                target.deep_view(),
                select.deep_view(),
            ),
    {
        let cancelled = self.cancel_pending();
        let id = self.next_request_id;
        self.next_request_id = self.next_request_id.wrapping_add(1);
        let request = Request { id, target, select, tree_load: None };
        self.pending = Some(request.duplicate());
        Start {
            request: Some(request),
            cancelled,
            reuse_tree: None,
            reset_pointer: false,
            cancel_search: false,
        }
    }
}

pub open spec fn opened_result(r: Result<OpenedDirectory, String>) -> Result<OpenedView, Seq<char>> {
    match r {
        Ok(o) => Ok(o.deep_view()),
        Err(e) => Err(e@),
    }
}

pub open spec fn entries_result(r: Result<Vec<FileEntry>, String>) -> Result<
    Seq<FileEntryView>,
    Seq<char>,
> {
    match r {
        Ok(v) => Ok(v.deep_view()),
        Err(e) => Err(e@),
    }
}

pub open spec fn trash_result(r: Result<Vec<TrashEntry>, String>) -> Result<
    Seq<TrashEntryView>,
    Seq<char>,
> {
    match r {
        Ok(v) => Ok(v.deep_view()),
        Err(e) => Err(e@),
    }
}

/// The entries whose path is not among `hidden`, in order.
pub fn filter_hidden(entries: &Vec<FileEntry>, hidden: &[String]) -> (r: Vec<FileEntry>)
    ensures
        r.deep_view() == visible(entries.deep_view(), hidden.deep_view()),
{
    let mut out: Vec<FileEntry> = Vec::new();
    let mut i: usize = 0;
    let ghost es = entries.deep_view();
    assert(es.take(0) =~= Seq::<FileEntryView>::empty());
    assert(out.deep_view() =~= Seq::<FileEntryView>::empty());
    while i < entries.len()
        invariant
            i <= entries@.len(),
            es == entries.deep_view(),
            out.deep_view() == visible(es.take(i as int), hidden.deep_view()),
        decreases entries@.len() - i,
    {
        let ghost before = out.deep_view();
        assert(es.take(i + 1).drop_last() =~= es.take(i as int));
        assert(es.take(i + 1).last() == es[i as int]);
        if !contains_same_path(hidden, &entries[i].path) {
            let e = entries[i].duplicate();
            out.push(e);
            assert(out.deep_view() =~= before.push(es[i as int]));
        }
        i = i + 1;
    }
    assert(es.take(i as int) =~= es);
    out
}

/// Display indices of the entries whose path is in `select`.
pub fn select_indices(entries: &Vec<FileEntry>, select: &Vec<String>) -> (r: Vec<usize>)
    ensures
        r@ == selected_indices(entries.deep_view(), select.deep_view()),
{
    let mut out: Vec<usize> = Vec::new();
    let mut i: usize = 0;
    let ghost es = entries.deep_view();
    assert(es.take(0) =~= Seq::<FileEntryView>::empty());
    while i < entries.len()
        invariant
            i <= entries@.len(),
            es == entries.deep_view(),
            out@ == selected_indices(es.take(i as int), select.deep_view()),
        decreases entries@.len() - i,
    {
        assert(es.take(i + 1).drop_last() =~= es.take(i as int));
        assert(es.take(i + 1).last() == es[i as int]);
        if contains_same_path(select.as_slice(), &entries[i].path) {
            out.push(i);
        }
        i = i + 1;
    }
    assert(es.take(i as int) =~= es);
    out
}

impl NavigationSession {
    pub fn commit(
        &self,
        selected: Vec<usize>,
        refresh: bool,
        reveal_selection: bool,
        location: DisplayedLocation,
    ) -> (r: Outcome)
        ensures
            r.deep_view() == commit_spec(
                self.deep_view(),
                selected@,
                refresh,
                reveal_selection,
                location,
            ),
    {
        let status = match location {
            DisplayedLocation::Folder => String::new(),
            DisplayedLocation::Recent => {
                let mut v: Vec<char> = Vec::new();
                push_decimal(&mut v, self.display.entries.len());
                push_str(&mut v, " items  \u{2022}  Recent");
                assert(v@ =~= status_spec(self.deep_view(), location));
                string_of(v.as_slice())
            },
            DisplayedLocation::Trash => {
                let mut v: Vec<char> = Vec::new();
                push_decimal(&mut v, self.display.entries.len());
                push_str(&mut v, " items  \u{2022}  Trash");
                assert(v@ =~= status_spec(self.deep_view(), location));
                string_of(v.as_slice())
            },
        };
        Outcome::Committed(
            Commit {
                selected,
                reset_scroll: !refresh,
                reveal_selection,
                location,
                location_input: self.location_label(),
                status,
            },
        )
    }

    fn history_ends_with(history: &Vec<String>, expected: &String) -> (r: bool)
        ensures
            r == (history.deep_view().len() > 0 && same_path_spec(
                history.deep_view().last(),
                expected@,
            )),
    {
        let n = history.len();
        n > 0 && same_path(history[n - 1].as_str(), expected.as_str())
    }

    pub fn complete_folder(
        &mut self,
        kind: &Kind,
        select: &Vec<String>,
        result: Result<OpenedDirectory, String>,
        hidden_paths: &[String],
        ancestor: Option<String>,
    ) -> (r: Outcome)
        ensures
            (final(self).deep_view(), r.deep_view()) == folder_spec(
                old(self).deep_view(),
                kind.deep_view(),
                select.deep_view(),
                opened_result(result),
                hidden_paths.deep_view(),
                ancestor.deep_view(),
            ),
    {
        let opened = match result {
            Ok(opened) => opened,
            Err(error) => {
                if matches!(kind, Kind::Refresh) {
                    if let Some(fallback) = ancestor {
                        let mut notice = concat(self.current.as_str(), " disappeared; opened ");
                        notice.append(fallback.as_str());
                        let start = self.forward(fallback, false, None);
                        return Outcome::Redirect { start: Box::new(start), notice };
                    }
                }
                return Outcome::Failed(error);
            },
        };
        let OpenedDirectory { canonical_path, entries, child_folders } = opened;
        let refresh = matches!(kind, Kind::Refresh);
        match kind {
            Kind::Forward { remember } => {
                if !same_path(canonical_path.as_str(), self.current.as_str()) && *remember {
                    let ghost h = self.history.deep_view();
                    let current = self.current.clone();
                    self.history.push(current);
                    self.forward_history.clear();
                    assert(self.history.deep_view() =~= h.push(self.current@));
                    assert(self.forward_history.deep_view() =~= Seq::<Seq<char>>::empty());
                }
                self.current = canonical_path;
            },
            Kind::Back { expected } => {
                if !Self::history_ends_with(&self.history, expected) {
                    return Outcome::Ignored;
                }
                let ghost h = self.history.deep_view();
                let ghost f = self.forward_history.deep_view();
                self.history.pop();
                let current = self.current.clone();
                self.forward_history.push(current);
                assert(self.history.deep_view() =~= h.drop_last());
                assert(self.forward_history.deep_view() =~= f.push(self.current@));
                self.current = canonical_path;
            },
            Kind::HistoryForward { expected } => {
                if !Self::history_ends_with(&self.forward_history, expected) {
                    return Outcome::Ignored;
                }
                let ghost h = self.history.deep_view();
                let ghost f = self.forward_history.deep_view();
                self.forward_history.pop();
                let current = self.current.clone();
                self.history.push(current);
                assert(self.forward_history.deep_view() =~= f.drop_last());
                assert(self.history.deep_view() =~= h.push(self.current@));
                self.current = canonical_path;
            },
            Kind::Refresh => {
                self.current = canonical_path;
            },
        }
        let shown = filter_hidden(&entries, hidden_paths);
        let selected = select_indices(&shown, select);
        self.display = Display {
            location: DisplayedLocation::Folder,
            entries: shown,
            child_folders,
            trash_entries: Vec::new(),
        };
        assert(self.display.trash_entries.deep_view() =~= Seq::<TrashEntryView>::empty());
        let reveal = matches!(kind, Kind::Forward { .. }) && select.len() > 0;
        self.commit(selected, refresh, reveal, DisplayedLocation::Folder)
    }

    pub fn complete_recent(&mut self, result: Result<Vec<FileEntry>, String>) -> (r: Outcome)
        ensures
            (final(self).deep_view(), r.deep_view()) == recent_spec(
                old(self).deep_view(),
                entries_result(result),
            ),
    {
        let entries = match result {
            Ok(entries) => entries,
            Err(error) => return Outcome::Failed(error),
        };
        self.display = Display {
            location: DisplayedLocation::Recent,
            entries,
            child_folders: Vec::new(),
            trash_entries: Vec::new(),
        };
        assert(self.display.child_folders.deep_view() =~= Seq::<Seq<char>>::empty());
        assert(self.display.trash_entries.deep_view() =~= Seq::<TrashEntryView>::empty());
        let none: Vec<usize> = Vec::new();
        assert(none@ =~= Seq::<usize>::empty());
        self.commit(none, false, false, DisplayedLocation::Recent)
    }

    pub fn complete_trash(&mut self, result: Result<Vec<TrashEntry>, String>) -> (r: Outcome)
        ensures
            (final(self).deep_view(), r.deep_view()) == trash_spec(
                old(self).deep_view(),
                trash_result(result),
            ),
    {
        let trash_entries = match result {
            Ok(entries) => entries,
            Err(error) => return Outcome::Failed(error),
        };
        let mut entries: Vec<FileEntry> = Vec::new();
        let mut i: usize = 0;
        let ghost ts = trash_entries.deep_view();
        while i < trash_entries.len()
            invariant
                i <= trash_entries@.len(),
                ts == trash_entries.deep_view(),
                entries@.len() == i,
                entries.deep_view() == trash_files(ts).take(i as int),
            decreases trash_entries@.len() - i,
        {
            let e = trash_entries[i].file.duplicate();
            entries.push(e);
            i = i + 1;
            assert(entries.deep_view() =~= trash_files(ts).take(i as int));
        }
        assert(trash_files(ts).take(i as int) =~= trash_files(ts));
        self.display = Display {
            location: DisplayedLocation::Trash,
            entries,
            child_folders: Vec::new(),
            trash_entries,
        };
        assert(self.display.child_folders.deep_view() =~= Seq::<Seq<char>>::empty());
        let none: Vec<usize> = Vec::new();
        assert(none@ =~= Seq::<usize>::empty());
        self.commit(none, false, false, DisplayedLocation::Trash)
    }

    fn answers(&self, request: &Request) -> (r: bool)
        ensures
            r == answers(self.deep_view(), request.deep_view()),
    {
        match &self.pending {
            Some(pending) => pending.id == request.id,
            None => false,
        }
    }

    /// Lands a completion, given what the file system probe found: the
    /// folder to fall back to when a refreshed folder has disappeared.
    pub fn complete_observed(
        &mut self,
        request: &Request,
        completion: Completion,
        hidden_paths: &[String],
        ancestor: Option<String>,
    ) -> (r: Completed)
        ensures
            (final(self).deep_view(), r.deep_view()) == complete_spec(
                old(self).deep_view(),
                request.deep_view(),
                completion.deep_view(),
                hidden_paths.deep_view(),
                ancestor.deep_view(),
            ),
    {
        if !self.answers(request) {
            return Completed { outcome: Outcome::Ignored, tree_load: None, refresh: false };
        }
        let accepted = match self.pending.take() {
            Some(pending) => pending,
            None => {
                return Completed { outcome: Outcome::Ignored, tree_load: None, refresh: false };
            },
        };
        let outcome = match completion {
            Completion::Cancelled => {
                self.deferred_refresh = None;
                Outcome::Ignored
            },
            Completion::Folder(result) => match &request.target {
                Target::Folder { kind, .. } => self.complete_folder(
                    kind,
                    &request.select,
                    result,
                    hidden_paths,
                    ancestor,
                ),
                _ => Outcome::Ignored,
            },
            Completion::Recent(result) => match &request.target {
                Target::Recent => self.complete_recent(result),
                _ => Outcome::Ignored,
            },
            Completion::Trash(result) => match &request.target {
                Target::Trash => self.complete_trash(result),
                _ => Outcome::Ignored,
            },
        };
        let refresh = if !self.loading() {
            match self.deferred_refresh.take() {
                Some(path) => self.folder_displayed() && same_path(path.as_str(), self.current.as_str()),
                None => false,
            }
        } else {
            false
        };
        Completed { outcome, tree_load: accepted.tree_load, refresh }
    }

    /// Lands a completion. Only a failed refresh probes the file system, to
    /// redirect to the nearest folder that still exists.
    pub fn complete_with_hidden_paths(
        &mut self,
        request: &Request,
        completion: Completion,
        hidden_paths: &[String],
    ) -> (r: Completed)
        ensures
            exists|ancestor: Option<Seq<char>>|
                probe_fits(old(self).deep_view(), request.deep_view(), completion.deep_view(), ancestor)
                    && (final(self).deep_view(), r.deep_view()) == complete_spec(
                    old(self).deep_view(),
                    request.deep_view(),
                    completion.deep_view(),
                    hidden_paths.deep_view(),
                    ancestor,
                ),
    {
        let failed_refresh = self.answers(request) && match &request.target {
            Target::Folder { kind: Kind::Refresh, .. } => matches!(completion, Completion::Folder(Err(_))),
            _ => false,
        };
        let ancestor = if failed_refresh && !directory_exists(self.current.as_str()) {
            Some(nearest_existing_ancestor(&self.current))
        } else {
            None
        };
        let ghost a = ancestor.deep_view();
        let ghost s0 = self.deep_view();
        let ghost c = completion.deep_view();
        let r = self.complete_observed(request, completion, hidden_paths, ancestor);
        assert(probe_fits(s0, request.deep_view(), c, a));
        r
    }

    /// Lands a completion with nothing hidden and returns its outcome.
    pub fn complete(&mut self, request: &Request, completion: Completion) -> (r: Outcome)
        ensures
            exists|ancestor: Option<Seq<char>>|
                probe_fits(old(self).deep_view(), request.deep_view(), completion.deep_view(), ancestor)
                    && (final(self).deep_view(), r.deep_view()) == ({
                    let (s, c) = complete_spec(
                        old(self).deep_view(),
                        request.deep_view(),
                        completion.deep_view(),
                        Seq::empty(),
                        ancestor,
                    );
                    (s, c.outcome)
                }),
    {
        let hidden: Vec<String> = Vec::new();
        let slice = hidden.as_slice();
        assert(slice.deep_view() =~= Seq::<Seq<char>>::empty());
        self.complete_with_hidden_paths(request, completion, slice).outcome
    }
}

impl NavigationSession {
    /// Saves the display so that a search can be undone.
    pub fn capture_search_display(&self) -> (r: SearchDisplay)
        ensures
            r.deep_view().location == self.deep_view().location,
            r.deep_view().entries == self.deep_view().entries,
            r.deep_view().child_folders == self.deep_view().child_folders,
            r.deep_view().trash_entries == self.deep_view().trash_entries,
    {
        SearchDisplay(self.display.duplicate())
    }

    /// Shows search results in place of the listing.
    pub fn install_search_entries(&mut self, entries: Vec<FileEntry>)
        ensures
            final(self).deep_view() == (NavView {
                entries: entries.deep_view(),
                ..old(self).deep_view()
            }),
    {
        self.display.entries = entries;
    }

    /// Puts a saved display back.
    pub fn restore_search_display(&mut self, display: SearchDisplay)
        ensures
            final(self).deep_view() == (NavView {
                location: display.deep_view().location,
                entries: display.deep_view().entries,
                child_folders: display.deep_view().child_folders,
                trash_entries: display.deep_view().trash_entries,
                ..old(self).deep_view()
            }),
    {
        self.display = display.0;
    }

    /// Removes the entries at `paths` from the display (cut items).
    pub fn hide_paths(&mut self, paths: &[String])
        ensures
            final(self).deep_view() == (NavView {
                entries: visible(old(self).deep_view().entries, paths.deep_view()),
                ..old(self).deep_view()
            }),
    {
        let shown = filter_hidden(&self.display.entries, paths);
        self.display.entries = shown;
    }

    /// The folder that the request in flight opens, if any.
    pub fn pending_path(&self) -> (r: Option<&str>)
        ensures
            r matches Some(p) ==> (self.deep_view().pending matches Some(q) && request_path(q)
                == Some(p@)),
            r is None ==> (self.deep_view().pending matches Some(q) ==> request_path(q) is None),
    {
        match &self.pending {
            Some(request) => request.requested(),
            None => None,
        }
    }

    pub fn pending_request(&self) -> (r: Option<Request>)
        ensures
            r.deep_view() == self.deep_view().pending,
    {
        duplicate_request(&self.pending)
    }

    /// Shows `entries` as the settled listing of the current folder.
    pub fn install_folder_entries(&mut self, entries: Vec<FileEntry>)
        ensures
            final(self).deep_view() == (NavView {
                pending: None,
                location: DisplayedLocation::Folder,
                entries: entries.deep_view(),
                child_folders: Seq::empty(),
                trash_entries: Seq::empty(),
                ..old(self).deep_view()
            }),
    {
        self.pending = None;
        self.display = Display {
            location: DisplayedLocation::Folder,
            entries,
            child_folders: Vec::new(),
            trash_entries: Vec::new(),
        };
        assert(self.display.child_folders.deep_view() =~= Seq::<Seq<char>>::empty());
        assert(self.display.trash_entries.deep_view() =~= Seq::<TrashEntryView>::empty());
    }

    pub fn replace_displayed_entries(&mut self, entries: Vec<FileEntry>)
        ensures
            final(self).deep_view() == (NavView {
                pending: None,
                location: DisplayedLocation::Folder,
                entries: entries.deep_view(),
                child_folders: Seq::empty(),
                trash_entries: Seq::empty(),
                ..old(self).deep_view()
            }),
    {
        self.install_folder_entries(entries);
    }

    /// Opens Trash and lands `entries` as its listing.
    pub fn install_trash_entries(&mut self, entries: Vec<TrashEntry>)
        ensures
            final(self).deep_view().location == DisplayedLocation::Trash,
            final(self).deep_view().trash_entries == entries.deep_view(),
            final(self).deep_view().entries == trash_files(entries.deep_view()),
            final(self).deep_view().pending is None,
    {
        let start = self.trash();
        if let Some(request) = start.request {
            let _ = self.complete(&request, Completion::Trash(Ok(entries)));
        }
    }

    /// Forgets the request in flight without answering it, as a test does to
    /// start from a settled session.
    pub fn settle_for_test(&mut self)
        ensures
            final(self).deep_view() == (NavView { pending: None, ..old(self).deep_view() }),
    {
        self.pending = None;
    }

    pub fn seed_history(&mut self, back: Vec<String>, forward: Vec<String>)
        ensures
            final(self).deep_view() == (NavView {
                history: back.deep_view(),
                forward: forward.deep_view(),
                ..old(self).deep_view()
            }),
    {
        self.history = back;
        self.forward_history = forward;
    }
}


// ------------------------------------------------------------------ laws

/// The folder history and the display, apart from the request in flight.
pub open spec fn same_place(a: NavView, b: NavView) -> bool {
    &&& a.current == b.current
    &&& a.history == b.history
    &&& a.forward == b.forward
    &&& a.location == b.location
    &&& a.entries == b.entries
    &&& a.child_folders == b.child_folders
    &&& a.trash_entries == b.trash_entries
}

/// Cancelling the request in flight keeps the location, the history and
/// the listing, and drops its deferred refresh.
pub proof fn lemma_cancel_keeps_location_and_history(s: NavView)
    ensures
        same_place(cancel_spec(s).0, s),
        cancel_spec(s).0.pending is None,
        cancel_spec(s).0.deferred is None,
        cancel_spec(s).1 == s.pending,
{
}

/// While a request is in flight, Back only cancels it; with nothing in
/// flight, Back from a folder uses the history.
pub proof fn lemma_first_back_cancels_then_second_back_uses_history(s: NavView)
    requires
        s.pending is Some,
        folder_displayed(s),
        s.history.len() > 0,
    ensures
        same_place(transition_spec(s, TransitionView::Back).0, s),
        transition_spec(s, TransitionView::Back).0.pending is None,
        transition_spec(s, TransitionView::Back).1.cancelled == s.pending,
        transition_spec(s, TransitionView::Back).1.request is None,
        ({
            let s1 = transition_spec(s, TransitionView::Back).0;
            transition_spec(s1, TransitionView::Back).1.request matches Some(r) && r.target == (
            TargetView::Folder {
                requested: s.history.last(),
                kind: KindView::Back { expected: s.history.last() },
            })
        }),
{
}

/// Every navigation choice, even one without a destination, supersedes
/// the request in flight and reports it as cancelled; the superseded
/// request's deferred refresh goes with it. Reopening the displayed idle
/// folder from the sidebar has nothing in flight to supersede.
pub proof fn lemma_choices_supersede_the_request_in_flight(s: NavView, t: TransitionView)
    ensures
        transition_spec(s, t).1.cancelled == s.pending,
        transition_spec(s, t).0.deferred is None || (reuse_spec(s, t) is Some
            && transition_spec(s, t).0 == s),
{
}

/// A completion that does not answer the request in flight (a superseded or
/// cancelled one) changes nothing and is ignored.
pub proof fn lemma_stale_completions_are_ignored(
    s: NavView,
    request: RequestView,
    completion: CompletionView,
    hidden: Seq<Seq<char>>,
    ancestor: Option<Seq<char>>,
)
    requires
        !answers(s, request),
    ensures
        complete_spec(s, request, completion, hidden, ancestor) == (
            s,
            CompletedView { outcome: OutcomeView::Ignored, tree_load: None, refresh: false },
        ),
{
}

/// A failed folder scan (other than a refresh that falls back to an
/// ancestor) keeps the displayed location, listing and history.
pub proof fn lemma_failed_completions_keep_the_display(
    s: NavView,
    request: RequestView,
    error: Seq<char>,
    hidden: Seq<Seq<char>>,
    ancestor: Option<Seq<char>>,
)
    requires
        answers(s, request),
        request.target is Folder,
        !(request.target->kind is Refresh && ancestor is Some),
    ensures
        same_place(
            complete_spec(s, request, CompletionView::Folder(Err(error)), hidden, ancestor).0,
            s,
        ),
        complete_spec(s, request, CompletionView::Folder(Err(error)), hidden, ancestor).1.outcome
            == OutcomeView::Failed(error),
{
}

/// Going back and then forward again returns to the same folder with the
/// same history.
pub proof fn lemma_back_then_forward_round_trips(s: NavView)
    requires
        s.history.len() > 0,
    ensures
        ({
            let target = s.history.last();
            let b = moved(s, KindView::Back { expected: target }, target);
            b matches Some(b) && {
                let f = moved(b, KindView::HistoryForward { expected: s.current }, s.current);
                f matches Some(f) && f.current == s.current && f.history == s.history && f.forward
                    == s.forward
            }
        }),
{
    let target = s.history.last();
    let b = moved(s, KindView::Back { expected: target }, target)->0;
    assert(b.forward.last() == s.current);
    assert(b.history.push(b.current) =~= s.history);
    assert(b.forward.drop_last() =~= s.forward);
}

/// Opening the folder that is already current, or refreshing, adds no
/// history and keeps the way forward.
pub proof fn lemma_reopening_adds_no_history(s: NavView, remember: bool)
    ensures
        moved(s, KindView::Forward { remember }, s.current) == Some(s),
        moved(s, KindView::Refresh, s.current) == Some(s),
{
}

/// Opening another folder (another path, not merely other text) with
/// history pushes the folder left behind and clears the way forward.
pub proof fn lemma_opening_records_history(s: NavView, canonical: Seq<char>)
    requires
        !same_path_spec(canonical, s.current),
    ensures
        moved(s, KindView::Forward { remember: true }, canonical) matches Some(m) && m.current
            == canonical && m.history == s.history.push(s.current) && m.forward.len() == 0,
{
}

/// Recent and Trash are overlays: showing them (or failing to) leaves the
/// current folder and its history alone, Back is available from them, and
/// leaving them reopens the current folder without adding history.
pub proof fn lemma_overlays_keep_folder_history(
    s: NavView,
    recent: Result<Seq<FileEntryView>, Seq<char>>,
    trash: Result<Seq<TrashEntryView>, Seq<char>>,
)
    ensures
        recent_spec(s, recent).0.current == s.current,
        recent_spec(s, recent).0.history == s.history,
        recent_spec(s, recent).0.forward == s.forward,
        trash_spec(s, trash).0.current == s.current,
        trash_spec(s, trash).0.history == s.history,
        trash_spec(s, trash).0.forward == s.forward,
        recent is Err ==> recent_spec(s, recent).0 == s,
        trash is Err ==> trash_spec(s, trash).0 == s,
        !folder_displayed(s) ==> can_go_back(s),
        !folder_displayed(s) ==> (back_spec(s).1.request matches Some(r) && r.target == (
        TargetView::Folder {
            requested: s.current,
            kind: KindView::Forward { remember: false },
        })),
        moved(s, KindView::Forward { remember: false }, s.current) == Some(s),
{
}

/// Each request gets a fresh identity: a completion for the request it
/// replaced, whose identity differs, is no longer an answer.
pub proof fn lemma_new_requests_retire_old_ones(
    s: NavView,
    target: TargetView,
    select: Seq<Seq<char>>,
    old: RequestView,
)
    requires
        old.id != s.next_id,
    ensures
        begin_spec(s, target, select).0.pending matches Some(r) && r.id == s.next_id,
        begin_spec(s, target, select).0.next_id == next_id(s.next_id),
        !answers(begin_spec(s, target, select).0, old),
{
}

/// Only hovering keeps the pointer interaction; every other choice that
/// starts navigating resets it.
pub proof fn lemma_only_hover_keeps_the_pointer(s: NavView, t: TransitionView)
    requires
        !(s.pending is Some && t is Back),
        reuse_spec(s, t) is None,
    ensures
        transition_spec(s, t).1.reset_pointer == !(t is Hover),
{
}

/// A refresh deferred while a scan was running is reported once, when the
/// scan of the displayed folder lands, and then forgotten.
pub proof fn lemma_deferred_refresh_is_reported_once(
    s: NavView,
    request: RequestView,
    completion: CompletionView,
    hidden: Seq<Seq<char>>,
    ancestor: Option<Seq<char>>,
)
    requires
        answers(s, request),
    ensures
        complete_spec(s, request, completion, hidden, ancestor).1.refresh ==> complete_spec(
            s,
            request,
            completion,
            hidden,
            ancestor,
        ).0.deferred is None,
        complete_spec(s, request, completion, hidden, ancestor).0.pending is None ==> complete_spec(
            s,
            request,
            completion,
            hidden,
            ancestor,
        ).0.deferred is None,
{
}

/// Refreshes deferred while one request is in flight coalesce into one:
/// deferring again changes nothing, cancelling or starting a new request
/// drops the deferral as if it had not been made, and when the completion
/// reports the refresh, nothing is loading and the folder that was current
/// when the refresh was deferred (the same path) is current and displayed,
/// with nothing left deferred.
pub proof fn lemma_deferred_refreshes_coalesce(
    s: NavView,
    target: TargetView,
    select: Seq<Seq<char>>,
    request: RequestView,
    completion: CompletionView,
    hidden: Seq<Seq<char>>,
    ancestor: Option<Seq<char>>,
)
    requires
        s.pending is Some,
    ensures
        defer_spec(defer_spec(s)) == defer_spec(s),
        cancel_spec(defer_spec(s)) == cancel_spec(s),
        begin_spec(defer_spec(s), target, select) == begin_spec(s, target, select),
        ({
            let (after, done) = complete_spec(defer_spec(s), request, completion, hidden, ancestor);
            done.refresh ==> {
                &&& after.pending is None
                &&& folder_displayed(after)
                &&& same_path_spec(after.current, s.current)
                &&& after.deferred is None
            }
        }),
{
}

/// With nothing deferred, a completion reports no refresh; so a deferred
/// refresh, once reported, is not reported again until another is deferred.
pub proof fn lemma_no_refresh_without_deferral(
    s: NavView,
    request: RequestView,
    completion: CompletionView,
    hidden: Seq<Seq<char>>,
    ancestor: Option<Seq<char>>,
)
    requires
        s.deferred is None,
    ensures
        !complete_spec(s, request, completion, hidden, ancestor).1.refresh,
{
}

} // verus!

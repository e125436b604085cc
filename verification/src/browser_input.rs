//! The Browser key grammar: prompts, modes, counts, `g`/`Ctrl+W`/`"_`
//! prefixes and the delete operator, turned into one intent per key press.
use vstd::prelude::*;

use crate::grid::{DeleteMotion, Motion};
use crate::prompt::PromptInteraction;
use crate::text::{
    ascii_lower, chars_of, decimal, lower, lower_seq, push_chars, push_decimal,
    push_str, slice_chars, string_of,
};

verus! {

/// The keyboard reference shown by `:help`.
pub const HELP: &'static str = "\
Keyboard navigation
  Arrow keys  Move the active entry or focused control
  Shift+Arrow  Extend the conventional selection
  Home / End  Jump to the first / last entry
  Tab / Shift+Tab  Move focus forward / backward
  Enter  Open an entry or activate the focused control
  Space  Toggle selection or activate the focused control
  Backspace  Go to the parent directory
  F5  Refresh the current view
  Ctrl+L  Edit the current location
  Ctrl+O / Ctrl+I  Go back / forward
  Ctrl+W e  Toggle the sidebar tree

Vim navigation
  [count]h/j/k/l  Move across entries
  0 / $  Move to the start / end of the grid row
  gg / G  Jump to the first / last entry
  [count]gg / [count]G  Jump to a display position
  H / M / L  Jump to the viewport top / middle / bottom
  [count]Ctrl+D/U  Move down / up by half a page

Selection and file operations
  v  Toggle visual selection
  Ctrl+A  Select all entries
  y / Ctrl+C  Copy the selection
  p / Ctrl+V  Paste
  x  Cut the selection
  dd  Cut the active entry
  d{motion}  Cut through 0, $, h, j, k, l, or d
  \"_x / \"_dd / \"_d{motion}  Trash without changing clipboard
  Delete  Move the selection to Trash
  u / Ctrl+R  Undo / redo
  r  Rename the active entry

Search
  /query  Search the current directory
  //query  Search recursively
  n / N  Repeat search forward / backward
  Enter  Open the current match
  Esc  Cancel search and restore the previous view

Prompts and transfers
  y / Enter  Confirm a deletion prompt
  n / Esc  Cancel a deletion prompt
  Backspace  Cancel an empty bottom input
  r / s / k  Replace / skip / keep both for one conflict
  R / S / K  Apply the choice to remaining entries
  Esc  Cancel an active mode, sequence, transfer, or output

Pointer and list view
  Right click  Open file and folder actions
  Drag empty space  Select intersecting Grid entries
  Drag entries  Move them; hold Ctrl while dropping to copy
  Name/Type/Size/Modified header
    Sort by that property; click again to reverse";

/// Which input currently owns plain keys.
#[derive(Clone, Copy, Debug, Default, PartialEq, Eq, Structural)]
pub enum Mode {
    #[default]
    Browser,
    Location,
    Search,
    Command,
    Rename,
    OpenWith,
}

/// Keys that are identified by name rather than by the text they type.
#[derive(Clone, Copy, Debug, Default, PartialEq, Eq, Structural)]
pub enum NamedKey {
    Escape,
    Enter,
    Backspace,
    Delete,
    Refresh,
    ArrowLeft,
    ArrowRight,
    ArrowUp,
    ArrowDown,
    Home,
    End,
    Space,
    Tab,
    #[default]
    Other,
}

/// One key press with its text and modifiers.
#[derive(Clone, Debug, Default, PartialEq, Eq)]
pub struct Press {
    pub text: Option<String>,
    pub named: NamedKey,
    pub control: bool,
    pub shift: bool,
    pub alt: bool,
    pub logo: bool,
}

/// A key press as the contracts see it: its text as characters.
pub struct PressView {
    pub text: Option<Seq<char>>,
    pub named: NamedKey,
    pub control: bool,
    pub shift: bool,
    pub alt: bool,
    pub logo: bool,
}

impl View for Press {
    type V = PressView;

    open spec fn view(&self) -> PressView {
        PressView {
            text: self.text.deep_view(),
            named: self.named,
            control: self.control,
            shift: self.shift,
            alt: self.alt,
            logo: self.logo,
        }
    }
}

/// Whether the bottom input is open, and whether it holds no text.
#[derive(Clone, Copy, Debug, Default, PartialEq, Eq, Structural)]
pub enum BottomInput {
    #[default]
    Inactive,
    Active { empty: bool },
}

impl BottomInput {
    pub fn new(active: bool, empty: bool) -> (r: Self)
        ensures
            r == (if active { BottomInput::Active { empty } } else { BottomInput::Inactive }),
    {
        if active {
            BottomInput::Active { empty }
        } else {
            BottomInput::Inactive
        }
    }

    pub open spec fn spec_is_empty(self) -> bool {
        self matches BottomInput::Active { empty: true }
    }

    pub fn is_empty(self) -> (r: bool)
        ensures
            r == self.spec_is_empty(),
    {
        matches!(self, BottomInput::Active { empty: true })
    }
}

/// What the rest of the window reports when a key arrives.
#[derive(Clone, Copy, Debug, Default, PartialEq, Eq)]
pub struct Context {
    pub transfer_conflict: bool,
    pub prompt: PromptInteraction,
    pub foreground_operation_active: bool,
    pub command_output: bool,
    pub visual_active: bool,
    pub selection_count: usize,
    pub has_selection: bool,
    pub pending_cut: bool,
    pub navigation_pending: bool,
    pub file_operators_allowed: bool,
    pub bottom_input: BottomInput,
}

/// What one key press asks the window to do.
#[derive(Clone, Debug, PartialEq, Eq)]
pub enum Intent {
    NoAction,
    PromptCancel,
    PromptConfirm,
    ConflictCancel,
    ConflictChoice { key: char, remaining: bool },
    CancelSearch,
    CancelCommand,
    CancelRename,
    CancelOpenWith,
    CancelLocation,
    CloseCommandOutput,
    CopyCommandOutput,
    CancelVisual,
    CancelCut,
    CancelNavigation,
    Copy,
    Cut,
    Paste,
    Undo,
    Redo,
    Refresh,
    ToggleTree,
    BeginLocation,
    MoveFocus { reverse: bool },
    CompleteCommand,
    SelectAll,
    ToggleActive,
    StandardMove { motion: Motion, extend: bool },
    Back,
    Forward,
    BeginSearch,
    BeginCommand(char),
    RepeatSearch(bool),
    Rename,
    ToggleVisual,
    Trash,
    Pending(String),
    InvalidSequence(String),
    Move(Motion, usize),
    CutMotion(DeleteMotion, usize),
    TrashMotion(DeleteMotion, usize),
    Activate,
    Parent,
}

/// An intent with its messages as characters.
pub enum IntentView {
    NoAction,
    PromptCancel,
    PromptConfirm,
    ConflictCancel,
    ConflictChoice { key: char, remaining: bool },
    CancelSearch,
    CancelCommand,
    CancelRename,
    CancelOpenWith,
    CancelLocation,
    CloseCommandOutput,
    CopyCommandOutput,
    CancelVisual,
    CancelCut,
    CancelNavigation,
    Copy,
    Cut,
    Paste,
    Undo,
    Redo,
    Refresh,
    ToggleTree,
    BeginLocation,
    MoveFocus { reverse: bool },
    CompleteCommand,
    SelectAll,
    ToggleActive,
    StandardMove { motion: Motion, extend: bool },
    Back,
    Forward,
    BeginSearch,
    BeginCommand(char),
    RepeatSearch(bool),
    Rename,
    ToggleVisual,
    Trash,
    Pending(Seq<char>),
    InvalidSequence(Seq<char>),
    Move(Motion, usize),
    CutMotion(DeleteMotion, usize),
    TrashMotion(DeleteMotion, usize),
    Activate,
    Parent,
}

impl View for Intent {
    type V = IntentView;

    open spec fn view(&self) -> IntentView {
        match self {
            Intent::NoAction => IntentView::NoAction,
            Intent::PromptCancel => IntentView::PromptCancel,
            Intent::PromptConfirm => IntentView::PromptConfirm,
            Intent::ConflictCancel => IntentView::ConflictCancel,
            Intent::ConflictChoice { key, remaining } => IntentView::ConflictChoice {
                key: *key,
                remaining: *remaining,
            },
            Intent::CancelSearch => IntentView::CancelSearch,
            Intent::CancelCommand => IntentView::CancelCommand,
            Intent::CancelRename => IntentView::CancelRename,
            Intent::CancelOpenWith => IntentView::CancelOpenWith,
            Intent::CancelLocation => IntentView::CancelLocation,
            Intent::CloseCommandOutput => IntentView::CloseCommandOutput,
            Intent::CopyCommandOutput => IntentView::CopyCommandOutput,
            Intent::CancelVisual => IntentView::CancelVisual,
            Intent::CancelCut => IntentView::CancelCut,
            Intent::CancelNavigation => IntentView::CancelNavigation,
            Intent::Copy => IntentView::Copy,
            Intent::Cut => IntentView::Cut,
            Intent::Paste => IntentView::Paste,
            Intent::Undo => IntentView::Undo,
            Intent::Redo => IntentView::Redo,
            Intent::Refresh => IntentView::Refresh,
            Intent::ToggleTree => IntentView::ToggleTree,
            Intent::BeginLocation => IntentView::BeginLocation,
            Intent::MoveFocus { reverse } => IntentView::MoveFocus { reverse: *reverse },
            Intent::CompleteCommand => IntentView::CompleteCommand,
            Intent::SelectAll => IntentView::SelectAll,
            Intent::ToggleActive => IntentView::ToggleActive,
            Intent::StandardMove { motion, extend } => IntentView::StandardMove {
                motion: *motion,
                extend: *extend,
            },
            Intent::Back => IntentView::Back,
            Intent::Forward => IntentView::Forward,
            Intent::BeginSearch => IntentView::BeginSearch,
            Intent::BeginCommand(c) => IntentView::BeginCommand(*c),
            Intent::RepeatSearch(r) => IntentView::RepeatSearch(*r),
            Intent::Rename => IntentView::Rename,
            Intent::ToggleVisual => IntentView::ToggleVisual,
            Intent::Trash => IntentView::Trash,
            Intent::Pending(s) => IntentView::Pending(s@),
            Intent::InvalidSequence(s) => IntentView::InvalidSequence(s@),
            Intent::Move(m, n) => IntentView::Move(*m, *n),
            Intent::CutMotion(m, n) => IntentView::CutMotion(*m, *n),
            Intent::TrashMotion(m, n) => IntentView::TrashMotion(*m, *n),
            Intent::Activate => IntentView::Activate,
            Intent::Parent => IntentView::Parent,
        }
    }
}

/// The largest count that a sequence accumulates.
pub const MAX_COUNT: usize = 10000;

/// The state of a partly typed Browser sequence.
pub struct Sequence {
    pub mode: Mode,
    pub count: Option<usize>,
    pub g_pending: bool,
    pub window_pending: bool,
    /// Operator count, motion count, and whether `"_` preceded the operator.
    pub delete_pending: Option<(usize, Option<usize>, bool)>,
    pub black_hole_stage: u8,
}

impl Sequence {
    /// Counts stay between 1 and `MAX_COUNT` (a motion count may be 0), and
    /// the `"_` prefix has at most two stages.
    pub open spec fn well_formed(self) -> bool {
        &&& (self.count matches Some(n) ==> 1 <= n <= MAX_COUNT)
        &&& (self.delete_pending matches Some((op, mc, _)) ==> {
            &&& 1 <= op <= MAX_COUNT
            &&& (mc matches Some(m) ==> m <= MAX_COUNT)
        })
        &&& self.black_hole_stage <= 2
    }
}

pub open spec fn cleared(s: Sequence) -> Sequence {
    Sequence {
        mode: s.mode,
        count: None,
        g_pending: false,
        window_pending: false,
        delete_pending: None,
        black_hole_stage: 0,
    }
}

pub open spec fn opt_decimal(count: Option<usize>) -> Seq<char> {
    match count {
        Some(n) => decimal(n as nat),
        None => Seq::empty(),
    }
}

/// The text of the pending sequence, as the status line shows it.
pub open spec fn pending_text(s: Sequence) -> Option<Seq<char>> {
    match s.delete_pending {
        Some((op, mc, black_hole)) => Some(
            (if black_hole { "\"_"@ } else { Seq::empty() }) + (if op > 1 {
                decimal(op as nat)
            } else {
                Seq::empty()
            }) + seq!['d'] + opt_decimal(mc),
        ),
        None => if s.black_hole_stage > 0 {
            Some(if s.black_hole_stage == 1 { "\""@ } else { "\"_"@ })
        } else if s.window_pending {
            Some("Ctrl+W"@)
        } else if s.g_pending {
            Some(opt_decimal(s.count) + seq!['g'])
        } else {
            match s.count {
                Some(n) => Some(decimal(n as nat)),
                None => None,
            }
        },
    }
}

pub open spec fn or_empty(s: Option<Seq<char>>) -> Seq<char> {
    match s {
        Some(t) => t,
        None => Seq::empty(),
    }
}

pub open spec fn expected_text(s: Sequence) -> Seq<char> {
    if s.delete_pending is Some {
        "awaiting motion: 0, $, h, j, k, l, or d"@
    } else if s.black_hole_stage == 1 {
        "awaiting _"@
    } else if s.black_hole_stage == 2 {
        "awaiting d or x"@
    } else if s.window_pending {
        "awaiting e"@
    } else if s.g_pending {
        "awaiting g"@
    } else {
        "awaiting motion or operator"@
    }
}

pub open spec fn status_text(s: Sequence) -> Seq<char> {
    or_empty(pending_text(s)) + "  \u{2022}  "@ + expected_text(s)
}

pub open spec fn pending(s: Sequence) -> (Sequence, IntentView) {
    (s, IntentView::Pending(status_text(s)))
}

/// An unexpected key: the sequence resets and the message quotes it.
pub open spec fn invalid(s: Sequence, key: Seq<char>) -> (Sequence, IntentView) {
    (
        cleared(s),
        IntentView::InvalidSequence(
            "Invalid Browser sequence: "@ + or_empty(pending_text(s)) + key,
        ),
    )
}

pub open spec fn key_text(p: PressView) -> Seq<char> {
    match p.text {
        Some(t) => t,
        None => "key"@,
    }
}

pub open spec fn typed(p: PressView, c: char) -> bool {
    p.text == Some(seq![c])
}

pub open spec fn typed_folded(p: PressView, c: char) -> bool {
    p.text matches Some(t) && lower_seq(t) == seq![c]
}

pub open spec fn digit_typed(p: PressView) -> Option<usize> {
    match p.text {
        Some(t) => if t.len() == 1 && '0' <= t[0] <= '9' {
            Some(((t[0] as u32) - 48) as usize)
        } else {
            None
        },
        None => None,
    }
}

pub open spec fn accumulate(prior: Option<usize>, digit: usize) -> usize {
    let base: int = match prior {
        Some(n) => n as int,
        None => 0,
    };
    let total = base * 10 + digit;
    if total > MAX_COUNT {
        MAX_COUNT
    } else {
        total as usize
    }
}

pub open spec fn unit(count: Option<usize>) -> usize {
    match count {
        Some(n) => n,
        None => 1,
    }
}

pub open spec fn counted(count: Option<usize>, whole: Motion) -> Motion {
    match count {
        Some(n) => Motion::DisplayIndex((n - 1) as usize),
        None => whole,
    }
}

pub open spec fn delete_target(t: Seq<char>) -> Option<DeleteMotion> {
    if t == seq!['d'] {
        Some(DeleteMotion::Current)
    } else if t == seq!['h'] {
        Some(DeleteMotion::Motion(Motion::Left))
    } else if t == seq!['j'] {
        Some(DeleteMotion::Motion(Motion::Down))
    } else if t == seq!['k'] {
        Some(DeleteMotion::Motion(Motion::Up))
    } else if t == seq!['l'] {
        Some(DeleteMotion::Motion(Motion::Right))
    } else if t == seq!['0'] {
        Some(DeleteMotion::Motion(Motion::RowStart))
    } else if t == seq!['$'] {
        Some(DeleteMotion::Motion(Motion::RowEnd))
    } else {
        None
    }
}

pub open spec fn standard_motion(named: NamedKey) -> Option<Motion> {
    match named {
        NamedKey::ArrowLeft => Some(Motion::Left),
        NamedKey::ArrowRight => Some(Motion::Right),
        NamedKey::ArrowUp => Some(Motion::Up),
        NamedKey::ArrowDown => Some(Motion::Down),
        NamedKey::Home => Some(Motion::First),
        NamedKey::End => Some(Motion::Last),
        _ => None,
    }
}

pub open spec fn sidebar_message() -> Seq<char> {
    "File operators are unavailable in the focused sidebar"@
}

/// Keys that arrive while a transfer conflict asks what to do.
pub open spec fn conflict_step(p: PressView) -> IntentView {
    if p.named == NamedKey::Escape {
        IntentView::ConflictCancel
    } else {
        match p.text {
            Some(t) => if t.len() == 1 && (t[0] == 'r' || t[0] == 's' || t[0] == 'k') {
                IntentView::ConflictChoice { key: t[0], remaining: false }
            } else if t.len() == 1 && (t[0] == 'R' || t[0] == 'S' || t[0] == 'K') {
                IntentView::ConflictChoice { key: lower(t[0]), remaining: true }
            } else {
                IntentView::NoAction
            },
            None => IntentView::NoAction,
        }
    }
}

/// Keys that arrive while a prompt is visible.
pub open spec fn prompt_step(p: PressView, c: Context) -> IntentView {
    if c.foreground_operation_active {
        IntentView::NoAction
    } else if p.named == NamedKey::Escape || (p.named == NamedKey::Backspace
        && c.bottom_input.spec_is_empty()) {
        IntentView::PromptCancel
    } else if c.prompt.spec_yes_no() && typed_folded(p, 'y') {
        IntentView::PromptConfirm
    } else if c.prompt.spec_yes_no() && typed_folded(p, 'n') {
        IntentView::PromptCancel
    } else if p.named == NamedKey::Enter && c.prompt.spec_accepts_enter() {
        IntentView::PromptConfirm
    } else {
        IntentView::NoAction
    }
}

pub open spec fn browse(s: Sequence) -> Sequence {
    Sequence { mode: Mode::Browser, ..s }
}

/// Keys that arrive while another input (search, command, ...) is open.
pub open spec fn mode_step(s: Sequence, p: PressView, c: Context) -> (Sequence, IntentView) {
    if s.mode == Mode::Command && p.named == NamedKey::Tab {
        (s, IntentView::CompleteCommand)
    } else if !(p.named == NamedKey::Escape || (p.named == NamedKey::Backspace
        && c.bottom_input.spec_is_empty())) {
        (s, IntentView::NoAction)
    } else {
        match s.mode {
            Mode::Search => (browse(s), IntentView::CancelSearch),
            Mode::Command => (browse(s), IntentView::CancelCommand),
            Mode::Rename => if !c.foreground_operation_active {
                (browse(s), IntentView::CancelRename)
            } else {
                (s, IntentView::NoAction)
            },
            Mode::OpenWith => (browse(s), IntentView::CancelOpenWith),
            Mode::Location => (browse(s), IntentView::CancelLocation),
            Mode::Browser => (s, IntentView::NoAction),
        }
    }
}

/// Escape in the Browser: the innermost pending state is cancelled first.
pub open spec fn escape_step(s: Sequence, c: Context) -> (Sequence, IntentView) {
    if c.command_output {
        (s, IntentView::CloseCommandOutput)
    } else if c.visual_active {
        (s, IntentView::CancelVisual)
    } else if c.pending_cut {
        (s, IntentView::CancelCut)
    } else if pending_text(s) is Some {
        (cleared(s), IntentView::Pending("Browser sequence cancelled"@))
    } else if c.navigation_pending {
        (s, IntentView::CancelNavigation)
    } else {
        (s, IntentView::NoAction)
    }
}

/// Control shortcuts: they drop any pending sequence but keep its count.
pub open spec fn control_step(s: Sequence, p: PressView) -> (Sequence, IntentView) {
    let count = unit(s.count);
    let r = cleared(s);
    if typed_folded(p, 'c') {
        (r, IntentView::Copy)
    } else if typed_folded(p, 'a') {
        (r, IntentView::SelectAll)
    } else if typed_folded(p, 'l') {
        (r, IntentView::BeginLocation)
    } else if typed_folded(p, 'v') {
        (r, IntentView::Paste)
    } else if typed_folded(p, 'o') {
        (r, IntentView::Back)
    } else if typed_folded(p, 'i') {
        (r, IntentView::Forward)
    } else if typed_folded(p, 'r') {
        (r, IntentView::Redo)
    } else if typed_folded(p, 'd') {
        (r, IntentView::Move(Motion::HalfPageDown, count))
    } else if typed_folded(p, 'u') {
        (r, IntentView::Move(Motion::HalfPageUp, count))
    } else if typed_folded(p, 'w') {
        pending(Sequence { window_pending: true, ..r })
    } else {
        (r, IntentView::NoAction)
    }
}

/// A digit extends the motion count of a pending delete, or the count.
pub open spec fn digit_step(s: Sequence, p: PressView, d: usize) -> (Sequence, IntentView) {
    match s.delete_pending {
        Some((op, mc, bh)) => pending(
            Sequence { delete_pending: Some((op, Some(accumulate(mc, d)), bh)), ..s },
        ),
        None => if s.g_pending {
            invalid(s, key_text(p))
        } else {
            pending(Sequence { count: Some(accumulate(s.count, d)), ..s })
        },
    }
}

/// The second key after `"`: `_`, then `x` or `d`.
pub open spec fn black_hole_step(s: Sequence, p: PressView, c: Context) -> (Sequence, IntentView) {
    if s.black_hole_stage == 1 && typed(p, '_') {
        pending(Sequence { black_hole_stage: 2, ..s })
    } else if s.black_hole_stage == 2 && typed(p, 'x') && c.file_operators_allowed {
        (cleared(s), IntentView::Trash)
    } else if s.black_hole_stage == 2 && typed(p, 'd') && c.file_operators_allowed
        && c.has_selection {
        pending(
            Sequence {
                count: None,
                black_hole_stage: 0,
                delete_pending: Some((unit(s.count), None, true)),
                ..s
            },
        )
    } else if s.black_hole_stage == 2 && (typed(p, 'x') || typed(p, 'd')) {
        (cleared(s), IntentView::InvalidSequence(sidebar_message()))
    } else {
        invalid(s, key_text(p))
    }
}

/// The motion after a delete operator.
pub open spec fn delete_step(
    s: Sequence,
    p: PressView,
    op: usize,
    mc: Option<usize>,
    black_hole: bool,
) -> (Sequence, IntentView) {
    let s1 = Sequence { delete_pending: None, ..s };
    let motion_count = unit(mc);
    let total: int = op * motion_count;
    let count: usize = if total > MAX_COUNT {
        MAX_COUNT
    } else {
        total as usize
    };
    match p.text {
        Some(t) => match delete_target(t) {
            Some(m) => if black_hole {
                (s1, IntentView::TrashMotion(m, count))
            } else {
                (s1, IntentView::CutMotion(m, count))
            },
            None => invalid(s1, key_text(p)),
        },
        None => invalid(s1, key_text(p)),
    }
}

/// Plain keys with no prefix pending; the count is consumed.
pub open spec fn plain_step(s: Sequence, p: PressView, c: Context) -> (Sequence, IntentView) {
    let count = s.count;
    let s1 = Sequence { count: None, ..s };
    let ops = c.file_operators_allowed;
    if typed(p, '/') {
        (s1, IntentView::BeginSearch)
    } else if typed(p, '!') {
        (s1, IntentView::BeginCommand('!'))
    } else if typed(p, ':') {
        (s1, IntentView::BeginCommand(':'))
    } else if typed(p, 'n') {
        (s1, IntentView::RepeatSearch(false))
    } else if typed(p, 'N') {
        (s1, IntentView::RepeatSearch(true))
    } else if typed(p, 'u') {
        (s1, IntentView::Undo)
    } else if typed(p, 'r') {
        (s1, IntentView::Rename)
    } else if typed(p, 'y') && ops {
        (s1, IntentView::Copy)
    } else if typed(p, 'p') {
        (s1, IntentView::Paste)
    } else if typed(p, 'v') {
        (s1, IntentView::ToggleVisual)
    } else if typed(p, 'x') && ops {
        (s1, IntentView::Cut)
    } else if typed(p, 'd') && ops && (c.visual_active || c.selection_count > 1) {
        (s1, IntentView::Cut)
    } else if typed(p, 'd') && ops && c.has_selection {
        pending(Sequence { delete_pending: Some((unit(count), None, false)), ..s1 })
    } else if typed(p, '"') {
        pending(Sequence { black_hole_stage: 1, ..s })
    } else if typed(p, 'y') || typed(p, 'x') || typed(p, 'd') {
        (s1, IntentView::InvalidSequence(sidebar_message()))
    } else if typed(p, 'g') {
        pending(Sequence { g_pending: true, ..s })
    } else if typed(p, 'G') {
        (s1, IntentView::Move(counted(count, Motion::Last), 1))
    } else if typed(p, 'H') {
        (s1, IntentView::Move(Motion::ViewportTop, unit(count)))
    } else if typed(p, 'M') {
        (s1, IntentView::Move(Motion::ViewportMiddle, unit(count)))
    } else if typed(p, 'L') {
        (s1, IntentView::Move(Motion::ViewportBottom, unit(count)))
    } else if typed(p, 'h') {
        (s1, IntentView::Move(Motion::Left, unit(count)))
    } else if typed(p, 'j') {
        (s1, IntentView::Move(Motion::Down, unit(count)))
    } else if typed(p, 'k') {
        (s1, IntentView::Move(Motion::Up, unit(count)))
    } else if typed(p, 'l') {
        (s1, IntentView::Move(Motion::Right, unit(count)))
    } else if typed(p, '0') {
        (s1, IntentView::Move(Motion::RowStart, 1))
    } else if typed(p, '$') {
        (s1, IntentView::Move(Motion::RowEnd, 1))
    } else if p.named == NamedKey::Enter {
        (s1, IntentView::Activate)
    } else if p.named == NamedKey::Backspace {
        (s1, IntentView::Parent)
    } else if p.named == NamedKey::Delete && ops {
        (s1, IntentView::Trash)
    } else if count is Some {
        invalid(s, key_text(p))
    } else {
        (s1, IntentView::NoAction)
    }
}

/// The Browser grammar once no prompt, conflict or other input owns the key.
pub open spec fn browser_step(s: Sequence, p: PressView, c: Context) -> (Sequence, IntentView) {
    if c.command_output && !p.control && !p.alt && !p.logo && typed_folded(p, 'y') {
        (cleared(s), IntentView::CopyCommandOutput)
    } else if p.named == NamedKey::Escape {
        escape_step(s, c)
    } else if p.named == NamedKey::Refresh {
        (cleared(s), IntentView::Refresh)
    } else if p.named == NamedKey::Tab {
        (cleared(s), IntentView::MoveFocus { reverse: p.shift })
    } else if c.foreground_operation_active {
        (s, IntentView::NoAction)
    } else if s.window_pending {
        if !p.control && !p.alt && !p.logo && typed(p, 'e') {
            (cleared(s), IntentView::ToggleTree)
        } else {
            invalid(s, key_text(p))
        }
    } else if p.control && !p.alt && !p.logo {
        control_step(s, p)
    } else if standard_motion(p.named) is Some {
        (s, IntentView::StandardMove { motion: standard_motion(p.named)->0, extend: p.shift })
    } else if p.named == NamedKey::Space {
        (s, IntentView::ToggleActive)
    } else if digit_typed(p) is Some && (digit_typed(p)->0 != 0 || s.count is Some
        || s.delete_pending is Some) {
        digit_step(s, p, digit_typed(p)->0)
    } else if s.g_pending {
        if typed(p, 'g') {
            (
                Sequence { count: None, g_pending: false, ..s },
                IntentView::Move(counted(s.count, Motion::First), 1),
            )
        } else {
            invalid(s, key_text(p))
        }
    } else if s.black_hole_stage > 0 {
        black_hole_step(s, p, c)
    } else {
        match s.delete_pending {
            Some((op, mc, bh)) => delete_step(s, p, op, mc, bh),
            None => plain_step(s, p, c),
        }
    }
}

/// The whole grammar: transfer conflicts first, then prompts, then other
/// inputs, then the Browser.
pub open spec fn step(s: Sequence, p: PressView, c: Context) -> (Sequence, IntentView) {
    if c.transfer_conflict {
        (s, conflict_step(p))
    } else if c.prompt.spec_active() {
        (s, prompt_step(p, c))
    } else if s.mode != Mode::Browser {
        mode_step(s, p, c)
    } else {
        browser_step(s, p, c)
    }
}

pub open spec fn opt_chars(o: Option<Vec<char>>) -> Option<Seq<char>> {
    match o {
        Some(v) => Some(v@),
        None => None,
    }
}

/// The Browser key interpreter.
#[derive(Debug)]
pub struct BrowserInput {
    mode: Mode,
    count: Option<usize>,
    g_pending: bool,
    window_pending: bool,
    delete_pending: Option<(usize, Option<usize>, bool)>,
    black_hole_stage: u8,
}

impl View for BrowserInput {
    type V = Sequence;

    closed spec fn view(&self) -> Sequence {
        Sequence {
            mode: self.mode,
            count: self.count,
            g_pending: self.g_pending,
            window_pending: self.window_pending,
            delete_pending: self.delete_pending,
            black_hole_stage: self.black_hole_stage,
        }
    }
}

impl Default for BrowserInput {
    fn default() -> (r: Self)
        ensures
            r@ == cleared(Sequence {
                mode: Mode::Browser,
                count: None,
                g_pending: false,
                window_pending: false,
                delete_pending: None,
                black_hole_stage: 0,
            }),
    {
        BrowserInput::new()
    }
}

impl BrowserInput {
    #[verifier::type_invariant]
    closed spec fn inv(self) -> bool {
        self@.well_formed()
    }

    /// A Browser input with nothing pending.
    pub fn new() -> (r: Self)
        ensures
            r@.mode == Mode::Browser,
            r@ == cleared(r@),
    {
        BrowserInput {
            mode: Mode::Browser,
            count: None,
            g_pending: false,
            window_pending: false,
            delete_pending: None,
            black_hole_stage: 0,
        }
    }

    pub fn mode(&self) -> (r: Mode)
        ensures
            r == self@.mode,
    {
        self.mode
    }

    /// Opening another input drops any pending Browser sequence.
    pub fn enter(&mut self, mode: Mode)
        ensures
            final(self)@ == (if mode != Mode::Browser {
                cleared(Sequence { mode, ..old(self)@ })
            } else {
                Sequence { mode, ..old(self)@ }
            }),
    {
        proof {
            use_type_invariant(&*self);
        }
        self.mode = mode;
        if !matches!(mode, Mode::Browser) {
            self.clear_sequence();
        }
    }

    pub fn leave_mode(&mut self)
        ensures
            final(self)@ == browse(old(self)@),
    {
        proof {
            use_type_invariant(&*self);
        }
        self.mode = Mode::Browser;
    }

    /// Whether a delete operator waits for its motion.
    pub fn delete_pending(&self) -> (r: bool)
        ensures
            r == (self@.delete_pending is Some),
    {
        self.delete_pending.is_some()
    }

    pub fn clear_sequence(&mut self)
        ensures
            final(self)@ == cleared(old(self)@),
    {
        proof {
            use_type_invariant(&*self);
        }
        self.count = None;
        self.g_pending = false;
        self.window_pending = false;
        self.delete_pending = None;
        self.black_hole_stage = 0;
    }

    fn pending_chars(&self) -> (r: Option<Vec<char>>)
        ensures
            opt_chars(r) == pending_text(self@),
    {
        proof {
            use_type_invariant(self);
        }
        if let Some((operator_count, motion_count, black_hole)) = self.delete_pending {
            let mut v: Vec<char> = Vec::new();
            if black_hole {
                push_str(&mut v, "\"_");
            }
            if operator_count > 1 {
                push_decimal(&mut v, operator_count);
            }
            v.push('d');
            if let Some(m) = motion_count {
                push_decimal(&mut v, m);
            }
            proof {
                let e = Seq::<char>::empty();
                let a = if black_hole { "\"_"@ } else { e };
                let b = if operator_count > 1 { decimal(operator_count as nat) } else { e };
                assert(v@ =~= a + b + seq!['d'] + opt_decimal(motion_count));
            }
            Some(v)
        } else if self.black_hole_stage > 0 {
            let mut v: Vec<char> = Vec::new();
            if self.black_hole_stage == 1 {
                push_str(&mut v, "\"");
            } else {
                push_str(&mut v, "\"_");
            }
            assert(v@ =~= (if self.black_hole_stage == 1 { "\""@ } else { "\"_"@ }));
            Some(v)
        } else if self.window_pending {
            let mut v: Vec<char> = Vec::new();
            push_str(&mut v, "Ctrl+W");
            assert(v@ =~= "Ctrl+W"@);
            Some(v)
        } else if self.g_pending {
            let mut v: Vec<char> = Vec::new();
            if let Some(c) = self.count {
                push_decimal(&mut v, c);
            }
            v.push('g');
            assert(v@ =~= opt_decimal(self.count) + seq!['g']);
            Some(v)
        } else {
            match self.count {
                Some(c) => {
                    let mut v: Vec<char> = Vec::new();
                    push_decimal(&mut v, c);
                    assert(v@ =~= decimal(c as nat));
                    Some(v)
                },
                None => None,
            }
        }
    }

    /// The partly typed sequence, as the status line shows it.
    pub fn pending_sequence(&self) -> (r: Option<String>)
        ensures
            r.deep_view() == pending_text(self@),
    {
        match self.pending_chars() {
            Some(v) => Some(string_of(v.as_slice())),
            None => None,
        }
    }

    /// The status line for the pending sequence.
    pub fn pending_status(&self) -> (r: String)
        ensures
            r@ == status_text(self@),
    {
        let mut v: Vec<char> = match self.pending_chars() {
            Some(v) => v,
            None => Vec::new(),
        };
        push_str(&mut v, "  \u{2022}  ");
        if self.delete_pending.is_some() {
            push_str(&mut v, "awaiting motion: 0, $, h, j, k, l, or d");
        } else if self.black_hole_stage == 1 {
            push_str(&mut v, "awaiting _");
        } else if self.black_hole_stage == 2 {
            push_str(&mut v, "awaiting d or x");
        } else if self.window_pending {
            push_str(&mut v, "awaiting e");
        } else if self.g_pending {
            push_str(&mut v, "awaiting g");
        } else {
            push_str(&mut v, "awaiting motion or operator");
        }
        assert(v@ =~= status_text(self@));
        string_of(v.as_slice())
    }

    fn pending_intent(&self) -> (r: Intent)
        ensures
            r@ == pending(self@).1,
    {
        Intent::Pending(self.pending_status())
    }

    /// Appends a typed digit to the count, saturating at `MAX_COUNT`. A
    /// leading zero is a motion, not a count, so it never reaches here.
    fn push_count(&mut self, digit: usize)
        requires
            digit != 0 || old(self)@.count is Some,
        ensures
            final(self)@ == (Sequence { count: Some(accumulate(old(self)@.count, digit)), ..old(self)@ }),
    {
        proof {
            use_type_invariant(&*self);
        }
        let count: usize = match self.count {
            Some(c) => c,
            None => 0,
        };
        let scaled: usize = count * 10;
        let total: usize = if digit > MAX_COUNT {
            MAX_COUNT
        } else {
            scaled + digit
        };
        self.count = Some(if total > MAX_COUNT { MAX_COUNT } else { total });
    }

    fn has_pending(&self) -> (r: bool)
        ensures
            r == (pending_text(self@) is Some),
    {
        self.delete_pending.is_some() || self.black_hole_stage > 0 || self.window_pending
            || self.g_pending || self.count.is_some()
    }

    /// Interprets one key press.
    pub fn handle(&mut self, press: Press, context: Context) -> (intent: Intent)
        ensures
            (final(self)@, intent@) == step(old(self)@, press@, context),
            final(self)@.well_formed(),
    {
        proof {
            use_type_invariant(&*self);
        }
        let text: Option<Vec<char>> = match &press.text {
            Some(t) => Some(chars_of(t.as_str())),
            None => None,
        };
        assert(opt_chars(text) == press@.text);
        let r = if context.transfer_conflict {
            conflict_intent(&press, &text)
        } else if context.prompt.is_active() {
            prompt_intent(&press, &text, context)
        } else if !matches!(self.mode, Mode::Browser) {
            self.handle_mode(&press, context)
        } else {
            self.handle_browser(&press, &text, context)
        };
        proof {
            use_type_invariant(&*self);
        }
        r
    }

    fn handle_mode(&mut self, press: &Press, context: Context) -> (r: Intent)
        ensures
            (final(self)@, r@) == mode_step(old(self)@, press@, context),
    {
        proof {
            use_type_invariant(&*self);
        }
        if matches!(self.mode, Mode::Command) && press.named == NamedKey::Tab {
            return Intent::CompleteCommand;
        }
        let cancel = press.named == NamedKey::Escape || (press.named == NamedKey::Backspace
            && context.bottom_input.is_empty());
        if !cancel {
            return Intent::NoAction;
        }
        match self.mode {
            Mode::Search => {
                self.leave_mode();
                Intent::CancelSearch
            },
            Mode::Command => {
                self.leave_mode();
                Intent::CancelCommand
            },
            Mode::Rename => {
                if !context.foreground_operation_active {
                    self.leave_mode();
                    Intent::CancelRename
                } else {
                    Intent::NoAction
                }
            },
            Mode::OpenWith => {
                self.leave_mode();
                Intent::CancelOpenWith
            },
            Mode::Location => {
                self.leave_mode();
                Intent::CancelLocation
            },
            Mode::Browser => Intent::NoAction,
        }
    }

    fn invalid_key(&mut self, text: &Option<Vec<char>>) -> (r: Intent)
        ensures
            (final(self)@, r@) == invalid(
                old(self)@,
                match opt_chars(*text) {
                    Some(t) => t,
                    None => "key"@,
                },
            ),
    {
        let k = key_chars(text);
        let key = string_of(k.as_slice());
        self.invalid_sequence(key.as_str())
    }

    fn handle_browser(&mut self, press: &Press, text: &Option<Vec<char>>, context: Context) -> (r: Intent)
        requires
            opt_chars(*text) == press@.text,
        ensures
            (final(self)@, r@) == browser_step(old(self)@, press@, context),
    {
        proof {
            use_type_invariant(&*self);
        }
        if context.command_output && !press.control && !press.alt && !press.logo
            && typed_folded_char(text, 'y') {
            self.clear_sequence();
            return Intent::CopyCommandOutput;
        }
        if press.named == NamedKey::Escape {
            return self.escape(context);
        }
        if press.named == NamedKey::Refresh {
            self.clear_sequence();
            return Intent::Refresh;
        }
        if press.named == NamedKey::Tab {
            self.clear_sequence();
            return Intent::MoveFocus { reverse: press.shift };
        }
        if context.foreground_operation_active {
            return Intent::NoAction;
        }
        if self.window_pending {
            if !press.control && !press.alt && !press.logo && typed_char(text, 'e') {
                self.clear_sequence();
                return Intent::ToggleTree;
            }
            return self.invalid_key(text);
        }
        if press.control && !press.alt && !press.logo {
            return self.control(press, text);
        }
        if let Some(motion) = standard(press.named) {
            return Intent::StandardMove { motion, extend: press.shift };
        }
        if press.named == NamedKey::Space {
            return Intent::ToggleActive;
        }
        if let Some(d) = typed_digit(text) {
            if d != 0 || self.count.is_some() || self.delete_pending.is_some() {
                return self.digit(press, text, d);
            }
        }
        if self.g_pending {
            if typed_char(text, 'g') {
                let count = self.count;
                self.count = None;
                self.g_pending = false;
                return Intent::Move(counted_motion(count, Motion::First), 1);
            }
            return self.invalid_key(text);
        }
        if self.black_hole_stage > 0 {
            return self.black_hole(press, text, context);
        }
        match self.delete_pending {
            Some((op, mc, bh)) => self.apply_delete(press, text, op, mc, bh),
            None => self.plain(press, text, context),
        }
    }

    fn escape(&mut self, context: Context) -> (r: Intent)
        ensures
            (final(self)@, r@) == escape_step(old(self)@, context),
    {
        if context.command_output {
            Intent::CloseCommandOutput
        } else if context.visual_active {
            Intent::CancelVisual
        } else if context.pending_cut {
            Intent::CancelCut
        } else if self.has_pending() {
            self.clear_sequence();
            Intent::Pending(String::from_str("Browser sequence cancelled"))
        } else if context.navigation_pending {
            Intent::CancelNavigation
        } else {
            Intent::NoAction
        }
    }

    fn control(&mut self, press: &Press, text: &Option<Vec<char>>) -> (r: Intent)
        requires
            opt_chars(*text) == press@.text,
        ensures
            (final(self)@, r@) == control_step(old(self)@, press@),
    {
        let count = unit_of(self.count);
        self.clear_sequence();
        if typed_folded_char(text, 'c') {
            Intent::Copy
        } else if typed_folded_char(text, 'a') {
            Intent::SelectAll
        } else if typed_folded_char(text, 'l') {
            Intent::BeginLocation
        } else if typed_folded_char(text, 'v') {
            Intent::Paste
        } else if typed_folded_char(text, 'o') {
            Intent::Back
        } else if typed_folded_char(text, 'i') {
            Intent::Forward
        } else if typed_folded_char(text, 'r') {
            Intent::Redo
        } else if typed_folded_char(text, 'd') {
            Intent::Move(Motion::HalfPageDown, count)
        } else if typed_folded_char(text, 'u') {
            Intent::Move(Motion::HalfPageUp, count)
        } else if typed_folded_char(text, 'w') {
            self.window_pending = true;
            self.pending_intent()
        } else {
            Intent::NoAction
        }
    }

    fn digit(&mut self, press: &Press, text: &Option<Vec<char>>, d: usize) -> (r: Intent)
        requires
            d <= 9,
            opt_chars(*text) == press@.text,
            d != 0 || old(self)@.count is Some || old(self)@.delete_pending is Some,
        ensures
            (final(self)@, r@) == digit_step(old(self)@, press@, d),
    {
        proof {
            use_type_invariant(&*self);
        }
        if let Some((op, mc, bh)) = self.delete_pending {
            let base: usize = match mc {
                Some(m) => m,
                None => 0,
            };
            let total: usize = base * 10 + d;
            let m2: usize = if total > MAX_COUNT { MAX_COUNT } else { total };
            self.delete_pending = Some((op, Some(m2), bh));
            self.pending_intent()
        } else if self.g_pending {
            self.invalid_key(text)
        } else {
            self.push_count(d);
            self.pending_intent()
        }
    }

    fn black_hole(&mut self, press: &Press, text: &Option<Vec<char>>, context: Context) -> (r: Intent)
        requires
            opt_chars(*text) == press@.text,
        ensures
            (final(self)@, r@) == black_hole_step(old(self)@, press@, context),
    {
        proof {
            use_type_invariant(&*self);
        }
        if self.black_hole_stage == 1 && typed_char(text, '_') {
            self.black_hole_stage = 2;
            return self.pending_intent();
        }
        if self.black_hole_stage == 2 && typed_char(text, 'x') && context.file_operators_allowed {
            self.clear_sequence();
            return Intent::Trash;
        }
        if self.black_hole_stage == 2 && typed_char(text, 'd') && context.file_operators_allowed
            && context.has_selection {
            let count = unit_of(self.count);
            self.count = None;
            self.black_hole_stage = 0;
            self.delete_pending = Some((count, None, true));
            return self.pending_intent();
        }
        if self.black_hole_stage == 2 && (typed_char(text, 'x') || typed_char(text, 'd')) {
            self.clear_sequence();
            return sidebar_intent();
        }
        self.invalid_key(text)
    }

    fn apply_delete(
        &mut self,
        press: &Press,
        text: &Option<Vec<char>>,
        op: usize,
        mc: Option<usize>,
        bh: bool,
    ) -> (r: Intent)
        requires
            opt_chars(*text) == press@.text,
            old(self)@.delete_pending == Some((op, mc, bh)),
        ensures
            (final(self)@, r@) == delete_step(old(self)@, press@, op, mc, bh),
    {
        proof {
            use_type_invariant(&*self);
        }
        self.delete_pending = None;
        let motion_count: usize = match mc {
            Some(m) => m,
            None => 1,
        };
        assert((op as int) * (motion_count as int) <= 100000000) by (nonlinear_arith)
            requires
                op <= 10000,
                motion_count <= 10000,
        ;
        let total: u64 = (op as u64) * (motion_count as u64);
        let count: usize = if total > 10000 { MAX_COUNT } else { total as usize };
        match delete_motion_of(text) {
            Some(m) => if bh {
                Intent::TrashMotion(m, count)
            } else {
                Intent::CutMotion(m, count)
            },
            None => self.invalid_key(text),
        }
    }

    fn plain(&mut self, press: &Press, text: &Option<Vec<char>>, context: Context) -> (r: Intent)
        requires
            opt_chars(*text) == press@.text,
            old(self)@.delete_pending is None,
            old(self)@.black_hole_stage == 0,
        ensures
            (final(self)@, r@) == plain_step(old(self)@, press@, context),
    {
        proof {
            use_type_invariant(&*self);
        }
        let count = self.count;
        self.count = None;
        let ops = context.file_operators_allowed;
        if typed_char(text, '/') {
            Intent::BeginSearch
        } else if typed_char(text, '!') {
            Intent::BeginCommand('!')
        } else if typed_char(text, ':') {
            Intent::BeginCommand(':')
        } else if typed_char(text, 'n') {
            Intent::RepeatSearch(false)
        } else if typed_char(text, 'N') {
            Intent::RepeatSearch(true)
        } else if typed_char(text, 'u') {
            Intent::Undo
        } else if typed_char(text, 'r') {
            Intent::Rename
        } else if typed_char(text, 'y') && ops {
            Intent::Copy
        } else if typed_char(text, 'p') {
            Intent::Paste
        } else if typed_char(text, 'v') {
            Intent::ToggleVisual
        } else if typed_char(text, 'x') && ops {
            Intent::Cut
        } else if typed_char(text, 'd') && ops && (context.visual_active
            || context.selection_count > 1) {
            Intent::Cut
        } else if typed_char(text, 'd') && ops && context.has_selection {
            self.delete_pending = Some((unit_of(count), None, false));
            self.pending_intent()
        } else if typed_char(text, '"') {
            self.count = count;
            self.black_hole_stage = 1;
            self.pending_intent()
        } else if typed_char(text, 'y') || typed_char(text, 'x') || typed_char(text, 'd') {
            sidebar_intent()
        } else if typed_char(text, 'g') {
            self.count = count;
            self.g_pending = true;
            self.pending_intent()
        } else if typed_char(text, 'G') {
            Intent::Move(counted_motion(count, Motion::Last), 1)
        } else if typed_char(text, 'H') {
            Intent::Move(Motion::ViewportTop, unit_of(count))
        } else if typed_char(text, 'M') {
            Intent::Move(Motion::ViewportMiddle, unit_of(count))
        } else if typed_char(text, 'L') {
            Intent::Move(Motion::ViewportBottom, unit_of(count))
        } else if typed_char(text, 'h') {
            Intent::Move(Motion::Left, unit_of(count))
        } else if typed_char(text, 'j') {
            Intent::Move(Motion::Down, unit_of(count))
        } else if typed_char(text, 'k') {
            Intent::Move(Motion::Up, unit_of(count))
        } else if typed_char(text, 'l') {
            Intent::Move(Motion::Right, unit_of(count))
        } else if typed_char(text, '0') {
            Intent::Move(Motion::RowStart, 1)
        } else if typed_char(text, '$') {
            Intent::Move(Motion::RowEnd, 1)
        } else if press.named == NamedKey::Enter {
            Intent::Activate
        } else if press.named == NamedKey::Backspace {
            Intent::Parent
        } else if press.named == NamedKey::Delete && ops {
            Intent::Trash
        } else if count.is_some() {
            self.count = count;
            self.invalid_key(text)
        } else {
            Intent::NoAction
        }
    }

    /// Resets the sequence and reports `key` as unexpected.
    pub fn invalid_sequence(&mut self, key: &str) -> (r: Intent)
        ensures
            (final(self)@, r@) == invalid(old(self)@, key@),
    {
        proof {
            use_type_invariant(&*self);
        }
        let mut v: Vec<char> = Vec::new();
        push_str(&mut v, "Invalid Browser sequence: ");
        if let Some(p) = self.pending_chars() {
            push_chars(&mut v, p.as_slice());
        }
        push_str(&mut v, key);
        assert(v@ =~= "Invalid Browser sequence: "@ + or_empty(pending_text(old(self)@)) + key@);
        self.clear_sequence();
        Intent::InvalidSequence(string_of(v.as_slice()))
    }
}

fn unit_of(count: Option<usize>) -> (r: usize)
    ensures
        r == unit(count),
{
    match count {
        Some(n) => n,
        None => 1,
    }
}

fn counted_motion(count: Option<usize>, whole: Motion) -> (r: Motion)
    requires
        count matches Some(n) ==> n >= 1,
    ensures
        r == counted(count, whole),
{
    match count {
        Some(n) => Motion::DisplayIndex(n - 1),
        None => whole,
    }
}

fn standard(named: NamedKey) -> (r: Option<Motion>)
    ensures
        r == standard_motion(named),
{
    match named {
        NamedKey::ArrowLeft => Some(Motion::Left),
        NamedKey::ArrowRight => Some(Motion::Right),
        NamedKey::ArrowUp => Some(Motion::Up),
        NamedKey::ArrowDown => Some(Motion::Down),
        NamedKey::Home => Some(Motion::First),
        NamedKey::End => Some(Motion::Last),
        _ => None,
    }
}

fn conflict_intent(press: &Press, text: &Option<Vec<char>>) -> (r: Intent)
    requires
        opt_chars(*text) == press@.text,
    ensures
        r@ == conflict_step(press@),
{
    if press.named == NamedKey::Escape {
        return Intent::ConflictCancel;
    }
    match text {
        Some(v) => {
            if v.len() == 1 && (v[0] == 'r' || v[0] == 's' || v[0] == 'k') {
                Intent::ConflictChoice { key: v[0], remaining: false }
            } else if v.len() == 1 && (v[0] == 'R' || v[0] == 'S' || v[0] == 'K') {
                Intent::ConflictChoice { key: ascii_lower(v[0]), remaining: true }
            } else {
                Intent::NoAction
            }
        },
        None => Intent::NoAction,
    }
}

fn prompt_intent(press: &Press, text: &Option<Vec<char>>, context: Context) -> (r: Intent)
    requires
        opt_chars(*text) == press@.text,
    ensures
        r@ == prompt_step(press@, context),
{
    if context.foreground_operation_active {
        Intent::NoAction
    } else if press.named == NamedKey::Escape || (press.named == NamedKey::Backspace
        && context.bottom_input.is_empty()) {
        Intent::PromptCancel
    } else if context.prompt.uses_yes_no() && typed_folded_char(text, 'y') {
        Intent::PromptConfirm
    } else if context.prompt.uses_yes_no() && typed_folded_char(text, 'n') {
        Intent::PromptCancel
    } else if press.named == NamedKey::Enter && context.prompt.accepts_enter() {
        Intent::PromptConfirm
    } else {
        Intent::NoAction
    }
}

fn typed_char(text: &Option<Vec<char>>, c: char) -> (r: bool)
    ensures
        r == (opt_chars(*text) == Some(seq![c])),
{
    match text {
        Some(v) => {
            if v.len() == 1 && v[0] == c {
                assert(v@ =~= seq![c]);
                true
            } else {
                proof {
                    if v@ == seq![c] {
                        assert(v@[0] == c);
                    }
                }
                false
            }
        },
        None => false,
    }
}

fn typed_folded_char(text: &Option<Vec<char>>, c: char) -> (r: bool)
    ensures
        r == (opt_chars(*text) matches Some(t) && lower_seq(t) == seq![c]),
{
    match text {
        Some(v) => {
            if v.len() == 1 && ascii_lower(v[0]) == c {
                assert(lower_seq(v@) =~= seq![c]);
                true
            } else {
                proof {
                    if lower_seq(v@) == seq![c] {
                        assert(lower_seq(v@).len() == v@.len());
                        assert(lower_seq(v@)[0] == lower(v@[0]));
                    }
                }
                false
            }
        },
        None => false,
    }
}

fn key_chars(text: &Option<Vec<char>>) -> (r: Vec<char>)
    ensures
        r@ == (match opt_chars(*text) {
            Some(t) => t,
            None => "key"@,
        }),
{
    match text {
        Some(v) => slice_chars(v.as_slice(), 0, v.len()),
        None => chars_of("key"),
    }
}

fn typed_digit(text: &Option<Vec<char>>) -> (r: Option<usize>)
    ensures
        r == (match opt_chars(*text) {
            Some(t) => if t.len() == 1 && '0' <= t[0] <= '9' {
                Some(((t[0] as u32) - 48) as usize)
            } else {
                None
            },
            None => None,
        }),
{
    match text {
        Some(v) => {
            if v.len() == 1 && '0' <= v[0] && v[0] <= '9' {
                let d: u32 = (v[0] as u32) - 48;
                Some(d as usize)
            } else {
                None
            }
        },
        None => None,
    }
}

fn delete_motion_of(text: &Option<Vec<char>>) -> (r: Option<DeleteMotion>)
    ensures
        r == (match opt_chars(*text) {
            Some(t) => delete_target(t),
            None => None,
        }),
{
    if typed_char(text, 'd') {
        Some(DeleteMotion::Current)
    } else if typed_char(text, 'h') {
        Some(DeleteMotion::Motion(Motion::Left))
    } else if typed_char(text, 'j') {
        Some(DeleteMotion::Motion(Motion::Down))
    } else if typed_char(text, 'k') {
        Some(DeleteMotion::Motion(Motion::Up))
    } else if typed_char(text, 'l') {
        Some(DeleteMotion::Motion(Motion::Right))
    } else if typed_char(text, '0') {
        Some(DeleteMotion::Motion(Motion::RowStart))
    } else if typed_char(text, '$') {
        Some(DeleteMotion::Motion(Motion::RowEnd))
    } else {
        None
    }
}

/// The motion that a key names after the delete operator.
pub fn delete_motion(text: &str) -> (r: Option<DeleteMotion>)
    ensures
        r == delete_target(text@),
{
    let key = Some(chars_of(text));
    delete_motion_of(&key)
}

fn sidebar_intent() -> (r: Intent)
    ensures
        r@ == IntentView::InvalidSequence(sidebar_message()),
{
    Intent::InvalidSequence(String::from_str("File operators are unavailable in the focused sidebar"))
}


// ------------------------------------------------------------------ laws

/// Whatever key arrives, the sequence stays well formed: counts stay
/// between 1 and `MAX_COUNT` and the `"_` prefix has at most two stages.
pub proof fn lemma_step_keeps_well_formed(s: Sequence, p: PressView, c: Context)
    requires
        s.well_formed(),
    ensures
        step(s, p, c).0.well_formed(),
{
    if s.delete_pending is Some {
        let (op, mc, bh) = s.delete_pending->0;
        assert(unit(mc) <= MAX_COUNT);
    }
}

/// A transfer conflict or a visible prompt owns every key: the sequence is
/// left exactly as it was.
pub proof fn lemma_prompts_and_conflicts_keep_the_sequence(s: Sequence, p: PressView, c: Context)
    requires
        c.transfer_conflict || c.prompt.spec_active(),
    ensures
        step(s, p, c).0 == s,
{
}

/// Whenever a key is rejected as an invalid sequence, nothing stays
/// pending: the next key starts a fresh sequence.
pub proof fn lemma_invalid_input_resets(s: Sequence, p: PressView, c: Context)
    requires
        s.well_formed(),
        step(s, p, c).1 is InvalidSequence,
    ensures
        step(s, p, c).0 == cleared(s),
        pending_text(step(s, p, c).0) is None,
{
}

/// Escape in the Browser cancels a pending sequence before anything
/// outside the key grammar, unless the command output, a visual selection
/// or a pending cut is there to close first.
pub proof fn lemma_escape_cancels_the_pending_sequence(s: Sequence, p: PressView, c: Context)
    requires
        !c.transfer_conflict,
        !c.prompt.spec_active(),
        s.mode == Mode::Browser,
        p.named == NamedKey::Escape,
        !c.command_output,
        !c.visual_active,
        !c.pending_cut,
        pending_text(s) is Some,
    ensures
        step(s, p, c) == (cleared(s), IntentView::Pending("Browser sequence cancelled"@)),
{
}

/// With nothing pending in the Browser, Escape cancels the navigation in
/// flight.
pub proof fn lemma_plain_escape_cancels_navigation(s: Sequence, p: PressView, c: Context)
    requires
        !c.transfer_conflict,
        !c.prompt.spec_active(),
        s.mode == Mode::Browser,
        p.named == NamedKey::Escape,
        !c.command_output,
        !c.visual_active,
        !c.pending_cut,
        pending_text(s) is None,
        c.navigation_pending,
    ensures
        step(s, p, c) == (s, IntentView::CancelNavigation),
{
}

/// Tab completes a command only in the command prompt; in the Browser it
/// moves the focus (Shift+Tab backwards) and drops any pending sequence.
pub proof fn lemma_tab_belongs_to_the_command_prompt_or_focus(s: Sequence, p: PressView, c: Context)
    requires
        !c.transfer_conflict,
        !c.prompt.spec_active(),
        p.named == NamedKey::Tab,
        !typed_folded(p, 'y'),
        s.mode == Mode::Command || s.mode == Mode::Browser,
    ensures
        s.mode == Mode::Command ==> step(s, p, c) == (s, IntentView::CompleteCommand),
        s.mode == Mode::Browser ==> step(s, p, c) == (
            cleared(s),
            IntentView::MoveFocus { reverse: p.shift },
        ),
{
}

/// The vertical and horizontal motion keys: with nothing pending in the
/// Browser, `h`, `j`, `k` and `l` move left, down, up and right, by the
/// typed count (one without a count), and the count is used up. In
/// particular `j` and `k` move in opposite directions.
pub proof fn lemma_hjkl_move_by_the_count(s: Sequence, p: PressView, c: Context, key: char)
    requires
        !c.transfer_conflict,
        !c.prompt.spec_active(),
        !c.foreground_operation_active,
        s.mode == Mode::Browser,
        !s.window_pending,
        !s.g_pending,
        s.black_hole_stage == 0,
        s.delete_pending is None,
        p.named == NamedKey::Other,
        !p.control,
        p.text == Some(seq![key]),
        key == 'h' || key == 'j' || key == 'k' || key == 'l',
    ensures
        step(s, p, c).0 == (Sequence { count: None, ..s }),
        step(s, p, c).1 == IntentView::Move(
            if key == 'h' {
                Motion::Left
            } else if key == 'j' {
                Motion::Down
            } else if key == 'k' {
                Motion::Up
            } else {
                Motion::Right
            },
            match s.count {
                Some(n) => n,
                None => 1,
            },
        ),
{
    assert(!typed_folded(p, 'y')) by {
        assert(lower_seq(seq![key]) =~= seq![key]);
        assert(seq![key][0] != seq!['y'][0]);
    }
    assert(digit_typed(p) is None);
    assert(p.text != Some(seq!['/']) && p.text != Some(seq!['!']) && p.text != Some(seq![':'])) by {
        assert(seq![key][0] != seq!['/'][0]);
        assert(seq![key][0] != seq!['!'][0]);
        assert(seq![key][0] != seq![':'][0]);
    }
}

/// The one-key commands of the Browser, with nothing pending: `/` opens the
/// search and `:` and `!` the command prompt with that prefix; `n` repeats
/// the search forwards and `N` backwards; `u` undoes, `r` renames, `p`
/// pastes and `v` toggles visual selection; `H`, `M` and `L` move to the top,
/// middle and bottom of the view by the count, and `$` to the end of the row.
/// The count is used up either way.
pub proof fn lemma_one_key_commands(s: Sequence, p: PressView, c: Context, key: char)
    requires
        !c.transfer_conflict,
        !c.prompt.spec_active(),
        !c.foreground_operation_active,
        s.mode == Mode::Browser,
        !s.window_pending,
        !s.g_pending,
        s.black_hole_stage == 0,
        s.delete_pending is None,
        p.named == NamedKey::Other,
        !p.control,
        p.text == Some(seq![key]),
    ensures
        ({
            let n = match s.count {
                Some(n) => n,
                None => 1,
            };
            let expected = if key == '/' {
                Some(IntentView::BeginSearch)
            } else if key == ':' {
                Some(IntentView::BeginCommand(':'))
            } else if key == '!' {
                Some(IntentView::BeginCommand('!'))
            } else if key == 'n' {
                Some(IntentView::RepeatSearch(false))
            } else if key == 'N' {
                Some(IntentView::RepeatSearch(true))
            } else if key == 'u' {
                Some(IntentView::Undo)
            } else if key == 'r' {
                Some(IntentView::Rename)
            } else if key == 'p' {
                Some(IntentView::Paste)
            } else if key == 'v' {
                Some(IntentView::ToggleVisual)
            } else if key == 'H' {
                Some(IntentView::Move(Motion::ViewportTop, n))
            } else if key == 'M' {
                Some(IntentView::Move(Motion::ViewportMiddle, n))
            } else if key == 'L' {
                Some(IntentView::Move(Motion::ViewportBottom, n))
            } else if key == '$' {
                Some(IntentView::Move(Motion::RowEnd, 1))
            } else {
                None
            };
            expected matches Some(i) ==> step(s, p, c) == (Sequence { count: None, ..s }, i)
        }),
{
    assert forall|ch: char| typed(p, ch) <==> key == ch by {
        if seq![key] == seq![ch] {
            assert(seq![key][0] == seq![ch][0]);
        }
    }
    if key == '/' || key == ':' || key == '!' || key == 'n' || key == 'N' || key == 'u' || key
        == 'r' || key == 'p' || key == 'v' || key == 'H' || key == 'M' || key == 'L' || key == '$' {
        assert(!typed_folded(p, 'y')) by {
            if typed_folded(p, 'y') {
                assert(lower_seq(seq![key])[0] == lower(key));
                assert(seq!['y'][0] == 'y');
            }
        }
        assert(digit_typed(p) is None);
    }
}

} // verus!

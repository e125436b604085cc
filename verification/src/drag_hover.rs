//! Spring-loaded folders: while a drag rests on a folder, a sidebar folder
//! expands after a short delay and any folder opens after a longer one.
//! Times are milliseconds on a monotonic clock that the caller reads.
use vstd::prelude::*;

use crate::paths::{same_path, same_path_spec};

verus! {

/// How long a drag rests on a sidebar folder before it expands.
pub const EXPAND_DELAY_MS: u64 = 350;

/// How long a drag rests on a folder before it opens.
pub const ENTER_DELAY_MS: u64 = 1100;

/// What the drag rests on: a folder of the sidebar tree (by node) or of the
/// listing.
#[derive(Clone, Debug, PartialEq, Eq)]
pub enum Target {
    Sidebar { id: u64, path: String },
    Folder(String),
}

pub enum TargetView {
    Sidebar { id: u64, path: Seq<char> },
    Folder(Seq<char>),
}

impl View for Target {
    type V = TargetView;

    open spec fn view(&self) -> TargetView {
        match self {
            Target::Sidebar { id, path } => TargetView::Sidebar { id: *id, path: path@ },
            Target::Folder(path) => TargetView::Folder(path@),
        }
    }
}

/// The derived `==` of targets, where paths compare as `Path`s do.
pub open spec fn same_target_spec(a: TargetView, b: TargetView) -> bool {
    match (a, b) {
        (TargetView::Sidebar { id: x, path: p }, TargetView::Sidebar { id: y, path: q }) => x == y
            && same_path_spec(p, q),
        (TargetView::Folder(p), TargetView::Folder(q)) => same_path_spec(p, q),
        _ => false,
    }
}

pub open spec fn target_path(t: TargetView) -> Seq<char> {
    match t {
        TargetView::Sidebar { path, .. } => path,
        TargetView::Folder(path) => path,
    }
}

/// What resting on a target does: expand a sidebar node, or open a folder.
#[derive(Clone, Debug, PartialEq, Eq)]
pub enum Effect {
    Expand(u64),
    Enter(String),
}

pub enum EffectView {
    Expand(u64),
    Enter(Seq<char>),
}

pub open spec fn effect_view(e: Option<Effect>) -> Option<EffectView> {
    match e {
        Some(Effect::Expand(id)) => Some(EffectView::Expand(id)),
        Some(Effect::Enter(path)) => Some(EffectView::Enter(path@)),
        None => None,
    }
}

#[derive(Clone, Debug)]
struct Active {
    target: Target,
    started: u64,
    expanded: bool,
}

/// The current rest: its target, when it began, and whether the sidebar
/// node has been expanded already.
pub struct ActiveView {
    pub target: TargetView,
    pub started: u64,
    pub expanded: bool,
}

#[derive(Clone, Debug, Default)]
pub struct State {
    active: Option<Active>,
}

impl View for State {
    type V = Option<ActiveView>;

    closed spec fn view(&self) -> Option<ActiveView> {
        match self.active {
            Some(a) => Some(ActiveView { target: a.target@, started: a.started, expanded: a.expanded }),
            None => None,
        }
    }
}

/// Time since `started`, zero for a clock reading before it.
pub open spec fn elapsed(started: u64, now: u64) -> int {
    if now >= started {
        now - started
    } else {
        0
    }
}

pub open spec fn set_spec(s: Option<ActiveView>, target: Option<TargetView>, now: u64) -> Option<ActiveView> {
    let unchanged = match (s, target) {
        (Some(a), Some(t)) => same_target_spec(a.target, t),
        (None, None) => true,
        _ => false,
    };
    if unchanged {
        s
    } else {
        match target {
            Some(t) => Some(ActiveView { target: t, started: now, expanded: false }),
            None => None,
        }
    }
}

pub open spec fn tick_spec(s: Option<ActiveView>, now: u64) -> (Option<ActiveView>, Option<EffectView>) {
    match s {
        None => (None, None),
        Some(a) => if elapsed(a.started, now) >= ENTER_DELAY_MS {
            (None, Some(EffectView::Enter(target_path(a.target))))
        } else if elapsed(a.started, now) >= EXPAND_DELAY_MS && !a.expanded {
            match a.target {
                TargetView::Sidebar { id, .. } => (
                    Some(ActiveView { expanded: true, ..a }),
                    Some(EffectView::Expand(id)),
                ),
                TargetView::Folder(_) => (s, None),
            }
        } else {
            (s, None)
        },
    }
}

/// A sidebar node expands at most once while the drag rests on it: after
/// an expansion, no later tick expands again until the rest changes.
pub proof fn lemma_expand_happens_once(s: Option<ActiveView>, first: u64, later: u64)
    requires
        tick_spec(s, first).1 matches Some(EffectView::Expand(_)),
    ensures
        !(tick_spec(tick_spec(s, first).0, later).1 matches Some(EffectView::Expand(_))),
{
}

/// Resting long enough always opens the folder and ends the rest.
pub proof fn lemma_long_rest_enters(s: Option<ActiveView>, now: u64)
    requires
        s matches Some(a) && elapsed(a.started, now) >= ENTER_DELAY_MS,
    ensures
        tick_spec(s, now) == (None::<ActiveView>, Some(EffectView::Enter(target_path(s->0.target)))),
{
}

fn same_target(a: &Target, b: &Target) -> (r: bool)
    ensures
        r == same_target_spec(a@, b@),
{
    match (a, b) {
        (Target::Sidebar { id: x, path: p }, Target::Sidebar { id: y, path: q }) => {
            *x == *y && same_path(p.as_str(), q.as_str())
        },
        (Target::Folder(p), Target::Folder(q)) => same_path(p.as_str(), q.as_str()),
        _ => false,
    }
}

fn path_of(t: &Target) -> (r: &String)
    ensures
        r@ == target_path(t@),
{
    match t {
        Target::Sidebar { path, .. } => path,
        Target::Folder(path) => path,
    }
}

impl State {
    pub fn new() -> (r: Self)
        ensures
            r@ is None,
    {
        State { active: None }
    }

    /// The drag now rests on `target` (or on nothing): a new target starts
    /// a new rest at `now`; the same target keeps the running one.
    pub fn set(&mut self, target: Option<Target>, now: u64)
        ensures
            final(self)@ == set_spec(
                old(self)@,
                match target {
                    Some(t) => Some(t@),
                    None => None,
                },
                now,
            ),
    {
        let unchanged = match (&self.active, &target) {
            (Some(active), Some(t)) => same_target(&active.target, t),
            (None, None) => true,
            _ => false,
        };
        if unchanged {
            return ;
        }
        self.active = match target {
            Some(t) => Some(Active { target: t, started: now, expanded: false }),
            None => None,
        };
    }

    pub fn cancel(&mut self)
        ensures
            final(self)@ is None,
    {
        self.active = None;
    }

    pub fn is_active(&self) -> (r: bool)
        ensures
            r == self@ is Some,
    {
        self.active.is_some()
    }

    /// How far the rest on `path` has come toward opening it, in
    /// milliseconds up to the full delay; `None` when the drag rests
    /// elsewhere.
    pub fn elapsed_toward_enter(&self, path: &str, now: u64) -> (r: Option<u64>)
        ensures
            match self@ {
                Some(a) => if same_path_spec(target_path(a.target), path@) {
                    r == Some(
                        (if elapsed(a.started, now) < ENTER_DELAY_MS {
                            elapsed(a.started, now)
                        } else {
                            ENTER_DELAY_MS as int
                        }) as u64,
                    )
                } else {
                    r is None
                },
                None => r is None,
            },
    {
        let active = match &self.active {
            Some(active) => active,
            None => {
                return None;
            },
        };
        if !same_path(path_of(&active.target).as_str(), path) {
            return None;
        }
        let spent: u64 = if now >= active.started {
            now - active.started
        } else {
            0
        };
        Some(
            if spent < ENTER_DELAY_MS {
                spent
            } else {
                ENTER_DELAY_MS
            },
        )
    }

    /// What the rest does at `now`: open the folder once the long delay has
    /// passed (ending the rest), or expand a sidebar node once after the
    /// short one.
    pub fn tick(&mut self, now: u64) -> (r: Option<Effect>)
        ensures
            (final(self)@, effect_view(r)) == tick_spec(old(self)@, now),
    {
        let mut active = match self.active.take() {
            Some(active) => active,
            None => {
                return None;
            },
        };
        let spent: u64 = if now >= active.started {
            now - active.started
        } else {
            0
        };
        if spent >= ENTER_DELAY_MS {
            let path = path_of(&active.target).clone();
            return Some(Effect::Enter(path));
        }
        if spent >= EXPAND_DELAY_MS && !active.expanded {
            if let Target::Sidebar { id, .. } = &active.target {
                let id = *id;
                active.expanded = true;
                self.active = Some(active);
                return Some(Effect::Expand(id));
            }
        }
        self.active = Some(active);
        None
    }
}

} // verus!

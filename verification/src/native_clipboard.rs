//! Files dropped onto the window under X11: the paths arrive one at a time,
//! are staged without duplicates, and are handed over once per drop.
use vstd::prelude::*;

use crate::paths::{contains_same_path, has_path, no_repeated_paths, same_path_spec};

verus! {

/// Whether a transfer copies or moves its files.
#[derive(Clone, Copy, Debug, PartialEq, Eq, Structural)]
pub enum Action {
    Copy,
    Move,
}

/// The drag-and-drop connection of the window: Wayland, or X11 with the
/// action that the drag source offers.
#[derive(Clone, Copy, Debug, PartialEq, Eq, Structural)]
pub enum DndSource {
    Wayland,
    X11 { incoming: Action },
}

impl DndSource {
    pub fn is_x11(&self) -> (r: bool)
        ensures
            r == (*self is X11),
    {
        match self {
            DndSource::X11 { .. } => true,
            DndSource::Wayland => false,
        }
    }

    /// What an incoming drop does: Wayland drops copy; X11 drops do what the
    /// source offers.
    pub fn incoming_action(&self) -> (r: Action)
        ensures
            r == (match *self {
                DndSource::Wayland => Action::Copy,
                DndSource::X11 { incoming } => incoming,
            }),
    {
        match self {
            DndSource::Wayland => Action::Copy,
            DndSource::X11 { incoming } => *incoming,
        }
    }
}

pub struct DropView {
    pub paths: Seq<Seq<char>>,
    pub generation: u64,
    pub action: Action,
}

/// The paths of an X11 drop staged so far, the generation of the last drop,
/// and the action chosen when the first path arrived.
pub struct X11Drop {
    paths: Vec<String>,
    generation: u64,
    action: Action,
}

impl View for X11Drop {
    type V = DropView;

    closed spec fn view(&self) -> DropView {
        DropView { paths: self.paths.deep_view(), generation: self.generation, action: self.action }
    }
}

/// `path` added at the end unless the same path is already staged.
pub open spec fn staged_with(paths: Seq<Seq<char>>, path: Seq<char>) -> Seq<Seq<char>> {
    if has_path(paths, path) {
        paths
    } else {
        paths.push(path)
    }
}

proof fn lemma_staged_distinct(paths: Seq<Seq<char>>, path: Seq<char>)
    requires
        no_repeated_paths(paths),
    ensures
        no_repeated_paths(staged_with(paths, path)),
{
    if !has_path(paths, path) {
        let q = paths.push(path);
        assert forall|i: int, j: int| 0 <= i < j < q.len() implies !same_path_spec(q[i], q[j]) by {
            assert(q[i] == paths[i]);
            if j < paths.len() {
                assert(q[j] == paths[j]);
            } else {
                assert(!same_path_spec(paths[i], path));
            }
        }
    }
}

fn push_distinct(paths: &mut Vec<String>, path: String)
    requires
        no_repeated_paths(old(paths).deep_view()),
    ensures
        final(paths).deep_view() == staged_with(old(paths).deep_view(), path@),
        no_repeated_paths(final(paths).deep_view()),
{
    proof {
        lemma_staged_distinct(paths.deep_view(), path@);
    }
    if !contains_same_path(paths.as_slice(), &path) {
        let ghost before = paths.deep_view();
        paths.push(path);
        assert(paths.deep_view() =~= before.push(path@));
    }
}

impl X11Drop {
    /// No path is staged twice.
    #[verifier::type_invariant]
    spec fn distinct(self) -> bool {
        no_repeated_paths(self.paths.deep_view())
    }

    pub fn new() -> (r: Self)
        ensures
            r@ == (DropView { paths: Seq::empty(), generation: 0, action: Action::Copy }),
    {
        let paths: Vec<String> = Vec::new();
        assert(paths.deep_view() =~= Seq::<Seq<char>>::empty());
        X11Drop { paths, generation: 0, action: Action::Copy }
    }

    pub fn paths(&self) -> (r: &Vec<String>)
        ensures
            r.deep_view() == self@.paths,
            no_repeated_paths(r.deep_view()),
    {
        proof {
            use_type_invariant(self);
        }
        &self.paths
    }

    pub fn action(&self) -> (r: Action)
        ensures
            r == self@.action,
    {
        self.action
    }

    pub fn generation(&self) -> (r: u64)
        ensures
            r == self@.generation,
    {
        self.generation
    }

    /// A path is dragged over the window: it is staged once, and the first
    /// path of a drag fixes the action for the whole drag.
    pub fn hover(&mut self, path: String, action: Action) -> (r: Action)
        ensures
            final(self)@.paths == staged_with(old(self)@.paths, path@),
            final(self)@.generation == old(self)@.generation,
            final(self)@.action == (if old(self)@.paths.len() == 0 {
                action
            } else {
                old(self)@.action
            }),
            r == final(self)@.action,
            no_repeated_paths(final(self)@.paths),
    {
        proof {
            use_type_invariant(&*self);
        }
        let first_path = self.paths.len() == 0;
        let mut paths: Vec<String> = Vec::new();
        std::mem::swap(&mut paths, &mut self.paths);
        push_distinct(&mut paths, path);
        self.paths = paths;
        if first_path {
            self.action = action;
        }
        self.action
    }

    /// The drag left the window: nothing stays staged and the action falls
    /// back to copying.
    pub fn leave(&mut self)
        ensures
            final(self)@ == (DropView {
                paths: Seq::empty(),
                action: Action::Copy,
                ..old(self)@
            }),
    {
        let paths: Vec<String> = Vec::new();
        assert(paths.deep_view() =~= Seq::<Seq<char>>::empty());
        self.paths = paths;
        self.action = Action::Copy;
    }

    /// A path was dropped: it is staged once and the drop gets a new
    /// generation (wrapping), which is returned.
    pub fn drop_path(&mut self, path: String) -> (r: u64)
        ensures
            final(self)@.paths == staged_with(old(self)@.paths, path@),
            final(self)@.action == old(self)@.action,
            final(self)@.generation == (if old(self)@.generation == u64::MAX {
                0
            } else {
                (old(self)@.generation + 1) as u64
            }),
            r == final(self)@.generation,
    {
        proof {
            use_type_invariant(&*self);
        }
        let mut paths: Vec<String> = Vec::new();
        std::mem::swap(&mut paths, &mut self.paths);
        push_distinct(&mut paths, path);
        self.paths = paths;
        self.generation = self.generation.wrapping_add(1);
        self.generation
    }

    /// Hands over the staged paths and their action for the drop with this
    /// generation. A stale generation, or nothing staged, gives nothing and
    /// changes nothing; otherwise staging starts over.
    pub fn take(&mut self, generation: u64) -> (r: Option<(Vec<String>, Action)>)
        ensures
            (match r {
                Some((p, a)) => Some((p.deep_view(), a)),
                None => None,
            }, final(self)@) == take_spec(old(self)@, generation),
    {
        if generation != self.generation || self.paths.len() == 0 {
            return None;
        }
        let mut paths: Vec<String> = Vec::new();
        assert(paths.deep_view() =~= Seq::<Seq<char>>::empty());
        std::mem::swap(&mut paths, &mut self.paths);
        let action = self.action;
        self.action = Action::Copy;
        Some((paths, action))
    }
}

impl Default for X11Drop {
    fn default() -> (r: Self)
        ensures
            r@ == (DropView { paths: Seq::empty(), generation: 0, action: Action::Copy }),
    {
        X11Drop::new()
    }
}

/// Handing over a drop: the staged paths and their action, when the
/// generation is current and something is staged; staging then starts over.
pub open spec fn take_spec(d: DropView, generation: u64) -> (Option<(Seq<Seq<char>>, Action)>, DropView) {
    if generation != d.generation || d.paths.len() == 0 {
        (None, d)
    } else {
        (Some((d.paths, d.action)), DropView { paths: Seq::empty(), action: Action::Copy, ..d })
    }
}

/// A drop is handed over at most once: asking again with the same
/// generation right after a hand-over gives nothing.
pub proof fn lemma_drop_is_taken_once(d: DropView, generation: u64)
    ensures
        take_spec(d, generation).0 is Some ==> take_spec(take_spec(d, generation).1, generation).0 is None,
{
}

/// Staging is idempotent: hovering or dropping a path that is already
/// staged leaves the staged paths as they are.
pub proof fn lemma_staging_is_idempotent(paths: Seq<Seq<char>>, path: Seq<char>)
    ensures
        staged_with(staged_with(paths, path), path) == staged_with(paths, path),
{
    if !has_path(paths, path) {
        assert(same_path_spec(paths.push(path)[paths.len() as int], path));
    }
}

/// The window's drag-and-drop state: the connection, if one is attached, the
/// error from attaching, and the X11 drop being staged.
pub struct Platform {
    dnd: Option<DndSource>,
    dnd_error: Option<String>,
    x11_drop: X11Drop,
}

pub struct PlatformView {
    pub dnd: Option<DndSource>,
    pub dnd_error: Option<Seq<char>>,
    pub x11_drop: DropView,
}

impl View for Platform {
    type V = PlatformView;

    closed spec fn view(&self) -> PlatformView {
        PlatformView {
            dnd: self.dnd,
            dnd_error: self.dnd_error.deep_view(),
            x11_drop: self.x11_drop@,
        }
    }
}

pub open spec fn x11_active_spec(p: PlatformView) -> bool {
    p.dnd matches Some(d) && d is X11
}

impl Platform {
    pub fn new() -> (r: Self)
        ensures
            r@.dnd is None,
            r@.dnd_error is None,
            r@.x11_drop == (DropView { paths: Seq::empty(), generation: 0, action: Action::Copy }),
    {
        Platform { dnd: None, dnd_error: None, x11_drop: X11Drop::new() }
    }

    /// Installs the result of attaching drag and drop: the connection, or
    /// the error, which is also returned.
    pub fn install(&mut self, result: Result<DndSource, String>) -> (r: Result<(), String>)
        ensures
            match result {
                Ok(d) => r is Ok && final(self)@ == (PlatformView {
                    dnd: Some(d),
                    dnd_error: None,
                    ..old(self)@
                }),
                Err(e) => r matches Err(e2) && e2@ == e@ && final(self)@ == (PlatformView {
                    dnd_error: Some(e@),
                    ..old(self)@
                }),
            },
    {
        match result {
            Ok(d) => {
                self.dnd = Some(d);
                self.dnd_error = None;
                Ok(())
            },
            Err(error) => {
                self.dnd_error = Some(error.clone());
                Err(error)
            },
        }
    }

    pub fn dnd(&self) -> (r: Option<DndSource>)
        ensures
            r == self@.dnd,
    {
        self.dnd
    }

    pub fn take_dnd(&mut self) -> (r: Option<DndSource>)
        ensures
            r == old(self)@.dnd,
            final(self)@ == (PlatformView { dnd: None, ..old(self)@ }),
    {
        let d = self.dnd;
        self.dnd = None;
        d
    }

    pub fn dnd_error(&self) -> (r: Option<&str>)
        ensures
            r.deep_view() == self@.dnd_error,
    {
        match &self.dnd_error {
            Some(e) => Some(e.as_str()),
            None => None,
        }
    }

    pub fn x11_active(&self) -> (r: bool)
        ensures
            r == x11_active_spec(self@),
    {
        match &self.dnd {
            Some(d) => d.is_x11(),
            None => false,
        }
    }

    /// Under X11, stages a hovered path with the source's action.
    pub fn hover_x11_file(&mut self, path: String) -> (r: Option<Action>)
        ensures
            !x11_active_spec(old(self)@) ==> r is None && final(self)@ == old(self)@,
            x11_active_spec(old(self)@) ==> {
                let action = old(self)@.dnd.unwrap().incoming_action_spec();
                &&& final(self)@.x11_drop.paths == staged_with(old(self)@.x11_drop.paths, path@)
                &&& final(self)@.x11_drop.generation == old(self)@.x11_drop.generation
                &&& final(self)@.x11_drop.action == (if old(self)@.x11_drop.paths.len() == 0 {
                    action
                } else {
                    old(self)@.x11_drop.action
                })
                &&& r == Some(final(self)@.x11_drop.action)
                &&& final(self)@.dnd == old(self)@.dnd
                &&& final(self)@.dnd_error == old(self)@.dnd_error
            },
    {
        if !self.x11_active() {
            return None;
        }
        let action = match &self.dnd {
            Some(d) => d.incoming_action(),
            None => Action::Copy,
        };
        Some(self.x11_drop.hover(path, action))
    }

    pub fn leave_x11_files(&mut self) -> (r: bool)
        ensures
            r == x11_active_spec(old(self)@),
            !r ==> final(self)@ == old(self)@,
            r ==> final(self)@ == (PlatformView {
                x11_drop: DropView {
                    paths: Seq::empty(),
                    action: Action::Copy,
                    ..old(self)@.x11_drop
                },
                ..old(self)@
            }),
    {
        if !self.x11_active() {
            return false;
        }
        self.x11_drop.leave();
        true
    }

    pub fn drop_x11_file(&mut self, path: String) -> (r: Option<u64>)
        ensures
            !x11_active_spec(old(self)@) ==> r is None && final(self)@ == old(self)@,
            x11_active_spec(old(self)@) ==> {
                &&& final(self)@.x11_drop.paths == staged_with(old(self)@.x11_drop.paths, path@)
                &&& final(self)@.x11_drop.action == old(self)@.x11_drop.action
                &&& final(self)@.x11_drop.generation == (if old(self)@.x11_drop.generation
                    == u64::MAX {
                    0
                } else {
                    (old(self)@.x11_drop.generation + 1) as u64
                })
                &&& r == Some(final(self)@.x11_drop.generation)
                &&& final(self)@.dnd == old(self)@.dnd
                &&& final(self)@.dnd_error == old(self)@.dnd_error
            },
    {
        if !self.x11_active() {
            return None;
        }
        Some(self.x11_drop.drop_path(path))
    }

    pub fn take_x11_drop(&mut self, generation: u64) -> (r: Option<(Vec<String>, Action)>)
        ensures
            final(self)@.dnd == old(self)@.dnd,
            final(self)@.dnd_error == old(self)@.dnd_error,
            (match r {
                Some((p, a)) => Some((p.deep_view(), a)),
                None => None,
            }, final(self)@.x11_drop) == take_spec(old(self)@.x11_drop, generation),
    {
        self.x11_drop.take(generation)
    }
}

impl DndSource {
    pub open spec fn incoming_action_spec(self) -> Action {
        match self {
            DndSource::Wayland => Action::Copy,
            DndSource::X11 { incoming } => incoming,
        }
    }
}

} // verus!

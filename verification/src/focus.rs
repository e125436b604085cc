//! Which browser surface has the keyboard (the sidebar tree or the files),
//! and the bookkeeping that keeps focus changes ordered.
use vstd::prelude::*;

verus! {

#[derive(Clone, Copy, Debug, Default, PartialEq, Eq, Structural)]
pub enum BrowserFocus {
    Sidebar,
    #[default]
    Entries,
}

#[derive(Clone, Copy, Debug, PartialEq, Eq, Structural)]
pub enum FocusDirection {
    Left,
    Down,
    Up,
    Right,
}

/// Tab order: the sidebar, then the files, wrapping around both ways.
pub open spec fn moved_spec(f: BrowserFocus, reverse: bool) -> BrowserFocus {
    match f {
        BrowserFocus::Sidebar => BrowserFocus::Entries,
        BrowserFocus::Entries => BrowserFocus::Sidebar,
    }
}

/// Arrow keys across surfaces: right from the sidebar reaches the files;
/// left from the files reaches the sidebar when it is shown.
pub open spec fn moved_in_spec(
    f: BrowserFocus,
    direction: FocusDirection,
    tree_visible: bool,
) -> BrowserFocus {
    match (f, direction) {
        (BrowserFocus::Sidebar, FocusDirection::Right) => BrowserFocus::Entries,
        (BrowserFocus::Entries, FocusDirection::Left) => if tree_visible {
            BrowserFocus::Sidebar
        } else {
            f
        },
        _ => f,
    }
}

impl BrowserFocus {
    /// The next surface in tab order (the previous one with `reverse`).
    pub fn moved(self, reverse: bool) -> (r: Self)
        ensures
            r == moved_spec(self, reverse),
    {
        let index: usize = match self {
            BrowserFocus::Sidebar => 0,
            BrowserFocus::Entries => 1,
        };
        let next: usize = if reverse {
            if index > 0 {
                index - 1
            } else {
                1
            }
        } else {
            (index + 1) % 2
        };
        if next == 0 {
            BrowserFocus::Sidebar
        } else {
            BrowserFocus::Entries
        }
    }

    pub fn label(self) -> (r: &'static str)
        ensures
            r@ == (match self {
                BrowserFocus::Sidebar => "sidebar"@,
                BrowserFocus::Entries => "files"@,
            }),
    {
        match self {
            BrowserFocus::Sidebar => "sidebar",
            BrowserFocus::Entries => "files",
        }
    }

    pub fn moved_in(self, direction: FocusDirection, tree_visible: bool) -> (r: Self)
        ensures
            r == moved_in_spec(self, direction, tree_visible),
    {
        match (self, direction) {
            (BrowserFocus::Sidebar, FocusDirection::Right) => BrowserFocus::Entries,
            (BrowserFocus::Entries, FocusDirection::Left) => if tree_visible {
                BrowserFocus::Sidebar
            } else {
                self
            },
            _ => self,
        }
    }
}

/// Moving the focus twice in the same direction comes back: there are two
/// surfaces.
pub proof fn lemma_tab_order_is_a_cycle(f: BrowserFocus, reverse: bool)
    ensures
        moved_spec(moved_spec(f, reverse), reverse) == f,
        moved_spec(moved_spec(f, reverse), !reverse) == f,
{
}

pub struct FocusView {
    pub browser: BrowserFocus,
    pub location_editing: bool,
    pub pending_unfocus: bool,
    pub generation: u64,
}

/// The browser surface to return to, whether the location bar is being
/// edited, whether a widget is to lose focus, and a generation that
/// answers to focus probes must match.
pub struct FocusSession {
    browser: BrowserFocus,
    location_editing: bool,
    pending_unfocus: bool,
    generation: u64,
}

impl View for FocusSession {
    type V = FocusView;

    closed spec fn view(&self) -> FocusView {
        FocusView {
            browser: self.browser,
            location_editing: self.location_editing,
            pending_unfocus: self.pending_unfocus,
            generation: self.generation,
        }
    }
}

/// What a change of browser focus asks of the rest of the window.
#[derive(Clone, Copy, Debug, PartialEq, Eq)]
pub struct FocusUpdate {
    /// The surface that now has the focus.
    pub target: BrowserFocus,
    /// A pending key sequence belongs to the old surface and is dropped.
    pub clear_sequence: bool,
    /// Location editing ended: the location input returns to the current
    /// folder and location mode is left.
    pub left_location: bool,
}

/// Focusing a surface: the sidebar only while it is shown; editing the
/// location ends; the generation moves on.
pub open spec fn focus_browser_spec(
    s: FocusView,
    target: BrowserFocus,
    tree_visible: bool,
) -> (FocusView, FocusUpdate) {
    let t = if target == BrowserFocus::Sidebar && !tree_visible {
        BrowserFocus::Entries
    } else {
        target
    };
    (
        FocusView {
            browser: t,
            location_editing: false,
            pending_unfocus: s.pending_unfocus || s.location_editing,
            generation: (s.generation + 1) as u64,
        },
        FocusUpdate {
            target: t,
            clear_sequence: s.browser != t,
            left_location: s.location_editing,
        },
    )
}

impl FocusSession {
    pub fn new() -> (r: Self)
        ensures
            r@ == (FocusView {
                browser: BrowserFocus::Entries,
                location_editing: false,
                pending_unfocus: false,
                generation: 0,
            }),
    {
        FocusSession {
            browser: BrowserFocus::Entries,
            location_editing: false,
            pending_unfocus: false,
            generation: 0,
        }
    }

    pub fn browser(&self) -> (r: BrowserFocus)
        ensures
            r == self@.browser,
    {
        self.browser
    }

    pub fn is(&self, target: BrowserFocus) -> (r: bool)
        ensures
            r == (self@.browser == target),
    {
        self.browser == target
    }

    pub fn label(&self) -> (r: &'static str)
        ensures
            r@ == (match self@.browser {
                BrowserFocus::Sidebar => "sidebar"@,
                BrowserFocus::Entries => "files"@,
            }),
    {
        self.browser.label()
    }

    pub fn location_editing(&self) -> (r: bool)
        ensures
            r == self@.location_editing,
    {
        self.location_editing
    }

    pub fn generation(&self) -> (r: u64)
        ensures
            r == self@.generation,
    {
        self.generation
    }

    /// Gives the focus to a browser surface.
    pub fn focus_browser(&mut self, target: BrowserFocus, tree_visible: bool) -> (r: FocusUpdate)
        requires
            old(self)@.generation < u64::MAX,
        ensures
            (final(self)@, r) == focus_browser_spec(old(self)@, target, tree_visible),
    {
        let t = if target == BrowserFocus::Sidebar && !tree_visible {
            BrowserFocus::Entries
        } else {
            target
        };
        let clear_sequence = self.browser != t;
        let left_location = self.location_editing;
        if self.location_editing {
            self.location_editing = false;
            self.pending_unfocus = true;
        }
        self.generation = self.generation + 1;
        self.browser = t;
        FocusUpdate { target: t, clear_sequence, left_location }
    }

    /// Tab or Shift+Tab: the next surface, skipping a hidden sidebar.
    pub fn move_browser_focus(&mut self, reverse: bool, tree_visible: bool) -> (r: FocusUpdate)
        requires
            old(self)@.generation < u64::MAX,
        ensures
            (final(self)@, r) == focus_browser_spec(
                old(self)@,
                if !tree_visible && moved_spec(old(self)@.browser, reverse)
                    == BrowserFocus::Sidebar {
                    moved_spec(moved_spec(old(self)@.browser, reverse), reverse)
                } else {
                    moved_spec(old(self)@.browser, reverse)
                },
                tree_visible,
            ),
    {
        let mut target = self.browser.moved(reverse);
        if !tree_visible && target == BrowserFocus::Sidebar {
            target = target.moved(reverse);
        }
        self.focus_browser(target, tree_visible)
    }

    /// Starts editing the location bar.
    pub fn focus_location(&mut self)
        requires
            old(self)@.generation < u64::MAX,
        ensures
            final(self)@ == (FocusView {
                location_editing: true,
                generation: (old(self)@.generation + 1) as u64,
                ..old(self)@
            }),
    {
        self.generation = self.generation + 1;
        self.location_editing = true;
    }

    /// Stops editing the location bar.
    pub fn release_location(&mut self)
        requires
            old(self)@.generation < u64::MAX,
        ensures
            final(self)@ == (FocusView {
                location_editing: false,
                generation: (old(self)@.generation + 1) as u64,
                ..old(self)@
            }),
    {
        self.generation = self.generation + 1;
        self.location_editing = false;
    }

    /// Whether a widget is to lose focus; asking clears the request.
    pub fn take_pending_unfocus(&mut self) -> (r: bool)
        ensures
            r == old(self)@.pending_unfocus,
            final(self)@ == (FocusView { pending_unfocus: false, ..old(self)@ }),
    {
        let r = self.pending_unfocus;
        self.pending_unfocus = false;
        r
    }
}

impl Default for FocusSession {
    fn default() -> (r: Self)
        ensures
            r@ == (FocusView {
                browser: BrowserFocus::Entries,
                location_editing: false,
                pending_unfocus: false,
                generation: 0,
            }),
    {
        FocusSession::new()
    }
}

} // verus!

//! The Open With prompt: the list of applications offered for a file (the
//! default first, then by name), the keyboard session that picks one of them
//! or a typed command, and where a typed executable path points.
use vstd::prelude::*;

use crate::paths::{file_name, file_name_of, join, join_path, parent_of, path_parent};
use crate::search::{lowercase_of, to_lowercase};
use crate::text::{
    chars_of, lemma_text_transitive, lemma_text_trichotomy, same, same_ignoring_case,
    same_ignoring_ascii_case, slice_chars, string_of, text_before, text_less, trim, trimmed,
};

verus! {

broadcast use vstd::seq_lib::group_to_multiset_ensures;

/// An application that can open the target: its desktop ID (or its name,
/// when it has no ID), its display name, and whether it is the default.
#[derive(Clone, Debug, PartialEq, Eq)]
pub struct Application {
    pub id: String,
    pub name: String,
    pub default: bool,
}

pub struct ApplicationView {
    pub id: Seq<char>,
    pub name: Seq<char>,
    pub default: bool,
}

impl View for Application {
    type V = ApplicationView;

    open spec fn view(&self) -> ApplicationView {
        ApplicationView { id: self.id@, name: self.name@, default: self.default }
    }
}

pub open spec fn views(apps: Seq<Application>) -> Seq<ApplicationView> {
    apps.map_values(|a: Application| a@)
}

// ------------------------------------------------------------------ the list

/// The applications found for a content type, as (ID, name) pairs, with
/// every later entry whose ID matches an earlier one in lower case dropped.
pub open spec fn first_of_each_id(found: Seq<(Seq<char>, Seq<char>)>) -> Seq<
    (Seq<char>, Seq<char>),
>
    decreases found.len(),
{
    if found.len() == 0 {
        Seq::empty()
    } else {
        let prev = first_of_each_id(found.drop_last());
        if id_seen_before(found, found.len() - 1) {
            prev
        } else {
            prev.push(found.last())
        }
    }
}

/// Some entry before `i` has the same lower-case ID as entry `i`.
pub open spec fn id_seen_before(found: Seq<(Seq<char>, Seq<char>)>, i: int) -> bool {
    exists|k: int| 0 <= k < i && lowercase_of(#[trigger] found[k].0) == lowercase_of(found[i].0)
}

/// An entry of the list: the default is the one whose ID matches the
/// default application's ID, ignoring ASCII case.
pub open spec fn labelled(entry: (Seq<char>, Seq<char>), default_id: Option<Seq<char>>) -> ApplicationView {
    ApplicationView {
        id: entry.0,
        name: entry.1,
        default: match default_id {
            Some(d) => same_ignoring_ascii_case(d, entry.0),
            None => false,
        },
    }
}

pub open spec fn all_labelled(
    entries: Seq<(Seq<char>, Seq<char>)>,
    default_id: Option<Seq<char>>,
) -> Seq<ApplicationView> {
    entries.map_values(|e: (Seq<char>, Seq<char>)| labelled(e, default_id))
}

/// The listing order: the default first, then by lower-case name, then by
/// ID.
pub open spec fn listed_before(a: ApplicationView, b: ApplicationView) -> bool {
    if a.default != b.default {
        a.default
    } else if lowercase_of(a.name) != lowercase_of(b.name) {
        text_less(lowercase_of(a.name), lowercase_of(b.name))
    } else {
        !text_less(b.id, a.id)
    }
}

pub open spec fn in_listing_order(s: Seq<ApplicationView>) -> bool {
    forall|i: int, j: int| 0 <= i < j < s.len() ==> listed_before(#[trigger] s[i], #[trigger] s[j])
}

proof fn lemma_listing_total(a: ApplicationView, b: ApplicationView)
    ensures
        listed_before(a, b) || listed_before(b, a),
{
    lemma_text_trichotomy(lowercase_of(a.name), lowercase_of(b.name));
    lemma_text_trichotomy(a.id, b.id);
}

proof fn lemma_listing_transitive(a: ApplicationView, b: ApplicationView, c: ApplicationView)
    requires
        listed_before(a, b),
        listed_before(b, c),
    ensures
        listed_before(a, c),
{
    let (la, lb, lc) = (lowercase_of(a.name), lowercase_of(b.name), lowercase_of(c.name));
    lemma_text_trichotomy(la, lb);
    lemma_text_trichotomy(lb, lc);
    lemma_text_trichotomy(la, lc);
    lemma_text_trichotomy(a.id, b.id);
    lemma_text_trichotomy(b.id, c.id);
    lemma_text_trichotomy(a.id, c.id);
    if a.default == b.default && b.default == c.default {
        if text_less(la, lb) && text_less(lb, lc) {
            lemma_text_transitive(la, lb, lc);
        }
        if text_less(c.id, b.id) && text_less(b.id, a.id) {
            lemma_text_transitive(c.id, b.id, a.id);
        }
        if la == lb && lb == lc && text_less(c.id, a.id) {
            if text_less(b.id, c.id) {
                lemma_text_transitive(b.id, c.id, a.id);
            }
        }
    }
}

/// Inserting `x` before the first entry it is listed before keeps the order.
proof fn lemma_insert_in_order(s: Seq<ApplicationView>, x: ApplicationView, pos: int)
    requires
        in_listing_order(s),
        0 <= pos <= s.len(),
        forall|k: int| 0 <= k < pos ==> !listed_before(x, #[trigger] s[k]),
        pos < s.len() ==> listed_before(x, s[pos]),
    ensures
        in_listing_order(s.insert(pos, x)),
{
    let t = s.insert(pos, x);
    assert forall|i: int, j: int| 0 <= i < j < t.len() implies listed_before(
        #[trigger] t[i],
        #[trigger] t[j],
    ) by {
        if i == pos {
            if j > pos + 1 {
                assert(listed_before(s[pos], s[j - 1]));
                lemma_listing_transitive(x, s[pos], s[j - 1]);
            }
        } else if j == pos {
            lemma_listing_total(x, s[i]);
        } else {
            let si = if i < pos {
                i
            } else {
                i - 1
            };
            let sj = if j < pos {
                j
            } else {
                j - 1
            };
            assert(t[i] == s[si] && t[j] == s[sj]);
        }
    }
}

/// Whether an earlier entry of `lowered` equals `id`.
fn seen_before(lowered: &Vec<Vec<char>>, id: &Vec<char>) -> (r: bool)
    ensures
        r == exists|k: int| 0 <= k < lowered@.len() && (#[trigger] lowered@[k])@ == id@,
{
    let mut k: usize = 0;
    while k < lowered.len()
        invariant
            k <= lowered@.len(),
            forall|j: int| 0 <= j < k ==> (#[trigger] lowered@[j])@ != id@,
        decreases lowered@.len() - k,
    {
        if same(lowered[k].as_slice(), id.as_slice()) {
            return true;
        }
        k = k + 1;
    }
    false
}

/// The Open With list from what the desktop reports for a content type:
/// `found` holds each application's ID (or name) and display name,
/// `default_id` the ID of the default application. Entries whose ID repeats
/// an earlier one in lower case are dropped; the rest are listed default
/// first, then by lower-case name, then by ID.
pub fn arrange_applications(default_id: Option<&str>, found: &[(String, String)]) -> (r: Vec<
    Application,
>)
    ensures
        in_listing_order(views(r@)),
        views(r@).to_multiset() == all_labelled(
            first_of_each_id(found.deep_view()),
            match default_id {
                Some(d) => Some(d@),
                None => None,
            },
        ).to_multiset(),
{
    let ghost fv = found.deep_view();
    let ghost dv: Option<Seq<char>> = match default_id {
        Some(d) => Some(d@),
        None => None,
    };
    let default_chars: Option<Vec<char>> = match default_id {
        Some(d) => Some(chars_of(d)),
        None => None,
    };
    let mut lowered: Vec<Vec<char>> = Vec::new();
    let mut result: Vec<Application> = Vec::new();
    let mut lnames: Vec<Vec<char>> = Vec::new();
    let mut i: usize = 0;
    assert(fv.take(0) =~= Seq::<(Seq<char>, Seq<char>)>::empty());
    while i < found.len()
        invariant
            fv == found.deep_view(),
            fv.len() == found@.len(),
            i <= fv.len(),
            lowered@.len() == i,
            forall|k: int| 0 <= k < i ==> (#[trigger] lowered@[k])@ == lowercase_of(fv[k].0),
            default_chars matches Some(d) ==> dv == Some(d@),
            default_chars is None ==> dv is None,
            lnames@.len() == result@.len(),
            forall|k: int|
                0 <= k < result@.len() ==> (#[trigger] lnames@[k])@ == lowercase_of(
                    result@[k].name@,
                ),
            in_listing_order(views(result@)),
            views(result@).to_multiset() == all_labelled(first_of_each_id(fv.take(i as int)), dv).to_multiset(),
        decreases fv.len() - i,
    {
        let ghost before = fv.take(i as int);
        let ghost after = fv.take(i + 1);
        proof {
            assert(after.drop_last() =~= before);
            assert(after.last() == fv[i as int]);
            assert(found@[i as int].deep_view() == fv[i as int]);
        }
        let id: &String = &found[i].0;
        let name: &String = &found[i].1;
        let lid = chars_of(to_lowercase(id.as_str()).as_str());
        let seen = seen_before(&lowered, &lid);
        proof {
            if seen {
                let k = choose|k: int| 0 <= k < lowered@.len() && (#[trigger] lowered@[k])@ == lid@;
                assert(after[k] == fv[k]);
                assert(id_seen_before(after, i as int));
            } else {
                assert forall|k: int| 0 <= k < i implies lowercase_of(#[trigger] after[k].0)
                    != lowercase_of(after[i as int].0) by {
                    assert(after[k] == fv[k]);
                    assert(lowered@[k]@ == lowercase_of(fv[k].0));
                }
            }
        }
        lowered.push(lid);
        if !seen {
            let is_default = match &default_chars {
                Some(d) => {
                    let idc = chars_of(id.as_str());
                    same_ignoring_case(d.as_slice(), idc.as_slice())
                },
                None => false,
            };
            let app = Application { id: id.clone(), name: name.clone(), default: is_default };
            proof {
                assert(app@ == labelled(fv[i as int], dv));
            }
            let lname = chars_of(to_lowercase(name.as_str()).as_str());
            let mut pos: usize = 0;
            while pos < result.len() && !listed_before_exec(&app, &lname, &result[pos], &lnames[pos])
                invariant
                    pos <= result@.len(),
                    lnames@.len() == result@.len(),
                    lname@ == lowercase_of(app.name@),
                    forall|k: int|
                        0 <= k < result@.len() ==> (#[trigger] lnames@[k])@ == lowercase_of(
                            result@[k].name@,
                        ),
                    forall|k: int| 0 <= k < pos ==> !listed_before(app@, #[trigger] views(result@)[k]),
                decreases result@.len() - pos,
            {
                pos = pos + 1;
            }
            proof {
                lemma_insert_in_order(views(result@), app@, pos as int);
                assert(views(result@.insert(pos as int, app)) =~= views(result@).insert(pos as int, app@));
                assert(all_labelled(first_of_each_id(after), dv) =~= all_labelled(first_of_each_id(before), dv).push(app@));
                vstd::seq_lib::to_multiset_insert(views(result@), pos as int, app@);
            }
            result.insert(pos, app);
            lnames.insert(pos, lname);
        } else {
            assert(first_of_each_id(after) == first_of_each_id(before));
        }
        i = i + 1;
    }
    assert(fv.take(i as int) =~= fv);
    result
}

fn listed_before_exec(a: &Application, a_lname: &Vec<char>, b: &Application, b_lname: &Vec<char>) -> (r: bool)
    requires
        a_lname@ == lowercase_of(a.name@),
        b_lname@ == lowercase_of(b.name@),
    ensures
        r == listed_before(a@, b@),
{
    if a.default != b.default {
        a.default
    } else if !same(a_lname.as_slice(), b_lname.as_slice()) {
        text_before(a_lname.as_slice(), b_lname.as_slice())
    } else {
        let ai = chars_of(a.id.as_str());
        let bi = chars_of(b.id.as_str());
        !text_before(bi.as_slice(), ai.as_slice())
    }
}

// ------------------------------------------------------------------ the session

/// What a chosen entry asks for: open `path` with `application`.
#[derive(Clone, Debug, PartialEq, Eq)]
pub struct Request {
    pub path: String,
    pub application: String,
}

pub struct RequestView {
    pub path: Seq<char>,
    pub application: Seq<char>,
}

impl View for Request {
    type V = RequestView;

    open spec fn view(&self) -> RequestView {
        RequestView { path: self.path@, application: self.application@ }
    }
}

#[derive(Clone, Debug)]
struct State {
    path: String,
    target_name: String,
    applications: Vec<Application>,
    selected: usize,
    editing: bool,
    custom: String,
    error: String,
}

/// An open prompt: the target, the offered applications, the highlighted
/// row (one past the last is the typed-command row), whether the typed
/// command is being edited, its text, and the message shown.
pub struct StateView {
    pub path: Seq<char>,
    pub target_name: Seq<char>,
    pub applications: Seq<ApplicationView>,
    pub selected: usize,
    pub editing: bool,
    pub custom: Seq<char>,
    pub error: Seq<char>,
}

impl View for State {
    type V = StateView;

    closed spec fn view(&self) -> StateView {
        StateView {
            path: self.path@,
            target_name: self.target_name@,
            applications: views(self.applications@),
            selected: self.selected,
            editing: self.editing,
            custom: self.custom@,
            error: self.error@,
        }
    }
}

/// The Open With prompt, closed or open.
#[derive(Clone, Debug)]
pub struct Session {
    state: Option<State>,
}

impl DeepView for Session {
    type V = Option<StateView>;

    closed spec fn deep_view(&self) -> Option<StateView> {
        match self.state {
            Some(s) => Some(s@),
            None => None,
        }
    }
}

/// What the prompt shows.
#[derive(Clone, Copy, Debug)]
pub enum SessionView<'a> {
    Closed,
    Open {
        target_name: &'a str,
        applications: &'a [Application],
        selected: usize,
        editing: bool,
        custom: &'a str,
        error: &'a str,
    },
}

pub open spec fn request_view(r: Option<Request>) -> Option<RequestView> {
    match r {
        Some(q) => Some(q@),
        None => None,
    }
}

/// The name shown for the target: its last component, or the whole path
/// when it has none.
pub open spec fn target_name_of(path: Seq<char>) -> Seq<char> {
    match file_name_of(path) {
        Some(name) => name,
        None => path,
    }
}

pub open spec fn name_required() -> Seq<char> {
    "Enter an application name, desktop ID, or executable path"@
}

/// The row after moving by `delta`, kept between the first application
/// and the typed-command row.
pub open spec fn moved_selection(selected: int, delta: int, count: int) -> int {
    let target = if selected + delta < 0 {
        0
    } else {
        selected + delta
    };
    if target < count {
        target
    } else {
        count
    }
}

/// Enter: on the typed-command row it starts editing; otherwise the typed
/// command (trimmed) or the highlighted application is chosen, unless it
/// is empty, which leaves the prompt open with a message.
pub open spec fn submit_spec(session: Option<StateView>) -> (Option<StateView>, Option<RequestView>) {
    match session {
        None => (None, None),
        Some(st) => if !st.editing && st.selected == st.applications.len() {
            (Some(StateView { editing: true, ..st }), None)
        } else {
            let chosen: Option<Seq<char>> = if st.editing {
                Some(trim(st.custom))
            } else if st.selected < st.applications.len() {
                Some(st.applications[st.selected as int].id)
            } else {
                None
            };
            match chosen {
                None => (session, None),
                Some(a) => if a.len() == 0 {
                    (Some(StateView { error: name_required(), ..st }), None)
                } else {
                    (None, Some(RequestView { path: st.path, application: a }))
                },
            }
        },
    }
}

impl Session {
    pub fn new() -> (r: Self)
        ensures
            r.deep_view() is None,
    {
        Session { state: None }
    }

    /// Opens the prompt for `path` with the applications found for it.
    pub fn open(&mut self, path: String, applications: Vec<Application>)
        ensures
            final(self).deep_view() == Some(
                StateView {
                    path: path@,
                    target_name: target_name_of(path@),
                    applications: views(applications@),
                    selected: 0,
                    editing: false,
                    custom: Seq::empty(),
                    error: Seq::empty(),
                },
            ),
    {
        let target_name = match file_name(path.as_str()) {
            Some(name) => name,
            None => path.clone(),
        };
        self.state = Some(
            State {
                path,
                target_name,
                applications,
                selected: 0,
                editing: false,
                custom: String::new(),
                error: String::new(),
            },
        );
    }

    pub fn view(&self) -> (r: SessionView<'_>)
        ensures
            match r {
                SessionView::Closed => self.deep_view() is None,
                SessionView::Open {
                    target_name,
                    applications,
                    selected,
                    editing,
                    custom,
                    error,
                } => self.deep_view() matches Some(st) && st.target_name == target_name@ && st.applications
                    == views(applications@) && st.selected == selected && st.editing == editing
                    && st.custom == custom@ && st.error == error@,
            },
    {
        match &self.state {
            None => SessionView::Closed,
            Some(state) => SessionView::Open {
                target_name: state.target_name.as_str(),
                applications: state.applications.as_slice(),
                selected: state.selected,
                editing: state.editing,
                custom: state.custom.as_str(),
                error: state.error.as_str(),
            },
        }
    }

    pub fn is_open(&self) -> (r: bool)
        ensures
            r == self.deep_view() is Some,
    {
        self.state.is_some()
    }

    /// How many application rows the prompt shows: between one and five.
    pub fn visible_rows(&self) -> (r: Option<usize>)
        ensures
            match self.deep_view() {
                None => r is None,
                Some(st) => r == Some(
                    if st.applications.len() < 1 {
                        1usize
                    } else if st.applications.len() > 5 {
                        5usize
                    } else {
                        st.applications.len() as usize
                    },
                ),
            },
    {
        match &self.state {
            None => None,
            Some(state) => {
                let n = state.applications.len();
                Some(
                    if n < 1 {
                        1
                    } else if n > 5 {
                        5
                    } else {
                        n
                    },
                )
            },
        }
    }

    /// Moves the highlight by `delta` rows while no command is being typed.
    pub fn move_selection(&mut self, delta: i32)
        ensures
            match old(self).deep_view() {
                Some(st) => if st.editing {
                    final(self).deep_view() == old(self).deep_view()
                } else {
                    final(self).deep_view() == Some(
                        StateView {
                            selected: moved_selection(
                                st.selected as int,
                                delta as int,
                                st.applications.len() as int,
                            ) as usize,
                            error: Seq::empty(),
                            ..st
                        },
                    )
                },
                None => final(self).deep_view() is None,
            },
    {
        let mut state = match self.state.take() {
            Some(state) => state,
            None => {
                return ;
            },
        };
        if !state.editing {
            let target: usize = if delta >= 0 {
                let d: usize = delta as usize;
                if state.selected > usize::MAX - d {
                    usize::MAX
                } else {
                    state.selected + d
                }
            } else {
                let wide: i64 = delta as i64;
                let d: usize = (0 - wide) as usize;
                if state.selected < d {
                    0
                } else {
                    state.selected - d
                }
            };
            let count = state.applications.len();
            state.selected = if target < count {
                target
            } else {
                count
            };
            state.error = String::new();
        }
        self.state = Some(state);
    }

    /// Leaves the typed-command field, keeping its text; false when no
    /// command was being typed.
    pub fn leave_custom(&mut self) -> (r: bool)
        ensures
            r == (old(self).deep_view() matches Some(st) && st.editing),
            r ==> final(self).deep_view() == Some(
                StateView { editing: false, error: Seq::empty(), ..old(self).deep_view()->0 },
            ),
            !r ==> final(self).deep_view() == old(self).deep_view(),
    {
        let mut state = match self.state.take() {
            Some(state) => state,
            None => {
                return false;
            },
        };
        let left = state.editing;
        if left {
            state.editing = false;
            state.error = String::new();
        }
        self.state = Some(state);
        left
    }

    /// Replaces the typed command while it is being edited.
    pub fn change_custom(&mut self, value: String)
        ensures
            final(self).deep_view() == (match old(self).deep_view() {
                Some(st) => if st.editing {
                    Some(StateView { custom: value@, error: Seq::empty(), ..st })
                } else {
                    old(self).deep_view()
                },
                None => None,
            }),
    {
        let mut state = match self.state.take() {
            Some(state) => state,
            None => {
                return ;
            },
        };
        if state.editing {
            state.custom = value;
            state.error = String::new();
        }
        self.state = Some(state);
    }

    pub fn submit(&mut self) -> (r: Option<Request>)
        ensures
            (final(self).deep_view(), request_view(r)) == submit_spec(old(self).deep_view()),
    {
        let mut state = match self.state.take() {
            Some(state) => state,
            None => {
                return None;
            },
        };
        if !state.editing && state.selected == state.applications.len() {
            state.editing = true;
            self.state = Some(state);
            return None;
        }
        let application: String = if state.editing {
            let custom = chars_of(state.custom.as_str());
            let t = trimmed(custom.as_slice());
            string_of(t.as_slice())
        } else if state.selected < state.applications.len() {
            state.applications[state.selected].id.clone()
        } else {
            self.state = Some(state);
            return None;
        };
        if application.unicode_len() == 0 {
            state.error = String::from_str("Enter an application name, desktop ID, or executable path");
            self.state = Some(state);
            return None;
        }
        Some(Request { path: state.path, application })
    }

    /// Closes the prompt; false when it was not open.
    pub fn cancel(&mut self) -> (r: bool)
        ensures
            r == old(self).deep_view() is Some,
            final(self).deep_view() is None,
    {
        let was_open = self.state.is_some();
        self.state = None;
        was_open
    }
}

impl Default for Session {
    fn default() -> (r: Self)
        ensures
            r.deep_view() is None,
    {
        Session { state: None }
    }
}

// ------------------------------------------------------------------ typed paths

/// Where a typed application points: `~/` is taken from the home folder,
/// a relative path with a separator from the target's folder, and anything
/// else (a bare command name or an absolute path) as typed.
pub open spec fn application_path_spec(target: Seq<char>, requested: Seq<char>, home: Seq<char>) -> Seq<char> {
    if requested.len() >= 2 && requested[0] == '~' && requested[1] == '/' {
        join(home, requested.skip(2))
    } else if !(requested.len() > 0 && requested[0] == '/') && requested.contains('/') {
        join(
            match parent_of(target) {
                Some(p) => p,
                None => seq!['.'],
            },
            requested,
        )
    } else {
        requested
    }
}

pub fn application_path(target: &str, requested: &str, home: &str) -> (r: String)
    ensures
        r@ == application_path_spec(target@, requested@, home@),
{
    let req = chars_of(requested);
    if req.len() >= 2 && req[0] == '~' && req[1] == '/' {
        let rest = slice_chars(req.as_slice(), 2, req.len());
        let rest_text = string_of(rest.as_slice());
        assert(rest@ == requested@.skip(2));
        return join_path(home, rest_text.as_str());
    }
    let absolute = req.len() > 0 && req[0] == '/';
    let mut has_separator = false;
    let mut k: usize = 0;
    while k < req.len()
        invariant
            req@ == requested@,
            k <= req@.len(),
            has_separator == exists|j: int| 0 <= j < k && req@[j] == '/',
        decreases req@.len() - k,
    {
        if req[k] == '/' {
            has_separator = true;
        }
        k = k + 1;
    }
    proof {
        if has_separator {
            let j = choose|j: int| 0 <= j < k && req@[j] == '/';
            assert(requested@.contains('/'));
        }
    }
    if !absolute && has_separator {
        let base = match path_parent(target) {
            Some(p) => p,
            None => String::from_str("."),
        };
        proof {
            reveal_strlit(".");
        }
        join_path(base.as_str(), requested)
    } else {
        String::from_str(requested)
    }
}

} // verus!

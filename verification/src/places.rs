//! Favorites and volume commands: what `:favorite ...` and `:volume ...`
//! ask for. Saving the Favorites file is the caller's part; a change is
//! applied here only once it has been saved.
use vstd::prelude::*;

use crate::paths::{file_name, file_name_of, has_path, join, join_path, same_path, same_path_spec};
use crate::text::{
    chars_of, first_space_from, push_chars, push_decimal, push_str, same_as, slice_chars,
    string_of, trim, trimmed, decimal,
};

verus! {

// ------------------------------------------------------------------ numbers

/// Every character is an ASCII digit.
pub open spec fn all_digits(s: Seq<char>) -> bool {
    forall|i: int| 0 <= i < s.len() ==> '0' <= #[trigger] s[i] <= '9'
}

/// The number that a run of digits spells.
pub open spec fn digits_value(s: Seq<char>) -> nat
    decreases s.len(),
{
    if s.len() == 0 {
        0
    } else {
        digits_value(s.drop_last()) * 10 + ((s.last() as u32) - 48) as nat
    }
}

/// `usize::from_str`: an optional `+`, then one or more ASCII digits whose
/// value fits in `usize`.
pub open spec fn parse_usize_spec(s: Seq<char>) -> Option<nat> {
    let d = if s.len() > 0 && s[0] == '+' {
        s.skip(1)
    } else {
        s
    };
    if d.len() > 0 && all_digits(d) && digits_value(d) <= usize::MAX {
        Some(digits_value(d))
    } else {
        None
    }
}

proof fn lemma_digits_grow(s: Seq<char>, k: int)
    requires
        0 <= k <= s.len(),
        all_digits(s),
    ensures
        digits_value(s.take(k)) <= digits_value(s),
    decreases s.len() - k,
{
    if k < s.len() {
        lemma_digits_grow(s, k + 1);
        assert(s.take(k + 1).drop_last() =~= s.take(k));
        assert('0' <= s[k] <= '9');
    } else {
        assert(s.take(k) =~= s);
    }
}

/// Parses a decimal `usize` the way `str::parse::<usize>` does.
pub fn parse_usize(s: &[char]) -> (r: Option<usize>)
    ensures
        match r {
            Some(v) => parse_usize_spec(s@) == Some(v as nat),
            None => parse_usize_spec(s@) is None,
        },
{
    let n = s.len();
    let start: usize = if n > 0 && s[0] == '+' {
        1
    } else {
        0
    };
    let ghost d = if s@.len() > 0 && s@[0] == '+' {
        s@.skip(1)
    } else {
        s@
    };
    assert(d =~= s@.skip(start as int));
    if start == n {
        assert(d.len() == 0);
        return None;
    }
    let mut value: usize = 0;
    let mut i: usize = start;
    while i < n
        invariant
            n == s@.len(),
            start <= i <= n,
            start < n,
            d == s@.skip(start as int),
            d == (if s@.len() > 0 && s@[0] == '+' {
                s@.skip(1)
            } else {
                s@
            }),
            all_digits(d.take(i - start)),
            value == digits_value(d.take(i - start)),
        decreases n - i,
    {
        let c = s[i];
        assert(d.take(i + 1 - start).drop_last() =~= d.take(i - start));
        assert(d.take(i + 1 - start).last() == c);
        assert(d[i - start] == c);
        if c < '0' || c > '9' {
            assert(!all_digits(d));
            return None;
        }
        assert(all_digits(d.take(i + 1 - start)));
        let digit: usize = ((c as u32) - 48) as usize;
        assert(digits_value(d.take(i + 1 - start)) == value * 10 + digit);
        match value.checked_mul(10) {
            Some(tens) => match tens.checked_add(digit) {
                Some(next) => {
                    value = next;
                },
                None => {
                    proof {
                        if all_digits(d) {
                            lemma_digits_grow(d, i + 1 - start);
                        }
                    }
                    return None;
                },
            },
            None => {
                proof {
                    if all_digits(d) {
                        lemma_digits_grow(d, i + 1 - start);
                    }
                }
                return None;
            },
        }
        i = i + 1;
    }
    assert(d.take(n - start) =~= d);
    Some(value)
}

// ------------------------------------------------------------------ favorites

/// A folder kept in the sidebar, under a label of the user's choosing.
#[derive(Clone, Debug, PartialEq, Eq)]
pub struct Favorite {
    pub path: String,
    pub label: String,
}

pub struct FavoriteView {
    pub path: Seq<char>,
    pub label: Seq<char>,
}

impl DeepView for Favorite {
    type V = FavoriteView;

    open spec fn deep_view(&self) -> FavoriteView {
        FavoriteView { path: self.path@, label: self.label@ }
    }
}

/// The Favorites and the file they are saved in.
#[derive(Debug)]
pub struct Places {
    path: String,
    favorites: Vec<Favorite>,
}

pub struct PlacesView {
    pub path: Seq<char>,
    pub favorites: Seq<FavoriteView>,
}

impl DeepView for Places {
    type V = PlacesView;

    closed spec fn deep_view(&self) -> PlacesView {
        PlacesView { path: self.path@, favorites: self.favorites.deep_view() }
    }
}

/// What a Favorites command asks for: an answer with no change, or a new
/// list to save (and, once saved, to apply) with the message to show then.
#[derive(Debug)]
pub enum FavoriteChange {
    Unchanged(String),
    Save { favorites: Vec<Favorite>, message: String },
}

pub enum ChangeView {
    Unchanged(Seq<char>),
    Save { favorites: Seq<FavoriteView>, message: Seq<char> },
}

impl DeepView for FavoriteChange {
    type V = ChangeView;

    open spec fn deep_view(&self) -> ChangeView {
        match self {
            FavoriteChange::Unchanged(m) => ChangeView::Unchanged(m@),
            FavoriteChange::Save { favorites, message } => ChangeView::Save {
                favorites: favorites.deep_view(),
                message: message@,
            },
        }
    }
}

/// `splitn(2, char::is_whitespace)` on trimmed arguments: the first word and,
/// when there was whitespace after it, the rest.
pub open spec fn first_and_rest(arguments: Seq<char>) -> (Seq<char>, Option<Seq<char>>) {
    let t = trim(arguments);
    match first_space_from(t, 0) {
        Some(k) => (t.take(k), Some(t.skip(k + 1))),
        None => (t, None),
    }
}

/// One line of `:favorite list`: `N. LABEL  PATH`.
pub open spec fn favorite_line(index: nat, f: FavoriteView) -> Seq<char> {
    decimal(index + 1) + ". "@ + f.label + "  "@ + f.path
}

/// The lines of the listing, joined with newlines.
pub open spec fn favorite_lines(fs: Seq<FavoriteView>) -> Seq<char>
    decreases fs.len(),
{
    if fs.len() == 0 {
        Seq::empty()
    } else if fs.len() == 1 {
        favorite_line(0, fs[0])
    } else {
        favorite_lines(fs.drop_last()) + "\n"@ + favorite_line((fs.len() - 1) as nat, fs.last())
    }
}

/// The label of a new Favorite: the given one, or the folder's name, or the
/// whole path when it has no name.
pub open spec fn add_label(current: Seq<char>, given: Option<Seq<char>>) -> Seq<char> {
    match given {
        Some(l) if trim(l).len() > 0 => trim(l),
        _ => match file_name_of(current) {
            Some(name) => name,
            None => current,
        },
    }
}

pub open spec fn favorite_paths(fs: Seq<FavoriteView>) -> Seq<Seq<char>> {
    fs.map_values(|f: FavoriteView| f.path)
}

/// What a `:favorite` command asks of the Favorites `fs`.
pub open spec fn command_spec(
    fs: Seq<FavoriteView>,
    current: Seq<char>,
    arguments: Seq<char>,
) -> Result<ChangeView, Seq<char>> {
    let (word, rest) = first_and_rest(arguments);
    if word == "add"@ {
        let label = add_label(current, rest);
        if has_path(favorite_paths(fs), current) {
            Err("the current folder is already a Favorite"@)
        } else {
            Ok(
                ChangeView::Save {
                    favorites: fs.push(FavoriteView { path: current, label }),
                    message: "Added Favorite: "@ + label,
                },
            )
        }
    } else if word == "remove"@ {
        match rest {
            None => Err("expected :favorite remove INDEX"@),
            Some(r) => match parse_usize_spec(trim(r)) {
                None => Err("Favorite index must be a number"@),
                Some(index) => if index == 0 || index > fs.len() {
                    Err("Favorite index is out of range"@)
                } else {
                    Ok(
                        ChangeView::Save {
                            favorites: fs.remove(index - 1),
                            message: "Removed Favorite: "@ + fs[index - 1].label,
                        },
                    )
                },
            },
        }
    } else if word == "list"@ || word.len() == 0 {
        Ok(
            ChangeView::Unchanged(
                if fs.len() == 0 {
                    "No Favorites. Use :favorite add [LABEL] in a folder."@
                } else {
                    favorite_lines(fs)
                },
            ),
        )
    } else {
        Err("unknown favorite command: "@ + word)
    }
}

/// Moving the Favorite at `from` to `to`; out-of-range or equal positions
/// change nothing.
pub open spec fn reorder_spec(fs: Seq<FavoriteView>, from: int, to: int) -> Option<
    Seq<FavoriteView>,
> {
    if from >= fs.len() || to >= fs.len() || from == to {
        None
    } else {
        Some(fs.remove(from).insert(to, fs[from]))
    }
}

/// Dragging a Favorite only moves it: the list keeps the same Favorites,
/// and the moved one lands at the new position.
pub proof fn lemma_reorder_moves_one(fs: Seq<FavoriteView>, from: int, to: int)
    requires
        0 <= from < fs.len(),
        0 <= to < fs.len(),
        from != to,
    ensures
        reorder_spec(fs, from, to) matches Some(n) && n.len() == fs.len() && n[to] == fs[from]
            && n.to_multiset() == fs.to_multiset(),
{
    broadcast use vstd::multiset::group_multiset_axioms;

    let removed = fs.remove(from);
    vstd::seq_lib::to_multiset_remove(fs, from);
    vstd::seq_lib::to_multiset_insert(removed, to, fs[from]);
    assert(fs.to_multiset().remove(fs[from]).insert(fs[from]) =~= fs.to_multiset()) by {
        vstd::seq_lib::to_multiset_contains(fs, fs[from]);
    }
}

fn duplicate_favorites(v: &Vec<Favorite>) -> (r: Vec<Favorite>)
    ensures
        r.deep_view() == v.deep_view(),
{
    let mut r: Vec<Favorite> = Vec::new();
    let mut i: usize = 0;
    while i < v.len()
        invariant
            i <= v@.len(),
            r@.len() == i,
            r.deep_view() == v.deep_view().take(i as int),
        decreases v@.len() - i,
    {
        let ghost old_r = r@;
        let f = Favorite { path: v[i].path.clone(), label: v[i].label.clone() };
        r.push(f);
        proof {
            let rv = r.deep_view();
            let vv = v.deep_view().take(i + 1);
            assert forall|k: int| 0 <= k < rv.len() implies rv[k] == vv[k] by {
                if k < i {
                    assert(r@[k] == old_r[k]);
                }
            }
            assert(rv =~= vv);
        }
        i = i + 1;
    }
    assert(v.deep_view().take(i as int) =~= v.deep_view());
    r
}

fn favorites_listing(fs: &Vec<Favorite>) -> (r: Vec<char>)
    ensures
        r@ == favorite_lines(fs.deep_view()),
{
    let mut r: Vec<char> = Vec::new();
    let mut i: usize = 0;
    let ghost all = fs.deep_view();
    while i < fs.len()
        invariant
            i <= fs@.len(),
            all == fs.deep_view(),
            r@ == favorite_lines(all.take(i as int)),
        decreases fs@.len() - i,
    {
        let ghost before = r@;
        assert(all.take(i + 1).drop_last() =~= all.take(i as int));
        assert(all.take(i + 1).last() == all[i as int]);
        if i > 0 {
            push_str(&mut r, "\n");
        }
        push_decimal(&mut r, i + 1);
        push_str(&mut r, ". ");
        push_str(&mut r, fs[i].label.as_str());
        push_str(&mut r, "  ");
        push_str(&mut r, fs[i].path.as_str());
        i = i + 1;
        proof {
            if i == 1 {
                assert(r@ =~= favorite_line(0, all[0]));
                assert(all.take(1)[0] == all[0]);
            } else {
                assert(r@ =~= before + "\n"@ + favorite_line((i - 1) as nat, all[i - 1]));
            }
        }
    }
    assert(all.take(i as int) =~= all);
    r
}

fn first_and_rest_exec(arguments: &str) -> (r: (Vec<char>, Option<Vec<char>>))
    ensures
        r.0@ == first_and_rest(arguments@).0,
        r.1 matches Some(v) ==> first_and_rest(arguments@).1 == Some(v@),
        r.1 is None ==> first_and_rest(arguments@).1 is None,
{
    let a = chars_of(arguments);
    let t = trimmed(a.as_slice());
    let n = t.len();
    let mut k: usize = 0;
    while k < n && !crate::text::space(t[k])
        invariant
            n == t@.len(),
            k <= n,
            first_space_from(t@, k as int) == first_space_from(t@, 0),
        decreases n - k,
    {
        k = k + 1;
    }
    if k < n {
        let word = slice_chars(t.as_slice(), 0, k);
        let rest = slice_chars(t.as_slice(), k + 1, n);
        assert(word@ =~= t@.take(k as int));
        assert(rest@ =~= t@.skip(k + 1));
        (word, Some(rest))
    } else {
        let word = slice_chars(t.as_slice(), 0, n);
        assert(word@ =~= t@);
        (word, None)
    }
}

pub open spec fn command_result(r: Result<FavoriteChange, String>) -> Result<ChangeView, Seq<char>> {
    match r {
        Ok(c) => Ok(c.deep_view()),
        Err(e) => Err(e@),
    }
}

impl Places {
    /// No Favorites yet, saved in the file at `path`.
    pub fn empty_at(path: String) -> (r: Self)
        ensures
            r.deep_view().path == path@,
            r.deep_view().favorites.len() == 0,
    {
        Places { path, favorites: Vec::new() }
    }

    /// The Favorites read from the file at `path`.
    pub fn with_favorites(path: String, favorites: Vec<Favorite>) -> (r: Self)
        ensures
            r.deep_view().path == path@,
            r.deep_view().favorites == favorites.deep_view(),
    {
        Places { path, favorites }
    }

    pub fn path(&self) -> (r: &str)
        ensures
            r@ == self.deep_view().path,
    {
        self.path.as_str()
    }

    pub fn favorites(&self) -> (r: &Vec<Favorite>)
        ensures
            r.deep_view() == self.deep_view().favorites,
    {
        &self.favorites
    }

    /// A `:favorite` command in the folder `current`: `add [LABEL]`,
    /// `remove INDEX` (counting from 1), or `list`. Nothing changes here;
    /// a new list comes back to be saved and then applied.
    pub fn command(&self, current: &str, arguments: &str) -> (r: Result<FavoriteChange, String>)
        ensures
            command_result(r) == command_spec(self.deep_view().favorites, current@, arguments@),
    {
        let (word, rest) = first_and_rest_exec(arguments);
        let fs = &self.favorites;
        if same_as(word.as_slice(), "add") {
            let label: Vec<char> = match &rest {
                Some(r) => {
                    let t = trimmed(r.as_slice());
                    if t.len() > 0 {
                        t
                    } else {
                        match file_name(current) {
                            Some(name) => chars_of(name.as_str()),
                            None => chars_of(current),
                        }
                    }
                },
                None => match file_name(current) {
                    Some(name) => chars_of(name.as_str()),
                    None => chars_of(current),
                },
            };
            assert(label@ == add_label(current@, first_and_rest(arguments@).1));
            let mut i: usize = 0;
            let ghost paths = favorite_paths(fs.deep_view());
            while i < fs.len()
                invariant
                    i <= fs@.len(),
                    paths == favorite_paths(fs.deep_view()),
                    fs.deep_view() == self.deep_view().favorites,
                    word@ == first_and_rest(arguments@).0,
                    word@ == "add"@,
                    forall|j: int| 0 <= j < i ==> !same_path_spec(#[trigger] paths[j], current@),
                decreases fs@.len() - i,
            {
                if same_path(fs[i].path.as_str(), current) {
                    assert(same_path_spec(paths[i as int], current@));
                    return Err(String::from_str("the current folder is already a Favorite"));
                }
                i = i + 1;
            }
            assert(!has_path(paths, current@));
            let mut favorites = duplicate_favorites(fs);
            let label_text = string_of(label.as_slice());
            let ghost before = favorites.deep_view();
            favorites.push(Favorite { path: String::from_str(current), label: label_text.clone() });
            assert(favorites.deep_view() =~= before.push(
                FavoriteView { path: current@, label: label@ },
            ));
            let mut message = chars_of("Added Favorite: ");
            push_chars(&mut message, label.as_slice());
            return Ok(FavoriteChange::Save { favorites, message: string_of(message.as_slice()) });
        }
        if same_as(word.as_slice(), "remove") {
            let r = match rest {
                None => {
                    return Err(String::from_str("expected :favorite remove INDEX"));
                },
                Some(r) => r,
            };
            let t = trimmed(r.as_slice());
            let index = match parse_usize(t.as_slice()) {
                None => {
                    return Err(String::from_str("Favorite index must be a number"));
                },
                Some(index) => index,
            };
            if index == 0 || index > fs.len() {
                return Err(String::from_str("Favorite index is out of range"));
            }
            let mut favorites = duplicate_favorites(fs);
            let ghost before = favorites.deep_view();
            let removed = favorites.remove(index - 1);
            assert(favorites.deep_view() =~= before.remove(index - 1));
            let mut message = chars_of("Removed Favorite: ");
            push_str(&mut message, removed.label.as_str());
            return Ok(FavoriteChange::Save { favorites, message: string_of(message.as_slice()) });
        }
        if same_as(word.as_slice(), "list") || word.len() == 0 {
            if fs.len() == 0 {
                return Ok(
                    FavoriteChange::Unchanged(
                        String::from_str("No Favorites. Use :favorite add [LABEL] in a folder."),
                    ),
                );
            }
            let listing = favorites_listing(fs);
            return Ok(FavoriteChange::Unchanged(string_of(listing.as_slice())));
        }
        let mut message = chars_of("unknown favorite command: ");
        push_chars(&mut message, word.as_slice());
        Err(string_of(message.as_slice()))
    }

    /// Moving a Favorite by dragging it: the new order to save, or nothing
    /// when the move changes nothing.
    pub fn reorder(&self, from: usize, to: usize) -> (r: Option<Vec<Favorite>>)
        ensures
            r.deep_view() == reorder_spec(self.deep_view().favorites, from as int, to as int),
    {
        let n = self.favorites.len();
        if from >= n || to >= n || from == to {
            return None;
        }
        let mut favorites = duplicate_favorites(&self.favorites);
        let ghost before = favorites.deep_view();
        let favorite = favorites.remove(from);
        let ghost moved = favorite.deep_view();
        favorites.insert(to, favorite);
        assert(favorites.deep_view() =~= before.remove(from as int).insert(to as int, moved));
        Some(favorites)
    }

    /// Applies a list of Favorites once it has been saved.
    pub fn apply(&mut self, favorites: Vec<Favorite>)
        ensures
            final(self).deep_view() == (PlacesView {
                favorites: favorites.deep_view(),
                ..old(self).deep_view()
            }),
    {
        self.favorites = favorites;
    }
}

// ------------------------------------------------------------------ volumes

#[derive(Clone, Copy, Debug, PartialEq, Eq, Structural)]
pub enum VolumeAction {
    Mount,
    Unmount,
    Eject,
}

/// `:volume ACTION NAME`: a known action and a name that is not empty.
pub open spec fn volume_spec(arguments: Seq<char>) -> Result<(VolumeAction, Seq<char>), Seq<char>> {
    let t = trim(arguments);
    match first_space_from(t, 0) {
        None => Err("expected :volume mount|unmount|eject NAME"@),
        Some(k) => {
            let action = t.take(k);
            let name = trim(t.skip(k + 1));
            if action != "mount"@ && action != "unmount"@ && action != "eject"@ {
                Err("unknown volume action: "@ + action)
            } else if name.len() == 0 {
                Err("volume name cannot be empty"@)
            } else {
                Ok(
                    (
                        if action == "mount"@ {
                            VolumeAction::Mount
                        } else if action == "unmount"@ {
                            VolumeAction::Unmount
                        } else {
                            VolumeAction::Eject
                        },
                        name,
                    ),
                )
            }
        },
    }
}

pub fn parse_volume_action(arguments: &str) -> (r: Result<(VolumeAction, String), String>)
    ensures
        match r {
            Ok((a, n)) => volume_spec(arguments@) == Ok::<(VolumeAction, Seq<char>), Seq<char>>(
                (a, n@),
            ),
            Err(e) => volume_spec(arguments@) == Err::<(VolumeAction, Seq<char>), Seq<char>>(e@),
        },
{
    let (word, rest) = first_and_rest_exec(arguments);
    let rest = match rest {
        None => {
            return Err(String::from_str("expected :volume mount|unmount|eject NAME"));
        },
        Some(r) => r,
    };
    let action = if same_as(word.as_slice(), "mount") {
        VolumeAction::Mount
    } else if same_as(word.as_slice(), "unmount") {
        VolumeAction::Unmount
    } else if same_as(word.as_slice(), "eject") {
        VolumeAction::Eject
    } else {
        let mut message = chars_of("unknown volume action: ");
        push_chars(&mut message, word.as_slice());
        return Err(string_of(message.as_slice()));
    };
    let name = trimmed(rest.as_slice());
    if name.len() == 0 {
        return Err(String::from_str("volume name cannot be empty"));
    }
    Ok((action, string_of(name.as_slice())))
}

/// Where the Favorites file lives: under `XDG_CONFIG_HOME` when it is set,
/// else under `~/.config`, else in the working folder.
pub open spec fn config_path_spec(base: Option<Seq<char>>, home: Option<Seq<char>>) -> Seq<char> {
    match base {
        Some(b) => join(b, "waddle/favorites.json"@),
        None => match home {
            Some(h) => join(h, ".config/waddle/favorites.json"@),
            None => ".waddle-favorites.json"@,
        },
    }
}

pub fn config_path(base: Option<&str>, home: Option<&str>) -> (r: String)
    ensures
        r@ == config_path_spec(
            match base {
                Some(b) => Some(b@),
                None => None,
            },
            match home {
                Some(h) => Some(h@),
                None => None,
            },
        ),
{
    match base {
        Some(b) => join_path(b, "waddle/favorites.json"),
        None => match home {
            Some(h) => join_path(h, ".config/waddle/favorites.json"),
            None => String::from_str(".waddle-favorites.json"),
        },
    }
}

} // verus!

//! Reading the desktop's font choice: picking the installed family that a
//! Pango-style description names, and reading `key=value` settings from a
//! section of an INI file (GTK `settings.ini`, KDE `kdeglobals`).
use vstd::prelude::*;

use crate::paths::{join, join_path};
use crate::text::{
    chars_of, is_space, lower_chars, lower_seq, same, same_ignoring_ascii_case,
    same_ignoring_case, space, string_of, trim, trimmed, slice_chars,
};

verus! {

// ------------------------------------------------------------------ families

/// `name` begins `description` (ignoring ASCII case) and is followed by the
/// end of the description or by whitespace, so a family is never matched by
/// a longer word that merely starts with it.
pub open spec fn family_matches(description: Seq<char>, name: Seq<char>) -> bool {
    let k = name.len() as int;
    &&& k <= description.len()
    &&& lower_seq(description.take(k)) == lower_seq(name)
    &&& (k == description.len() || is_space(description[k]))
}

/// Among the matching families the longest wins, and of equally long ones
/// the last (`Iterator::max_by_key`).
pub open spec fn best_family(description: Seq<char>, names: Seq<Seq<char>>) -> Option<int>
    decreases names.len(),
{
    if names.len() == 0 {
        None
    } else {
        let prev = best_family(description, names.drop_last());
        let k = names.len() - 1;
        if family_matches(description, names[k]) && (prev matches Some(p) ==> names[p].len()
            <= names[k].len()) {
            Some(k)
        } else {
            prev
        }
    }
}

proof fn lemma_best_family_bounds(description: Seq<char>, names: Seq<Seq<char>>)
    ensures
        best_family(description, names) matches Some(i) ==> 0 <= i < names.len(),
    decreases names.len(),
{
    if names.len() > 0 {
        lemma_best_family_bounds(description, names.drop_last());
    }
}

fn family_matches_exec(description: &[char], name: &[char]) -> (r: bool)
    ensures
        r == family_matches(description@, name@),
{
    let k = name.len();
    if k > description.len() {
        return false;
    }
    let head = slice_chars(description, 0, k);
    assert(head@ =~= description@.take(k as int));
    let a = lower_chars(head.as_slice());
    let b = lower_chars(name);
    if !same(a.as_slice(), b.as_slice()) {
        return false;
    }
    k == description.len() || space(description[k])
}

/// The texts of the installed family names.
pub open spec fn family_names(available: Seq<&str>) -> Seq<Seq<char>> {
    available.map_values(|a: &str| a@)
}

/// The installed family that a description such as `Noto Sans Mono Bold 11`
/// names: the longest family that begins the trimmed description, ignoring
/// ASCII case, and ends at a word boundary. Style words and sizes after the
/// family are left alone, so multi-word names and names with digits survive.
pub fn matching_family<'a>(description: &str, available: &[&'a str]) -> (r: Option<&'a str>)
    ensures
        r matches Some(f) ==> best_family(trim(description@), family_names(available@)) matches Some(
            i,
        ) && f@ == available@[i]@,
        r is None ==> best_family(trim(description@), family_names(available@)) is None,
{
    let d_chars = chars_of(description);
    let d = trimmed(d_chars.as_slice());
    let ghost names = family_names(available@);
    let mut best: Option<usize> = None;
    let mut best_len: usize = 0;
    let mut i: usize = 0;
    while i < available.len()
        invariant
            i <= available@.len(),
            d@ == trim(description@),
            names == family_names(available@),
            best.deep_view() == (match best_family(d@, names.take(i as int)) {
                Some(b) => Some(b as usize),
                None => None::<usize>,
            }),
            best matches Some(b) ==> b < i && best_len == names[b as int].len(),
        decreases available@.len() - i,
    {
        proof {
            lemma_best_family_bounds(d@, names.take(i as int));
            assert(names.take(i + 1).drop_last() =~= names.take(i as int));
            assert(names.take(i + 1)[i as int] == names[i as int]);
        }
        let name = chars_of(available[i]);
        if family_matches_exec(d.as_slice(), name.as_slice()) {
            let replace = match best {
                Some(_) => best_len <= name.len(),
                None => true,
            };
            if replace {
                best = Some(i);
                best_len = name.len();
            }
        }
        i = i + 1;
    }
    assert(names.take(i as int) =~= names);
    proof {
        lemma_best_family_bounds(d@, names);
    }
    match best {
        Some(b) => Some(available[b]),
        None => None,
    }
}

/// The first name equal to `target` when ASCII case is ignored.
pub open spec fn first_same_name(names: Seq<Seq<char>>, target: Seq<char>) -> Option<int>
    decreases names.len(),
{
    if names.len() == 0 {
        None
    } else {
        match first_same_name(names.drop_last(), target) {
            Some(i) => Some(i),
            None => if same_ignoring_ascii_case(names.last(), target) {
                Some(names.len() - 1)
            } else {
                None
            },
        }
    }
}

proof fn lemma_first_same_name_bounds(names: Seq<Seq<char>>, target: Seq<char>)
    ensures
        first_same_name(names, target) matches Some(i) ==> 0 <= i < names.len(),
    decreases names.len(),
{
    if names.len() > 0 {
        lemma_first_same_name_bounds(names.drop_last(), target);
    }
}

/// The family to use: the one the desktop's description names, else the
/// one fontconfig suggests (ignoring ASCII case), else the bundled family
/// when it is installed.
pub open spec fn choose_family_spec(
    names: Seq<Seq<char>>,
    description: Option<Seq<char>>,
    fallback: Option<Seq<char>>,
    bundled: Seq<char>,
) -> Option<Seq<char>> {
    let described = match description {
        Some(d) => match best_family(trim(d), names) {
            Some(i) => Some(names[i]),
            None => None,
        },
        None => None,
    };
    let suggested = match fallback {
        Some(f) => match first_same_name(names, f) {
            Some(i) => Some(names[i]),
            None => None,
        },
        None => None,
    };
    if described is Some {
        described
    } else if suggested is Some {
        suggested
    } else if names.contains(bundled) {
        Some(bundled)
    } else {
        None
    }
}

pub fn choose_family(
    available: &[&str],
    description: Option<&str>,
    fallback: Option<&str>,
    bundled: &str,
) -> (r: Option<String>)
    ensures
        r.deep_view() == choose_family_spec(
            family_names(available@),
            match description {
                Some(d) => Some(d@),
                None => None,
            },
            match fallback {
                Some(f) => Some(f@),
                None => None,
            },
            bundled@,
        ),
{
    let ghost names = family_names(available@);
    let ghost dv: Option<Seq<char>> = match description {
        Some(d) => Some(d@),
        None => None,
    };
    if let Some(d) = description {
        proof {
            lemma_best_family_bounds(trim(d@), names);
        }
        if let Some(f) = matching_family(d, available) {
            return Some(String::from_str(f));
        }
    }
    if let Some(f) = fallback {
        let fc = chars_of(f);
        let mut i: usize = 0;
        assert(names.take(0) =~= Seq::<Seq<char>>::empty());
        while i < available.len()
            invariant
                names == family_names(available@),
                dv == (match description {
                    Some(d) => Some(d@),
                    None => None::<Seq<char>>,
                }),
                dv matches Some(d) ==> best_family(trim(d), names) is None,
                fallback == Some(f),
                fc@ == f@,
                i <= available@.len(),
                first_same_name(names.take(i as int), f@) is None,
            decreases available@.len() - i,
        {
            proof {
                assert(names.take(i + 1).drop_last() =~= names.take(i as int));
            }
            let name = chars_of(available[i]);
            if same_ignoring_case(name.as_slice(), fc.as_slice()) {
                proof {
                    assert(names[i as int] == available@[i as int]@);
                    assert(first_same_name(names.take(i + 1), f@) == Some(i as int));
                    lemma_first_same_name_prefix(names, f@, i + 1);
                }
                return Some(String::from_str(available[i]));
            }
            i = i + 1;
        }
        assert(names.take(i as int) =~= names);
    }
    let bc = chars_of(bundled);
    let mut j: usize = 0;
    while j < available.len()
        invariant
            names == family_names(available@),
            dv == (match description {
                Some(d) => Some(d@),
                None => None::<Seq<char>>,
            }),
            dv matches Some(d) ==> best_family(trim(d), names) is None,
            fallback matches Some(f) ==> first_same_name(names, f@) is None,
            bc@ == bundled@,
            j <= available@.len(),
            forall|k: int| 0 <= k < j ==> names[k] != bundled@,
        decreases available@.len() - j,
    {
        let name = chars_of(available[j]);
        assert(names[j as int] == available@[j as int]@);
        if same(name.as_slice(), bc.as_slice()) {
            assert(names[j as int] == bundled@);
            return Some(String::from_str(bundled));
        }
        j = j + 1;
    }
    None
}

proof fn lemma_first_same_name_prefix(names: Seq<Seq<char>>, target: Seq<char>, n: int)
    requires
        0 <= n <= names.len(),
        first_same_name(names.take(n), target) is Some,
    ensures
        first_same_name(names, target) == first_same_name(names.take(n), target),
    decreases names.len() - n,
{
    if n < names.len() {
        assert(names.take(n + 1).drop_last() =~= names.take(n));
        lemma_first_same_name_prefix(names, target, n + 1);
    } else {
        assert(names.take(n) =~= names);
    }
}

// ------------------------------------------------------------------ desktop settings

/// The text split at every `sep` (`str::split` with a character).
pub open spec fn split_at_char(s: Seq<char>, sep: char) -> Seq<Seq<char>>
    decreases s.len(),
{
    if s.len() == 0 {
        seq![Seq::empty()]
    } else {
        let prev = split_at_char(s.drop_last(), sep);
        if s.last() == sep {
            prev.push(Seq::empty())
        } else {
            prev.drop_last().push(prev.last().push(s.last()))
        }
    }
}

proof fn lemma_split_nonempty(s: Seq<char>, sep: char)
    ensures
        split_at_char(s, sep).len() >= 1,
    decreases s.len(),
{
    if s.len() > 0 {
        lemma_split_nonempty(s.drop_last(), sep);
    }
}

pub fn split_chars(s: &str, sep: char) -> (r: Vec<String>)
    ensures
        r.deep_view() == split_at_char(s@, sep),
{
    let c = chars_of(s);
    let n = c.len();
    let mut done: Vec<String> = Vec::new();
    let mut current: Vec<char> = Vec::new();
    let mut i: usize = 0;
    assert(c@.take(0) =~= Seq::<char>::empty());
    assert(done.deep_view().push(current@) =~= seq![Seq::<char>::empty()]);
    while i < n
        invariant
            n == c@.len(),
            c@ == s@,
            i <= n,
            split_at_char(c@.take(i as int), sep) == done.deep_view().push(current@),
        decreases n - i,
    {
        proof {
            assert(c@.take(i + 1).drop_last() =~= c@.take(i as int));
        }
        if c[i] == sep {
            let ghost before = done.deep_view();
            done.push(string_of(current.as_slice()));
            current = Vec::new();
            assert(done.deep_view() =~= before.push(split_at_char(c@.take(i as int), sep).last()));
            assert(split_at_char(c@.take(i + 1), sep) =~= done.deep_view().push(current@));
        } else {
            current.push(c[i]);
            assert(split_at_char(c@.take(i + 1), sep) =~= done.deep_view().push(current@));
        }
        i = i + 1;
    }
    assert(c@.take(n as int) =~= c@);
    let ghost before = done.deep_view();
    done.push(string_of(current.as_slice()));
    assert(done.deep_view() =~= before.push(current@));
    done
}

/// Whether `XDG_CURRENT_DESKTOP` (a `:`-separated list) names KDE.
pub open spec fn names_kde(current_desktop: Seq<char>) -> bool {
    exists|k: int|
        0 <= k < split_at_char(current_desktop, ':').len() && same_ignoring_ascii_case(
            #[trigger] split_at_char(current_desktop, ':')[k],
            "KDE"@,
        )
}

pub fn is_kde_desktop(current_desktop: &str) -> (r: bool)
    ensures
        r == names_kde(current_desktop@),
{
    let pieces = split_chars(current_desktop, ':');
    let kde = chars_of("KDE");
    let mut i: usize = 0;
    while i < pieces.len()
        invariant
            pieces.deep_view() == split_at_char(current_desktop@, ':'),
            kde@ == "KDE"@,
            i <= pieces@.len(),
            forall|k: int| 0 <= k < i ==> !same_ignoring_ascii_case(#[trigger] pieces.deep_view()[k], "KDE"@),
        decreases pieces@.len() - i,
    {
        let p = chars_of(pieces[i].as_str());
        assert(pieces.deep_view()[i as int] == pieces@[i as int]@);
        if same_ignoring_case(p.as_slice(), kde.as_slice()) {
            return true;
        }
        i = i + 1;
    }
    false
}

/// The family of a KDE font setting (`Noto Sans,10,-1,5,50,...`): its
/// first field, trimmed, when not empty.
pub open spec fn kde_family_spec(setting: Seq<char>) -> Option<Seq<char>> {
    let first = trim(split_at_char(setting, ',')[0]);
    if first.len() > 0 {
        Some(first)
    } else {
        None
    }
}

pub fn kde_font_family(setting: &str) -> (r: Option<String>)
    ensures
        r.deep_view() == kde_family_spec(setting@),
{
    let pieces = split_chars(setting, ',');
    proof {
        lemma_split_nonempty(setting@, ',');
    }
    let first = chars_of(pieces[0].as_str());
    assert(pieces.deep_view()[0] == pieces@[0]@);
    let t = trimmed(first.as_slice());
    if t.len() > 0 {
        Some(string_of(t.as_slice()))
    } else {
        None
    }
}

/// The folders searched for settings files: `XDG_CONFIG_HOME` (or
/// `~/.config`) first, then each folder of `XDG_CONFIG_DIRS` (or
/// `/etc/xdg`). Unset or empty variables count as missing.
pub open spec fn config_directories_spec(
    config_home: Option<Seq<char>>,
    home: Option<Seq<char>>,
    config_dirs: Option<Seq<char>>,
) -> Seq<Seq<char>> {
    let first: Seq<Seq<char>> = match config_home {
        Some(h) if h.len() > 0 => seq![h],
        _ => match home {
            Some(h) => seq![join(h, ".config"@)],
            None => Seq::empty(),
        },
    };
    let dirs = match config_dirs {
        Some(d) if d.len() > 0 => d,
        _ => "/etc/xdg"@,
    };
    first + split_at_char(dirs, ':')
}

pub fn config_directories(
    config_home: Option<&str>,
    home: Option<&str>,
    config_dirs: Option<&str>,
) -> (r: Vec<String>)
    ensures
        r.deep_view() == config_directories_spec(
            match config_home {
                Some(h) => Some(h@),
                None => None,
            },
            match home {
                Some(h) => Some(h@),
                None => None,
            },
            match config_dirs {
                Some(d) => Some(d@),
                None => None,
            },
        ),
{
    let mut directories: Vec<String> = Vec::new();
    let configured = match config_home {
        Some(h) => h.unicode_len() > 0,
        None => false,
    };
    if configured {
        directories.push(String::from_str(config_home.unwrap()));
    } else if let Some(h) = home {
        directories.push(join_path(h, ".config"));
    }
    let dirs: &str = match config_dirs {
        Some(d) => if d.unicode_len() > 0 {
            d
        } else {
            "/etc/xdg"
        },
        None => "/etc/xdg",
    };
    let ghost first = directories.deep_view();
    let rest = split_chars(dirs, ':');
    let mut i: usize = 0;
    while i < rest.len()
        invariant
            directories.deep_view() == first + rest.deep_view().take(i as int),
            i <= rest@.len(),
        decreases rest@.len() - i,
    {
        let ghost before = directories.deep_view();
        let piece = rest[i].clone();
        assert(piece@ == rest.deep_view()[i as int]);
        directories.push(piece);
        assert(directories.deep_view() =~= before.push(rest.deep_view()[i as int]));
        assert(rest.deep_view().take(i + 1) =~= rest.deep_view().take(i as int).push(
            rest.deep_view()[i as int],
        ));
        assert(directories.deep_view() =~= first + rest.deep_view().take(i + 1));
        i = i + 1;
    }
    assert(rest.deep_view().take(i as int) =~= rest.deep_view());
    directories
}

// ------------------------------------------------------------------ INI settings

/// The text split at every `\n` (`str::split('\n')`); the pieces are trimmed
/// afterwards, so a `\r` before the newline does not matter.
pub open spec fn lines_of(s: Seq<char>) -> Seq<Seq<char>>
    decreases s.len(),
{
    if s.len() == 0 {
        seq![Seq::empty()]
    } else {
        let prev = lines_of(s.drop_last());
        if s.last() == '\n' {
            prev.push(Seq::empty())
        } else {
            prev.drop_last().push(prev.last().push(s.last()))
        }
    }
}

proof fn lemma_lines_nonempty(s: Seq<char>)
    ensures
        lines_of(s).len() >= 1,
    decreases s.len(),
{
    if s.len() > 0 {
        lemma_lines_nonempty(s.drop_last());
    }
}

/// Index of the first `c` at or after `i`.
pub open spec fn first_char_from(s: Seq<char>, c: char, i: int) -> Option<int>
    decreases s.len() - i,
{
    if i < 0 || i >= s.len() {
        None
    } else if s[i] == c {
        Some(i)
    } else {
        first_char_from(s, c, i + 1)
    }
}

proof fn lemma_first_char_bounds(s: Seq<char>, c: char, i: int)
    requires
        0 <= i,
    ensures
        first_char_from(s, c, i) matches Some(k) ==> i <= k < s.len() && s[k] == c,
    decreases s.len() - i,
{
    if i < s.len() && s[i] != c {
        lemma_first_char_bounds(s, c, i + 1);
    }
}

/// Index of the first character at or after `i` that is not a quote.
pub open spec fn first_unquoted(s: Seq<char>, i: int) -> int
    decreases s.len() - i,
{
    if i >= s.len() {
        s.len() as int
    } else if s[i] == '"' {
        first_unquoted(s, i + 1)
    } else {
        i
    }
}

/// One past the last character before `j` that is not a quote.
pub open spec fn last_unquoted(s: Seq<char>, j: int) -> int
    decreases j,
{
    if j <= 0 {
        0
    } else if s[j - 1] == '"' {
        last_unquoted(s, j - 1)
    } else {
        j
    }
}

/// `str::trim_matches('"')`: quotes removed at both ends.
pub open spec fn strip_quotes(s: Seq<char>) -> Seq<char> {
    let t = s.skip(first_unquoted(s, 0));
    t.take(last_unquoted(t, t.len() as int))
}

/// What reading one line does: `[section]` headers select a section; in the
/// selected section `key = value` sets the value, unquoted, and an empty
/// value unsets it. Other lines change nothing.
pub open spec fn ini_line(
    state: (bool, Option<Seq<char>>),
    raw: Seq<char>,
    section: Seq<char>,
    key: Seq<char>,
) -> (bool, Option<Seq<char>>) {
    let line = trim(raw);
    if line.len() >= 2 && line[0] == '[' && line.last() == ']' {
        (line.subrange(1, line.len() - 1) == section, state.1)
    } else if state.0 {
        match first_char_from(line, '=', 0) {
            Some(e) => if trim(line.take(e)) == key {
                let setting = strip_quotes(trim(line.skip(e + 1)));
                (state.0, if setting.len() > 0 {
                    Some(setting)
                } else {
                    None
                })
            } else {
                state
            },
            None => state,
        }
    } else {
        state
    }
}

pub open spec fn ini_lines(
    lines: Seq<Seq<char>>,
    section: Seq<char>,
    key: Seq<char>,
) -> (bool, Option<Seq<char>>)
    decreases lines.len(),
{
    if lines.len() == 0 {
        (false, None)
    } else {
        ini_line(ini_lines(lines.drop_last(), section, key), lines.last(), section, key)
    }
}

/// The last value that `key` is given inside `[section]`, if it is not empty.
pub open spec fn ini_spec(contents: Seq<char>, section: Seq<char>, key: Seq<char>) -> Option<
    Seq<char>,
> {
    ini_lines(lines_of(contents), section, key).1
}

fn strip_quotes_exec(s: &[char]) -> (r: Vec<char>)
    ensures
        r@ == strip_quotes(s@),
{
    let n = s.len();
    let mut start: usize = 0;
    while start < n && s[start] == '"'
        invariant
            n == s@.len(),
            start <= n,
            first_unquoted(s@, start as int) == first_unquoted(s@, 0),
        decreases n - start,
    {
        start = start + 1;
    }
    assert(first_unquoted(s@, start as int) == start);
    let ghost t = s@.skip(start as int);
    let mut end: usize = n;
    while end > start && s[end - 1] == '"'
        invariant
            n == s@.len(),
            start <= end <= n,
            t == s@.skip(start as int),
            last_unquoted(t, (end - start) as int) == last_unquoted(t, t.len() as int),
        decreases end,
    {
        assert(t[(end - start) - 1] == s@[end - 1]);
        end = end - 1;
    }
    if end > start {
        assert(t[(end - start) - 1] == s@[end - 1]);
    }
    assert(last_unquoted(t, (end - start) as int) == end - start);
    let r = slice_chars(s, start, end);
    assert(r@ =~= t.take((end - start) as int));
    r
}

fn ini_line_exec(
    selected: bool,
    value: Option<Vec<char>>,
    raw: &[char],
    section: &[char],
    key: &[char],
) -> (r: (bool, Option<Vec<char>>))
    ensures
        (r.0, r.1.deep_view()) == ini_line((selected, value.deep_view()), raw@, section@, key@),
{
    let line = trimmed(raw);
    let n = line.len();
    if n >= 2 && line[0] == '[' && line[n - 1] == ']' {
        let header = slice_chars(line.as_slice(), 1, n - 1);
        return (same(header.as_slice(), section), value);
    }
    if !selected {
        return (selected, value);
    }
    let mut e: usize = 0;
    while e < n && line[e] != '='
        invariant
            n == line@.len(),
            e <= n,
            first_char_from(line@, '=', e as int) == first_char_from(line@, '=', 0),
        decreases n - e,
    {
        e = e + 1;
    }
    if e == n {
        return (selected, value);
    }
    let name_part = slice_chars(line.as_slice(), 0, e);
    let name = trimmed(name_part.as_slice());
    assert(name_part@ =~= line@.take(e as int));
    if !same(name.as_slice(), key) {
        return (selected, value);
    }
    let setting_part = slice_chars(line.as_slice(), e + 1, n);
    assert(setting_part@ =~= line@.skip(e + 1));
    let setting_trimmed = trimmed(setting_part.as_slice());
    let setting = strip_quotes_exec(setting_trimmed.as_slice());
    if setting.len() > 0 {
        (selected, Some(setting))
    } else {
        (selected, None)
    }
}

pub proof fn lemma_lines_step(s: Seq<char>, i: int)
    requires
        0 <= i < s.len(),
    ensures
        lines_of(s.take(i + 1)) == (if s[i] == '\n' {
            lines_of(s.take(i)).push(Seq::empty())
        } else {
            lines_of(s.take(i)).drop_last().push(lines_of(s.take(i)).last().push(s[i]))
        }),
{
    assert(s.take(i + 1).drop_last() =~= s.take(i));
}

/// The value of `key` in `[section]` of an INI text: the last assignment in
/// that section wins, surrounding whitespace and quotes are removed, and an
/// empty value counts as none.
pub fn ini_value(contents: &str, section: &str, key: &str) -> (r: Option<String>)
    ensures
        r.deep_view() == ini_spec(contents@, section@, key@),
{
    let s = chars_of(contents);
    let section_chars = chars_of(section);
    let key_chars = chars_of(key);
    let n = s.len();
    let mut selected = false;
    let mut value: Option<Vec<char>> = None;
    let mut current: Vec<char> = Vec::new();
    let ghost mut done: Seq<Seq<char>> = Seq::empty();
    let mut i: usize = 0;
    assert(s@.take(0) =~= Seq::<char>::empty());
    assert(lines_of(Seq::<char>::empty()) =~= seq![Seq::<char>::empty()]);
    assert(done.push(current@) =~= seq![Seq::<char>::empty()]);
    while i < n
        invariant
            n == s@.len(),
            s@ == contents@,
            section_chars@ == section@,
            key_chars@ == key@,
            i <= n,
            lines_of(s@.take(i as int)) == done.push(current@),
            (selected, value.deep_view()) == ini_lines(done, section@, key@),
        decreases n - i,
    {
        proof {
            lemma_lines_step(s@, i as int);
        }
        if s[i] == '\n' {
            let (sel, val) = ini_line_exec(
                selected,
                value,
                current.as_slice(),
                section_chars.as_slice(),
                key_chars.as_slice(),
            );
            proof {
                let old_done = done;
                done = done.push(current@);
                assert(done.drop_last() =~= old_done);
            }
            selected = sel;
            value = val;
            current = Vec::new();
            assert(lines_of(s@.take(i + 1)) =~= done.push(current@));
        } else {
            current.push(s[i]);
            assert(lines_of(s@.take(i + 1)) =~= done.push(current@));
        }
        i = i + 1;
    }
    let (_, val) = ini_line_exec(
        selected,
        value,
        current.as_slice(),
        section_chars.as_slice(),
        key_chars.as_slice(),
    );
    assert(s@.take(n as int) =~= s@);
    assert(done.push(current@).drop_last() =~= done);
    match val {
        Some(v) => Some(string_of(v.as_slice())),
        None => None,
    }
}

} // verus!

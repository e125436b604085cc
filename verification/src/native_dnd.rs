//! Drag and drop between windows: the `text/uri-list` payloads that carry
//! the dragged paths, the action a drop takes, and the plain-text pieces of
//! the drag preview (the icon drawing, the count badge's label and width,
//! and the colours in the SVG).
use vstd::prelude::*;
use vstd::utf8::{decode_utf8, valid_utf8};

use crate::fonts::{lemma_lines_step, lines_of};
use crate::native_clipboard::Action;
use crate::paths::{contains_same_path, has_path, is_absolute};
use crate::search::{matches_at, occurs_at};
use crate::text::{
    chars_of, concat, decimal, first_solid_from, is_space, last_solid_before, push_chars,
    push_decimal, push_str, slice_chars, string_of, trim, trimmed,
};

verus! {

proof fn lemma_decimal_len(n: nat)
    ensures
        decimal(n).len() >= 1,
        n < 10 ==> decimal(n).len() == 1,
        n >= 10 ==> decimal(n).len() == decimal(n / 10).len() + 1,
    decreases n,
{
    if n >= 10 {
        lemma_decimal_len(n / 10);
    }
}

fn digit_count(n: usize) -> (r: usize)
    ensures
        r == decimal(n as nat).len(),
        r <= n + 1,
    decreases n,
{
    proof {
        lemma_decimal_len(n as nat);
    }
    if n < 10 {
        1
    } else {
        let rest = digit_count(n / 10);
        rest + 1
    }
}

/// The badge width for `count` dragged items: seven pixels a digit plus a
/// margin (more with the copy marker), between twenty and sixty pixels.
pub open spec fn badge_width_spec(count: nat, copy: bool) -> int {
    let base: int = if copy {
        22
    } else {
        14
    };
    let w = base + decimal(count).len() * 7;
    if w < 20 {
        20
    } else if w > 60 {
        60
    } else {
        w
    }
}

pub fn badge_width(count: usize, copy: bool) -> (r: usize)
    ensures
        r == badge_width_spec(count as nat, copy),
{
    let digits = digit_count(count);
    if digits >= 7 {
        return 60;
    }
    let base: usize = if copy {
        22
    } else {
        14
    };
    let w = base + digits * 7;
    if w < 20 {
        20
    } else if w > 60 {
        60
    } else {
        w
    }
}

/// A lower-case hexadecimal digit.
pub open spec fn hex_digit(d: nat) -> char {
    if d < 10 {
        ((d + 48) as u32) as char
    } else {
        ((d + 87) as u32) as char
    }
}

/// `#rrggbb` for the first three channels of a colour.
pub open spec fn rgb_spec(color: [u8; 4]) -> Seq<char> {
    seq![
        '#',
        hex_digit((color[0] / 16) as nat),
        hex_digit((color[0] % 16) as nat),
        hex_digit((color[1] / 16) as nat),
        hex_digit((color[1] % 16) as nat),
        hex_digit((color[2] / 16) as nat),
        hex_digit((color[2] % 16) as nat),
    ]
}

fn hex(d: u8) -> (r: char)
    requires
        d < 16,
    ensures
        r == hex_digit(d as nat),
{
    if d < 10 {
        ((d + 48) as u8) as char
    } else {
        ((d + 87) as u8) as char
    }
}

pub fn rgb(color: [u8; 4]) -> (r: String)
    ensures
        r@ == rgb_spec(color),
{
    let mut v: Vec<char> = Vec::new();
    v.push('#');
    v.push(hex(color[0] / 16));
    v.push(hex(color[0] % 16));
    v.push(hex(color[1] / 16));
    v.push(hex(color[1] % 16));
    v.push(hex(color[2] / 16));
    v.push(hex(color[2] % 16));
    assert(v@ =~= rgb_spec(color));
    crate::text::string_of(v.as_slice())
}

// ------------------------------------------------------------------ drag preview

/// The count badge of the drag preview, as its label and width in pixels: a
/// single moved item has none, a single copied item shows `+`, and more
/// items show their number (followed by ` +` when copied).
pub open spec fn badge_spec(count: nat, copy: bool) -> Option<(Seq<char>, int)> {
    if count == 1 {
        if copy {
            Some(("+"@, 20))
        } else {
            None
        }
    } else if copy {
        Some((decimal(count) + " +"@, badge_width_spec(count, true)))
    } else {
        Some((decimal(count), badge_width_spec(count, false)))
    }
}

pub fn badge_label(count: usize, copy: bool) -> (r: Option<(String, usize)>)
    ensures
        r is None <==> badge_spec(count as nat, copy) is None,
        r matches Some((label, width)) ==> badge_spec(count as nat, copy) == Some(
            (label@, width as int),
        ),
{
    if count == 1 {
        if copy {
            Some((String::from_str("+"), 20))
        } else {
            None
        }
    } else {
        let mut v: Vec<char> = Vec::new();
        push_decimal(&mut v, count);
        if copy {
            push_str(&mut v, " +");
        }
        Some((string_of(v.as_slice()), badge_width(count, copy)))
    }
}

/// The first `c` in `s` at or after `i`.
pub open spec fn first_char_from(s: Seq<char>, c: char, i: int) -> Option<int>
    decreases s.len() - i,
{
    if i < 0 || i >= s.len() {
        None
    } else if s[i] == c {
        Some(i)
    } else {
        first_char_from(s, c, i + 1)
    }
}

/// The last occurrence of `needle` in `s` that starts at or before `j`.
pub open spec fn last_occurrence_from(s: Seq<char>, needle: Seq<char>, j: int) -> Option<int>
    decreases j + 1,
{
    if j < 0 {
        None
    } else if occurs_at(s, needle, j) {
        Some(j)
    } else {
        last_occurrence_from(s, needle, j - 1)
    }
}

/// `str::replace` with a non-empty pattern: the occurrences of `from`,
/// found left to right without overlapping, replaced by `to`.
pub open spec fn replace_all(s: Seq<char>, from: Seq<char>, to: Seq<char>) -> Seq<char>
    recommends
        from.len() > 0,
    decreases s.len(),
{
    if from.len() == 0 || s.len() < from.len() {
        s
    } else if s.take(from.len() as int) == from {
        to + replace_all(s.skip(from.len() as int), from, to)
    } else {
        seq![s[0]] + replace_all(s.skip(1), from, to)
    }
}

pub open spec fn svg_close() -> Seq<char> {
    seq!['<', '/', 's', 'v', 'g', '>']
}

pub open spec fn icon_black() -> Seq<char> {
    seq!['#', '0', '0', '0']
}

/// The drawing inside an SVG icon: what follows the end of the opening tag
/// (the first `>`) up to the last `</svg>`.
pub open spec fn icon_markup(icon: Seq<char>) -> Option<Seq<char>> {
    match first_char_from(icon, '>', 0) {
        None => None,
        Some(i) => {
            let rest = icon.skip(i + 1);
            match last_occurrence_from(rest, svg_close(), rest.len() - svg_close().len()) {
                None => None,
                Some(j) => Some(rest.take(j)),
            }
        },
    }
}

/// The icon drawing for the drag preview, painted in `color` where the icon
/// draws black; refused when the icon is not UTF-8 or not an SVG element.
pub open spec fn icon_body_spec(icon: Seq<u8>, color: [u8; 4]) -> Result<Seq<char>, Seq<char>> {
    if !valid_utf8(icon) {
        Err("invalid drag preview icon: "@ + utf8_error_text(icon))
    } else {
        match icon_markup(decode_utf8(icon)) {
            None => Err("invalid drag preview icon"@),
            Some(body) => Ok(replace_all(body, icon_black(), rgb_spec(color))),
        }
    }
}

pub open spec fn text_result(r: Result<String, String>) -> Result<Seq<char>, Seq<char>> {
    match r {
        Ok(t) => Ok(t@),
        Err(e) => Err(e@),
    }
}

fn first_char(s: &[char], c: char) -> (r: Option<usize>)
    ensures
        as_position(r) == first_char_from(s@, c, 0),
        r matches Some(i) ==> i < s@.len(),
{
    let mut i: usize = 0;
    while i < s.len()
        invariant
            i <= s@.len(),
            first_char_from(s@, c, 0) == first_char_from(s@, c, i as int),
        decreases s@.len() - i,
    {
        if s[i] == c {
            return Some(i);
        }
        i = i + 1;
    }
    None
}

pub open spec fn as_position(r: Option<usize>) -> Option<int> {
    match r {
        Some(i) => Some(i as int),
        None => None,
    }
}

fn last_occurrence(s: &[char], needle: &[char]) -> (r: Option<usize>)
    ensures
        as_position(r) == last_occurrence_from(s@, needle@, s@.len() - needle@.len()),
        r matches Some(j) ==> j + needle@.len() <= s@.len(),
{
    if s.len() < needle.len() {
        return None;
    }
    let mut j: usize = s.len() - needle.len();
    loop
        invariant
            j + needle@.len() <= s@.len(),
            last_occurrence_from(s@, needle@, s@.len() - needle@.len()) == last_occurrence_from(
                s@,
                needle@,
                j as int,
            ),
        decreases j,
    {
        if matches_at(s, needle, j) {
            return Some(j);
        }
        if j == 0 {
            assert(last_occurrence_from(s@, needle@, -1) is None);
            return None;
        }
        j = j - 1;
    }
}

fn replace_chars(s: &[char], from: &[char], to: &[char]) -> (r: Vec<char>)
    requires
        from@.len() > 0,
    ensures
        r@ == replace_all(s@, from@, to@),
{
    let n = from.len();
    let mut out: Vec<char> = Vec::new();
    let mut i: usize = 0;
    assert(s@.skip(0) =~= s@);
    assert(out@ + replace_all(s@, from@, to@) =~= replace_all(s@, from@, to@));
    while i < s.len()
        invariant
            i <= s@.len(),
            n == from@.len(),
            n > 0,
            out@ + replace_all(s@.skip(i as int), from@, to@) == replace_all(s@, from@, to@),
        decreases s@.len() - i,
    {
        let ghost rest = s@.skip(i as int);
        let ghost before = out@;
        if n <= s.len() - i && matches_at(s, from, i) {
            assert(rest.take(n as int) =~= s@.subrange(i as int, i + n));
            assert(rest.skip(n as int) =~= s@.skip(i + n));
            push_chars(&mut out, to);
            assert(before + (to@ + replace_all(rest.skip(n as int), from@, to@)) =~= (before + to@)
                + replace_all(rest.skip(n as int), from@, to@));
            i = i + n;
        } else {
            proof {
                assert(rest.skip(1) =~= s@.skip(i + 1));
                if rest.len() >= n {
                    assert(rest.take(n as int) =~= s@.subrange(i as int, i + n));
                } else {
                    assert(seq![rest[0]] + rest.skip(1) =~= rest);
                }
            }
            out.push(s[i]);
            assert(before + (seq![rest[0]] + replace_all(rest.skip(1), from@, to@)) =~= before.push(
                s@[i as int],
            ) + replace_all(rest.skip(1), from@, to@));
            i = i + 1;
        }
    }
    assert(s@.skip(i as int) =~= Seq::<char>::empty());
    assert(out@ + Seq::<char>::empty() =~= out@);
    out
}

/// The drawing of the drag preview's file icon, from the icon's SVG bytes,
/// with black painted in `color`.
pub fn icon_body(icon: &[u8], color: [u8; 4]) -> (r: Result<String, String>)
    ensures
        text_result(r) == icon_body_spec(icon@, color),
{
    let text = match text_from_utf8(icon) {
        Ok(text) => text,
        Err(message) => {
            return Err(concat("invalid drag preview icon: ", message.as_str()));
        },
    };
    let chars = chars_of(text.as_str());
    let found = first_char(chars.as_slice(), '>');
    let open_end = match found {
        Some(i) => i,
        None => {
            return Err(String::from_str("invalid drag preview icon"));
        },
    };
    let n = chars.len();
    let rest = slice_chars(chars.as_slice(), open_end + 1, n);
    assert(rest@ =~= chars@.skip(open_end + 1));
    let close = vec!['<', '/', 's', 'v', 'g', '>'];
    assert(close@ =~= svg_close());
    let end = match last_occurrence(rest.as_slice(), close.as_slice()) {
        Some(j) => j,
        None => {
            return Err(String::from_str("invalid drag preview icon"));
        },
    };
    let body = slice_chars(rest.as_slice(), 0, end);
    assert(body@ =~= rest@.take(end as int));
    let black = vec!['#', '0', '0', '0'];
    assert(black@ =~= icon_black());
    let paint = chars_of(rgb(color).as_str());
    let painted = replace_chars(body.as_slice(), black.as_slice(), paint.as_slice());
    Ok(string_of(painted.as_slice()))
}

// ------------------------------------------------------------------ URI lists

/// The largest URI list a drop may carry: 4 MiB.
pub const MAX_URI_LIST_BYTES: usize = 4194304;

/// The message `std::str::Utf8Error` displays for bytes that are not UTF-8
/// (where the first invalid sequence starts, and how long it is).
pub uninterp spec fn utf8_error_text(bytes: Seq<u8>) -> Seq<char>;

/// `std::str::from_utf8`: the text when the bytes are valid UTF-8, else the
/// error's message. The contract states validity and decoding by vstd's
/// UTF-8 definitions and names the message (`utf8_error_text`).
#[verifier::external_body]
fn text_from_utf8(bytes: &[u8]) -> (r: Result<String, String>)
    ensures
        r is Ok <==> valid_utf8(bytes@),
        r matches Ok(text) ==> text@ == decode_utf8(bytes@),
        r matches Err(message) ==> message@ == utf8_error_text(bytes@),
{
    match std::str::from_utf8(bytes) {
        Ok(text) => Ok(text.to_owned()),
        Err(error) => Err(error.to_string()),
    }
}

/// The entries of a list of lines: each line trimmed, blank lines and
/// comments (`#`) left out.
pub open spec fn kept_uris(lines: Seq<Seq<char>>) -> Seq<Seq<char>>
    decreases lines.len(),
{
    if lines.len() == 0 {
        Seq::empty()
    } else {
        let prev = kept_uris(lines.drop_last());
        let u = trim(lines.last());
        if u.len() > 0 && u[0] != '#' {
            prev.push(u)
        } else {
            prev
        }
    }
}

/// The URIs a `text/uri-list` text names. Lines end at `\n`; a `\r` before
/// it is whitespace and goes with the trimming.
pub open spec fn uri_entries(text: Seq<char>) -> Seq<Seq<char>> {
    kept_uris(lines_of(text))
}

pub open spec fn too_large_message() -> Seq<char> {
    "the dropped URI list is larger than 4 MiB"@
}

pub open spec fn not_utf8_message(bytes: Seq<u8>) -> Seq<char> {
    "the dropped URI list is not UTF-8: "@ + utf8_error_text(bytes)
}

fn kept_uri(line: &Vec<char>) -> (r: Option<String>)
    ensures
        r matches Some(u) ==> u@ == trim(line@) && trim(line@).len() > 0 && trim(line@)[0] != '#',
        r is None ==> !(trim(line@).len() > 0 && trim(line@)[0] != '#'),
{
    let t = trimmed(line.as_slice());
    if t.len() > 0 && t[0] != '#' {
        Some(string_of(t.as_slice()))
    } else {
        None
    }
}

/// The URIs of a dropped `text/uri-list` payload, before they are resolved
/// to local paths: refused when the payload is over 4 MiB or not UTF-8.
pub fn dropped_uris(payload: &[u8]) -> (r: Result<Vec<String>, String>)
    ensures
        payload@.len() > MAX_URI_LIST_BYTES ==> (r matches Err(e) && e@ == too_large_message()),
        payload@.len() <= MAX_URI_LIST_BYTES && !valid_utf8(payload@) ==> (r matches Err(e) && e@
            == not_utf8_message(payload@)),
        payload@.len() <= MAX_URI_LIST_BYTES && valid_utf8(payload@) ==> (r matches Ok(v)
            && v.deep_view() == uri_entries(decode_utf8(payload@))),
{
    if payload.len() > MAX_URI_LIST_BYTES {
        return Err(String::from_str("the dropped URI list is larger than 4 MiB"));
    }
    let text = match text_from_utf8(payload) {
        Ok(text) => text,
        Err(message) => {
            return Err(concat("the dropped URI list is not UTF-8: ", message.as_str()));
        },
    };
    let s = chars_of(text.as_str());
    let n = s.len();
    let mut uris: Vec<String> = Vec::new();
    let mut current: Vec<char> = Vec::new();
    let ghost mut done: Seq<Seq<char>> = Seq::empty();
    let mut i: usize = 0;
    assert(s@.take(0) =~= Seq::<char>::empty());
    assert(lines_of(Seq::<char>::empty()) =~= seq![Seq::<char>::empty()]);
    assert(done.push(current@) =~= seq![Seq::<char>::empty()]);
    while i < n
        invariant
            n == s@.len(),
            i <= n,
            lines_of(s@.take(i as int)) == done.push(current@),
            uris.deep_view() == kept_uris(done),
        decreases n - i,
    {
        proof {
            lemma_lines_step(s@, i as int);
        }
        if s[i] == '\n' {
            let kept = kept_uri(&current);
            proof {
                let old_done = done;
                done = done.push(current@);
                assert(done.drop_last() =~= old_done);
            }
            if let Some(u) = kept {
                uris.push(u);
            }
            assert(uris.deep_view() =~= kept_uris(done));
            current = Vec::new();
            assert(lines_of(s@.take(i + 1)) =~= done.push(current@));
        } else {
            current.push(s[i]);
            assert(lines_of(s@.take(i + 1)) =~= done.push(current@));
        }
        i = i + 1;
    }
    let kept = kept_uri(&current);
    let ghost all = done.push(current@);
    assert(all.drop_last() =~= done);
    if let Some(u) = kept {
        uris.push(u);
    }
    assert(s@.take(n as int) =~= s@);
    assert(uris.deep_view() =~= kept_uris(all));
    Ok(uris)
}

/// A dropped URI as the desktop resolved it: the local path it names when
/// its scheme is `file`.
pub open spec fn usable(entry: (Seq<char>, Option<Seq<char>>)) -> bool {
    entry.1 matches Some(p) && is_absolute(p)
}

/// The local paths of the resolved URIs, each path once (as `Path`'s `==`
/// tells paths apart), in first-seen order.
pub open spec fn distinct_paths(resolved: Seq<(Seq<char>, Option<Seq<char>>)>) -> Seq<Seq<char>>
    decreases resolved.len(),
{
    if resolved.len() == 0 {
        Seq::empty()
    } else {
        let prev = distinct_paths(resolved.drop_last());
        match resolved.last().1 {
            Some(p) => if has_path(prev, p) {
                prev
            } else {
                prev.push(p)
            },
            None => prev,
        }
    }
}

pub open spec fn unsupported_message(uri: Seq<char>) -> Seq<char> {
    "unsupported dropped URI: "@ + uri
}

pub open spec fn no_paths_message() -> Seq<char> {
    "the drop did not contain any local file paths"@
}

/// The paths a drop delivers, from its URIs paired with the local path the
/// desktop resolved for each (`None` when the URI is not a `file:` URI).
/// The first URI without an absolute local path refuses the drop; repeated
/// paths count once; a drop without any path is refused.
pub fn dropped_paths(resolved: &[(String, Option<String>)]) -> (r: Result<Vec<String>, String>)
    ensures
        match r {
            Ok(paths) => (forall|k: int| 0 <= k < resolved@.len() ==> usable(#[trigger] resolved.deep_view()[k]))
                && paths.deep_view() == distinct_paths(resolved.deep_view()) && paths@.len() > 0,
            Err(e) => (exists|k: int|
                0 <= k < resolved@.len() && !usable(#[trigger] resolved.deep_view()[k]) && (forall|j: int|
                    0 <= j < k ==> usable(#[trigger] resolved.deep_view()[j])) && e@ == unsupported_message(
                    resolved.deep_view()[k].0,
                )) || ((forall|k: int| 0 <= k < resolved@.len() ==> usable(#[trigger] resolved.deep_view()[k]))
                && distinct_paths(resolved.deep_view()).len() == 0 && e@ == no_paths_message()),
        },
{
    let ghost rv = resolved.deep_view();
    let mut paths: Vec<String> = Vec::new();
    let mut i: usize = 0;
    assert(rv.take(0) =~= Seq::<(Seq<char>, Option<Seq<char>>)>::empty());
    while i < resolved.len()
        invariant
            rv == resolved.deep_view(),
            rv.len() == resolved@.len(),
            i <= rv.len(),
            forall|k: int| 0 <= k < i ==> usable(#[trigger] rv[k]),
            paths.deep_view() == distinct_paths(rv.take(i as int)),
        decreases rv.len() - i,
    {
        proof {
            assert(resolved@[i as int].deep_view() == rv[i as int]);
            assert(rv.take(i + 1).drop_last() =~= rv.take(i as int));
        }
        let uri: &String = &resolved[i].0;
        let path = match &resolved[i].1 {
            Some(p) => {
                let c = chars_of(p.as_str());
                if c.len() > 0 && c[0] == '/' {
                    p
                } else {
                    return Err(concat("unsupported dropped URI: ", uri.as_str()));
                }
            },
            None => {
                return Err(concat("unsupported dropped URI: ", uri.as_str()));
            },
        };
        if !contains_same_path(paths.as_slice(), path) {
            paths.push(path.clone());
        }
        assert(paths.deep_view() =~= distinct_paths(rv.take(i + 1)));
        i = i + 1;
    }
    assert(rv.take(i as int) =~= rv);
    if paths.len() == 0 {
        return Err(String::from_str("the drop did not contain any local file paths"));
    }
    Ok(paths)
}

pub open spec fn relative_path_message(path: Seq<char>) -> Seq<char> {
    "cannot drag a relative path: "@ + path
}

/// Only absolute paths can be dragged out: the first relative one is
/// refused.
pub fn check_drag_paths(paths: &[String]) -> (r: Result<(), String>)
    ensures
        r is Ok <==> forall|k: int| 0 <= k < paths@.len() ==> is_absolute(#[trigger] paths@[k]@),
        r matches Err(e) ==> exists|k: int|
            0 <= k < paths@.len() && !is_absolute(#[trigger] paths@[k]@) && (forall|j: int|
                0 <= j < k ==> is_absolute(#[trigger] paths@[j]@)) && e@ == relative_path_message(
                paths@[k]@,
            ),
{
    let mut i: usize = 0;
    while i < paths.len()
        invariant
            i <= paths@.len(),
            forall|k: int| 0 <= k < i ==> is_absolute(#[trigger] paths@[k]@),
        decreases paths@.len() - i,
    {
        let c = chars_of(paths[i].as_str());
        if !(c.len() > 0 && c[0] == '/') {
            return Err(concat("cannot drag a relative path: ", paths[i].as_str()));
        }
        i = i + 1;
    }
    Ok(())
}

/// A `text/uri-list` payload: every URI followed by CRLF.
pub open spec fn uri_list_text(uris: Seq<Seq<char>>) -> Seq<char>
    decreases uris.len(),
{
    if uris.len() == 0 {
        Seq::empty()
    } else {
        uri_list_text(uris.drop_last()) + uris.last() + seq!['\r', '\n']
    }
}

pub fn uri_list_payload(uris: &[String]) -> (r: String)
    ensures
        r@ == uri_list_text(uris.deep_view()),
{
    let ghost uv = uris.deep_view();
    let mut v: Vec<char> = Vec::new();
    let mut i: usize = 0;
    assert(uv.take(0) =~= Seq::<Seq<char>>::empty());
    while i < uris.len()
        invariant
            uv == uris.deep_view(),
            uv.len() == uris@.len(),
            i <= uv.len(),
            v@ == uri_list_text(uv.take(i as int)),
        decreases uv.len() - i,
    {
        proof {
            assert(uv.take(i + 1).drop_last() =~= uv.take(i as int));
            assert(uris@[i as int]@ == uv[i as int]);
        }
        push_str(&mut v, uris[i].as_str());
        v.push('\r');
        v.push('\n');
        assert(v@ =~= uri_list_text(uv.take(i + 1)));
        i = i + 1;
    }
    assert(uv.take(i as int) =~= uv);
    string_of(v.as_slice())
}

/// A URI as a list line can carry it: not empty, no surrounding
/// whitespace, no line break, and not starting a comment.
pub open spec fn listable_uri(u: Seq<char>) -> bool {
    &&& u.len() > 0
    &&& !is_space(u[0])
    &&& !is_space(u.last())
    &&& u[0] != '#'
    &&& !u.contains('\n')
}

proof fn lemma_lines_append_line(s: Seq<char>, u: Seq<char>)
    requires
        !u.contains('\n'),
    ensures
        lines_of(s + u) == lines_of(s).drop_last().push(lines_of(s).last() + u),
    decreases u.len(),
{
    lemma_lines_nonempty(s);
    if u.len() == 0 {
        assert(s + u =~= s);
        assert(lines_of(s).last() + u =~= lines_of(s).last());
        assert(lines_of(s).drop_last().push(lines_of(s).last()) =~= lines_of(s));
    } else {
        let v = u.drop_last();
        assert(!v.contains('\n')) by {
            if v.contains('\n') {
                let k = choose|k: int| 0 <= k < v.len() && v[k] == '\n';
                assert(u[k] == '\n');
            }
        }
        assert(u[u.len() - 1] != '\n') by {
            if u[u.len() - 1] == '\n' {
                assert(u.contains('\n'));
            }
        }
        lemma_lines_append_line(s, v);
        assert((s + u).drop_last() =~= s + v);
        assert((s + u).last() == u.last());
        assert(lines_of(s).last() + v + seq![u.last()] =~= lines_of(s).last() + u);
        assert(lines_of(s).last() + v + seq![u.last()] =~= (lines_of(s).last() + v).push(u.last()));
    }
}

proof fn lemma_lines_nonempty(s: Seq<char>)
    ensures
        lines_of(s).len() >= 1,
    decreases s.len(),
{
    if s.len() > 0 {
        lemma_lines_nonempty(s.drop_last());
    }
}

/// The lines of a payload: each URI with its `\r`, then the empty rest
/// after the final line break.
pub open spec fn payload_lines(uris: Seq<Seq<char>>) -> Seq<Seq<char>> {
    uris.map_values(|u: Seq<char>| u.push('\r')).push(Seq::empty())
}

proof fn lemma_payload_lines(uris: Seq<Seq<char>>)
    requires
        forall|k: int| 0 <= k < uris.len() ==> listable_uri(#[trigger] uris[k]),
    ensures
        lines_of(uri_list_text(uris)) == payload_lines(uris),
    decreases uris.len(),
{
    if uris.len() == 0 {
        assert(lines_of(Seq::<char>::empty()) =~= seq![Seq::<char>::empty()]);
        assert(payload_lines(uris) =~= seq![Seq::<char>::empty()]);
    } else {
        let prev = uris.drop_last();
        let u = uris.last();
        assert(listable_uri(uris[uris.len() - 1]));
        lemma_payload_lines(prev);
        let t = uri_list_text(prev);
        let line = u.push('\r');
        assert(!line.contains('\n')) by {
            if line.contains('\n') {
                let k = choose|k: int| 0 <= k < line.len() && line[k] == '\n';
                if k < u.len() {
                    assert(u[k] == '\n');
                    assert(u.contains('\n'));
                }
            }
        }
        lemma_lines_append_line(t, line);
        assert(uri_list_text(uris) =~= (t + line).push('\n'));
        assert(((t + line).push('\n')).drop_last() =~= t + line);
        let pl = payload_lines(prev);
        assert(pl.last() == Seq::<char>::empty());
        assert(pl.last() + line =~= line);
        assert(pl.drop_last().push(line).push(Seq::<char>::empty()) =~= payload_lines(uris));
    }
}

proof fn lemma_trim_listable(u: Seq<char>)
    requires
        listable_uri(u),
    ensures
        trim(u.push('\r')) == u,
{
    let x = u.push('\r');
    assert(x[0] == u[0]);
    assert(first_solid_from(x, 0) == 0);
    assert(x.skip(0) =~= x);
    assert(is_space(x[x.len() - 1]));
    assert(x[x.len() - 2] == u.last());
    assert(last_solid_before(x, x.len() - 1) == x.len() - 1);
    assert(last_solid_before(x, x.len() as int) == x.len() - 1);
    assert(x.take(x.len() - 1) =~= u);
}

proof fn lemma_kept_payload(uris: Seq<Seq<char>>)
    requires
        forall|k: int| 0 <= k < uris.len() ==> listable_uri(#[trigger] uris[k]),
    ensures
        kept_uris(uris.map_values(|u: Seq<char>| u.push('\r'))) == uris,
    decreases uris.len(),
{
    if uris.len() > 0 {
        let prev = uris.drop_last();
        assert(listable_uri(uris[uris.len() - 1]));
        lemma_kept_payload(prev);
        lemma_trim_listable(uris.last());
        let m = uris.map_values(|u: Seq<char>| u.push('\r'));
        assert(m.drop_last() =~= prev.map_values(|u: Seq<char>| u.push('\r')));
        assert(prev.push(uris.last()) =~= uris);
    } else {
        assert(uris.map_values(|u: Seq<char>| u.push('\r')) =~= Seq::<Seq<char>>::empty());
    }
}

/// What a drag writes, a drop reads back: the URIs of a list written by
/// `uri_list_payload` are the URIs it was written from.
pub proof fn lemma_uri_list_round_trip(uris: Seq<Seq<char>>)
    requires
        forall|k: int| 0 <= k < uris.len() ==> listable_uri(#[trigger] uris[k]),
    ensures
        uri_entries(uri_list_text(uris)) == uris,
{
    lemma_payload_lines(uris);
    lemma_kept_payload(uris);
    let m = uris.map_values(|u: Seq<char>| u.push('\r'));
    assert(payload_lines(uris).drop_last() =~= m);
    assert(trim(Seq::<char>::empty()).len() == 0) by {
        assert(first_solid_from(Seq::<char>::empty(), 0) == 0);
        assert(Seq::<char>::empty().skip(0) =~= Seq::<char>::empty());
    }
}

// ------------------------------------------------------------------ actions

/// The actions a drag offer or a drop selection names.
#[derive(Clone, Copy, Debug, PartialEq, Eq, Structural)]
pub struct DndActions {
    pub copy: bool,
    pub moves: bool,
    pub ask: bool,
}

/// A drag between this application's windows moves when the source allows
/// it (or names no action at all); other drops copy.
pub fn preferred_action(private: bool, offered: DndActions) -> (r: Action)
    ensures
        r == (if private && ((!offered.copy && !offered.moves && !offered.ask) || offered.moves) {
            Action::Move
        } else {
            Action::Copy
        }),
{
    if private && ((!offered.copy && !offered.moves && !offered.ask) || offered.moves) {
        Action::Move
    } else {
        Action::Copy
    }
}

/// The action a drop selected: move over copy, and `fallback` when it names
/// neither.
pub fn action_from_dnd(selected: DndActions, fallback: Action) -> (r: Action)
    ensures
        r == (if selected.moves {
            Action::Move
        } else if selected.copy {
            Action::Copy
        } else {
            fallback
        }),
{
    if selected.moves {
        Action::Move
    } else if selected.copy {
        Action::Copy
    } else {
        fallback
    }
}

pub fn dnd_action(action: Action) -> (r: DndActions)
    ensures
        r == (DndActions { copy: action is Copy, moves: action is Move, ask: false }),
{
    match action {
        Action::Copy => DndActions { copy: true, moves: false, ask: false },
        Action::Move => DndActions { copy: false, moves: true, ask: false },
    }
}

} // verus!

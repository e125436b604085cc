//! Incremental name search over a listing (`/` and `?`, with `n` and `N`),
//! and leaving a recursive search for the folder listing it replaced.
use vstd::prelude::*;

use crate::entries::{duplicate_entries, FileEntry};
use crate::text::chars_of;

verus! {

/// What `str::to_lowercase` gives for a text: the full Unicode lower-case
/// mapping, which depends on the text alone.
pub uninterp spec fn lowercase_of(s: Seq<char>) -> Seq<char>;

/// `str::to_lowercase`. The contract names the result (`lowercase_of`);
/// the Unicode case tables themselves are not restated.
#[verifier::external_body]
pub(crate) fn to_lowercase(s: &str) -> (r: String)
    ensures
        r@ == lowercase_of(s@),
{
    s.to_lowercase()
}

/// `needle` occurs in `hay` starting at index `i`.
pub open spec fn occurs_at(hay: Seq<char>, needle: Seq<char>, i: int) -> bool {
    0 <= i && i + needle.len() <= hay.len() && hay.subrange(i, i + needle.len()) == needle
}

/// `str::contains` with a text pattern: `needle` occurs somewhere in `hay`.
pub open spec fn contains_text(hay: Seq<char>, needle: Seq<char>) -> bool {
    exists|i: int| occurs_at(hay, needle, i)
}

pub(crate) fn matches_at(hay: &[char], needle: &[char], i: usize) -> (r: bool)
    requires
        i + needle@.len() <= hay@.len(),
    ensures
        r == occurs_at(hay@, needle@, i as int),
{
    let n = hay.len();
    let mut j: usize = 0;
    while j < needle.len()
        invariant
            n == hay@.len(),
            j <= needle@.len(),
            i + needle@.len() <= hay@.len(),
            forall|k: int| 0 <= k < j ==> hay@[i + k] == needle@[k],
        decreases needle@.len() - j,
    {
        if hay[i + j] != needle[j] {
            assert(hay@.subrange(i as int, i + needle@.len())[j as int] != needle@[j as int]);
            return false;
        }
        j = j + 1;
    }
    assert(hay@.subrange(i as int, i + needle@.len()) =~= needle@);
    true
}

/// Whether `needle` occurs in `hay`.
pub fn contains_chars(hay: &[char], needle: &[char]) -> (r: bool)
    ensures
        r == contains_text(hay@, needle@),
{
    if needle.len() > hay.len() {
        return false;
    }
    let last = hay.len() - needle.len();
    let mut i: usize = 0;
    while i < last
        invariant
            last + needle@.len() == hay@.len(),
            i <= last,
            forall|k: int| 0 <= k < i ==> !occurs_at(hay@, needle@, k),
        decreases last - i,
    {
        if matches_at(hay, needle, i) {
            return true;
        }
        i = i + 1;
    }
    if matches_at(hay, needle, last) {
        return true;
    }
    assert forall|k: int| !occurs_at(hay@, needle@, k) by {
        if 0 <= k && k < i {
        }
    }
    false
}

/// Where the search begins: just after (or, in reverse, just before) the
/// anchor, wrapping around the listing; with no anchor, at the first (or
/// last) entry.
pub open spec fn search_start(anchor: Option<usize>, len: int, reverse: bool) -> int {
    match anchor {
        Some(i) => if reverse {
            if i > 0 {
                i - 1
            } else {
                len - 1
            }
        } else {
            (i + 1) % len
        },
        None => if reverse {
            len - 1
        } else {
            0
        },
    }
}

/// The entry visited `offset` steps after `first`, going forwards or
/// backwards and wrapping around.
pub open spec fn search_index(first: int, len: int, offset: int, reverse: bool) -> int {
    if reverse {
        (first + len - offset) % len
    } else {
        (first + offset) % len
    }
}

/// The first entry, `from` steps on or later, whose (lower-cased) name
/// contains the (lower-cased) query.
pub open spec fn first_hit(
    names: Seq<Seq<char>>,
    query: Seq<char>,
    first: int,
    reverse: bool,
    from: int,
) -> Option<int>
    decreases names.len() - from,
{
    if from < 0 || from >= names.len() {
        None
    } else if contains_text(names[search_index(first, names.len() as int, from, reverse)], query) {
        Some(search_index(first, names.len() as int, from, reverse))
    } else {
        first_hit(names, query, first, reverse, from + 1)
    }
}

/// The search over lower-cased names: every entry is visited once, starting
/// from `search_start`, and the first whose name contains the query wins.
pub open spec fn search_spec(
    names: Seq<Seq<char>>,
    query: Seq<char>,
    anchor: Option<usize>,
    reverse: bool,
) -> Option<int> {
    if names.len() == 0 {
        None
    } else {
        first_hit(names, query, search_start(anchor, names.len() as int, reverse), reverse, 0)
    }
}

/// The index arithmetic of the search stays within `usize`: the anchor
/// can be stepped past, and going backwards the start plus the length fits.
pub open spec fn search_fits(anchor: Option<usize>, len: int, reverse: bool) -> bool {
    if reverse {
        len == 0 || search_start(anchor, len, reverse) + len <= usize::MAX
    } else {
        anchor matches Some(i) ==> i < usize::MAX
    }
}

/// The lower-cased names of a listing.
pub open spec fn lowered_names(entries: Seq<FileEntry>) -> Seq<Seq<char>> {
    entries.map_values(|e: FileEntry| lowercase_of(e.name@))
}

pub open spec fn as_index(r: Option<usize>) -> Option<int> {
    match r {
        Some(i) => Some(i as int),
        None => None,
    }
}

proof fn lemma_start_in_range(anchor: Option<usize>, len: int, reverse: bool)
    requires
        len > 0,
    ensures
        0 <= search_start(anchor, len, reverse),
        !reverse ==> search_start(anchor, len, reverse) < len,
{
}

proof fn lemma_reverse_index(first: int, len: int, offset: int)
    requires
        len > 0,
        first >= 0,
        0 <= offset < len,
    ensures
        (first + len - offset) % len == (if first % len >= offset {
            first % len - offset
        } else {
            first % len + (len - offset)
        }),
{
    let f = first % len;
    let q = first / len;
    vstd::arithmetic::div_mod::lemma_fundamental_div_mod(first, len);
    assert(0 <= f < len) by {
        vstd::arithmetic::div_mod::lemma_mod_bound(first, len);
    }
    if f >= offset {
        assert(first + len - offset == len * (q + 1) + (f - offset)) by (nonlinear_arith)
            requires
                first == len * q + f,
        ;
        vstd::arithmetic::div_mod::lemma_mod_multiples_vanish(q + 1, f - offset, len);
        vstd::arithmetic::div_mod::lemma_small_mod((f - offset) as nat, len as nat);
    } else {
        assert(first + len - offset == len * q + (f + len - offset)) by (nonlinear_arith)
            requires
                first == len * q + f,
        ;
        vstd::arithmetic::div_mod::lemma_mod_multiples_vanish(q, f + len - offset, len);
        vstd::arithmetic::div_mod::lemma_small_mod((f + len - offset) as nat, len as nat);
    }
}

proof fn lemma_forward_index(first: int, len: int, offset: int)
    requires
        len > 0,
        0 <= first < len,
        0 <= offset < len,
    ensures
        (first + offset) % len == (if first + offset < len {
            first + offset
        } else {
            first + offset - len
        }),
{
    if first + offset < len {
        vstd::arithmetic::div_mod::lemma_small_mod((first + offset) as nat, len as nat);
    } else {
        vstd::arithmetic::div_mod::lemma_mod_multiples_vanish(1, first + offset - len, len);
        vstd::arithmetic::div_mod::lemma_small_mod((first + offset - len) as nat, len as nat);
    }
}

proof fn lemma_anchor_step(i: int, len: int)
    requires
        len > 0,
        i >= 0,
    ensures
        (i + 1) % len == (if i % len + 1 < len {
            i % len + 1
        } else {
            0
        }),
{
    let f = i % len;
    let q = i / len;
    vstd::arithmetic::div_mod::lemma_fundamental_div_mod(i, len);
    assert(0 <= f < len) by {
        vstd::arithmetic::div_mod::lemma_mod_bound(i, len);
    }
    if f + 1 < len {
        assert(i + 1 == len * q + (f + 1)) by (nonlinear_arith)
            requires
                i == len * q + f,
        ;
        vstd::arithmetic::div_mod::lemma_mod_multiples_vanish(q, f + 1, len);
        vstd::arithmetic::div_mod::lemma_small_mod((f + 1) as nat, len as nat);
    } else {
        assert(i + 1 == len * (q + 1) + 0) by (nonlinear_arith)
            requires
                i == len * q + f,
                f + 1 == len,
        ;
        vstd::arithmetic::div_mod::lemma_mod_multiples_vanish(q + 1, 0, len);
    }
}

/// How many steps after `first` the search reaches entry `i`.
pub open spec fn visit_offset(first: int, len: int, i: int, reverse: bool) -> int {
    if reverse {
        (first - i + len) % len
    } else {
        (i - first + len) % len
    }
}

proof fn lemma_small_range_mod(x: int, len: int)
    requires
        len > 0,
        0 <= x < 2 * len,
    ensures
        x % len == (if x < len {
            x
        } else {
            x - len
        }),
{
    if x < len {
        vstd::arithmetic::div_mod::lemma_small_mod(x as nat, len as nat);
    } else {
        vstd::arithmetic::div_mod::lemma_mod_multiples_vanish(1, x - len, len);
        vstd::arithmetic::div_mod::lemma_small_mod((x - len) as nat, len as nat);
    }
}

/// Visiting order and offsets are inverse to each other on a listing of
/// `len` entries.
proof fn lemma_visit_inverse(first: int, len: int, reverse: bool)
    requires
        0 <= first < len,
    ensures
        forall|i: int|
            0 <= i < len ==> 0 <= #[trigger] visit_offset(first, len, i, reverse) < len
                && search_index(first, len, visit_offset(first, len, i, reverse), reverse) == i,
        forall|k: int|
            0 <= k < len ==> 0 <= #[trigger] search_index(first, len, k, reverse) < len
                && visit_offset(first, len, search_index(first, len, k, reverse), reverse) == k,
{
    assert forall|i: int| 0 <= i < len implies 0 <= #[trigger] visit_offset(first, len, i, reverse)
        < len && search_index(first, len, visit_offset(first, len, i, reverse), reverse) == i by {
        if reverse {
            lemma_small_range_mod(first - i + len, len);
            let o = visit_offset(first, len, i, reverse);
            lemma_small_range_mod(first + len - o, len);
        } else {
            lemma_small_range_mod(i - first + len, len);
            let o = visit_offset(first, len, i, reverse);
            lemma_small_range_mod(first + o, len);
        }
    }
    assert forall|k: int| 0 <= k < len implies 0 <= #[trigger] search_index(first, len, k, reverse)
        < len && visit_offset(first, len, search_index(first, len, k, reverse), reverse) == k by {
        if reverse {
            lemma_small_range_mod(first + len - k, len);
            let i = search_index(first, len, k, reverse);
            lemma_small_range_mod(first - i + len, len);
        } else {
            lemma_small_range_mod(first + k, len);
            let i = search_index(first, len, k, reverse);
            lemma_small_range_mod(i - first + len, len);
        }
    }
}

proof fn lemma_first_hit(
    names: Seq<Seq<char>>,
    query: Seq<char>,
    first: int,
    reverse: bool,
    from: int,
)
    requires
        0 <= first < names.len(),
        0 <= from <= names.len(),
    ensures
        first_hit(names, query, first, reverse, from) matches Some(i) ==> {
            &&& 0 <= i < names.len()
            &&& contains_text(names[i], query)
            &&& from <= visit_offset(first, names.len() as int, i, reverse)
            &&& forall|j: int|
                from <= j < visit_offset(first, names.len() as int, i, reverse) ==> !contains_text(
                    #[trigger] names[search_index(first, names.len() as int, j, reverse)],
                    query,
                )
        },
        first_hit(names, query, first, reverse, from) is None ==> forall|j: int|
            from <= j < names.len() ==> !contains_text(
                #[trigger] names[search_index(first, names.len() as int, j, reverse)],
                query,
            ),
    decreases names.len() - from,
{
    let n = names.len() as int;
    lemma_visit_inverse(first, n, reverse);
    if from < n {
        let here = search_index(first, n, from, reverse);
        assert(0 <= here < n && visit_offset(first, n, here, reverse) == from);
        if !contains_text(names[here], query) {
            lemma_first_hit(names, query, first, reverse, from + 1);
        }
    }
}

/// The search in terms of the listing: in a non-empty listing, with the
/// anchor (if any) inside it, the entries are visited from `search_start`
/// one step at a time, forwards or backwards and wrapping around, each
/// exactly once and the anchor last; the result is the first visited entry
/// whose lower-cased name contains the lower-cased query, and there is no
/// result exactly when no name contains it.
pub proof fn lemma_search_visits_in_order(
    entries: Seq<FileEntry>,
    query: Seq<char>,
    anchor: Option<usize>,
    reverse: bool,
)
    requires
        entries.len() > 0,
        anchor matches Some(a) ==> a < entries.len(),
    ensures
        ({
            let n = entries.len() as int;
            let start = search_start(anchor, n, reverse);
            let names = lowered_names(entries);
            let q = lowercase_of(query);
            let r = search_spec(names, q, anchor, reverse);
            &&& forall|i: int|
                0 <= i < n ==> 0 <= #[trigger] visit_offset(start, n, i, reverse) < n
                    && search_index(start, n, visit_offset(start, n, i, reverse), reverse) == i
            &&& anchor matches Some(a) ==> visit_offset(start, n, a as int, reverse) == n - 1
            &&& r matches Some(i) ==> {
                &&& 0 <= i < n
                &&& contains_text(names[i], q)
                &&& forall|j: int|
                    0 <= j < visit_offset(start, n, i, reverse) ==> !contains_text(
                        #[trigger] names[search_index(start, n, j, reverse)],
                        q,
                    )
            }
            &&& r is None <==> forall|i: int| 0 <= i < n ==> !contains_text(#[trigger] names[i], q)
        }),
{
    let n = entries.len() as int;
    let start = search_start(anchor, n, reverse);
    let names = lowered_names(entries);
    let q = lowercase_of(query);
    assert(0 <= start < n);
    lemma_visit_inverse(start, n, reverse);
    lemma_first_hit(names, q, start, reverse, 0);
    if let Some(a) = anchor {
        if reverse {
            lemma_small_range_mod(start - a + n, n);
        } else {
            lemma_small_range_mod(a + 1, n);
            lemma_small_range_mod(a - start + n, n);
        }
    }
    let r = search_spec(names, q, anchor, reverse);
    if r is None {
        assert forall|i: int| 0 <= i < n implies !contains_text(#[trigger] names[i], q) by {
            let k = visit_offset(start, n, i, reverse);
            assert(names[search_index(start, n, k, reverse)] == names[i]);
        }
    }
}

/// The search over names that are already lower-cased, with a lower-cased
/// query: the index of the first entry, in visiting order, whose name
/// contains the query.
pub fn find_in_lowered(
    names: &Vec<Vec<char>>,
    query: &[char],
    anchor: Option<usize>,
    reverse: bool,
) -> (r: Option<usize>)
    requires
        search_fits(anchor, names@.len() as int, reverse),
    ensures
        as_index(r) == search_spec(names.deep_view(), query@, anchor, reverse),
        r matches Some(i) ==> i < names@.len(),
{
    let len = names.len();
    if len == 0 {
        return None;
    }
    let ghost ns = names.deep_view();
    proof {
        assert forall|k: int| 0 <= k < names@.len() implies #[trigger] ns[k] == names@[k]@ by {
            assert(names@[k].deep_view() =~= names@[k]@);
        }
    }
    let first: usize = match anchor {
        Some(i) => if reverse {
            if i > 0 {
                i - 1
            } else {
                len - 1
            }
        } else {
            proof {
                lemma_anchor_step(i as int, len as int);
            }
            if i % len + 1 < len {
                i % len + 1
            } else {
                0
            }
        },
        None => if reverse {
            len - 1
        } else {
            0
        },
    };
    assert(first == search_start(anchor, len as int, reverse));
    let reduced = first % len;
    let mut offset: usize = 0;
    while offset < len
        invariant
            len == names@.len(),
            len > 0,
            ns == names.deep_view(),
            forall|k: int| 0 <= k < names@.len() ==> #[trigger] ns[k] == names@[k]@,
            first == search_start(anchor, len as int, reverse),
            reduced == first % len,
            offset <= len,
            first_hit(ns, query@, first as int, reverse, 0) == first_hit(
                ns,
                query@,
                first as int,
                reverse,
                offset as int,
            ),
        decreases len - offset,
    {
        let index = if reverse {
            proof {
                lemma_reverse_index(first as int, len as int, offset as int);
            }
            if reduced >= offset {
                reduced - offset
            } else {
                reduced + (len - offset)
            }
        } else {
            proof {
                lemma_forward_index(first as int, len as int, offset as int);
            }
            proof {
                lemma_start_in_range(anchor, len as int, reverse);
            }
            if offset < len - first {
                first + offset
            } else {
                offset - (len - first)
            }
        };
        assert(index as int == search_index(first as int, len as int, offset as int, reverse));
        if contains_chars(names[index].as_slice(), query) {
            return Some(index);
        }
        offset = offset + 1;
    }
    None
}

/// The next entry whose name contains `query`, ignoring case: searching
/// forwards (or, with `reverse`, backwards) from the entry after (before)
/// `anchor`, wrapping around. Nothing is found in an empty listing or for an
/// empty query.
pub fn find_match(entries: &[FileEntry], query: &str, anchor: Option<usize>, reverse: bool) -> (r:
    Option<usize>)
    requires
        entries@.len() > 0 && query@.len() > 0 ==> search_fits(anchor, entries@.len() as int, reverse),
    ensures
        entries@.len() == 0 || query@.len() == 0 ==> r is None,
        entries@.len() > 0 && query@.len() > 0 ==> as_index(r) == search_spec(
            lowered_names(entries@),
            lowercase_of(query@),
            anchor,
            reverse,
        ),
{
    if entries.len() == 0 || query.unicode_len() == 0 {
        return None;
    }
    let query_lower = to_lowercase(query);
    let query_chars = chars_of(query_lower.as_str());
    let mut names: Vec<Vec<char>> = Vec::new();
    let mut i: usize = 0;
    while i < entries.len()
        invariant
            i <= entries@.len(),
            names.deep_view() == lowered_names(entries@).take(i as int),
        decreases entries@.len() - i,
    {
        let lowered = to_lowercase(entries[i].name.as_str());
        let chars = chars_of(lowered.as_str());
        let ghost before = names.deep_view();
        names.push(chars);
        proof {
            assert(names@[i as int].deep_view() =~= names@[i as int]@);
            assert(names.deep_view() =~= before.push(lowercase_of(entries@[i as int].name@)));
            assert(lowered_names(entries@).take(i + 1) =~= lowered_names(entries@).take(
                i as int,
            ).push(lowercase_of(entries@[i as int].name@)));
        }
        i = i + 1;
    }
    assert(lowered_names(entries@).take(i as int) =~= lowered_names(entries@));
    find_in_lowered(&names, query_chars.as_slice(), anchor, reverse)
}

/// The listing state that a recursive search replaces: the entries shown,
/// the folder's own entries kept aside, the selection, and the search flags.
pub struct SearchState {
    pub entries: Vec<FileEntry>,
    pub directory_entries: Vec<FileEntry>,
    pub selected_entry: Option<usize>,
    pub search_origin: Option<Option<usize>>,
    pub recursive_search_active: bool,
    pub recursive_search_loading: bool,
    pub recursive_search_truncated: bool,
}

/// Leaves a recursive search: the folder's entries are shown again, the
/// selection from before the search comes back when asked for, and the
/// search flags are cleared. Without an active recursive search nothing
/// changes and the answer is `false`.
pub fn restore_directory_view(state: &mut SearchState, restore_selection: bool) -> (r: bool)
    ensures
        r == old(state).recursive_search_active,
        !r ==> *final(state) == *old(state),
        r ==> final(state).entries.deep_view() == old(state).directory_entries.deep_view(),
        r ==> final(state).directory_entries == old(state).directory_entries,
        r ==> final(state).selected_entry == (match old(state).search_origin {
            Some(origin) => if restore_selection {
                origin
            } else {
                old(state).selected_entry
            },
            None => old(state).selected_entry,
        }),
        r ==> final(state).search_origin == old(state).search_origin,
        r ==> !final(state).recursive_search_active,
        r ==> !final(state).recursive_search_loading,
        r ==> !final(state).recursive_search_truncated,
{
    if !state.recursive_search_active {
        return false;
    }
    state.entries = duplicate_entries(&state.directory_entries);
    if restore_selection {
        if let Some(origin) = state.search_origin {
            state.selected_entry = origin;
        }
    }
    state.recursive_search_active = false;
    state.recursive_search_loading = false;
    state.recursive_search_truncated = false;
    true
}

} // verus!

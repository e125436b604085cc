//! Character-level helpers shared by the parsers: whitespace, trimming,
//! ASCII case folding, decimal rendering, and conversions between strings
//! and character vectors.
use vstd::prelude::*;
use vstd::string::*;

verus! {

/// Whitespace as `char::is_whitespace` defines it (the Unicode `White_Space`
/// property), written as its code points.
pub open spec fn is_space(c: char) -> bool {
    let u = c as u32;
    ||| 0x09 <= u <= 0x0D
    ||| u == 0x20
    ||| u == 0x85
    ||| u == 0xA0
    ||| u == 0x1680
    ||| 0x2000 <= u <= 0x200A
    ||| u == 0x2028
    ||| u == 0x2029
    ||| u == 0x202F
    ||| u == 0x205F
    ||| u == 0x3000
}

pub fn space(c: char) -> (r: bool)
    ensures
        r == is_space(c),
{
    let u = c as u32;
    (0x09 <= u && u <= 0x0D) || u == 0x20 || u == 0x85 || u == 0xA0 || u == 0x1680 || (0x2000
        <= u && u <= 0x200A) || u == 0x2028 || u == 0x2029 || u == 0x202F || u == 0x205F || u
        == 0x3000
}

/// ASCII lower-casing of one character; other characters are unchanged.
pub open spec fn lower(c: char) -> char {
    if 'A' <= c <= 'Z' {
        ((c as u32) + 32) as char
    } else {
        c
    }
}

pub open spec fn lower_seq(s: Seq<char>) -> Seq<char> {
    s.map_values(|c: char| lower(c))
}

pub fn ascii_lower(c: char) -> (r: char)
    ensures
        r == lower(c),
{
    if 'A' <= c && c <= 'Z' {
        let u: u32 = (c as u32) + 32;
        assert(u < 0xD800);
        char_from_ascii(u)
    } else {
        c
    }
}

fn char_from_ascii(u: u32) -> (r: char)
    requires
        u < 0x80,
    ensures
        r == u as char,
{
    let b: u8 = u as u8;
    b as char
}

/// Index of the first character at or after `i` that is not whitespace.
pub open spec fn first_solid_from(s: Seq<char>, i: int) -> int
    decreases s.len() - i,
{
    if i >= s.len() {
        s.len() as int
    } else if is_space(s[i]) {
        first_solid_from(s, i + 1)
    } else {
        i
    }
}

/// One past the last character before `j` that is not whitespace.
pub open spec fn last_solid_before(s: Seq<char>, j: int) -> int
    decreases j,
{
    if j <= 0 {
        0
    } else if is_space(s[j - 1]) {
        last_solid_before(s, j - 1)
    } else {
        j
    }
}

pub open spec fn trim_start(s: Seq<char>) -> Seq<char> {
    s.skip(first_solid_from(s, 0))
}

pub open spec fn trim_end(s: Seq<char>) -> Seq<char> {
    s.take(last_solid_before(s, s.len() as int))
}

/// `str::trim`: whitespace removed at both ends.
pub open spec fn trim(s: Seq<char>) -> Seq<char> {
    trim_end(trim_start(s))
}

pub proof fn lemma_first_solid_bounds(s: Seq<char>, i: int)
    requires
        0 <= i <= s.len(),
    ensures
        i <= first_solid_from(s, i) <= s.len(),
        first_solid_from(s, i) < s.len() ==> !is_space(s[first_solid_from(s, i)]),
        forall|k: int| i <= k < first_solid_from(s, i) ==> is_space(#[trigger] s[k]),
    decreases s.len() - i,
{
    if i < s.len() && is_space(s[i]) {
        lemma_first_solid_bounds(s, i + 1);
    }
}

pub proof fn lemma_last_solid_bounds(s: Seq<char>, j: int)
    requires
        0 <= j <= s.len(),
    ensures
        0 <= last_solid_before(s, j) <= j,
        last_solid_before(s, j) > 0 ==> !is_space(s[last_solid_before(s, j) - 1]),
        forall|k: int| last_solid_before(s, j) <= k < j ==> is_space(#[trigger] s[k]),
    decreases j,
{
    if j > 0 && is_space(s[j - 1]) {
        lemma_last_solid_bounds(s, j - 1);
    }
}

/// The characters of a string, one by one.
pub fn chars_of(s: &str) -> (v: Vec<char>)
    ensures
        v@ == s@,
{
    let n = s.unicode_len();
    let mut v: Vec<char> = Vec::new();
    let mut i: usize = 0;
    while i < n
        invariant
            n == s@.len(),
            i <= n,
            v@ == s@.take(i as int),
        decreases n - i,
    {
        let c = s.get_char(i);
        v.push(c);
        i = i + 1;
        assert(v@ =~= s@.take(i as int));
    }
    assert(v@ =~= s@);
    v
}

/// Builds a `String` from characters (`FromIterator<char>` for `String`).
#[verifier::external_body]
pub(crate) fn string_of(chars: &[char]) -> (s: String)
    ensures
        s@ == chars@,
{
    chars.iter().collect()
}

/// Appends a string to a character vector.
pub fn push_str(v: &mut Vec<char>, s: &str)
    ensures
        final(v)@ == old(v)@ + s@,
{
    let extra = chars_of(s);
    let mut i: usize = 0;
    while i < extra.len()
        invariant
            extra@ == s@,
            i <= extra@.len(),
            v@ == old(v)@ + s@.take(i as int),
        decreases extra@.len() - i,
    {
        v.push(extra[i]);
        i = i + 1;
        assert(v@ =~= old(v)@ + s@.take(i as int));
    }
    assert(s@.take(i as int) =~= s@);
}

/// Appends a character slice to a character vector.
pub fn push_chars(v: &mut Vec<char>, extra: &[char])
    ensures
        final(v)@ == old(v)@ + extra@,
{
    let mut i: usize = 0;
    while i < extra.len()
        invariant
            i <= extra@.len(),
            v@ == old(v)@ + extra@.take(i as int),
        decreases extra@.len() - i,
    {
        v.push(extra[i]);
        i = i + 1;
        assert(v@ =~= old(v)@ + extra@.take(i as int));
    }
    assert(extra@.take(i as int) =~= extra@);
}

/// A string made of `s` followed by `t`.
pub fn concat(s: &str, t: &str) -> (r: String)
    ensures
        r@ == s@ + t@,
{
    let mut r = String::from_str(s);
    r.append(t);
    r
}

pub open spec fn digit_char(d: nat) -> char {
    ((d % 10) + 48) as char
}

/// Decimal rendering of a natural number, as `Display` for integers prints it.
pub open spec fn decimal(n: nat) -> Seq<char>
    decreases n,
{
    if n < 10 {
        seq![digit_char(n)]
    } else {
        decimal(n / 10).push(digit_char(n % 10))
    }
}

pub fn push_decimal(v: &mut Vec<char>, n: usize)
    ensures
        final(v)@ == old(v)@ + decimal(n as nat),
    decreases n,
{
    if n >= 10 {
        push_decimal(v, n / 10);
    }
    let d: u32 = (n % 10) as u32;
    let c = char_from_ascii(d + 48);
    v.push(c);
    assert(v@ =~= old(v)@ + decimal(n as nat));
}

pub fn push_decimal_u64(v: &mut Vec<char>, n: u64)
    ensures
        final(v)@ == old(v)@ + decimal(n as nat),
    decreases n,
{
    if n >= 10 {
        push_decimal_u64(v, n / 10);
    }
    let d: u32 = (n % 10) as u32;
    let c = char_from_ascii(d + 48);
    v.push(c);
    assert(v@ =~= old(v)@ + decimal(n as nat));
}

/// The whitespace-trimmed characters of `s`.
pub fn trimmed(s: &[char]) -> (r: Vec<char>)
    ensures
        r@ == trim(s@),
{
    let n = s.len();
    let mut start: usize = 0;
    while start < n && space(s[start])
        invariant
            n == s@.len(),
            start <= n,
            first_solid_from(s@, start as int) == first_solid_from(s@, 0),
        decreases n - start,
    {
        start = start + 1;
    }
    assert(first_solid_from(s@, start as int) == start);
    let ghost t = s@.skip(start as int);
    let mut end: usize = n;
    while end > start && space(s[end - 1])
        invariant
            n == s@.len(),
            start <= end <= n,
            t == s@.skip(start as int),
            last_solid_before(t, (end - start) as int) == last_solid_before(t, t.len() as int),
        decreases end,
    {
        assert(t[(end - start) - 1] == s@[end - 1]);
        end = end - 1;
    }
    if end > start {
        assert(t[(end - start) - 1] == s@[end - 1]);
    }
    assert(last_solid_before(t, (end - start) as int) == end - start);
    let mut r: Vec<char> = Vec::new();
    let mut i: usize = start;
    while i < end
        invariant
            start <= i <= end <= n,
            n == s@.len(),
            r@ == s@.subrange(start as int, i as int),
        decreases end - i,
    {
        r.push(s[i]);
        i = i + 1;
        assert(r@ =~= s@.subrange(start as int, i as int));
    }
    assert(r@ =~= t.take((end - start) as int));
    r
}

/// True when the two character sequences are equal.
pub fn same(a: &[char], b: &[char]) -> (r: bool)
    ensures
        r == (a@ == b@),
{
    if a.len() != b.len() {
        return false;
    }
    let mut i: usize = 0;
    while i < a.len()
        invariant
            a@.len() == b@.len(),
            i <= a@.len(),
            forall|k: int| 0 <= k < i ==> a@[k] == b@[k],
        decreases a@.len() - i,
    {
        if a[i] != b[i] {
            return false;
        }
        i = i + 1;
    }
    assert(a@ =~= b@);
    true
}

/// True when `a` equals the characters of the string `b`.
pub fn same_as(a: &[char], b: &str) -> (r: bool)
    ensures
        r == (a@ == b@),
{
    let v = chars_of(b);
    same(a, v.as_slice())
}

/// True when `a` begins with `prefix`.
pub fn starts_with(a: &[char], prefix: &[char]) -> (r: bool)
    ensures
        r == (prefix@.len() <= a@.len() && a@.take(prefix@.len() as int) == prefix@),
{
    if prefix.len() > a.len() {
        return false;
    }
    let mut i: usize = 0;
    while i < prefix.len()
        invariant
            prefix@.len() <= a@.len(),
            i <= prefix@.len(),
            forall|k: int| 0 <= k < i ==> a@[k] == prefix@[k],
        decreases prefix@.len() - i,
    {
        if a[i] != prefix[i] {
            assert(a@.take(prefix@.len() as int)[i as int] != prefix@[i as int]);
            return false;
        }
        i = i + 1;
    }
    assert(a@.take(prefix@.len() as int) =~= prefix@);
    true
}

/// The characters `a[from..to]`.
pub fn slice_chars(a: &[char], from: usize, to: usize) -> (r: Vec<char>)
    requires
        from <= to <= a@.len(),
    ensures
        r@ == a@.subrange(from as int, to as int),
{
    let mut r: Vec<char> = Vec::new();
    let mut i: usize = from;
    while i < to
        invariant
            from <= i <= to <= a@.len(),
            r@ == a@.subrange(from as int, i as int),
        decreases to - i,
    {
        r.push(a[i]);
        i = i + 1;
        assert(r@ =~= a@.subrange(from as int, i as int));
    }
    r
}

/// ASCII lower-casing of every character.
pub fn lower_chars(a: &[char]) -> (r: Vec<char>)
    ensures
        r@ == lower_seq(a@),
{
    let mut r: Vec<char> = Vec::new();
    let mut i: usize = 0;
    while i < a.len()
        invariant
            i <= a@.len(),
            r@ == lower_seq(a@.take(i as int)),
        decreases a@.len() - i,
    {
        let c = ascii_lower(a[i]);
        r.push(c);
        i = i + 1;
        assert(r@ =~= lower_seq(a@.take(i as int)));
    }
    assert(a@.take(i as int) =~= a@);
    r
}

/// Index of the first whitespace character at or after `i`, if any.
pub open spec fn first_space_from(s: Seq<char>, i: int) -> Option<int>
    decreases s.len() - i,
{
    if i >= s.len() {
        None
    } else if is_space(s[i]) {
        Some(i)
    } else {
        first_space_from(s, i + 1)
    }
}

pub proof fn lemma_first_space_bounds(s: Seq<char>, i: int)
    requires
        0 <= i <= s.len(),
    ensures
        first_space_from(s, i) matches Some(k) ==> i <= k < s.len() && is_space(s[k]),
        forall|k: int| i <= k < s.len() && is_space(s[k]) ==> first_space_from(s, i) is Some,
    decreases s.len() - i,
{
    if i < s.len() && !is_space(s[i]) {
        lemma_first_space_bounds(s, i + 1);
    }
}

/// `str::split_once(char::is_whitespace)`, falling back to the whole text
/// and an empty rest when there is no whitespace.
pub open spec fn split_word(s: Seq<char>) -> (Seq<char>, Seq<char>) {
    match first_space_from(s, 0) {
        Some(k) => (s.take(k), s.skip(k + 1)),
        None => (s, Seq::empty()),
    }
}

/// The first word and the trimmed rest.
pub open spec fn word_and_rest(s: Seq<char>) -> (Seq<char>, Seq<char>) {
    (split_word(s).0, trim(split_word(s).1))
}

pub fn split_word_exec(s: &[char]) -> (r: (Vec<char>, Vec<char>))
    ensures
        r.0@ == split_word(s@).0,
        r.1@ == split_word(s@).1,
{
    let n = s.len();
    let mut i: usize = 0;
    while i < n && !space(s[i])
        invariant
            n == s@.len(),
            i <= n,
            first_space_from(s@, i as int) == first_space_from(s@, 0),
        decreases n - i,
    {
        i = i + 1;
    }
    if i < n {
        (slice_chars(s, 0, i), slice_chars(s, i + 1, n))
    } else {
        assert(s@.subrange(0, n as int) =~= s@);
        (slice_chars(s, 0, n), Vec::new())
    }
}

/// The first word and the trimmed rest (`split_once` then `trim`).
pub fn word_and_rest_exec(s: &[char]) -> (r: (Vec<char>, Vec<char>))
    ensures
        r.0@ == word_and_rest(s@).0,
        r.1@ == word_and_rest(s@).1,
{
    let (word, rest) = split_word_exec(s);
    let rest = trimmed(rest.as_slice());
    (word, rest)
}

pub open spec fn prefixed(s: Seq<char>, prefix: Seq<char>) -> bool {
    prefix.len() <= s.len() && s.take(prefix.len() as int) == prefix
}


// ------------------------------------------------------------------ ordering

/// `a` sorts strictly before `b` in the order of `String`'s `Ord`: character
/// by character, a proper prefix first. (Byte order of UTF-8 and code-point
/// order agree.)
pub open spec fn text_less(a: Seq<char>, b: Seq<char>) -> bool
    decreases a.len(),
{
    if a.len() == 0 {
        b.len() > 0
    } else if b.len() == 0 {
        false
    } else if a[0] != b[0] {
        a[0] < b[0]
    } else {
        text_less(a.drop_first(), b.drop_first())
    }
}

/// Exactly one of `a < b`, `a == b`, `b < a` holds.
pub proof fn lemma_text_trichotomy(a: Seq<char>, b: Seq<char>)
    ensures
        text_less(a, b) || a == b || text_less(b, a),
        !(text_less(a, b) && text_less(b, a)),
        text_less(a, b) ==> a != b,
    decreases a.len(),
{
    if a.len() > 0 && b.len() > 0 && a[0] == b[0] {
        lemma_text_trichotomy(a.drop_first(), b.drop_first());
        if a.drop_first() == b.drop_first() {
            assert forall|k: int| 0 <= k < a.len() implies a[k] == b[k] by {
                if k > 0 {
                    assert(a[k] == a.drop_first()[k - 1]);
                    assert(b[k] == b.drop_first()[k - 1]);
                }
            }
            assert(a =~= b);
        }
    } else if a.len() == 0 && b.len() == 0 {
        assert(a =~= b);
    }
}

pub proof fn lemma_text_transitive(a: Seq<char>, b: Seq<char>, c: Seq<char>)
    requires
        text_less(a, b),
        text_less(b, c),
    ensures
        text_less(a, c),
    decreases a.len(),
{
    if a.len() > 0 && b.len() > 0 && c.len() > 0 && a[0] == b[0] && b[0] == c[0] {
        lemma_text_transitive(a.drop_first(), b.drop_first(), c.drop_first());
    }
}

/// Compares two character sequences by `text_less`.
pub fn text_before(a: &[char], b: &[char]) -> (r: bool)
    ensures
        r == text_less(a@, b@),
{
    let mut i: usize = 0;
    assert(a@.skip(0) =~= a@);
    assert(b@.skip(0) =~= b@);
    while i < a.len() && i < b.len() && a[i] == b[i]
        invariant
            i <= a@.len(),
            i <= b@.len(),
            text_less(a@.skip(i as int), b@.skip(i as int)) == text_less(a@, b@),
        decreases a@.len() - i,
    {
        assert(a@.skip(i as int).drop_first() =~= a@.skip(i + 1));
        assert(b@.skip(i as int).drop_first() =~= b@.skip(i + 1));
        i = i + 1;
    }
    if i == a.len() {
        i < b.len()
    } else if i == b.len() {
        false
    } else {
        assert(a@.skip(i as int)[0] == a@[i as int]);
        assert(b@.skip(i as int)[0] == b@[i as int]);
        a[i] < b[i]
    }
}

/// ASCII-case-insensitive equality (`str::eq_ignore_ascii_case`).
pub open spec fn same_ignoring_ascii_case(a: Seq<char>, b: Seq<char>) -> bool {
    lower_seq(a) == lower_seq(b)
}

pub fn same_ignoring_case(a: &[char], b: &[char]) -> (r: bool)
    ensures
        r == same_ignoring_ascii_case(a@, b@),
{
    let la = lower_chars(a);
    let lb = lower_chars(b);
    same(la.as_slice(), lb.as_slice())
}

} // verus!

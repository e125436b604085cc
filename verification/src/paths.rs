//! Unix path text: joining, parents, components and the comparison of paths
//! by components, and the search for the nearest existing folder.
use vstd::prelude::*;

use crate::text::{chars_of, push_str, same, string_of, text_less};

verus! {

/// The parent that `std::path::Path::parent` gives for a path, as text.
pub uninterp spec fn parent_of(path: Seq<char>) -> Option<Seq<char>>;

/// `Path::parent`: the path without its final component, when it has one.
/// The contract names the result (`parent_of`); it does not restate how
/// `std` splits a path into components.
#[verifier::external_body]
pub(crate) fn path_parent(path: &str) -> (r: Option<String>)
    ensures
        r.deep_view() == parent_of(path@),
{
    std::path::Path::new(path).parent().map(|parent| parent.to_string_lossy().into_owned())
}

/// The final component that `std::path::Path::file_name` gives for a path,
/// as text.
pub uninterp spec fn file_name_of(path: Seq<char>) -> Option<Seq<char>>;

/// `Path::file_name`: the last component of a path, unless the path ends in
/// `..` or is the root. The contract names the result (`file_name_of`).
#[verifier::external_body]
pub(crate) fn file_name(path: &str) -> (r: Option<String>)
    ensures
        r.deep_view() == file_name_of(path@),
{
    std::path::Path::new(path).file_name().map(|name| name.to_string_lossy().into_owned())
}

/// `Path::is_dir`: whether a folder exists at `path` right now. The answer
/// depends on the file system, so the contract says nothing of it.
#[verifier::external_body]
pub(crate) fn directory_exists(path: &str) -> (r: bool) {
    std::path::Path::new(path).is_dir()
}

/// The paths reached from `path` by taking `steps` parents in turn.
pub open spec fn ancestor(path: Seq<char>, steps: nat) -> Option<Seq<char>>
    decreases steps,
{
    if steps == 0 {
        Some(path)
    } else {
        match ancestor(path, (steps - 1) as nat) {
            Some(p) => parent_of(p),
            None => None,
        }
    }
}

/// `path` itself or one of its ancestors.
pub open spec fn is_ancestor_or_self(path: Seq<char>, candidate: Seq<char>) -> bool {
    exists|steps: nat| ancestor(path, steps) == Some(candidate)
}

/// What one answer of the folder probe means for the search for the nearest
/// existing folder: the candidate exists, or the search goes on at its
/// parent, or it ends at the root when the candidate has no parent.
pub enum Probe {
    Found(String),
    Up(String),
    Root,
}

/// The search for the nearest existing folder after the probe answered
/// `exists` for `candidate`.
pub fn after_probe(candidate: &String, exists: bool) -> (r: Probe)
    ensures
        exists ==> (r matches Probe::Found(c) && c@ == candidate@),
        !exists ==> match parent_of(candidate@) {
            Some(p) => r matches Probe::Up(u) && u@ == p,
            None => r is Root,
        },
{
    if exists {
        return Probe::Found(candidate.clone());
    }
    match path_parent(candidate.as_str()) {
        Some(parent) => Probe::Up(parent),
        None => Probe::Root,
    }
}

/// Where the search for the nearest existing folder ends when it starts at
/// `candidate` and the probe gives `answers` in turn: the first candidate
/// the probe finds, going up one parent after each miss, or the root when
/// the candidates or the answers run out.
pub open spec fn nearest_from(candidate: Seq<char>, answers: Seq<bool>) -> Seq<char>
    decreases answers.len(),
{
    if answers.len() == 0 {
        "/"@
    } else if answers[0] {
        candidate
    } else {
        match parent_of(candidate) {
            Some(p) => nearest_from(p, answers.drop_first()),
            None => "/"@,
        }
    }
}

/// The closest folder that still exists at or above `path`, or the root when
/// none does within as many steps as the path has characters. Which folders
/// exist is up to the file system: the result is where the search ends for
/// some sequence of probe answers.
pub fn nearest_existing_ancestor(path: &String) -> (r: String)
    ensures
        r@ == "/"@ || is_ancestor_or_self(path@, r@),
        exists|answers: Seq<bool>| r@ == nearest_from(path@, answers),
{
    let mut candidate = path.clone();
    let mut steps: usize = 0;
    let limit = path.as_str().unicode_len();
    let ghost mut answers: Seq<bool> = Seq::empty();
    assert(ancestor(path@, 0) == Some(path@));
    assert forall|rest: Seq<bool>| nearest_from(path@, answers + rest) == nearest_from(
        candidate@,
        rest,
    ) by {
        assert(answers + rest =~= rest);
    }
    while steps <= limit && steps < usize::MAX
        invariant
            ancestor(path@, steps as nat) == Some(candidate@),
            limit == path@.len(),
            forall|rest: Seq<bool>|
                nearest_from(path@, answers + rest) == #[trigger] nearest_from(candidate@, rest),
        decreases limit + 1 - steps,
    {
        let exists = directory_exists(candidate.as_str());
        let ghost before = answers;
        proof {
            answers = answers.push(exists);
            assert forall|rest: Seq<bool>| nearest_from(path@, answers + rest) == nearest_from(
                candidate@,
                seq![exists] + rest,
            ) by {
                assert(answers + rest =~= before + (seq![exists] + rest));
            }
        }
        match after_probe(&candidate, exists) {
            Probe::Found(found) => {
                assert(nearest_from(candidate@, seq![exists] + Seq::<bool>::empty()) == candidate@);
                assert(answers + Seq::<bool>::empty() =~= answers);
                return found;
            },
            Probe::Up(parent) => {
                assert(ancestor(path@, (steps + 1) as nat) == parent_of(candidate@));
                assert forall|rest: Seq<bool>| nearest_from(path@, answers + rest) == #[trigger] nearest_from(
                    parent@,
                    rest,
                ) by {
                    assert((seq![exists] + rest).drop_first() =~= rest);
                    assert(nearest_from(path@, answers + rest) == nearest_from(
                        candidate@,
                        seq![exists] + rest,
                    ));
                }
                candidate = parent;
                steps = steps + 1;
            },
            Probe::Root => {
                assert(nearest_from(candidate@, seq![exists] + Seq::<bool>::empty()) == "/"@);
                assert(answers + Seq::<bool>::empty() =~= answers);
                return String::from_str("/");
            },
        }
    }
    assert(nearest_from(candidate@, Seq::<bool>::empty()) == "/"@);
    assert(answers + Seq::<bool>::empty() =~= answers);
    String::from_str("/")
}

// ------------------------------------------------------------------ components

/// One component of a path, as `std::path::Component` names them on Unix.
pub enum Part {
    Root,
    Current,
    Parent,
    Normal(Seq<char>),
}

/// The pieces of `s` between slashes, as `str::split('/')` gives them.
pub open spec fn segments(s: Seq<char>) -> Seq<Seq<char>>
    decreases s.len(),
{
    if s.len() == 0 {
        seq![Seq::empty()]
    } else {
        let g = segments(s.drop_last());
        if s.last() == '/' {
            g.push(Seq::empty())
        } else {
            g.update(g.len() - 1, g.last().push(s.last()))
        }
    }
}

/// The component a piece between slashes stands for: empty pieces and `.`
/// stand for none.
pub open spec fn part_of(g: Seq<char>) -> Option<Part> {
    if g.len() == 0 || g == seq!['.'] {
        None
    } else if g == seq!['.', '.'] {
        Some(Part::Parent)
    } else {
        Some(Part::Normal(g))
    }
}

pub open spec fn parts_of(segs: Seq<Seq<char>>) -> Seq<Part>
    decreases segs.len(),
{
    if segs.len() == 0 {
        Seq::empty()
    } else {
        let p = parts_of(segs.drop_last());
        match part_of(segs.last()) {
            Some(x) => p.push(x),
            None => p,
        }
    }
}

/// `Path::components` on Unix: the root, then a leading `.` when the path
/// starts with one, then the pieces between slashes, with empty pieces and
/// other `.` pieces left out and `..` as the parent.
pub open spec fn components(s: Seq<char>) -> Seq<Part> {
    let segs = segments(s);
    let lead = if s.len() > 0 && s[0] == '/' {
        seq![Part::Root]
    } else if segs[0] == seq!['.'] {
        seq![Part::Current]
    } else {
        Seq::empty()
    };
    lead + parts_of(segs)
}

/// `Path`'s `==`: two paths are the same when their components are.
pub open spec fn same_path_spec(a: Seq<char>, b: Seq<char>) -> bool {
    components(a) == components(b)
}

/// The order of `Component`'s variants.
pub open spec fn part_rank(x: Part) -> int {
    match x {
        Part::Root => 0,
        Part::Current => 1,
        Part::Parent => 2,
        Part::Normal(_) => 3,
    }
}

/// `Component`'s `<`: by variant, and names by their bytes.
pub open spec fn part_less(x: Part, y: Part) -> bool {
    if part_rank(x) != part_rank(y) {
        part_rank(x) < part_rank(y)
    } else {
        match (x, y) {
            (Part::Normal(a), Part::Normal(b)) => text_less(a, b),
            _ => false,
        }
    }
}

/// Lexicographic order of component lists, a proper prefix first.
pub open spec fn parts_less(a: Seq<Part>, b: Seq<Part>) -> bool
    decreases a.len(),
{
    if a.len() == 0 {
        b.len() > 0
    } else if b.len() == 0 {
        false
    } else if a[0] != b[0] {
        part_less(a[0], b[0])
    } else {
        parts_less(a.drop_first(), b.drop_first())
    }
}

/// `Path`'s `<`: the components compared in turn.
pub open spec fn path_less(a: Seq<char>, b: Seq<char>) -> bool {
    parts_less(components(a), components(b))
}

/// A component, as the library computes it.
pub enum PathPart {
    Root,
    Current,
    Parent,
    Normal(Vec<char>),
}

impl DeepView for PathPart {
    type V = Part;

    open spec fn deep_view(&self) -> Part {
        match self {
            PathPart::Root => Part::Root,
            PathPart::Current => Part::Current,
            PathPart::Parent => Part::Parent,
            PathPart::Normal(g) => Part::Normal(g@),
        }
    }
}

fn push_part(parts: &mut Vec<PathPart>, g: &Vec<char>)
    ensures
        final(parts).deep_view() == match part_of(g@) {
            Some(x) => old(parts).deep_view().push(x),
            None => old(parts).deep_view(),
        },
{
    let n = g.len();
    let ghost before = parts.deep_view();
    if n == 0 {
        return;
    }
    if n == 1 && g[0] == '.' {
        assert(g@ =~= seq!['.']);
        return;
    }
    assert(g@ != seq!['.']) by {
        if n == 1 {
            assert(g@[0] != seq!['.'][0]);
        }
    }
    if n == 2 && g[0] == '.' && g[1] == '.' {
        assert(g@ =~= seq!['.', '.']);
        parts.push(PathPart::Parent);
        assert(parts.deep_view() =~= before.push(Part::Parent));
    } else {
        assert(g@ != seq!['.', '.']) by {
            if n == 2 {
                if g@[0] != '.' {
                    assert(g@[0] != seq!['.', '.'][0]);
                } else {
                    assert(g@[1] != seq!['.', '.'][1]);
                }
            }
        }
        let copy = g.clone();
        assert(copy@ == g@);
        parts.push(PathPart::Normal(copy));
        assert(parts.deep_view() =~= before.push(Part::Normal(g@)));
    }
}

fn is_dot(g: &Vec<char>) -> (r: bool)
    ensures
        r == (g@ == seq!['.']),
{
    if g.len() == 1 && g[0] == '.' {
        assert(g@ =~= seq!['.']);
        true
    } else {
        assert(g@ != seq!['.']) by {
            if g@.len() == 1 {
                assert(g@[0] != seq!['.'][0]);
            }
        }
        false
    }
}

/// The components of a path (see `components`).
pub fn path_parts(s: &str) -> (r: Vec<PathPart>)
    ensures
        r.deep_view() == components(s@),
{
    let chars = chars_of(s);
    let n = chars.len();
    let mut parts: Vec<PathPart> = Vec::new();
    let mut cur: Vec<char> = Vec::new();
    let ghost mut done: Seq<Seq<char>> = Seq::empty();
    let mut started = false;
    let mut first_is_dot = false;
    let mut i: usize = 0;
    assert(chars@.take(0) =~= Seq::<char>::empty());
    assert(done.push(cur@) =~= seq![Seq::<char>::empty()]);
    assert(parts.deep_view() =~= Seq::<Part>::empty());
    while i < n
        invariant
            n == chars@.len(),
            chars@ == s@,
            i <= n,
            segments(chars@.take(i as int)) == done.push(cur@),
            parts.deep_view() == parts_of(done),
            started == (done.len() > 0),
            started ==> first_is_dot == (done[0] == seq!['.']),
        decreases n - i,
    {
        let c = chars[i];
        let ghost t = chars@.take(i + 1);
        assert(t.drop_last() =~= chars@.take(i as int));
        assert(t.last() == c);
        if c == '/' {
            if !started {
                first_is_dot = is_dot(&cur);
                started = true;
            }
            let ghost seg = cur@;
            push_part(&mut parts, &cur);
            proof {
                assert(done.push(seg).drop_last() =~= done);
                done = done.push(seg);
            }
            cur = Vec::new();
            assert(segments(t) =~= done.push(cur@));
        } else {
            let ghost g = done.push(cur@);
            cur.push(c);
            assert(segments(t) =~= g.update(g.len() - 1, g.last().push(c)));
            assert(segments(t) =~= done.push(cur@));
        }
        i = i + 1;
    }
    assert(chars@.take(n as int) =~= s@);
    let ghost segs = done.push(cur@);
    let lead_dot = if started {
        first_is_dot
    } else {
        is_dot(&cur)
    };
    assert(segs[0] == (if done.len() > 0 { done[0] } else { cur@ }));
    assert(lead_dot == (segs[0] == seq!['.']));
    push_part(&mut parts, &cur);
    assert(segs.drop_last() =~= done);
    let ghost tail = parts.deep_view();
    assert(tail == parts_of(segs));
    if n > 0 && chars[0] == '/' {
        parts.insert(0, PathPart::Root);
        assert(parts.deep_view() =~= seq![Part::Root] + tail);
    } else if lead_dot {
        parts.insert(0, PathPart::Current);
        assert(parts.deep_view() =~= seq![Part::Current] + tail);
    } else {
        assert(parts.deep_view() =~= Seq::<Part>::empty() + tail);
    }
    parts
}

fn same_part(a: &PathPart, b: &PathPart) -> (r: bool)
    ensures
        r == (a.deep_view() == b.deep_view()),
{
    match (a, b) {
        (PathPart::Root, PathPart::Root) => true,
        (PathPart::Current, PathPart::Current) => true,
        (PathPart::Parent, PathPart::Parent) => true,
        (PathPart::Normal(x), PathPart::Normal(y)) => same(x.as_slice(), y.as_slice()),
        _ => false,
    }
}

/// Whether two paths are the same path: `Path`'s `==`, which compares
/// components, so `/tmp` and `/tmp/` are the same.
pub fn same_path(a: &str, b: &str) -> (r: bool)
    ensures
        r == same_path_spec(a@, b@),
{
    let pa = path_parts(a);
    let pb = path_parts(b);
    if pa.len() != pb.len() {
        assert(pa.deep_view().len() != pb.deep_view().len());
        return false;
    }
    let mut i: usize = 0;
    while i < pa.len()
        invariant
            pa@.len() == pb@.len(),
            pa.deep_view() == components(a@),
            pb.deep_view() == components(b@),
            i <= pa@.len(),
            forall|k: int| 0 <= k < i ==> pa.deep_view()[k] == pb.deep_view()[k],
        decreases pa@.len() - i,
    {
        if !same_part(&pa[i], &pb[i]) {
            assert(pa.deep_view()[i as int] != pb.deep_view()[i as int]);
            return false;
        }
        i = i + 1;
    }
    assert(pa.deep_view() =~= pb.deep_view());
    true
}

/// No two of the paths are the same path.
pub open spec fn no_repeated_paths(s: Seq<Seq<char>>) -> bool {
    forall|i: int, j: int| 0 <= i < j < s.len() ==> !same_path_spec(s[i], s[j])
}

/// `paths` holds the same path as `p` (by components).
pub open spec fn has_path(paths: Seq<Seq<char>>, p: Seq<char>) -> bool {
    exists|i: int| 0 <= i < paths.len() && same_path_spec(#[trigger] paths[i], p)
}

/// Whether `paths` holds the same path as `path`, as `Path`'s `==` decides.
pub fn contains_same_path(paths: &[String], path: &String) -> (r: bool)
    ensures
        r == has_path(paths.deep_view(), path@),
{
    let mut i: usize = 0;
    while i < paths.len()
        invariant
            i <= paths@.len(),
            forall|k: int| 0 <= k < i ==> !same_path_spec(#[trigger] paths.deep_view()[k], path@),
        decreases paths@.len() - i,
    {
        if same_path(paths[i].as_str(), path.as_str()) {
            assert(paths.deep_view()[i as int] == paths@[i as int]@);
            return true;
        }
        assert(paths.deep_view()[i as int] == paths@[i as int]@);
        i = i + 1;
    }
    false
}

/// True when the text starts at the root.
pub open spec fn is_absolute(path: Seq<char>) -> bool {
    path.len() > 0 && path[0] == '/'
}

/// `PathBuf::join` on Unix: an absolute `target` replaces `base`; otherwise
/// a separator is added unless `base` is empty or already ends in one.
pub open spec fn join(base: Seq<char>, target: Seq<char>) -> Seq<char> {
    if is_absolute(target) {
        target
    } else if base.len() == 0 || base.last() == '/' {
        base + target
    } else {
        base + seq!['/'] + target
    }
}

pub fn join_path(base: &str, target: &str) -> (r: String)
    ensures
        r@ == join(base@, target@),
{
    let t = chars_of(target);
    if t.len() > 0 && t[0] == '/' {
        return string_of(t.as_slice());
    }
    let mut v = chars_of(base);
    if !(v.len() == 0 || v[v.len() - 1] == '/') {
        v.push('/');
    }
    push_str(&mut v, target);
    assert(v@ =~= join(base@, target@));
    string_of(v.as_slice())
}

} // verus!

//! Watching the folders that the window depends on: the current folder, the
//! folders that pending cuts leave, the expanded sidebar folders, and the
//! sources of a Recent or Trash listing. Each watched folder has roles, and
//! a change in it means what its roles say.
use vstd::prelude::*;

use crate::paths::{
    no_repeated_paths, parent_of, path_less, path_parent, same_path, same_path_spec,
};

verus! {

/// Registers folder watches: a directory watcher, or a double in tests.
/// The answer is true when the watcher cannot follow them all and the
/// window must poll instead. `watches` says which answers an implementation
/// may give to which requests; by default it admits every answer, and an
/// implementation that states its answers overrides it.
pub trait Adapter {
    /// Holds when `answer` is what this watcher may say after being asked to
    /// watch `paths`.
    closed spec fn watches(&self, paths: Seq<Seq<char>>, answer: bool) -> bool {
        true
    }

    fn watch_many(&self, paths: Vec<String>) -> (r: bool)
        ensures
            self.watches(paths.deep_view(), r),
    ;
}

/// Why a folder is watched.
#[derive(Clone, Copy, Debug, Default, PartialEq, Eq, Structural)]
pub struct Roles {
    pub current: bool,
    pub cut_parent: bool,
    pub expanded: bool,
    pub displayed_source: bool,
}

impl DeepView for Roles {
    type V = Roles;

    open spec fn deep_view(&self) -> Roles {
        *self
    }
}

/// The folders the window depends on right now.
pub struct Locations {
    pub current: String,
    pub current_is_displayed: bool,
    pub pending_cut_paths: Vec<String>,
    pub expanded: Vec<String>,
    pub displayed_sources: Vec<String>,
}

pub struct LocationsView {
    pub current: Seq<char>,
    pub current_is_displayed: bool,
    pub pending_cut_paths: Seq<Seq<char>>,
    pub expanded: Seq<Seq<char>>,
    pub displayed_sources: Seq<Seq<char>>,
}

impl DeepView for Locations {
    type V = LocationsView;

    open spec fn deep_view(&self) -> LocationsView {
        LocationsView {
            current: self.current@,
            current_is_displayed: self.current_is_displayed,
            pending_cut_paths: self.pending_cut_paths.deep_view(),
            expanded: self.expanded.deep_view(),
            displayed_sources: self.displayed_sources.deep_view(),
        }
    }
}

/// A change reported by the watcher.
#[derive(Clone, Debug)]
pub struct WatchEvent {
    pub path: String,
    pub removed: Vec<String>,
    pub watch_failed: bool,
}

/// What a change in a watched folder asks of the window.
#[derive(Clone, Debug, Default, PartialEq, Eq)]
pub struct Change {
    pub refresh_current: bool,
    pub invalidate_tree: Option<String>,
    pub refresh_displayed: bool,
    pub resync: bool,
    pub notice: Option<String>,
}

/// What polling asks of the window once watching has failed.
#[derive(Clone, Debug, Default, PartialEq, Eq)]
pub struct Poll {
    pub refresh_location: bool,
    pub invalidate_tree: Vec<String>,
}

// ------------------------------------------------------------------ role table

/// The roles recorded for `k`, if it is watched. Folders are told apart as
/// paths (by components), so `/a` and `/a/` are one folder.
pub open spec fn lookup(v: Seq<(Seq<char>, Roles)>, k: Seq<char>) -> Option<Roles>
    decreases v.len(),
{
    if v.len() == 0 {
        None
    } else if same_path_spec(v.last().0, k) {
        Some(v.last().1)
    } else {
        lookup(v.drop_last(), k)
    }
}

pub open spec fn distinct_keys(v: Seq<(Seq<char>, Roles)>) -> bool {
    forall|i: int, j: int| 0 <= i < j < v.len() ==> !same_path_spec(v[i].0, v[j].0)
}

pub open spec fn keys_of(v: Seq<(Seq<char>, Roles)>) -> Seq<Seq<char>> {
    v.map_values(|e: (Seq<char>, Roles)| e.0)
}

/// A reordering of paths of which no two are the same path has no two that
/// are the same path either.
proof fn lemma_reordered_paths(k: Seq<Seq<char>>, l: Seq<Seq<char>>)
    requires
        no_repeated_paths(k),
        l.to_multiset() == k.to_multiset(),
    ensures
        no_repeated_paths(l),
{
    broadcast use vstd::seq_lib::group_to_multiset_ensures;

    assert(k.no_duplicates()) by {
        assert forall|i: int, j: int| 0 <= i < k.len() && 0 <= j < k.len() && i != j implies k[i]
            != k[j] by {
            if i < j {
                assert(!same_path_spec(k[i], k[j]));
            } else {
                assert(!same_path_spec(k[j], k[i]));
            }
        }
    }
    k.lemma_multiset_has_no_duplicates();
    l.lemma_multiset_has_no_duplicates_conv();
    assert forall|i: int, j: int| 0 <= i < j < l.len() implies !same_path_spec(l[i], l[j]) by {
        assert(l.contains(l[i]) && l.contains(l[j]));
        assert(l.to_multiset().count(l[i]) > 0 && l.to_multiset().count(l[j]) > 0);
        assert(k.to_multiset().count(l[i]) > 0 && k.to_multiset().count(l[j]) > 0);
        assert(k.contains(l[i]) && k.contains(l[j]));
        let a = choose|a: int| 0 <= a < k.len() && k[a] == l[i];
        let b = choose|b: int| 0 <= b < k.len() && k[b] == l[j];
        assert(l[i] != l[j]);
        if a < b {
            assert(!same_path_spec(k[a], k[b]));
        } else {
            assert(!same_path_spec(k[b], k[a]));
        }
    }
}

proof fn lemma_lookup(v: Seq<(Seq<char>, Roles)>, k: Seq<char>)
    requires
        distinct_keys(v),
    ensures
        forall|i: int| 0 <= i < v.len() && same_path_spec(v[i].0, k) ==> lookup(v, k) == Some(v[i].1),
        (forall|i: int| 0 <= i < v.len() ==> !same_path_spec(v[i].0, k)) ==> lookup(v, k) is None,
    decreases v.len(),
{
    if v.len() > 0 {
        let p = v.drop_last();
        assert(distinct_keys(p));
        lemma_lookup(p, k);
        assert forall|i: int| 0 <= i < v.len() && same_path_spec(v[i].0, k) implies lookup(v, k) == Some(
            v[i].1,
        ) by {
            if i < v.len() - 1 {
                assert(p[i] == v[i]);
                assert(!same_path_spec(v[i].0, v[v.len() - 1].0));
            }
        }
        if forall|i: int| 0 <= i < v.len() ==> !same_path_spec(v[i].0, k) {
            assert forall|i: int| 0 <= i < p.len() implies !same_path_spec(p[i].0, k) by {
                assert(p[i] == v[i]);
            }
        }
    }
}

/// Which role a step adds.
#[derive(Clone, Copy, Debug, PartialEq, Eq, Structural)]
pub enum Role {
    Current(bool),
    CutParent,
    Expanded,
    DisplayedSource,
}

pub open spec fn no_roles() -> Roles {
    Roles { current: false, cut_parent: false, expanded: false, displayed_source: false }
}

pub open spec fn with_role(r: Option<Roles>, role: Role) -> Roles {
    let base = match r {
        Some(r) => r,
        None => no_roles(),
    };
    match role {
        Role::Current(b) => Roles { current: b, ..base },
        Role::CutParent => Roles { cut_parent: true, ..base },
        Role::Expanded => Roles { expanded: true, ..base },
        Role::DisplayedSource => Roles { displayed_source: true, ..base },
    }
}

fn set_role(roles: &mut Vec<(String, Roles)>, path: String, role: Role)
    requires
        distinct_keys(old(roles).deep_view()),
    ensures
        distinct_keys(final(roles).deep_view()),
        forall|k: Seq<char>|
            #[trigger] lookup(final(roles).deep_view(), k) == if same_path_spec(k, path@) {
                Some(with_role(lookup(old(roles).deep_view(), k), role))
            } else {
                lookup(old(roles).deep_view(), k)
            },
{
    let ghost v = roles.deep_view();
    let ghost pv = path@;
    let mut i: usize = 0;
    while i < roles.len()
        invariant
            i <= roles@.len(),
            v == roles.deep_view(),
            v == old(roles).deep_view(),
            distinct_keys(v),
            pv == path@,
            forall|j: int| 0 <= j < i ==> !same_path_spec(v[j].0, pv),
        decreases roles@.len() - i,
    {
        if same_path(roles[i].0.as_str(), path.as_str()) {
            let current = roles[i].1;
            let updated = match role {
                Role::Current(b) => Roles { current: b, ..current },
                Role::CutParent => Roles { cut_parent: true, ..current },
                Role::Expanded => Roles { expanded: true, ..current },
                Role::DisplayedSource => Roles { displayed_source: true, ..current },
            };
            let key = roles[i].0.clone();
            let ghost kv = v[i as int].0;
            assert(key@ == kv);
            proof {
                lemma_lookup(v, pv);
            }
            roles.set(i, (key, updated));
            proof {
                let w = roles.deep_view();
                assert(w =~= v.update(i as int, (kv, updated)));
                assert(distinct_keys(w)) by {
                    assert forall|a: int, b: int| 0 <= a < b < w.len() implies !same_path_spec(
                        w[a].0,
                        w[b].0,
                    ) by {
                        if a != i && b != i {
                            assert(w[a] == v[a] && w[b] == v[b]);
                        } else if a == i {
                            assert(w[b] == v[b]);
                        } else {
                            assert(w[a] == v[a]);
                        }
                    }
                }
                assert forall|k: Seq<char>| #[trigger] lookup(w, k) == if same_path_spec(k, pv) {
                    Some(with_role(lookup(v, k), role))
                } else {
                    lookup(v, k)
                } by {
                    lemma_lookup(w, k);
                    lemma_lookup(v, k);
                    if same_path_spec(k, pv) {
                        assert(same_path_spec(w[i as int].0, k));
                    } else {
                        if exists|j: int| 0 <= j < v.len() && same_path_spec(v[j].0, k) {
                            let j = choose|j: int| 0 <= j < v.len() && same_path_spec(v[j].0, k);
                            assert(w[j] == v[j]);
                        } else {
                            assert forall|j: int| 0 <= j < w.len() implies !same_path_spec(w[j].0, k) by {
                                if j != i {
                                    assert(w[j] == v[j]);
                                }
                            }
                        }
                    }
                }
            }
            return;
        }
        i = i + 1;
    }
    proof {
        lemma_lookup(v, pv);
    }
    let updated = match role {
        Role::Current(b) => Roles { current: b, cut_parent: false, expanded: false, displayed_source: false },
        Role::CutParent => Roles { current: false, cut_parent: true, expanded: false, displayed_source: false },
        Role::Expanded => Roles { current: false, cut_parent: false, expanded: true, displayed_source: false },
        Role::DisplayedSource => Roles { current: false, cut_parent: false, expanded: false, displayed_source: true },
    };
    roles.push((path, updated));
    proof {
        let w = roles.deep_view();
        assert(w =~= v.push((pv, updated)));
        assert(w.drop_last() =~= v);
        assert forall|k: Seq<char>| #[trigger] lookup(w, k) == if same_path_spec(k, pv) {
            Some(with_role(lookup(v, k), role))
        } else {
            lookup(v, k)
        } by {
            lemma_lookup(v, k);
        }
        assert(distinct_keys(w)) by {
            assert forall|a: int, b: int| 0 <= a < b < w.len() implies !same_path_spec(
                w[a].0,
                w[b].0,
            ) by {
                if b == w.len() - 1 {
                    assert(w[a] == v[a]);
                } else {
                    assert(w[a] == v[a] && w[b] == v[b]);
                }
            }
        }
    }
}

// ------------------------------------------------------------------ roles of locations

/// The roles each folder should have for `l`, counting only the first `c`
/// cut paths, `e` expanded folders and `d` displayed sources.
pub open spec fn partial_roles(l: LocationsView, c: int, e: int, d: int, k: Seq<char>) -> Option<
    Roles,
> {
    let cp = exists|m: int|
        0 <= m < c && (#[trigger] parent_of(l.pending_cut_paths[m]) matches Some(p)
            && same_path_spec(p, k));
    let ex = exists|m: int| 0 <= m < e && same_path_spec(#[trigger] l.expanded[m], k);
    let ds = exists|m: int| 0 <= m < d && same_path_spec(#[trigger] l.displayed_sources[m], k);
    let cur = same_path_spec(k, l.current);
    if cur || cp || ex || ds {
        Some(
            Roles {
                current: cur && l.current_is_displayed,
                cut_parent: cp,
                expanded: ex,
                displayed_source: ds,
            },
        )
    } else {
        None
    }
}

/// The roles of every watched folder: the current folder (a role only while
/// it is displayed), the parent of each pending cut, each expanded folder,
/// and each displayed source, each folder counted once as a path. Other
/// folders are not watched.
pub open spec fn expected_roles(l: LocationsView, k: Seq<char>) -> Option<Roles> {
    partial_roles(
        l,
        l.pending_cut_paths.len() as int,
        l.expanded.len() as int,
        l.displayed_sources.len() as int,
        k,
    )
}

pub struct MonitoringView {
    pub roles: Seq<(Seq<char>, Roles)>,
    pub fallback: bool,
}

/// The watched folders with their roles, and whether the window polls
/// because watching failed.
pub struct LocationMonitoring<A> {
    adapter: A,
    roles: Vec<(String, Roles)>,
    fallback: bool,
}

impl<A> LocationMonitoring<A> {
    pub closed spec fn view(&self) -> MonitoringView {
        MonitoringView { roles: self.roles.deep_view(), fallback: self.fallback }
    }

    /// The watcher that registrations go to.
    pub closed spec fn watcher(&self) -> A {
        self.adapter
    }

    #[verifier::type_invariant]
    spec fn distinct(self) -> bool {
        distinct_keys(self.roles.deep_view())
    }
}

/// The order in which `std::path::Path` sorts paths (by components), as
/// `slice::sort` leaves them. It depends on the paths alone.
pub uninterp spec fn path_sorted(paths: Seq<Seq<char>>) -> Seq<Seq<char>>;

/// The paths are in ascending order of `Path`'s `Ord` (`path_less`).
pub open spec fn sorted_paths(s: Seq<Seq<char>>) -> bool {
    forall|i: int, j: int| 0 <= i < j < s.len() ==> !path_less(s[j], s[i])
}

/// `slice::sort` on paths: a stable sort into ascending order of `Path`'s
/// `Ord`, which compares components (`path_less`). The contract names the
/// sorted list (`path_sorted`) and says that it holds the same paths, in
/// that order.
#[verifier::external_body]
fn sort_paths(paths: Vec<String>) -> (r: Vec<String>)
    ensures
        r.deep_view() == path_sorted(paths.deep_view()),
        r.deep_view().to_multiset() == paths.deep_view().to_multiset(),
        sorted_paths(r.deep_view()),
{
    let mut paths: Vec<std::path::PathBuf> = paths.into_iter().map(std::path::PathBuf::from).collect();
    paths.sort();
    paths.into_iter().map(|path| path.to_string_lossy().into_owned()).collect()
}

/// The folders with the expanded role, in table order.
pub open spec fn expanded_keys(v: Seq<(Seq<char>, Roles)>) -> Seq<Seq<char>>
    decreases v.len(),
{
    if v.len() == 0 {
        Seq::empty()
    } else if v.last().1.expanded {
        expanded_keys(v.drop_last()).push(v.last().0)
    } else {
        expanded_keys(v.drop_last())
    }
}

/// A change in folder `path`: the roles decide; a cut parent reports what
/// reconciling the pending cut gave (`notice`), which asks for a resync.
pub open spec fn change_spec(roles: Option<Roles>, path: Seq<char>, notice: Option<Seq<char>>) -> (
    bool,
    Option<Seq<char>>,
    bool,
    bool,
    Option<Seq<char>>,
) {
    let r = match roles {
        Some(r) => r,
        None => no_roles(),
    };
    let n = if r.cut_parent {
        notice
    } else {
        None
    };
    (
        r.current,
        if r.expanded {
            Some(path)
        } else {
            None
        },
        r.displayed_source,
        n is Some,
        n,
    )
}

impl<A: Adapter> LocationMonitoring<A> {
    pub fn new(adapter: A) -> (r: Self)
        ensures
            r.view().roles.len() == 0,
            !r.view().fallback,
    {
        let roles: Vec<(String, Roles)> = Vec::new();
        assert(roles.deep_view() =~= Seq::<(Seq<char>, Roles)>::empty());
        LocationMonitoring { adapter, roles, fallback: false }
    }

    /// Watches exactly the folders of `locations`, with their roles; the
    /// adapter gets the folders in path order and says whether to poll.
    pub fn sync_locations(&mut self, locations: Locations)
        ensures
            final(self).watcher() == old(self).watcher(),
            final(self).watcher().watches(
                path_sorted(keys_of(final(self).view().roles)),
                final(self).view().fallback,
            ),
            path_sorted(keys_of(final(self).view().roles)).to_multiset() == keys_of(
                final(self).view().roles,
            ).to_multiset(),
            sorted_paths(path_sorted(keys_of(final(self).view().roles))),
            no_repeated_paths(path_sorted(keys_of(final(self).view().roles))),
            distinct_keys(final(self).view().roles),
            forall|k: Seq<char>|
                #[trigger] lookup(final(self).view().roles, k) == expected_roles(
                    locations.deep_view(),
                    k,
                ),
    {
        proof {
            use_type_invariant(&*self);
        }
        let ghost l = locations.deep_view();
        let Locations { current, current_is_displayed, pending_cut_paths, expanded, displayed_sources } =
            locations;
        let mut roles: Vec<(String, Roles)> = Vec::new();
        assert(roles.deep_view() =~= Seq::<(Seq<char>, Roles)>::empty());
        set_role(&mut roles, current, Role::Current(current_is_displayed));
        proof {
            assert forall|k: Seq<char>| #[trigger] lookup(roles.deep_view(), k) == partial_roles(
                l,
                0,
                0,
                0,
                k,
            ) by {
            }
        }
        let mut c: usize = 0;
        while c < pending_cut_paths.len()
            invariant
                c <= pending_cut_paths@.len(),
                l.pending_cut_paths == pending_cut_paths.deep_view(),
                l.expanded == expanded.deep_view(),
                l.displayed_sources == displayed_sources.deep_view(),
                distinct_keys(roles.deep_view()),
                forall|k: Seq<char>|
                    #[trigger] lookup(roles.deep_view(), k) == partial_roles(l, c as int, 0, 0, k),
            decreases pending_cut_paths@.len() - c,
        {
            assert(l.pending_cut_paths[c as int] == pending_cut_paths@[c as int]@);
            match path_parent(pending_cut_paths[c].as_str()) {
                Some(parent) => {
                    let ghost pv = parent@;
                    set_role(&mut roles, parent, Role::CutParent);
                    proof {
                        assert forall|k: Seq<char>| #[trigger] lookup(roles.deep_view(), k)
                            == partial_roles(l, c + 1, 0, 0, k) by {
                            if same_path_spec(k, pv) {
                                assert(parent_of(l.pending_cut_paths[c as int]) == Some(pv));
                            } else {
                                if exists|m: int|
                                    0 <= m < c + 1 && (#[trigger] parent_of(
                                        l.pending_cut_paths[m],
                                    ) matches Some(p) && same_path_spec(p, k)) {
                                    let m = choose|m: int|
                                        0 <= m < c + 1 && (#[trigger] parent_of(
                                            l.pending_cut_paths[m],
                                        ) matches Some(p) && same_path_spec(p, k));
                                    assert(m != c);
                                }
                            }
                        }
                    }
                },
                None => {
                    proof {
                        assert forall|k: Seq<char>| #[trigger] lookup(roles.deep_view(), k)
                            == partial_roles(l, c + 1, 0, 0, k) by {
                            if exists|m: int|
                                0 <= m < c + 1 && (#[trigger] parent_of(
                                    l.pending_cut_paths[m],
                                ) matches Some(p) && same_path_spec(p, k)) {
                                let m = choose|m: int|
                                    0 <= m < c + 1 && (#[trigger] parent_of(
                                        l.pending_cut_paths[m],
                                    ) matches Some(p) && same_path_spec(p, k));
                                assert(m != c);
                            }
                        }
                    }
                },
            }
            c = c + 1;
        }
        let mut e: usize = 0;
        while e < expanded.len()
            invariant
                e <= expanded@.len(),
                c == pending_cut_paths@.len(),
                l.pending_cut_paths == pending_cut_paths.deep_view(),
                l.expanded == expanded.deep_view(),
                l.displayed_sources == displayed_sources.deep_view(),
                distinct_keys(roles.deep_view()),
                forall|k: Seq<char>|
                    #[trigger] lookup(roles.deep_view(), k) == partial_roles(
                        l,
                        c as int,
                        e as int,
                        0,
                        k,
                    ),
            decreases expanded@.len() - e,
        {
            let path = expanded[e].clone();
            let ghost pv = path@;
            assert(l.expanded[e as int] == pv);
            set_role(&mut roles, path, Role::Expanded);
            proof {
                assert forall|k: Seq<char>| #[trigger] lookup(roles.deep_view(), k) == partial_roles(
                    l,
                    c as int,
                    e + 1,
                    0,
                    k,
                ) by {
                    if !same_path_spec(k, pv) {
                        if exists|m: int| 0 <= m < e + 1 && same_path_spec(#[trigger] l.expanded[m], k) {
                            let m = choose|m: int|
                                0 <= m < e + 1 && same_path_spec(#[trigger] l.expanded[m], k);
                            assert(m != e);
                        }
                    } else {
                        assert(same_path_spec(l.expanded[e as int], k));
                    }
                }
            }
            e = e + 1;
        }
        let mut d: usize = 0;
        while d < displayed_sources.len()
            invariant
                d <= displayed_sources@.len(),
                c == pending_cut_paths@.len(),
                e == expanded@.len(),
                l.pending_cut_paths == pending_cut_paths.deep_view(),
                l.expanded == expanded.deep_view(),
                l.displayed_sources == displayed_sources.deep_view(),
                distinct_keys(roles.deep_view()),
                forall|k: Seq<char>|
                    #[trigger] lookup(roles.deep_view(), k) == partial_roles(
                        l,
                        c as int,
                        e as int,
                        d as int,
                        k,
                    ),
            decreases displayed_sources@.len() - d,
        {
            let path = displayed_sources[d].clone();
            let ghost pv = path@;
            assert(l.displayed_sources[d as int] == pv);
            set_role(&mut roles, path, Role::DisplayedSource);
            proof {
                assert forall|k: Seq<char>| #[trigger] lookup(roles.deep_view(), k) == partial_roles(
                    l,
                    c as int,
                    e as int,
                    d + 1,
                    k,
                ) by {
                    if !same_path_spec(k, pv) {
                        if exists|m: int|
                            0 <= m < d + 1 && same_path_spec(#[trigger] l.displayed_sources[m], k) {
                            let m = choose|m: int|
                                0 <= m < d + 1 && same_path_spec(#[trigger] l.displayed_sources[m], k);
                            assert(m != d);
                        }
                    } else {
                        assert(same_path_spec(l.displayed_sources[d as int], k));
                    }
                }
            }
            d = d + 1;
        }
        let ghost v = roles.deep_view();
        let mut paths: Vec<String> = Vec::new();
        let mut i: usize = 0;
        while i < roles.len()
            invariant
                i <= roles@.len(),
                v == roles.deep_view(),
                paths.deep_view() == keys_of(v).take(i as int),
            decreases roles@.len() - i,
        {
            let ghost before = paths.deep_view();
            paths.push(roles[i].0.clone());
            assert(paths.deep_view() =~= before.push(v[i as int].0));
            assert(paths.deep_view() =~= keys_of(v).take(i + 1));
            i = i + 1;
        }
        assert(keys_of(v).take(i as int) =~= keys_of(v));
        let sorted = sort_paths(paths);
        proof {
            assert(no_repeated_paths(keys_of(v)));
            lemma_reordered_paths(keys_of(v), path_sorted(keys_of(v)));
        }
        let fallback = self.adapter.watch_many(sorted);
        self.roles = roles;
        self.fallback = fallback;
    }

    /// Whether `path` is watched as the parent of a pending cut, so that a
    /// change there is reconciled with the cut first.
    pub fn is_cut_parent(&self, path: &String) -> (r: bool)
        ensures
            r == (lookup(self.view().roles, path@) matches Some(roles) && roles.cut_parent),
    {
        match self.roles_of(path) {
            Some(roles) => roles.cut_parent,
            None => false,
        }
    }

    fn roles_of(&self, path: &String) -> (r: Option<Roles>)
        ensures
            r == lookup(self.view().roles, path@),
    {
        proof {
            use_type_invariant(self);
            lemma_lookup(self.roles.deep_view(), path@);
        }
        let ghost v = self.roles.deep_view();
        let mut i: usize = 0;
        while i < self.roles.len()
            invariant
                i <= self.roles@.len(),
                v == self.roles.deep_view(),
                forall|j: int| 0 <= j < i ==> !same_path_spec(v[j].0, path@),
                forall|j: int|
                    0 <= j < v.len() && same_path_spec(v[j].0, path@) ==> lookup(v, path@) == Some(
                        v[j].1,
                    ),
            decreases self.roles@.len() - i,
        {
            if same_path(self.roles[i].0.as_str(), path.as_str()) {
                assert(same_path_spec(v[i as int].0, path@));
                return Some(self.roles[i].1);
            }
            i = i + 1;
        }
        None
    }

    /// A change reported by the watcher; `notice` is what reconciling the
    /// pending cut gave, used only when the folder is a cut parent. A failed
    /// watch switches to polling and asks for nothing.
    pub fn handle(&mut self, event: WatchEvent, notice: Option<String>) -> (r: Change)
        ensures
            event.watch_failed ==> r == Change::default_view() && final(self).view() == (
            MonitoringView { fallback: true, ..old(self).view() }),
            !event.watch_failed ==> final(self).view() == old(self).view() && (
            r.refresh_current,
            r.invalidate_tree.deep_view(),
            r.refresh_displayed,
            r.resync,
            r.notice.deep_view(),
            ) == change_spec(lookup(old(self).view().roles, event.path@), event.path@, notice.deep_view()),
    {
        proof {
            use_type_invariant(&*self);
        }
        if event.watch_failed {
            self.fallback = true;
            return Change {
                refresh_current: false,
                invalidate_tree: None,
                refresh_displayed: false,
                resync: false,
                notice: None,
            };
        }
        let roles = match self.roles_of(&event.path) {
            Some(r) => r,
            None => Roles { current: false, cut_parent: false, expanded: false, displayed_source: false },
        };
        let notice = if roles.cut_parent {
            notice
        } else {
            None
        };
        let resync = notice.is_some();
        Change {
            refresh_current: roles.current,
            invalidate_tree: if roles.expanded {
                Some(event.path)
            } else {
                None
            },
            refresh_displayed: roles.displayed_source,
            resync,
            notice,
        }
    }

    /// While polling: the location is refreshed unless a recursive search
    /// is shown, and every expanded folder is reloaded, in path order.
    pub fn poll(&self, search_recursive: bool) -> (r: Poll)
        ensures
            !self.view().fallback ==> !r.refresh_location && r.invalidate_tree@.len() == 0,
            self.view().fallback ==> r.refresh_location == !search_recursive
                && r.invalidate_tree.deep_view() == path_sorted(expanded_keys(self.view().roles)),
    {
        if !self.fallback {
            return Poll { refresh_location: false, invalidate_tree: Vec::new() };
        }
        let ghost v = self.roles.deep_view();
        let mut expanded: Vec<String> = Vec::new();
        let mut i: usize = 0;
        assert(v.take(0) =~= Seq::<(Seq<char>, Roles)>::empty());
        assert(expanded.deep_view() =~= Seq::<Seq<char>>::empty());
        while i < self.roles.len()
            invariant
                i <= self.roles@.len(),
                v == self.roles.deep_view(),
                expanded.deep_view() == expanded_keys(v.take(i as int)),
            decreases self.roles@.len() - i,
        {
            assert(v.take(i + 1).drop_last() =~= v.take(i as int));
            assert(v.take(i + 1).last() == v[i as int]);
            if self.roles[i].1.expanded {
                let ghost before = expanded.deep_view();
                expanded.push(self.roles[i].0.clone());
                assert(expanded.deep_view() =~= before.push(v[i as int].0));
            }
            i = i + 1;
        }
        assert(v.take(i as int) =~= v);
        Poll { refresh_location: !search_recursive, invalidate_tree: sort_paths(expanded) }
    }

    /// The watched folders, in the order they were first given roles.
    pub fn watched_paths(&self) -> (r: Vec<String>)
        ensures
            r.deep_view() == keys_of(self.view().roles),
    {
        let ghost v = self.roles.deep_view();
        let mut out: Vec<String> = Vec::new();
        let mut i: usize = 0;
        while i < self.roles.len()
            invariant
                i <= self.roles@.len(),
                v == self.roles.deep_view(),
                out.deep_view() == keys_of(v).take(i as int),
            decreases self.roles@.len() - i,
        {
            let ghost before = out.deep_view();
            out.push(self.roles[i].0.clone());
            assert(out.deep_view() =~= before.push(v[i as int].0));
            assert(out.deep_view() =~= keys_of(v).take(i + 1));
            i = i + 1;
        }
        assert(keys_of(v).take(i as int) =~= keys_of(v));
        out
    }
}

impl Change {
    pub open spec fn default_view() -> Change {
        Change {
            refresh_current: false,
            invalidate_tree: None,
            refresh_displayed: false,
            resync: false,
            notice: None,
        }
    }
}

} // verus!

//! Folder watching with inotify: the records the kernel writes, the table of
//! watched folders and how a new set of folders changes it, and the
//! debouncing that turns a burst of records into one change per folder.
//! The system calls and the clock stay with the caller.
use vstd::prelude::*;

use crate::location_monitoring::WatchEvent;
use crate::paths::{contains_same_path, has_path, join, join_path, same_path, same_path_spec};
use crate::shell::{decode_lossy, utf8_lossy};

verus! {

/// The size of an inotify record header (`struct inotify_event` before its
/// name): watch descriptor, mask, cookie and name length, four bytes each.
pub const RECORD_HEADER: usize = 16;

/// At most this many folders are watched; the rest of a request is dropped.
pub const MAX_WATCHES: usize = 2048;

/// A change must be this old before it is reported, so that a burst of
/// records for one folder becomes one change.
pub const DEBOUNCE_MS: u64 = 120;

/// `IN_MOVED_FROM | IN_DELETE`: an entry left the folder.
pub const ENTRY_REMOVED_MASK: u32 = 0x240;

// ------------------------------------------------------------------ records

/// A four-byte field in the byte order of the little-endian machines the
/// program runs on.
pub open spec fn field_u32(bytes: Seq<u8>, at: int) -> u32 {
    (bytes[at] + bytes[at + 1] * 256 + bytes[at + 2] * 65536 + bytes[at + 3] * 16777216) as u32
}

/// The bytes up to the first zero byte (all of them when there is none).
pub open spec fn up_to_zero(bytes: Seq<u8>) -> Seq<u8>
    decreases bytes.len(),
{
    if bytes.len() == 0 || bytes[0] == 0 {
        Seq::empty()
    } else {
        seq![bytes[0]] + up_to_zero(bytes.drop_first())
    }
}

/// One record: the watch it belongs to, what happened, and the name of the
/// entry it happened to (empty for the folder itself).
#[derive(Clone, Debug, PartialEq, Eq)]
pub struct InotifyRecord {
    pub wd: i32,
    pub mask: u32,
    pub name: Vec<u8>,
}

pub struct RecordView {
    pub wd: i32,
    pub mask: u32,
    pub name: Seq<u8>,
}

impl View for InotifyRecord {
    type V = RecordView;

    open spec fn view(&self) -> RecordView {
        RecordView { wd: self.wd, mask: self.mask, name: self.name@ }
    }
}

pub open spec fn record_views(records: Seq<InotifyRecord>) -> Seq<RecordView> {
    records.map_values(|r: InotifyRecord| r@)
}

/// The records from `offset` on: each is a header and a name of the length
/// the header gives; reading stops at a record that does not fit.
pub open spec fn records_from(buffer: Seq<u8>, offset: nat) -> Seq<RecordView>
    decreases buffer.len() - offset,
{
    if offset + RECORD_HEADER > buffer.len() {
        Seq::empty()
    } else {
        let len = field_u32(buffer, offset + 12int);
        let end = offset + RECORD_HEADER + len;
        if end > buffer.len() {
            Seq::empty()
        } else {
            seq![
                RecordView {
                    wd: field_u32(buffer, offset as int) as i32,
                    mask: field_u32(buffer, offset + 4int),
                    name: up_to_zero(buffer.subrange(offset + RECORD_HEADER, end)),
                },
            ] + records_from(buffer, end as nat)
        }
    }
}

fn read_field(buffer: &[u8], at: usize) -> (r: u32)
    requires
        at + 4 <= buffer@.len(),
    ensures
        r == field_u32(buffer@, at as int),
{
    let b0: u32 = buffer[at] as u32;
    let b1: u32 = buffer[at + 1] as u32;
    let b2: u32 = buffer[at + 2] as u32;
    let b3: u32 = buffer[at + 3] as u32;
    b0 + b1 * 256 + b2 * 65536 + b3 * 16777216
}

fn name_of(buffer: &[u8], from: usize, to: usize) -> (r: Vec<u8>)
    requires
        from <= to <= buffer@.len(),
    ensures
        r@ == up_to_zero(buffer@.subrange(from as int, to as int)),
{
    let mut r: Vec<u8> = Vec::new();
    let mut i: usize = from;
    while i < to && buffer[i] != 0
        invariant
            from <= i <= to <= buffer@.len(),
            forall|k: int| from <= k < i ==> buffer@[k] != 0,
            r@ == buffer@.subrange(from as int, i as int),
            up_to_zero(buffer@.subrange(from as int, to as int)) == r@ + up_to_zero(
                buffer@.subrange(i as int, to as int),
            ),
        decreases to - i,
    {
        let ghost rest = buffer@.subrange(i as int, to as int);
        assert(rest.drop_first() =~= buffer@.subrange(i + 1, to as int));
        r.push(buffer[i]);
        i = i + 1;
        assert(r@ =~= buffer@.subrange(from as int, i as int));
    }
    assert(r@ + up_to_zero(buffer@.subrange(i as int, to as int)) =~= r@);
    r
}

/// The records of a buffer that `read` filled from an inotify descriptor.
pub fn parse_records(buffer: &[u8]) -> (r: Vec<InotifyRecord>)
    ensures
        record_views(r@) == records_from(buffer@, 0),
{
    let mut records: Vec<InotifyRecord> = Vec::new();
    let mut offset: usize = 0;
    while offset <= buffer.len() && buffer.len() - offset >= RECORD_HEADER
        invariant
            offset <= buffer@.len(),
            record_views(records@) + records_from(buffer@, offset as nat) == records_from(
                buffer@,
                0,
            ),
        ensures
            record_views(records@) == records_from(buffer@, 0),
        decreases buffer@.len() - offset,
    {
        assert(offset + RECORD_HEADER <= buffer@.len());
        let len = read_field(buffer, offset + 12);
        let room = buffer.len() - offset - RECORD_HEADER;
        if len as usize > room {
            proof {
                assert(records_from(buffer@, offset as nat) =~= Seq::<RecordView>::empty());
                assert(record_views(records@) + Seq::<RecordView>::empty() =~= record_views(records@));
            }
            break;
        }
        let end = offset + RECORD_HEADER + len as usize;
        let wd = read_field(buffer, offset) as i32;
        let mask = read_field(buffer, offset + 4);
        let name = name_of(buffer, offset + RECORD_HEADER, end);
        let record = InotifyRecord { wd, mask, name };
        proof {
            let head = records_from(buffer@, offset as nat);
            assert(head == seq![record@] + records_from(buffer@, end as nat));
            assert(record_views(records@.push(record)) =~= record_views(records@).push(record@));
            assert(record_views(records@).push(record@) + records_from(buffer@, end as nat)
                =~= record_views(records@) + head);
        }
        records.push(record);
        offset = end;
    }
    records
}

// ------------------------------------------------------------------ watched folders

/// The paths of a request, each path once (as `Path`'s `==` tells them
/// apart), in first-seen order.
pub open spec fn distinct_first(paths: Seq<Seq<char>>) -> Seq<Seq<char>>
    decreases paths.len(),
{
    if paths.len() == 0 {
        Seq::empty()
    } else {
        let prev = distinct_first(paths.drop_last());
        if has_path(prev, paths.last()) {
            prev
        } else {
            prev.push(paths.last())
        }
    }
}

/// The folders a request asks to watch: its distinct paths, at most
/// `MAX_WATCHES` of them.
pub open spec fn desired_watches(paths: Seq<Seq<char>>) -> Seq<Seq<char>> {
    let d = distinct_first(paths);
    if d.len() > MAX_WATCHES {
        d.take(MAX_WATCHES as int)
    } else {
        d
    }
}

/// The watches, in table order, whose folder is no longer wanted.
pub open spec fn stale_watches(entries: Seq<(i32, Seq<char>)>, desired: Seq<Seq<char>>) -> Seq<i32>
    decreases entries.len(),
{
    if entries.len() == 0 {
        Seq::empty()
    } else {
        let prev = stale_watches(entries.drop_last(), desired);
        if has_path(desired, entries.last().1) {
            prev
        } else {
            prev.push(entries.last().0)
        }
    }
}

pub open spec fn watched_paths(entries: Seq<(i32, Seq<char>)>) -> Seq<Seq<char>> {
    entries.map_values(|e: (i32, Seq<char>)| e.1)
}

/// The wanted folders, in request order, that are not watched yet.
pub open spec fn new_watches(desired: Seq<Seq<char>>, entries: Seq<(i32, Seq<char>)>) -> Seq<Seq<char>>
    decreases desired.len(),
{
    if desired.len() == 0 {
        Seq::empty()
    } else {
        let prev = new_watches(desired.drop_last(), entries);
        if has_path(watched_paths(entries), desired.last()) {
            prev
        } else {
            prev.push(desired.last())
        }
    }
}

/// The folder of a watch descriptor: the first entry for it.
pub open spec fn directory_of_spec(entries: Seq<(i32, Seq<char>)>, wd: i32) -> Option<Seq<char>>
    decreases entries.len(),
{
    if entries.len() == 0 {
        None
    } else if entries[0].0 == wd {
        Some(entries[0].1)
    } else {
        directory_of_spec(entries.drop_first(), wd)
    }
}

/// The entries without those of one watch descriptor.
pub open spec fn without(entries: Seq<(i32, Seq<char>)>, wd: i32) -> Seq<(i32, Seq<char>)>
    decreases entries.len(),
{
    if entries.len() == 0 {
        Seq::empty()
    } else {
        let prev = without(entries.drop_last(), wd);
        if entries.last().0 == wd {
            prev
        } else {
            prev.push(entries.last())
        }
    }
}

proof fn lemma_lookup_push(s: Seq<(i32, Seq<char>)>, e: (i32, Seq<char>), x: i32)
    ensures
        directory_of_spec(s.push(e), x) == (match directory_of_spec(s, x) {
            Some(p) => Some(p),
            None => if e.0 == x {
                Some(e.1)
            } else {
                None
            },
        }),
    decreases s.len(),
{
    let t = s.push(e);
    if s.len() > 0 {
        assert(t[0] == s[0]);
        assert(t.drop_first() =~= s.drop_first().push(e));
        lemma_lookup_push(s.drop_first(), e, x);
        if s[0].0 != x {
            assert(directory_of_spec(t, x) == directory_of_spec(t.drop_first(), x));
            assert(directory_of_spec(s, x) == directory_of_spec(s.drop_first(), x));
        }
    } else {
        assert(t[0] == e);
        assert(t.drop_first() =~= Seq::<(i32, Seq<char>)>::empty());
        assert(directory_of_spec(t.drop_first(), x) is None);
    }
}

proof fn lemma_lookup_without(s: Seq<(i32, Seq<char>)>, wd: i32, x: i32)
    ensures
        directory_of_spec(without(s, wd), x) == (if x == wd {
            None
        } else {
            directory_of_spec(s, x)
        }),
    decreases s.len(),
{
    if s.len() > 0 {
        lemma_lookup_without(s.drop_last(), wd, x);
        lemma_lookup_push(without(s.drop_last(), wd), s.last(), x);
        lemma_lookup_push(s.drop_last(), s.last(), x);
        assert(s.drop_last().push(s.last()) =~= s);
    }
}

/// A read gives back what a write wrote: after recording a watch, its
/// descriptor names its folder; after forgetting it, the descriptor names
/// nothing; other descriptors are untouched by either.
pub proof fn lemma_lookup_after_change(entries: Seq<(i32, Seq<char>)>, wd: i32, path: Seq<char>, other: i32)
    requires
        other != wd,
    ensures
        directory_of_spec(without(entries, wd).push((wd, path)), wd) == Some(path),
        directory_of_spec(without(entries, wd).push((wd, path)), other) == directory_of_spec(entries, other),
        directory_of_spec(without(entries, wd), wd) is None,
        directory_of_spec(without(entries, wd), other) == directory_of_spec(entries, other),
{
    lemma_lookup_without(entries, wd, wd);
    lemma_lookup_without(entries, wd, other);
    lemma_lookup_push(without(entries, wd), (wd, path), wd);
    lemma_lookup_push(without(entries, wd), (wd, path), other);
}

/// What a new set of folders asks of the inotify descriptor: the watches to
/// remove and the folders to add.
pub struct WatchPlan {
    pub remove: Vec<i32>,
    pub add: Vec<String>,
}

/// The folders watched, by watch descriptor.
#[derive(Clone, Debug, Default)]
pub struct WatchTable {
    entries: Vec<(i32, String)>,
}

impl View for WatchTable {
    type V = Seq<(i32, Seq<char>)>;

    closed spec fn view(&self) -> Seq<(i32, Seq<char>)> {
        self.entries.deep_view()
    }
}

/// Whether a request names more folders than are watched.
pub fn watch_overflow(paths: &[String]) -> (r: bool)
    ensures
        r == (paths@.len() > MAX_WATCHES),
{
    paths.len() > MAX_WATCHES
}

impl WatchTable {
    pub fn new() -> (r: Self)
        ensures
            r@ == Seq::<(i32, Seq<char>)>::empty(),
    {
        WatchTable { entries: Vec::new() }
    }

    /// The folder a watch descriptor belongs to.
    pub fn directory_of(&self, wd: i32) -> (r: Option<&String>)
        ensures
            match r {
                Some(p) => directory_of_spec(self@, wd) == Some(p@),
                None => directory_of_spec(self@, wd) is None,
            },
    {
        let mut i: usize = 0;
        assert(self@.skip(0) =~= self@);
        while i < self.entries.len()
            invariant
                self@ == self.entries.deep_view(),
                i <= self@.len(),
                directory_of_spec(self@, wd) == directory_of_spec(self@.skip(i as int), wd),
            decreases self@.len() - i,
        {
            assert(self.entries@[i as int].deep_view() == self@[i as int]);
            assert(self@.skip(i as int).drop_first() =~= self@.skip(i + 1));
            if self.entries[i].0 == wd {
                return Some(&self.entries[i].1);
            }
            i = i + 1;
        }
        None
    }

    /// Drops a watch that was removed from the descriptor.
    pub fn forget(&mut self, wd: i32)
        ensures
            final(self)@ == without(old(self)@, wd),
    {
        let ghost before = self@;
        let mut kept: Vec<(i32, String)> = Vec::new();
        let mut i: usize = 0;
        assert(before.take(0) =~= Seq::<(i32, Seq<char>)>::empty());
        while i < self.entries.len()
            invariant
                self@ == self.entries.deep_view(),
                self@ == before,
                i <= self@.len(),
                kept.deep_view() == without(before.take(i as int), wd),
            decreases self@.len() - i,
        {
            proof {
                assert(self.entries@[i as int].deep_view() == self@[i as int]);
                assert(before.take(i + 1).drop_last() =~= before.take(i as int));
            }
            if self.entries[i].0 != wd {
                kept.push((self.entries[i].0, self.entries[i].1.clone()));
            }
            assert(kept.deep_view() =~= without(before.take(i + 1), wd));
            i = i + 1;
        }
        assert(before.take(i as int) =~= before);
        self.entries = kept;
    }

    /// Records a watch the descriptor gave for `path`; a descriptor that is
    /// known already now stands for `path`.
    pub fn insert(&mut self, wd: i32, path: String)
        ensures
            final(self)@ == without(old(self)@, wd).push((wd, path@)),
    {
        self.forget(wd);
        let ghost before = self@;
        self.entries.push((wd, path));
        assert(self@ =~= before.push((wd, path@)));
    }

    /// Which watches to remove and which folders to add so that exactly the
    /// folders of `paths` (each once, at most `MAX_WATCHES`) are watched.
    pub fn plan(&self, paths: &[String]) -> (r: WatchPlan)
        ensures
            r.remove@ == stale_watches(self@, desired_watches(paths.deep_view())),
            r.add.deep_view() == new_watches(desired_watches(paths.deep_view()), self@),
    {
        let ghost pv = paths.deep_view();
        let mut desired: Vec<String> = Vec::new();
        let mut i: usize = 0;
        assert(pv.take(0) =~= Seq::<Seq<char>>::empty());
        while i < paths.len() && desired.len() < MAX_WATCHES
            invariant
                pv == paths.deep_view(),
                pv.len() == paths@.len(),
                i <= pv.len(),
                desired.deep_view() == distinct_first(pv.take(i as int)),
                desired@.len() <= MAX_WATCHES,
            decreases pv.len() - i,
        {
            proof {
                assert(pv.take(i + 1).drop_last() =~= pv.take(i as int));
                assert(paths@[i as int]@ == pv[i as int]);
            }
            if !contains_same_path(desired.as_slice(), &paths[i]) {
                desired.push(paths[i].clone());
            }
            assert(desired.deep_view() =~= distinct_first(pv.take(i + 1)));
            i = i + 1;
        }
        proof {
            if desired@.len() == MAX_WATCHES {
                lemma_distinct_first_prefix(pv, i as int);
            } else {
                assert(pv.take(i as int) =~= pv);
            }
        }
        let ghost dv = desired.deep_view();
        let mut remove: Vec<i32> = Vec::new();
        let mut k: usize = 0;
        assert(self@.take(0) =~= Seq::<(i32, Seq<char>)>::empty());
        while k < self.entries.len()
            invariant
                self@ == self.entries.deep_view(),
                dv == desired.deep_view(),
                k <= self@.len(),
                remove@ == stale_watches(self@.take(k as int), dv),
            decreases self@.len() - k,
        {
            proof {
                assert(self@.take(k + 1).drop_last() =~= self@.take(k as int));
                assert(self.entries@[k as int].deep_view() == self@[k as int]);
            }
            if !contains_same_path(desired.as_slice(), &self.entries[k].1) {
                remove.push(self.entries[k].0);
            }
            k = k + 1;
        }
        assert(self@.take(k as int) =~= self@);
        let mut current: Vec<String> = Vec::new();
        let mut c: usize = 0;
        while c < self.entries.len()
            invariant
                self@ == self.entries.deep_view(),
                c <= self@.len(),
                current.deep_view() == watched_paths(self@.take(c as int)),
            decreases self@.len() - c,
        {
            proof {
                assert(self.entries@[c as int].deep_view() == self@[c as int]);
            }
            current.push(self.entries[c].1.clone());
            assert(self@.take(c + 1) =~= self@.take(c as int).push(self@[c as int]));
            assert(watched_paths(self@.take(c as int).push(self@[c as int])) =~= watched_paths(
                self@.take(c as int),
            ).push(self@[c as int].1));
            assert(current.deep_view() =~= watched_paths(self@.take(c + 1)));
            c = c + 1;
        }
        assert(self@.take(c as int) =~= self@);
        let mut add: Vec<String> = Vec::new();
        let mut j: usize = 0;
        assert(dv.take(0) =~= Seq::<Seq<char>>::empty());
        while j < desired.len()
            invariant
                dv == desired.deep_view(),
                dv.len() == desired@.len(),
                current.deep_view() == watched_paths(self@),
                j <= dv.len(),
                add.deep_view() == new_watches(dv.take(j as int), self@),
            decreases dv.len() - j,
        {
            proof {
                assert(dv.take(j + 1).drop_last() =~= dv.take(j as int));
                assert(desired@[j as int]@ == dv[j as int]);
            }
            if !contains_same_path(current.as_slice(), &desired[j]) {
                add.push(desired[j].clone());
            }
            assert(add.deep_view() =~= new_watches(dv.take(j + 1), self@));
            j = j + 1;
        }
        assert(dv.take(j as int) =~= dv);
        WatchPlan { remove, add }
    }
}

proof fn lemma_distinct_first_grows(paths: Seq<Seq<char>>, i: int, j: int)
    requires
        0 <= i <= j <= paths.len(),
    ensures
        distinct_first(paths.take(i)).len() <= distinct_first(paths.take(j)).len(),
        distinct_first(paths.take(j)).take(distinct_first(paths.take(i)).len() as int)
            == distinct_first(paths.take(i)),
    decreases j - i,
{
    if i < j {
        lemma_distinct_first_grows(paths, i, j - 1);
        assert(paths.take(j).drop_last() =~= paths.take(j - 1));
        let a = distinct_first(paths.take(i));
        let b = distinct_first(paths.take(j - 1));
        let c = distinct_first(paths.take(j));
        assert(c.take(a.len() as int) =~= b.take(a.len() as int));
    } else {
        assert(distinct_first(paths.take(i)).take(distinct_first(paths.take(i)).len() as int)
            =~= distinct_first(paths.take(i)));
    }
}

/// Once the first `i` paths hold `MAX_WATCHES` distinct ones, those are the
/// wanted folders.
proof fn lemma_distinct_first_prefix(paths: Seq<Seq<char>>, i: int)
    requires
        0 <= i <= paths.len(),
        distinct_first(paths.take(i)).len() == MAX_WATCHES,
    ensures
        desired_watches(paths) == distinct_first(paths.take(i)),
{
    lemma_distinct_first_grows(paths, i, paths.len() as int);
    assert(paths.take(paths.len() as int) =~= paths);
}

/// The table after forgetting each of `wds` in turn.
pub open spec fn forget_all(entries: Seq<(i32, Seq<char>)>, wds: Seq<i32>) -> Seq<(i32, Seq<char>)>
    decreases wds.len(),
{
    if wds.len() == 0 {
        entries
    } else {
        without(forget_all(entries, wds.drop_last()), wds.last())
    }
}

/// The table after recording each of `added` in turn.
pub open spec fn insert_all(entries: Seq<(i32, Seq<char>)>, added: Seq<(i32, Seq<char>)>) -> Seq<
    (i32, Seq<char>),
>
    decreases added.len(),
{
    if added.len() == 0 {
        entries
    } else {
        without(insert_all(entries, added.drop_last()), added.last().0).push(added.last())
    }
}

pub open spec fn distinct_watches(entries: Seq<(i32, Seq<char>)>) -> bool {
    forall|i: int, j: int| 0 <= i < j < entries.len() ==> entries[i].0 != entries[j].0
}

pub open spec fn has_watch(entries: Seq<(i32, Seq<char>)>, wd: i32) -> bool {
    exists|k: int| 0 <= k < entries.len() && entries[k].0 == wd
}

proof fn lemma_without_members(e: Seq<(i32, Seq<char>)>, wd: i32)
    ensures
        forall|x: (i32, Seq<char>)| #[trigger] without(e, wd).contains(x) <==> (e.contains(x) && x.0 != wd),
    decreases e.len(),
{
    if e.len() > 0 {
        lemma_without_members(e.drop_last(), wd);
        let prev = without(e.drop_last(), wd);
        assert forall|x: (i32, Seq<char>)| without(e, wd).contains(x) <==> (e.contains(x) && x.0 != wd) by {
            if e.contains(x) {
                let k = choose|k: int| 0 <= k < e.len() && e[k] == x;
                if k < e.len() - 1 {
                    assert(e.drop_last()[k] == x);
                }
            }
            if e.drop_last().contains(x) {
                let k = choose|k: int| 0 <= k < e.drop_last().len() && e.drop_last()[k] == x;
                assert(e[k] == x);
            }
            if e.last().0 != wd {
                assert(prev.push(e.last()).contains(x) <==> (prev.contains(x) || x == e.last())) by {
                    if prev.push(e.last()).contains(x) {
                        let k = choose|k: int| 0 <= k < prev.len() + 1 && prev.push(e.last())[k] == x;
                        if k < prev.len() {
                            assert(prev[k] == x);
                        }
                    }
                    if prev.contains(x) {
                        let k = choose|k: int| 0 <= k < prev.len() && prev[k] == x;
                        assert(prev.push(e.last())[k] == x);
                    }
                    assert(prev.push(e.last())[prev.len() as int] == e.last());
                }
            }
            assert(e.contains(x) <==> (e.drop_last().contains(x) || x == e.last())) by {
                assert(e[e.len() - 1] == e.last());
            }
        }
    } else {
        assert forall|x: (i32, Seq<char>)| without(e, wd).contains(x) <==> (e.contains(x) && x.0 != wd) by {}
    }
}

proof fn lemma_forget_all_members(e: Seq<(i32, Seq<char>)>, wds: Seq<i32>)
    ensures
        forall|x: (i32, Seq<char>)| #[trigger] forget_all(e, wds).contains(x) <==> (e.contains(x)
            && !wds.contains(x.0)),
    decreases wds.len(),
{
    if wds.len() > 0 {
        lemma_forget_all_members(e, wds.drop_last());
        lemma_without_members(forget_all(e, wds.drop_last()), wds.last());
        assert forall|x: (i32, Seq<char>)| forget_all(e, wds).contains(x) <==> (e.contains(x) && !wds.contains(x.0)) by {
            assert(wds.contains(x.0) <==> (wds.drop_last().contains(x.0) || x.0 == wds.last())) by {
                if wds.contains(x.0) {
                    let k = choose|k: int| 0 <= k < wds.len() && wds[k] == x.0;
                    if k < wds.len() - 1 {
                        assert(wds.drop_last()[k] == x.0);
                    }
                }
                if wds.drop_last().contains(x.0) {
                    let k = choose|k: int| 0 <= k < wds.drop_last().len() && wds.drop_last()[k] == x.0;
                    assert(wds[k] == x.0);
                }
                assert(wds[wds.len() - 1] == wds.last());
            }
        }
    }
}

proof fn lemma_stale_members(e: Seq<(i32, Seq<char>)>, desired: Seq<Seq<char>>)
    requires
        distinct_watches(e),
    ensures
        forall|k: int| 0 <= k < e.len() ==> (stale_watches(e, desired).contains(#[trigger] e[k].0)
            <==> !has_path(desired, e[k].1)),
    decreases e.len(),
{
    if e.len() > 0 {
        let front = e.drop_last();
        assert(distinct_watches(front)) by {
            assert forall|i: int, j: int| 0 <= i < j < front.len() implies front[i].0 != front[j].0 by {
                assert(front[i] == e[i] && front[j] == e[j]);
            }
        }
        lemma_stale_members(front, desired);
        let prev = stale_watches(front, desired);
        assert(forall|w: i32| prev.contains(w) ==> has_watch(front, w)) by {
            lemma_stale_are_watches(front, desired);
        }
        assert forall|k: int| 0 <= k < e.len() implies (stale_watches(e, desired).contains(#[trigger] e[k].0)
            <==> !has_path(desired, e[k].1)) by {
            let last = e.last();
            if k < e.len() - 1 {
                assert(e[k] == front[k]);
                assert(e[k].0 != last.0);
                if !has_path(desired, last.1) {
                    assert(prev.push(last.0).contains(e[k].0) <==> prev.contains(e[k].0)) by {
                        if prev.push(last.0).contains(e[k].0) {
                            let m = choose|m: int| 0 <= m < prev.len() + 1 && prev.push(last.0)[m] == e[k].0;
                            if m < prev.len() {
                                assert(prev[m] == e[k].0);
                            }
                        }
                        if prev.contains(e[k].0) {
                            let m = choose|m: int| 0 <= m < prev.len() && prev[m] == e[k].0;
                            assert(prev.push(last.0)[m] == e[k].0);
                        }
                    }
                }
            } else {
                assert(e[k] == last);
                if !has_path(desired, last.1) {
                    assert(prev.push(last.0)[prev.len() as int] == last.0);
                } else {
                    if prev.contains(last.0) {
                        assert(has_watch(front, last.0));
                        let m = choose|m: int| 0 <= m < front.len() && front[m].0 == last.0;
                        assert(e[m].0 == e[e.len() - 1].0);
                    }
                }
            }
        }
    }
}

proof fn lemma_stale_are_watches(e: Seq<(i32, Seq<char>)>, desired: Seq<Seq<char>>)
    ensures
        forall|w: i32| #[trigger] stale_watches(e, desired).contains(w) ==> has_watch(e, w),
    decreases e.len(),
{
    if e.len() > 0 {
        lemma_stale_are_watches(e.drop_last(), desired);
        let prev = stale_watches(e.drop_last(), desired);
        assert forall|w: i32| stale_watches(e, desired).contains(w) implies has_watch(e, w) by {
            if prev.contains(w) {
                let m = choose|m: int| 0 <= m < e.drop_last().len() && e.drop_last()[m].0 == w;
                assert(e[m].0 == w);
            } else {
                let s = stale_watches(e, desired);
                let m = choose|m: int| 0 <= m < s.len() && s[m] == w;
                if m < prev.len() {
                    assert(s[m] == prev[m]);
                }
                assert(e[e.len() - 1].0 == w);
            }
        }
    }
}

proof fn lemma_insert_all_members(e: Seq<(i32, Seq<char>)>, added: Seq<(i32, Seq<char>)>)
    requires
        forall|k: int| 0 <= k < added.len() ==> !has_watch(e, #[trigger] added[k].0),
        distinct_watches(added),
    ensures
        forall|x: (i32, Seq<char>)| #[trigger] insert_all(e, added).contains(x) <==> (e.contains(x)
            || added.contains(x)),
        forall|w: i32| #[trigger] has_watch(insert_all(e, added), w) ==> (has_watch(e, w) || has_watch(
            added,
            w,
        )),
    decreases added.len(),
{
    if added.len() > 0 {
        let front = added.drop_last();
        let a = added.last();
        assert(distinct_watches(front)) by {
            assert forall|i: int, j: int| 0 <= i < j < front.len() implies front[i].0 != front[j].0 by {
                assert(front[i] == added[i] && front[j] == added[j]);
            }
        }
        assert forall|k: int| 0 <= k < front.len() implies !has_watch(e, #[trigger] front[k].0) by {
            assert(front[k] == added[k]);
        }
        lemma_insert_all_members(e, front);
        let prev = insert_all(e, front);
        lemma_without_members(prev, a.0);
        assert(!has_watch(prev, a.0)) by {
            if has_watch(prev, a.0) {
                if has_watch(e, a.0) {
                    assert(!has_watch(e, added[added.len() - 1].0));
                } else {
                    let m = choose|m: int| 0 <= m < front.len() && front[m].0 == a.0;
                    assert(added[m].0 == added[added.len() - 1].0);
                }
            }
        }
        assert forall|x: (i32, Seq<char>)| prev.contains(x) implies x.0 != a.0 by {
            let m = choose|m: int| 0 <= m < prev.len() && prev[m] == x;
            if x.0 == a.0 {
                assert(prev[m].0 == a.0);
            }
        }
        let next = without(prev, a.0).push(a);
        assert forall|x: (i32, Seq<char>)| next.contains(x) <==> (e.contains(x) || added.contains(x)) by {
            assert(next.contains(x) <==> (without(prev, a.0).contains(x) || x == a)) by {
                let w = without(prev, a.0);
                if next.contains(x) {
                    let m = choose|m: int| 0 <= m < w.len() + 1 && next[m] == x;
                    if m < w.len() {
                        assert(w[m] == x);
                    }
                }
                if w.contains(x) {
                    let m = choose|m: int| 0 <= m < w.len() && w[m] == x;
                    assert(next[m] == x);
                }
                assert(next[w.len() as int] == a);
            }
            assert(added.contains(x) <==> (front.contains(x) || x == a)) by {
                if added.contains(x) {
                    let m = choose|m: int| 0 <= m < added.len() && added[m] == x;
                    if m < front.len() {
                        assert(front[m] == x);
                    }
                }
                if front.contains(x) {
                    let m = choose|m: int| 0 <= m < front.len() && front[m] == x;
                    assert(added[m] == x);
                }
                assert(added[added.len() - 1] == a);
            }
        }
        assert forall|w: i32| has_watch(next, w) implies (has_watch(e, w) || has_watch(added, w)) by {
            let m = choose|m: int| 0 <= m < next.len() && next[m].0 == w;
            let x = next[m];
            assert(next.contains(x));
            if e.contains(x) {
                let j = choose|j: int| 0 <= j < e.len() && e[j] == x;
                assert(e[j].0 == w);
            } else {
                let j = choose|j: int| 0 <= j < added.len() && added[j] == x;
                assert(added[j].0 == w);
            }
        }
    }
}

proof fn lemma_new_watches_members(desired: Seq<Seq<char>>, e: Seq<(i32, Seq<char>)>)
    ensures
        forall|p: Seq<char>| #[trigger] new_watches(desired, e).contains(p) <==> (desired.contains(p)
            && !has_path(watched_paths(e), p)),
    decreases desired.len(),
{
    if desired.len() > 0 {
        lemma_new_watches_members(desired.drop_last(), e);
        let prev = new_watches(desired.drop_last(), e);
        let d = desired.last();
        assert forall|p: Seq<char>| #[trigger] new_watches(desired, e).contains(p) <==> (desired.contains(p)
            && !has_path(watched_paths(e), p)) by {
            assert(desired.contains(p) <==> (desired.drop_last().contains(p) || p == d)) by {
                if desired.contains(p) {
                    let m = choose|m: int| 0 <= m < desired.len() && desired[m] == p;
                    if m < desired.len() - 1 {
                        assert(desired.drop_last()[m] == p);
                    }
                }
                if desired.drop_last().contains(p) {
                    let m = choose|m: int| 0 <= m < desired.drop_last().len() && desired.drop_last()[m] == p;
                    assert(desired[m] == p);
                }
                assert(desired[desired.len() - 1] == d);
            }
            if !has_path(watched_paths(e), d) {
                assert(prev.push(d).contains(p) <==> (prev.contains(p) || p == d)) by {
                    if prev.push(d).contains(p) {
                        let m = choose|m: int| 0 <= m < prev.len() + 1 && prev.push(d)[m] == p;
                        if m < prev.len() {
                            assert(prev[m] == p);
                        }
                    }
                    if prev.contains(p) {
                        let m = choose|m: int| 0 <= m < prev.len() && prev[m] == p;
                        assert(prev.push(d)[m] == p);
                    }
                    assert(prev.push(d)[prev.len() as int] == d);
                }
            }
        }
    } else {
        assert forall|p: Seq<char>| #[trigger] new_watches(desired, e).contains(p) <==> (desired.contains(p)
            && !has_path(watched_paths(e), p)) by {}
    }
}

/// Carrying out a plan watches exactly the wanted folders: once the stale
/// watches are forgotten and each new folder is recorded under a fresh
/// descriptor, the table's folders are the folders of the request as paths
/// (each once, at most `MAX_WATCHES`).
pub proof fn lemma_plan_watches_the_request(
    entries: Seq<(i32, Seq<char>)>,
    paths: Seq<Seq<char>>,
    added: Seq<(i32, Seq<char>)>,
)
    requires
        distinct_watches(entries),
        distinct_watches(added),
        added.map_values(|a: (i32, Seq<char>)| a.1) == new_watches(desired_watches(paths), entries),
        forall|k: int| 0 <= k < added.len() ==> !has_watch(entries, #[trigger] added[k].0),
    ensures
        forall|p: Seq<char>|
            has_path(
                watched_paths(
                    insert_all(forget_all(entries, stale_watches(entries, desired_watches(paths))), added),
                ),
                p,
            ) <==> has_path(desired_watches(paths), p),
{
    let d = desired_watches(paths);
    let stale = stale_watches(entries, d);
    let kept = forget_all(entries, stale);
    lemma_forget_all_members(entries, stale);
    lemma_stale_members(entries, d);
    lemma_new_watches_members(d, entries);
    assert forall|k: int| 0 <= k < added.len() implies !has_watch(kept, #[trigger] added[k].0) by {
        if has_watch(kept, added[k].0) {
            let m = choose|m: int| 0 <= m < kept.len() && kept[m].0 == added[k].0;
            assert(kept.contains(kept[m]));
            let j = choose|j: int| 0 <= j < entries.len() && entries[j] == kept[m];
            assert(!has_watch(entries, added[k].0));
            assert(entries[j].0 == added[k].0);
        }
    }
    lemma_insert_all_members(kept, added);
    let fin = insert_all(kept, added);
    let names = added.map_values(|a: (i32, Seq<char>)| a.1);
    assert forall|p: Seq<char>| has_path(watched_paths(fin), p) <==> has_path(d, p) by {
        if has_path(watched_paths(fin), p) {
            let m = choose|m: int|
                0 <= m < watched_paths(fin).len() && same_path_spec(#[trigger] watched_paths(fin)[m], p);
            let x = fin[m];
            assert(fin.contains(x));
            if kept.contains(x) {
                let j = choose|j: int| 0 <= j < entries.len() && entries[j] == x;
                assert(!stale.contains(entries[j].0));
                assert(has_path(d, x.1));
                let i = choose|i: int| 0 <= i < d.len() && same_path_spec(#[trigger] d[i], x.1);
                assert(same_path_spec(d[i], p));
            } else {
                let j = choose|j: int| 0 <= j < added.len() && added[j] == x;
                assert(names[j] == x.1);
                assert(names.contains(x.1));
                assert(d.contains(x.1));
                let i = choose|i: int| 0 <= i < d.len() && d[i] == x.1;
                assert(same_path_spec(d[i], p));
            }
        }
        if has_path(d, p) {
            let i = choose|i: int| 0 <= i < d.len() && same_path_spec(#[trigger] d[i], p);
            let q = d[i];
            assert(d.contains(q));
            if has_path(watched_paths(entries), q) {
                let j = choose|j: int|
                    0 <= j < watched_paths(entries).len() && same_path_spec(
                        #[trigger] watched_paths(entries)[j],
                        q,
                    );
                let x = entries[j];
                assert(entries.contains(x));
                assert(has_path(d, x.1));
                assert(!stale.contains(x.0));
                assert(kept.contains(x));
                assert(fin.contains(x));
                let m = choose|m: int| 0 <= m < fin.len() && fin[m] == x;
                assert(same_path_spec(watched_paths(fin)[m], p));
            } else {
                assert(names.contains(q));
                let j = choose|j: int| 0 <= j < names.len() && names[j] == q;
                let x = added[j];
                assert(added.contains(x));
                assert(fin.contains(x));
                let m = choose|m: int| 0 <= m < fin.len() && fin[m] == x;
                assert(same_path_spec(watched_paths(fin)[m], p));
            }
        }
    }
}

// ------------------------------------------------------------------ debouncing

/// A folder with a change not reported yet: when it last changed, and the
/// entries that left it (each once, in the order they left).
pub struct Pending {
    directory: String,
    changed: u64,
    removed: Vec<String>,
}

pub struct PendingView {
    pub directory: Seq<char>,
    pub changed: u64,
    pub removed: Seq<Seq<char>>,
}

impl View for Pending {
    type V = PendingView;

    closed spec fn view(&self) -> PendingView {
        PendingView {
            directory: self.directory@,
            changed: self.changed,
            removed: self.removed.deep_view(),
        }
    }
}

/// The changes waiting out the debounce delay, one per folder, in the
/// order the folders first changed.
pub struct Debounce {
    pending: Vec<Pending>,
}

pub open spec fn pending_views(p: Seq<Pending>) -> Seq<PendingView> {
    p.map_values(|x: Pending| x@)
}

impl View for Debounce {
    type V = Seq<PendingView>;

    closed spec fn view(&self) -> Seq<PendingView> {
        pending_views(self.pending@)
    }
}

/// The first pending change of `directory`.
pub open spec fn pending_index(p: Seq<PendingView>, directory: Seq<char>) -> Option<int>
    decreases p.len(),
{
    if p.len() == 0 {
        None
    } else {
        match pending_index(p.drop_last(), directory) {
            Some(i) => Some(i),
            None => if same_path_spec(p.last().directory, directory) {
                Some(p.len() - 1)
            } else {
                None
            },
        }
    }
}

pub open spec fn with_removed(removed: Seq<Seq<char>>, entry: Option<Seq<char>>) -> Seq<Seq<char>> {
    match entry {
        Some(e) => if has_path(removed, e) {
            removed
        } else {
            removed.push(e)
        },
        None => removed,
    }
}

/// A change in `directory` at `now`, and the entry that left it if any.
pub open spec fn note_spec(
    p: Seq<PendingView>,
    directory: Seq<char>,
    removed: Option<Seq<char>>,
    now: u64,
) -> Seq<PendingView> {
    match pending_index(p, directory) {
        Some(i) => p.update(
            i,
            PendingView { changed: now, removed: with_removed(p[i].removed, removed), ..p[i] },
        ),
        None => p.push(
            PendingView { directory, changed: now, removed: with_removed(Seq::empty(), removed) },
        ),
    }
}

/// What a record says left the folder: the named entry, when the record
/// names one and reports a delete or a move away.
pub open spec fn removed_entry(directory: Seq<char>, record: RecordView) -> Option<Seq<char>> {
    if record.name.len() > 0 && record.mask & ENTRY_REMOVED_MASK != 0 {
        Some(join(directory, utf8_lossy(record.name)))
    } else {
        None
    }
}

/// The changes after the records of one read: a record for a watched
/// folder marks it changed at `now`; other records are ignored.
pub open spec fn collect_spec(
    p: Seq<PendingView>,
    records: Seq<RecordView>,
    table: Seq<(i32, Seq<char>)>,
    now: u64,
) -> Seq<PendingView>
    decreases records.len(),
{
    if records.len() == 0 {
        p
    } else {
        let prev = collect_spec(p, records.drop_last(), table, now);
        let r = records.last();
        match directory_of_spec(table, r.wd) {
            Some(d) => note_spec(prev, d, removed_entry(d, r), now),
            None => prev,
        }
    }
}

pub open spec fn is_ready(p: PendingView, now: u64) -> bool {
    now >= p.changed && now - p.changed >= DEBOUNCE_MS
}

pub open spec fn ready_changes(p: Seq<PendingView>, now: u64) -> Seq<PendingView> {
    p.filter(|x: PendingView| is_ready(x, now))
}

pub open spec fn waiting_changes(p: Seq<PendingView>, now: u64) -> Seq<PendingView> {
    p.filter(|x: PendingView| !is_ready(x, now))
}

proof fn lemma_changes_push(p: Seq<PendingView>, e: PendingView, now: u64)
    ensures
        ready_changes(p.push(e), now) == (if is_ready(e, now) {
            ready_changes(p, now).push(e)
        } else {
            ready_changes(p, now)
        }),
        waiting_changes(p.push(e), now) == (if is_ready(e, now) {
            waiting_changes(p, now)
        } else {
            waiting_changes(p, now).push(e)
        }),
{
    reveal(Seq::filter);
    assert(p.push(e).drop_last() =~= p);
}

proof fn lemma_waiting_are_not_ready(p: Seq<PendingView>, now: u64)
    ensures
        forall|k: int|
            0 <= k < waiting_changes(p, now).len() ==> !is_ready(#[trigger] waiting_changes(p, now)[k], now),
    decreases p.len(),
{
    if p.len() > 0 {
        lemma_waiting_are_not_ready(p.drop_last(), now);
        lemma_changes_push(p.drop_last(), p.last(), now);
        assert(p.drop_last().push(p.last()) =~= p);
    } else {
        reveal(Seq::filter);
    }
}

proof fn lemma_none_ready(p: Seq<PendingView>, now: u64)
    requires
        forall|k: int| 0 <= k < p.len() ==> !is_ready(#[trigger] p[k], now),
    ensures
        ready_changes(p, now).len() == 0,
    decreases p.len(),
{
    if p.len() > 0 {
        assert(!is_ready(p[p.len() - 1], now));
        lemma_none_ready(p.drop_last(), now);
        lemma_changes_push(p.drop_last(), p.last(), now);
        assert(p.drop_last().push(p.last()) =~= p);
    } else {
        reveal(Seq::filter);
    }
}

/// A change is reported once: right after the ready changes are taken,
/// none is ready at the same moment.
pub proof fn lemma_ready_changes_are_reported_once(p: Seq<PendingView>, now: u64)
    ensures
        ready_changes(waiting_changes(p, now), now).len() == 0,
{
    lemma_waiting_are_not_ready(p, now);
    lemma_none_ready(waiting_changes(p, now), now);
}

fn find_pending(pending: &Vec<Pending>, directory: &String) -> (r: Option<usize>)
    ensures
        match r {
            Some(i) => pending_index(pending_views(pending@), directory@) == Some(i as int),
            None => pending_index(pending_views(pending@), directory@) is None,
        },
{
    let ghost pv = pending_views(pending@);
    let mut i: usize = 0;
    assert(pv.take(0) =~= Seq::<PendingView>::empty());
    while i < pending.len()
        invariant
            pv == pending_views(pending@),
            i <= pending@.len(),
            pending_index(pv.take(i as int), directory@) is None,
        decreases pending@.len() - i,
    {
        assert(pv.take(i + 1).drop_last() =~= pv.take(i as int));
        if same_path(pending[i].directory.as_str(), directory.as_str()) {
            proof {
                lemma_pending_index_prefix(pv, directory@, i + 1);
            }
            return Some(i);
        }
        i = i + 1;
    }
    assert(pv.take(i as int) =~= pv);
    None
}

proof fn lemma_pending_index_bounds(p: Seq<PendingView>, directory: Seq<char>)
    ensures
        pending_index(p, directory) matches Some(i) ==> 0 <= i < p.len() && same_path_spec(
            p[i].directory,
            directory,
        ),
    decreases p.len(),
{
    if p.len() > 0 {
        lemma_pending_index_bounds(p.drop_last(), directory);
    }
}

proof fn lemma_pending_index_prefix(p: Seq<PendingView>, directory: Seq<char>, n: int)
    requires
        0 <= n <= p.len(),
        pending_index(p.take(n), directory) is Some,
    ensures
        pending_index(p, directory) == pending_index(p.take(n), directory),
    decreases p.len() - n,
{
    if n < p.len() {
        assert(p.take(n + 1).drop_last() =~= p.take(n));
        lemma_pending_index_prefix(p, directory, n + 1);
    } else {
        assert(p.take(n) =~= p);
    }
}

impl Debounce {
    pub fn new() -> (r: Self)
        ensures
            r@ == Seq::<PendingView>::empty(),
    {
        Debounce { pending: Vec::new() }
    }

    /// Notes a change in `directory` at `now`, with the entry that left it.
    pub fn note(&mut self, directory: String, removed: Option<String>, now: u64)
        ensures
            final(self)@ == note_spec(old(self)@, directory@, removed.deep_view(), now),
    {
        let ghost before = self@;
        let ghost old_pending = self.pending@;
        proof {
            lemma_pending_index_bounds(before, directory@);
        }
        match find_pending(&self.pending, &directory) {
            Some(i) => {
                let mut entry = self.pending.remove(i);
                let ghost old_entry = entry@;
                assert(old_entry == before[i as int]);
                entry.changed = now;
                if let Some(path) = removed {
                    if !contains_same_path(entry.removed.as_slice(), &path) {
                        let ghost old_removed = entry.removed.deep_view();
                        entry.removed.push(path);
                        assert(entry.removed.deep_view() =~= old_removed.push(path@));
                    }
                }
                assert(entry@ == PendingView {
                    changed: now,
                    removed: with_removed(old_entry.removed, removed.deep_view()),
                    ..old_entry
                });
                self.pending.insert(i, entry);
                proof {
                    assert(self.pending@ =~= old_pending.update(i as int, entry));
                    assert(pending_views(old_pending.update(i as int, entry)) =~= before.update(
                        i as int,
                        entry@,
                    ));
                    assert(pending_index(before, directory@) == Some(i as int));
                    assert(self@ =~= before.update(i as int, entry@));
                    let ghost want = PendingView {
                        changed: now,
                        removed: with_removed(before[i as int].removed, removed.deep_view()),
                        ..before[i as int]
                    };
                    assert(note_spec(before, directory@, removed.deep_view(), now) == before.update(
                        i as int,
                        want,
                    ));
                    assert(entry@ == want);
                }
            },
            None => {
                let mut list: Vec<String> = Vec::new();
                if let Some(path) = removed {
                    list.push(path);
                    assert(list.deep_view() =~= Seq::<Seq<char>>::empty().push(path@));
                } else {
                    assert(list.deep_view() =~= Seq::<Seq<char>>::empty());
                }
                let entry = Pending { directory, changed: now, removed: list };
                assert(entry@.removed == with_removed(Seq::empty(), removed.deep_view()));
                self.pending.push(entry);
                proof {
                    assert(self.pending@ =~= old_pending.push(entry));
                    assert(self@ =~= before.push(entry@));
                }
            },
        }
    }

    /// Notes the records of one read from the inotify descriptor.
    pub fn collect(&mut self, buffer: &[u8], table: &WatchTable, now: u64)
        ensures
            final(self)@ == collect_spec(old(self)@, records_from(buffer@, 0), table@, now),
    {
        let records = parse_records(buffer);
        let ghost rv = record_views(records@);
        let ghost start = self@;
        let mut k: usize = 0;
        assert(rv.take(0) =~= Seq::<RecordView>::empty());
        while k < records.len()
            invariant
                rv == record_views(records@),
                k <= rv.len(),
                self@ == collect_spec(start, rv.take(k as int), table@, now),
            decreases rv.len() - k,
        {
            proof {
                assert(rv.take(k + 1).drop_last() =~= rv.take(k as int));
                assert(rv[k as int] == records@[k as int]@);
            }
            let record = &records[k];
            match table.directory_of(record.wd) {
                Some(directory) => {
                    let removed = if record.name.len() > 0 && record.mask & ENTRY_REMOVED_MASK != 0 {
                        let name = decode_lossy(record.name.as_slice());
                        Some(join_path(directory.as_str(), name.as_str()))
                    } else {
                        None
                    };
                    self.note(directory.clone(), removed, now);
                },
                None => {},
            }
            k = k + 1;
        }
        assert(rv.take(k as int) =~= rv);
    }

    /// Takes the changes that have waited out the debounce delay, as watch
    /// events; the others keep waiting.
    pub fn take_ready(&mut self, now: u64) -> (r: Vec<WatchEvent>)
        ensures
            final(self)@ == waiting_changes(old(self)@, now),
            r@.len() == ready_changes(old(self)@, now).len(),
            forall|k: int|
                0 <= k < r@.len() ==> (#[trigger] r@[k]).path@ == ready_changes(old(self)@, now)[k].directory
                    && r@[k].removed.deep_view() == ready_changes(old(self)@, now)[k].removed
                    && !r@[k].watch_failed,
    {
        let ghost before = self@;
        let mut taken: Vec<Pending> = Vec::new();
        std::mem::swap(&mut taken, &mut self.pending);
        let mut events: Vec<WatchEvent> = Vec::new();
        let mut waiting: Vec<Pending> = Vec::new();
        let ghost tv = pending_views(taken@);
        let count = taken.len();
        assert(tv.len() == count);
        assert(tv == before);
        assert(tv.take(0) =~= Seq::<PendingView>::empty());
        assert(tv.skip(0) =~= tv);
        proof {
            reveal(Seq::filter);
        }
        let mut i: usize = 0;
        while taken.len() > 0
            invariant
                tv == before,
                tv.len() <= usize::MAX,
                i + taken@.len() == tv.len(),
                pending_views(taken@) == tv.skip(i as int),
                pending_views(waiting@) == waiting_changes(tv.take(i as int), now),
                events@.len() == ready_changes(tv.take(i as int), now).len(),
                forall|k: int|
                    0 <= k < events@.len() ==> (#[trigger] events@[k]).path@ == ready_changes(
                        tv.take(i as int),
                        now,
                    )[k].directory && events@[k].removed.deep_view() == ready_changes(
                        tv.take(i as int),
                        now,
                    )[k].removed && !events@[k].watch_failed,
            decreases taken@.len(),
        {
            let ghost old_taken = taken@;
            assert(pending_views(old_taken)[0] == tv.skip(i as int)[0]);
            let entry = taken.remove(0);
            let ghost e = entry@;
            proof {
                assert(taken@ =~= old_taken.subrange(1, old_taken.len() as int));
                assert(e == tv[i as int]);
                assert forall|k: int| 0 <= k < taken@.len() implies pending_views(taken@)[k] == tv.skip(
                    i + 1,
                )[k] by {
                    assert(taken@[k] == old_taken[k + 1]);
                    assert(pending_views(old_taken)[k + 1] == tv.skip(i as int)[k + 1]);
                }
                assert(pending_views(taken@) =~= tv.skip(i + 1));
                assert(tv.take(i + 1) =~= tv.take(i as int).push(e));
                lemma_changes_push(tv.take(i as int), e, now);
            }
            if now >= entry.changed && now - entry.changed >= DEBOUNCE_MS {
                events.push(WatchEvent { path: entry.directory, removed: entry.removed, watch_failed: false });
            } else {
                waiting.push(entry);
                assert(pending_views(waiting@) =~= waiting_changes(tv.take(i + 1), now));
            }
            i = i + 1;
        }
        assert(tv.take(i as int) =~= tv);
        self.pending = waiting;
        events
    }
}

} // verus!

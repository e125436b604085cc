//! The history of local command failures behind `:diagnostics`: records
//! from the last thirty days, at most a hundred, oldest first. Reading and
//! writing the shared history file is the caller's part; this module decides
//! what the history holds and how it is reported.
use vstd::prelude::*;

use crate::paths::{join, join_path};
use crate::text::{decimal, push_decimal_u64, push_str, string_of};

verus! {

/// How long a failure is kept, in seconds (thirty days).
pub const RETENTION_SECS: u64 = 2592000;

/// How many failures are kept.
pub const MAX_RECORDS: usize = 100;

/// One command failure: when it happened (seconds since the epoch), its
/// summary line and its output.
#[derive(Clone, Debug, PartialEq, Eq)]
pub struct Record {
    pub timestamp: u64,
    pub summary: String,
    pub detail: String,
}

pub struct RecordView {
    pub timestamp: u64,
    pub summary: Seq<char>,
    pub detail: Seq<char>,
}

impl DeepView for Record {
    type V = RecordView;

    open spec fn deep_view(&self) -> RecordView {
        RecordView { timestamp: self.timestamp, summary: self.summary@, detail: self.detail@ }
    }
}

impl Record {
    pub fn duplicate(&self) -> (r: Self)
        ensures
            r.deep_view() == self.deep_view(),
    {
        Record {
            timestamp: self.timestamp,
            summary: self.summary.clone(),
            detail: self.detail.clone(),
        }
    }
}

// ------------------------------------------------------------------ pruning

/// The records at or after `oldest`, in their order.
pub open spec fn keep_recent(s: Seq<RecordView>, oldest: u64) -> Seq<RecordView>
    decreases s.len(),
{
    if s.len() == 0 {
        s
    } else {
        let p = keep_recent(s.drop_last(), oldest);
        if s.last().timestamp >= oldest {
            p.push(s.last())
        } else {
            p
        }
    }
}

/// `r` placed after every record that is not later than it.
pub open spec fn insert_by_time(s: Seq<RecordView>, r: RecordView) -> Seq<RecordView>
    decreases s.len(),
{
    if s.len() == 0 || s.last().timestamp <= r.timestamp {
        s.push(r)
    } else {
        insert_by_time(s.drop_last(), r).push(s.last())
    }
}

/// A stable sort by timestamp (`sort_by_key`): records with equal times
/// keep their order.
pub open spec fn sort_by_time(s: Seq<RecordView>) -> Seq<RecordView>
    decreases s.len(),
{
    if s.len() == 0 {
        s
    } else {
        insert_by_time(sort_by_time(s.drop_last()), s.last())
    }
}

/// The oldest time still kept at `now`.
pub open spec fn oldest_kept(now: u64) -> u64 {
    if now >= RETENTION_SECS {
        (now - RETENTION_SECS) as u64
    } else {
        0
    }
}

/// Pruning at `now`: records older than thirty days go, the rest are sorted
/// by time, and only the newest hundred stay.
pub open spec fn prune_spec(s: Seq<RecordView>, now: u64) -> Seq<RecordView> {
    let kept = sort_by_time(keep_recent(s, oldest_kept(now)));
    if kept.len() > MAX_RECORDS {
        kept.skip(kept.len() - MAX_RECORDS)
    } else {
        kept
    }
}

pub open spec fn sorted_by_time(s: Seq<RecordView>) -> bool {
    forall|i: int, j: int| 0 <= i <= j < s.len() ==> s[i].timestamp <= s[j].timestamp
}

proof fn lemma_insert_at(s: Seq<RecordView>, r: RecordView, j: int)
    requires
        0 <= j <= s.len(),
        forall|k: int| j <= k < s.len() ==> s[k].timestamp > r.timestamp,
        j == 0 || s[j - 1].timestamp <= r.timestamp,
    ensures
        insert_by_time(s, r) == s.insert(j, r),
    decreases s.len() - j,
{
    if j == s.len() {
        assert(s.insert(j, r) =~= s.push(r));
    } else {
        lemma_insert_at(s.drop_last(), r, j);
        assert(s.insert(j, r) =~= s.drop_last().insert(j, r).push(s.last()));
    }
}

proof fn lemma_insert_sorted(s: Seq<RecordView>, r: RecordView)
    requires
        sorted_by_time(s),
    ensures
        sorted_by_time(insert_by_time(s, r)),
        insert_by_time(s, r).len() == s.len() + 1,
        forall|k: int|
            0 <= k < insert_by_time(s, r).len() ==> (#[trigger] insert_by_time(s, r)[k]
                == r || s.contains(insert_by_time(s, r)[k])),
    decreases s.len(),
{
    if s.len() == 0 || s.last().timestamp <= r.timestamp {
        let t = s.push(r);
        assert forall|k: int| 0 <= k < t.len() implies (t[k] == r || s.contains(t[k])) by {
            if k < s.len() {
                assert(t[k] == s[k]);
            }
        }
    } else {
        let p = s.drop_last();
        lemma_insert_sorted(p, r);
        let q = insert_by_time(p, r);
        let t = q.push(s.last());
        assert forall|i: int, j: int| 0 <= i <= j < t.len() implies t[i].timestamp
            <= t[j].timestamp by {
            if j == t.len() - 1 && i < j {
                if q[i] == r {
                } else {
                    assert(p.contains(q[i]));
                    let m = choose|m: int| 0 <= m < p.len() && p[m] == q[i];
                    assert(s[m] == q[i]);
                }
            }
        }
        assert forall|k: int| 0 <= k < t.len() implies (t[k] == r || s.contains(t[k])) by {
            if k < q.len() {
                if q[k] != r {
                    assert(p.contains(q[k]));
                    let m = choose|m: int| 0 <= m < p.len() && p[m] == q[k];
                    assert(s[m] == q[k]);
                }
            } else {
                assert(s[s.len() - 1] == t[k]);
            }
        }
    }
}

proof fn lemma_sort_sorted(s: Seq<RecordView>)
    ensures
        sorted_by_time(sort_by_time(s)),
        sort_by_time(s).len() == s.len(),
        forall|k: int| 0 <= k < s.len() ==> s.contains(#[trigger] sort_by_time(s)[k]),
    decreases s.len(),
{
    if s.len() > 0 {
        let p = s.drop_last();
        lemma_sort_sorted(p);
        lemma_insert_sorted(sort_by_time(p), s.last());
        let t = sort_by_time(s);
        assert forall|k: int| 0 <= k < s.len() implies s.contains(#[trigger] t[k]) by {
            if t[k] == s.last() {
                assert(s[s.len() - 1] == t[k]);
            } else {
                assert(sort_by_time(p).contains(t[k]));
                let m = choose|m: int| 0 <= m < sort_by_time(p).len() && sort_by_time(p)[m] == t[k];
                assert(p.contains(sort_by_time(p)[m]));
                let n = choose|n: int| 0 <= n < p.len() && p[n] == t[k];
                assert(s[n] == t[k]);
            }
        }
    }
}

proof fn lemma_keep_recent(s: Seq<RecordView>, oldest: u64)
    ensures
        keep_recent(s, oldest).len() <= s.len(),
        forall|k: int|
            0 <= k < keep_recent(s, oldest).len() ==> (#[trigger] keep_recent(s, oldest)[k]).timestamp
                >= oldest && s.contains(keep_recent(s, oldest)[k]),
    decreases s.len(),
{
    if s.len() > 0 {
        let p = s.drop_last();
        lemma_keep_recent(p, oldest);
        let t = keep_recent(s, oldest);
        assert forall|k: int| 0 <= k < t.len() implies (#[trigger] t[k]).timestamp >= oldest
            && s.contains(t[k]) by {
            if k < keep_recent(p, oldest).len() {
                assert(t[k] == keep_recent(p, oldest)[k]);
                let n = choose|n: int| 0 <= n < p.len() && p[n] == t[k];
                assert(s[n] == t[k]);
            } else {
                assert(s[s.len() - 1] == t[k]);
            }
        }
    }
}

/// After pruning, the history is ordered by time, holds at most a hundred
/// records, none older than thirty days before `now`, and nothing that was
/// not there before.
pub proof fn lemma_pruned_history(s: Seq<RecordView>, now: u64)
    ensures
        sorted_by_time(prune_spec(s, now)),
        prune_spec(s, now).len() <= MAX_RECORDS,
        forall|k: int|
            0 <= k < prune_spec(s, now).len() ==> (#[trigger] prune_spec(s, now)[k]).timestamp
                >= oldest_kept(now) && s.contains(prune_spec(s, now)[k]),
{
    let kept = keep_recent(s, oldest_kept(now));
    lemma_keep_recent(s, oldest_kept(now));
    lemma_sort_sorted(kept);
    let sorted = sort_by_time(kept);
    let p = prune_spec(s, now);
    assert forall|k: int| 0 <= k < p.len() implies (#[trigger] p[k]).timestamp >= oldest_kept(now)
        && s.contains(p[k]) by {
        let i = if sorted.len() > MAX_RECORDS {
            k + sorted.len() - MAX_RECORDS
        } else {
            k
        };
        assert(p[k] == sorted[i]);
        assert(kept.contains(sorted[i]));
        let n = choose|n: int| 0 <= n < kept.len() && kept[n] == sorted[i];
        assert(kept[n].timestamp >= oldest_kept(now) && s.contains(kept[n]));
    }
}

proof fn lemma_keep_all(s: Seq<RecordView>, oldest: u64)
    requires
        forall|k: int| 0 <= k < s.len() ==> (#[trigger] s[k]).timestamp >= oldest,
    ensures
        keep_recent(s, oldest) == s,
    decreases s.len(),
{
    if s.len() > 0 {
        let p = s.drop_last();
        assert forall|k: int| 0 <= k < p.len() implies (#[trigger] p[k]).timestamp >= oldest by {
            assert(p[k] == s[k]);
        }
        lemma_keep_all(p, oldest);
        assert(s[s.len() - 1].timestamp >= oldest);
        assert(p.push(s.last()) =~= s);
    }
}

proof fn lemma_sort_of_sorted(s: Seq<RecordView>)
    requires
        sorted_by_time(s),
    ensures
        sort_by_time(s) == s,
    decreases s.len(),
{
    if s.len() > 0 {
        let p = s.drop_last();
        assert(sorted_by_time(p));
        lemma_sort_of_sorted(p);
        if p.len() > 0 {
            assert(p.last() == s[s.len() - 2]);
            assert(s[s.len() - 2].timestamp <= s[s.len() - 1].timestamp);
        }
        assert(p.push(s.last()) =~= s);
    }
}

/// Pruning twice at the same moment gives what pruning once gave.
pub proof fn lemma_prune_idempotent(s: Seq<RecordView>, now: u64)
    ensures
        prune_spec(prune_spec(s, now), now) == prune_spec(s, now),
{
    let p = prune_spec(s, now);
    lemma_pruned_history(s, now);
    lemma_keep_all(p, oldest_kept(now));
    lemma_sort_of_sorted(p);
}

/// Prunes a list of records in place (see `prune_spec`).
pub fn prune(records: &mut Vec<Record>, timestamp: u64)
    ensures
        final(records).deep_view() == prune_spec(old(records).deep_view(), timestamp),
{
    let oldest: u64 = if timestamp >= RETENTION_SECS {
        timestamp - RETENTION_SECS
    } else {
        0
    };
    let ghost s = records.deep_view();
    let mut kept: Vec<Record> = Vec::new();
    let mut i: usize = 0;
    while i < records.len()
        invariant
            i <= records@.len(),
            s == records.deep_view(),
            oldest == oldest_kept(timestamp),
            kept.deep_view() == keep_recent(s.take(i as int), oldest),
        decreases records@.len() - i,
    {
        assert(s.take(i + 1).drop_last() =~= s.take(i as int));
        assert(s.take(i + 1).last() == s[i as int]);
        if records[i].timestamp >= oldest {
            let ghost before = kept.deep_view();
            kept.push(records[i].duplicate());
            assert(kept.deep_view() =~= before.push(s[i as int]));
        }
        i = i + 1;
    }
    assert(s.take(i as int) =~= s);
    let ghost k = kept.deep_view();
    let mut sorted: Vec<Record> = Vec::new();
    let mut m: usize = 0;
    assert(k.take(0) =~= Seq::<RecordView>::empty());
    assert(sorted.deep_view() =~= Seq::<RecordView>::empty());
    while m < kept.len()
        invariant
            m <= kept@.len(),
            k == kept.deep_view(),
            sorted.deep_view() == sort_by_time(k.take(m as int)),
        decreases kept@.len() - m,
    {
        proof {
            lemma_sort_sorted(k.take(m as int));
        }
        assert(k.take(m + 1).drop_last() =~= k.take(m as int));
        assert(k.take(m + 1).last() == k[m as int]);
        let r = kept[m].duplicate();
        let t = r.timestamp;
        let ghost sv = sorted.deep_view();
        let mut j: usize = sorted.len();
        while j > 0 && sorted[j - 1].timestamp > t
            invariant
                j <= sorted@.len(),
                sv == sorted.deep_view(),
                forall|q: int| j <= q < sv.len() ==> sv[q].timestamp > t,
            decreases j,
        {
            j = j - 1;
        }
        proof {
            lemma_insert_at(sv, r.deep_view(), j as int);
        }
        sorted.insert(j, r);
        proof {
            let nv = sorted.deep_view();
            let want = sv.insert(j as int, kept@[m as int].deep_view());
            assert forall|q: int| 0 <= q < nv.len() implies nv[q] == want[q] by {
                if q < j {
                } else if q == j {
                } else {
                }
            }
            assert(nv =~= want);
        }
        m = m + 1;
    }
    assert(k.take(m as int) =~= k);
    let n = sorted.len();
    if n > MAX_RECORDS {
        let mut newest: Vec<Record> = Vec::new();
        let start = n - MAX_RECORDS;
        let mut q: usize = start;
        let ghost sv = sorted.deep_view();
        while q < n
            invariant
                n == sorted@.len(),
                start <= q <= n,
                sv == sorted.deep_view(),
                newest.deep_view() == sv.subrange(start as int, q as int),
            decreases n - q,
        {
            let ghost before = newest.deep_view();
            newest.push(sorted[q].duplicate());
            assert(newest.deep_view() =~= before.push(sv[q as int]));
            assert(newest.deep_view() =~= sv.subrange(start as int, q + 1));
            q = q + 1;
        }
        assert(sv.subrange(start as int, n as int) =~= sv.skip(start as int));
        *records = newest;
    } else {
        *records = sorted;
    }
}

// ------------------------------------------------------------------ reports

/// One reported failure: its time, summary and output on three lines.
pub open spec fn record_text(r: RecordView) -> Seq<char> {
    decimal(r.timestamp as nat) + "\n"@ + r.summary + "\n"@ + r.detail
}

/// The records newest first, separated by blank lines.
pub open spec fn records_text(s: Seq<RecordView>) -> Seq<char>
    decreases s.len(),
{
    if s.len() == 0 {
        Seq::empty()
    } else if s.len() == 1 {
        record_text(s[0])
    } else {
        record_text(s.last()) + "\n\n"@ + records_text(s.drop_last())
    }
}

pub open spec fn report_text(s: Seq<RecordView>) -> Seq<char> {
    if s.len() == 0 {
        "No command failures recorded in the last 30 days."@
    } else {
        records_text(s)
    }
}

/// What remains to be written of the report once the records from index
/// `i` on (the newer ones) are written.
pub open spec fn report_tail(s: Seq<RecordView>, i: int) -> Seq<char> {
    if i <= 0 {
        Seq::empty()
    } else if i >= s.len() {
        records_text(s)
    } else {
        "\n\n"@ + records_text(s.take(i))
    }
}

fn report_of(records: &Vec<Record>) -> (r: String)
    ensures
        r@ == report_text(records.deep_view()),
{
    if records.len() == 0 {
        return String::from_str("No command failures recorded in the last 30 days.");
    }
    let ghost s = records.deep_view();
    let mut v: Vec<char> = Vec::new();
    let n = records.len();
    let mut i: usize = n;
    assert(s.take(n as int) =~= s);
    while i > 0
        invariant
            n == records@.len(),
            s == records.deep_view(),
            i <= n,
            n > 0,
            v@ + report_tail(s, i as int) == records_text(s),
        decreases i,
    {
        let ghost before = v@;
        let ghost rest = s.take(i as int);
        proof {
            assert(rest.last() == s[i - 1]);
            assert(rest.drop_last() =~= s.take(i - 1));
            if i == 1 {
                assert(rest =~= seq![s[0]]);
            }
            if i == n {
                assert(rest =~= s);
            }
            assert(records_text(rest) == record_text(s[i - 1]) + report_tail(s, i - 1));
        }
        if i < n {
            push_str(&mut v, "\n\n");
        }
        push_decimal_u64(&mut v, records[i - 1].timestamp);
        push_str(&mut v, "\n");
        push_str(&mut v, records[i - 1].summary.as_str());
        push_str(&mut v, "\n");
        push_str(&mut v, records[i - 1].detail.as_str());
        proof {
            assert(v@ =~= before + (if i < n {
                "\n\n"@
            } else {
                Seq::<char>::empty()
            }) + record_text(s[i - 1]));
        }
        i = i - 1;
    }
    string_of(v.as_slice())
}

// ------------------------------------------------------------------ history

/// The failures this window knows of, and those it has not saved yet.
pub struct History {
    path: String,
    records: Vec<Record>,
    pending_records: Vec<Record>,
}

pub struct HistoryView {
    pub path: Seq<char>,
    pub records: Seq<RecordView>,
    pub pending: Seq<RecordView>,
}

impl DeepView for History {
    type V = HistoryView;

    closed spec fn deep_view(&self) -> HistoryView {
        HistoryView {
            path: self.path@,
            records: self.records.deep_view(),
            pending: self.pending_records.deep_view(),
        }
    }
}

/// The current time in whole seconds since the Unix epoch.
#[verifier::external_body]
pub(crate) fn now() -> (r: u64) {
    std::time::SystemTime::now()
        .duration_since(std::time::UNIX_EPOCH)
        .map(|elapsed| elapsed.as_secs())
        .unwrap_or(0)
}

fn duplicate_records(v: &Vec<Record>) -> (r: Vec<Record>)
    ensures
        r.deep_view() == v.deep_view(),
{
    let mut r: Vec<Record> = Vec::new();
    let mut i: usize = 0;
    while i < v.len()
        invariant
            i <= v@.len(),
            r.deep_view() == v.deep_view().take(i as int),
        decreases v@.len() - i,
    {
        let ghost before = r.deep_view();
        r.push(v[i].duplicate());
        assert(r.deep_view() =~= before.push(v.deep_view()[i as int]));
        assert(v.deep_view().take(i + 1) =~= v.deep_view().take(i as int).push(
            v.deep_view()[i as int],
        ));
        i = i + 1;
    }
    assert(v.deep_view().take(i as int) =~= v.deep_view());
    r
}

fn append_records(target: &mut Vec<Record>, extra: &Vec<Record>)
    ensures
        final(target).deep_view() == old(target).deep_view() + extra.deep_view(),
{
    let ghost start = target.deep_view();
    let mut i: usize = 0;
    while i < extra.len()
        invariant
            i <= extra@.len(),
            target.deep_view() == start + extra.deep_view().take(i as int),
        decreases extra@.len() - i,
    {
        let ghost before = target.deep_view();
        target.push(extra[i].duplicate());
        assert(target.deep_view() =~= before.push(extra.deep_view()[i as int]));
        assert(start + extra.deep_view().take(i + 1) =~= (start + extra.deep_view().take(
            i as int,
        )).push(extra.deep_view()[i as int]));
        i = i + 1;
    }
    assert(extra.deep_view().take(i as int) =~= extra.deep_view());
}

/// The history after recording a failure at `t`.
pub open spec fn record_spec(
    h: HistoryView,
    summary: Seq<char>,
    detail: Seq<char>,
    t: u64,
) -> HistoryView {
    HistoryView {
        records: prune_spec(h.records.push(RecordView { timestamp: t, summary, detail }), t),
        pending: prune_spec(h.pending.push(RecordView { timestamp: t, summary, detail }), t),
        ..h
    }
}

/// The history after reporting at `t`, given what reading the file gave.
pub open spec fn report_spec(
    h: HistoryView,
    read: Result<Seq<RecordView>, Seq<char>>,
    t: u64,
) -> HistoryView {
    HistoryView {
        records: prune_spec(
            match read {
                Ok(rs) => rs + h.pending,
                Err(_) => h.records,
            },
            t,
        ),
        ..h
    }
}

pub open spec fn read_view(read: Result<Vec<Record>, String>) -> Result<Seq<RecordView>, Seq<char>> {
    match read {
        Ok(rs) => Ok(rs.deep_view()),
        Err(e) => Err(e@),
    }
}

impl History {
    /// The history kept in the file at `path`, as read from it and pruned
    /// at `now`.
    pub fn open(path: String, records: Vec<Record>, now: u64) -> (r: Self)
        ensures
            r.deep_view() == (HistoryView {
                path: path@,
                records: prune_spec(records.deep_view(), now),
                pending: Seq::empty(),
            }),
    {
        let mut records = records;
        prune(&mut records, now);
        let pending: Vec<Record> = Vec::new();
        assert(pending.deep_view() =~= Seq::<RecordView>::empty());
        History { path, records, pending_records: pending }
    }

    pub fn path(&self) -> (r: &str)
        ensures
            r@ == self.deep_view().path,
    {
        self.path.as_str()
    }

    pub fn records(&self) -> (r: &Vec<Record>)
        ensures
            r.deep_view() == self.deep_view().records,
    {
        &self.records
    }

    /// Records a failure at `timestamp`, both as known and as still to be
    /// saved; both lists are pruned.
    pub fn record_at(&mut self, summary: String, detail: String, timestamp: u64)
        ensures
            final(self).deep_view() == record_spec(old(self).deep_view(), summary@, detail@, timestamp),
    {
        let record = Record { timestamp, summary, detail };
        let mut records: Vec<Record> = Vec::new();
        std::mem::swap(&mut records, &mut self.records);
        let mut pending: Vec<Record> = Vec::new();
        std::mem::swap(&mut pending, &mut self.pending_records);
        let ghost rv = record.deep_view();
        let ghost r0 = records.deep_view();
        let ghost p0 = pending.deep_view();
        records.push(record.duplicate());
        assert(records.deep_view() =~= r0.push(rv));
        pending.push(record);
        assert(pending.deep_view() =~= p0.push(rv));
        prune(&mut records, timestamp);
        prune(&mut pending, timestamp);
        self.records = records;
        self.pending_records = pending;
    }

    /// Records a failure now.
    pub fn record(&mut self, summary: String, detail: String)
        ensures
            exists|t: u64| final(self).deep_view() == #[trigger] record_spec(
                old(self).deep_view(),
                summary@,
                detail@,
                t,
            ),
    {
        let timestamp = now();
        self.record_at(summary, detail, timestamp);
    }

    /// What to write when saving at `timestamp`: the records read from the
    /// shared file with this window's unsaved ones added, pruned.
    pub fn records_to_save(&self, read: &Vec<Record>, timestamp: u64) -> (r: Vec<Record>)
        ensures
            r.deep_view() == prune_spec(read.deep_view() + self.deep_view().pending, timestamp),
    {
        let mut records = duplicate_records(read);
        append_records(&mut records, &self.pending_records);
        prune(&mut records, timestamp);
        records
    }

    /// The file now holds `saved`: it is what this window knows, and nothing
    /// is left to save.
    pub fn saved(&mut self, saved: Vec<Record>)
        ensures
            final(self).deep_view() == (HistoryView {
                records: saved.deep_view(),
                pending: Seq::empty(),
                ..old(self).deep_view()
            }),
    {
        self.records = saved;
        let pending: Vec<Record> = Vec::new();
        assert(pending.deep_view() =~= Seq::<RecordView>::empty());
        self.pending_records = pending;
    }

    /// The `:diagnostics` report at `timestamp`, given what reading the
    /// shared file gave: its records with this window's unsaved ones, or,
    /// when it could not be read, what this window knows.
    pub fn report_at(&mut self, read: Result<Vec<Record>, String>, timestamp: u64) -> (r: String)
        ensures
            final(self).deep_view() == report_spec(old(self).deep_view(), read_view(read), timestamp),
            r@ == report_text(final(self).deep_view().records),
    {
        let mut records = match read {
            Ok(rs) => {
                let mut rs = rs;
                append_records(&mut rs, &self.pending_records);
                rs
            },
            Err(_) => duplicate_records(&self.records),
        };
        prune(&mut records, timestamp);
        self.records = records;
        report_of(&self.records)
    }

    /// The `:diagnostics` report now.
    pub fn report(&mut self, read: Result<Vec<Record>, String>) -> (r: String)
        ensures
            exists|t: u64| final(self).deep_view() == #[trigger] report_spec(
                old(self).deep_view(),
                read_view(read),
                t,
            ),
            r@ == report_text(final(self).deep_view().records),
    {
        let timestamp = now();
        self.report_at(read, timestamp)
    }
}

/// Where the diagnostics file lives: under `XDG_STATE_HOME` when it is set,
/// else under `~/.local/state`, else in the working folder.
pub open spec fn state_path_spec(base: Option<Seq<char>>, home: Option<Seq<char>>) -> Seq<char> {
    match base {
        Some(b) => join(b, "waddle/diagnostics.json"@),
        None => match home {
            Some(h) => join(h, ".local/state/waddle/diagnostics.json"@),
            None => ".waddle-diagnostics.json"@,
        },
    }
}

pub fn state_path(base: Option<&str>, home: Option<&str>) -> (r: String)
    ensures
        r@ == state_path_spec(
            match base {
                Some(b) => Some(b@),
                None => None,
            },
            match home {
                Some(h) => Some(h@),
                None => None,
            },
        ),
{
    match base {
        Some(b) => join_path(b, "waddle/diagnostics.json"),
        None => match home {
            Some(h) => join_path(h, ".local/state/waddle/diagnostics.json"),
            None => String::from_str(".waddle-diagnostics.json"),
        },
    }
}

} // verus!

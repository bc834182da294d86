//! Snapshots of a watched directory tree and the diff engine that turns two
//! successive snapshots into a stream of change events.

use vstd::prelude::*;
use crate::text::str_eq;

verus! {

/// One regular file's observable state at snapshot time: modification time
/// (an opaque timestamp value) and byte size. Replaced wholesale on the next
/// snapshot.
#[derive(PartialEq, Eq, Structural, Clone, Copy, Debug)]
pub struct FileRecord {
    pub modified: u64,
    pub size: u64,
}

/// One snapshot entry: a path and the record observed under it.
struct SnapEntry {
    path: String,
    record: FileRecord,
}

/// True when some entry among the first `upto` has path `k`.
spec fn key_in_prefix(entries: Seq<SnapEntry>, upto: int, k: Seq<char>) -> bool {
    exists|i: int| 0 <= i < upto && entries[i].path@ == k
}

/// True when some entry has path `k`.
spec fn has_path(entries: Seq<SnapEntry>, k: Seq<char>) -> bool {
    key_in_prefix(entries, entries.len() as int, k)
}

/// The index of the entry with path `k`, unique under `Snapshot::wf`.
spec fn index_of_path(entries: Seq<SnapEntry>, k: Seq<char>) -> int {
    choose|i: int| 0 <= i < entries.len() && entries[i].path@ == k
}

/// A complete recorded state of the files under a watched root at one point
/// in time: a mapping from path to [`FileRecord`], keys unique, insertion
/// order irrelevant.
pub struct Snapshot {
    entries: Vec<SnapEntry>,
}

impl View for Snapshot {
    type V = Map<Seq<char>, FileRecord>;

    closed spec fn view(&self) -> Map<Seq<char>, FileRecord> {
        Map::new(
            |k: Seq<char>| has_path(self.entries@, k),
            |k: Seq<char>| self.entries@[index_of_path(self.entries@, k)].record,
        )
    }
}

impl Snapshot {
    /// Well-formed: no path occurs twice.
    pub closed spec fn wf(&self) -> bool {
        forall|i: int, j: int|
            0 <= i < j < self.entries@.len() ==> self.entries@[i].path@ != self.entries@[j].path@
    }

    /// The entry at a valid index is what the snapshot maps its path to.
    proof fn lemma_view_entry(&self, i: int)
        requires
            self.wf(),
            0 <= i < self.entries@.len(),
        ensures
            self@.contains_key(self.entries@[i].path@),
            self@[self.entries@[i].path@] == self.entries@[i].record,
    {
        let k = self.entries@[i].path@;
        assert(key_in_prefix(self.entries@, self.entries@.len() as int, k));
        let j = index_of_path(self.entries@, k);
        assert(0 <= j < self.entries@.len() && self.entries@[j].path@ == k);
        if i < j {
            assert(self.entries@[i].path@ != self.entries@[j].path@);
        } else if j < i {
            assert(self.entries@[j].path@ != self.entries@[i].path@);
        }
    }

    /// An empty snapshot.
    pub fn new() -> (s: Snapshot)
        ensures
            s.wf(),
            s@ == Map::<Seq<char>, FileRecord>::empty(),
    {
        let s = Snapshot { entries: Vec::new() };
        proof {
            assert(s@ =~= Map::<Seq<char>, FileRecord>::empty());
        }
        s
    }

    /// Whether some record is held under `path`.
    pub fn contains_key(&self, path: &str) -> (r: bool)
        ensures
            r == self@.contains_key(path@),
    {
        let n = self.entries.len();
        let mut i: usize = 0;
        while i < n
            invariant
                i <= n,
                n == self.entries@.len(),
                !key_in_prefix(self.entries@, i as int, path@),
            decreases n - i,
        {
            if str_eq(self.entries[i].path.as_str(), path) {
                assert(key_in_prefix(self.entries@, n as int, path@));
                return true;
            }
            i += 1;
        }
        false
    }

    /// The record held under `path`, if any.
    pub fn get(&self, path: &str) -> (r: Option<&FileRecord>)
        requires
            self.wf(),
        ensures
            match r {
                Some(rec) => self@.contains_key(path@) && *rec == self@[path@],
                None => !self@.contains_key(path@),
            },
    {
        let n = self.entries.len();
        let mut i: usize = 0;
        while i < n
            invariant
                i <= n,
                n == self.entries@.len(),
                self.wf(),
                !key_in_prefix(self.entries@, i as int, path@),
            decreases n - i,
        {
            if str_eq(self.entries[i].path.as_str(), path) {
                proof {
                    self.lemma_view_entry(i as int);
                }
                return Some(&self.entries[i].record);
            }
            i += 1;
        }
        None
    }

    /// Records `record` under `path`, replacing any record held there.
    pub fn insert(&mut self, path: String, record: FileRecord)
        requires
            old(self).wf(),
        ensures
            final(self).wf(),
            final(self)@ == old(self)@.insert(path@, record),
    {
        let ghost olds = old(self).entries@;
        let n = self.entries.len();
        let mut i: usize = 0;
        while i < n
            invariant
                i <= n,
                n == self.entries@.len(),
                self.entries@ == olds,
                olds == old(self).entries@,
                old(self).wf(),
                !key_in_prefix(self.entries@, i as int, path@),
            decreases n - i,
        {
            if str_eq(self.entries[i].path.as_str(), path.as_str()) {
                self.entries[i] = SnapEntry { path, record };
                proof {
                    assert forall|a: int| 0 <= a < n implies #[trigger] self.entries@[a].path@
                        == olds[a].path@ by {
                        if a != i {
                            assert(self.entries@[a] == olds[a]);
                        }
                    }
                    self.lemma_insert_replace(*old(self), i as int, path@, record);
                }
                return;
            }
            i += 1;
        }
        self.entries.push(SnapEntry { path, record });
        proof {
            assert forall|a: int| 0 <= a < n implies #[trigger] self.entries@[a]
                == olds[a] by {}
            self.lemma_insert_push(*old(self), path@, record);
        }
    }

    /// After replacing the entry at `i` (whose path already was `k`) with a
    /// new record, the snapshot maps as an insertion over the old one.
    proof fn lemma_insert_replace(&self, prev: Snapshot, i: int, k: Seq<char>, record: FileRecord)
        requires
            prev.wf(),
            0 <= i < prev.entries@.len(),
            self.entries@.len() == prev.entries@.len(),
            forall|a: int|
                0 <= a < prev.entries@.len() ==> #[trigger] self.entries@[a].path@
                    == prev.entries@[a].path@,
            forall|a: int|
                0 <= a < prev.entries@.len() && a != i ==> #[trigger] self.entries@[a].record
                    == prev.entries@[a].record,
            self.entries@[i].path@ == k,
            self.entries@[i].record == record,
        ensures
            self.wf(),
            self@ == prev@.insert(k, record),
    {
        let n = prev.entries@.len() as int;
        assert forall|a: int, b: int| 0 <= a < b < n implies self.entries@[a].path@
            != self.entries@[b].path@ by {
            assert(prev.entries@[a].path@ != prev.entries@[b].path@);
        }
        assert forall|q: Seq<char>| #[trigger] has_path(self.entries@, q) <==> has_path(
            prev.entries@,
            q,
        ) by {
            if has_path(self.entries@, q) {
                let a = choose|a: int| 0 <= a < n && self.entries@[a].path@ == q;
                assert(prev.entries@[a].path@ == q);
            }
            if has_path(prev.entries@, q) {
                let a = choose|a: int| 0 <= a < n && prev.entries@[a].path@ == q;
                assert(self.entries@[a].path@ == q);
            }
        }
        prev.lemma_view_entry(i);
        assert(has_path(prev.entries@, k));
        assert forall|q: Seq<char>| has_path(self.entries@, q) implies #[trigger] self@[q]
            == prev@.insert(k, record)[q] by {
            let a = choose|a: int| 0 <= a < n && self.entries@[a].path@ == q;
            self.lemma_view_entry(a);
            if q == k {
                if a != i {
                    assert(prev.entries@[a].path@ == k);
                    assert(prev.entries@[i].path@ == k);
                    if a < i {
                        assert(prev.entries@[a].path@ != prev.entries@[i].path@);
                    } else {
                        assert(prev.entries@[i].path@ != prev.entries@[a].path@);
                    }
                }
                assert(self@[q] == record);
            } else {
                assert(a != i);
                prev.lemma_view_entry(a);
                assert(self@[q] == prev@[q]);
            }
        }
        assert(self@ =~= prev@.insert(k, record));
    }

    /// After pushing an entry with a fresh path, the snapshot maps as an
    /// insertion over the old one.
    proof fn lemma_insert_push(&self, prev: Snapshot, k: Seq<char>, record: FileRecord)
        requires
            prev.wf(),
            self.entries@.len() == prev.entries@.len() + 1,
            forall|a: int|
                0 <= a < prev.entries@.len() ==> #[trigger] self.entries@[a] == prev.entries@[a],
            !key_in_prefix(prev.entries@, prev.entries@.len() as int, k),
            self.entries@.last().path@ == k,
            self.entries@.last().record == record,
        ensures
            self.wf(),
            self@ == prev@.insert(k, record),
    {
        let n = prev.entries@.len() as int;
        assert forall|a: int, b: int| 0 <= a < b < n + 1 implies self.entries@[a].path@
            != self.entries@[b].path@ by {
            if b < n {
                assert(prev.entries@[a].path@ != prev.entries@[b].path@);
            } else {
                if self.entries@[a].path@ == k {
                    assert(key_in_prefix(prev.entries@, n, k));
                }
            }
        }
        assert(has_path(self.entries@, k)) by {
            assert(self.entries@[n].path@ == k);
        }
        assert forall|q: Seq<char>| q != k implies (#[trigger] has_path(self.entries@, q)
            <==> has_path(prev.entries@, q)) by {
            if has_path(self.entries@, q) {
                let a = choose|a: int| 0 <= a < n + 1 && self.entries@[a].path@ == q;
                assert(a < n);
                assert(prev.entries@[a].path@ == q);
            }
            if has_path(prev.entries@, q) {
                let a = choose|a: int| 0 <= a < n && prev.entries@[a].path@ == q;
                assert(self.entries@[a].path@ == q);
            }
        }
        assert forall|q: Seq<char>| has_path(self.entries@, q) implies #[trigger] self@[q]
            == prev@.insert(k, record)[q] by {
            let a = choose|a: int| 0 <= a < n + 1 && self.entries@[a].path@ == q;
            self.lemma_view_entry(a);
            if q == k {
                if a < n {
                    assert(key_in_prefix(prev.entries@, n, k));
                }
                assert(self@[q] == record);
            } else {
                assert(a < n);
                prev.lemma_view_entry(a);
                assert(self@[q] == prev@[q]);
            }
        }
        assert(self@ =~= prev@.insert(k, record));
    }
}

/// A filesystem change event, produced by the diff engine and consumed once
/// by the dispatcher. A value, not a reference into any snapshot.
#[derive(Debug, Clone)]
pub enum WatchEvent {
    Created(String),
    Removed(String),
    Modified(String),
}

/// The mathematical value of a [`WatchEvent`]: the same three variants over
/// character sequences.
pub enum EventVal {
    Created(Seq<char>),
    Removed(Seq<char>),
    Modified(Seq<char>),
}

impl View for WatchEvent {
    type V = EventVal;

    open spec fn view(&self) -> EventVal {
        match self {
            WatchEvent::Created(p) => EventVal::Created(p@),
            WatchEvent::Removed(p) => EventVal::Removed(p@),
            WatchEvent::Modified(p) => EventVal::Modified(p@),
        }
    }
}

/// Whether `ev` belongs to the diff of `prev` against `curr`: Created
/// exactly for paths in `curr` but not `prev`, Removed exactly for paths in
/// `prev` but not `curr`, Modified exactly for paths in both whose records
/// differ.
pub open spec fn diff_event(
    prev: Map<Seq<char>, FileRecord>,
    curr: Map<Seq<char>, FileRecord>,
    ev: EventVal,
) -> bool {
    match ev {
        EventVal::Created(p) => curr.contains_key(p) && !prev.contains_key(p),
        EventVal::Removed(p) => prev.contains_key(p) && !curr.contains_key(p),
        EventVal::Modified(p) => prev.contains_key(p) && curr.contains_key(p) && prev[p]
            != curr[p],
    }
}

/// Whether some event of `events` has value `ev`.
pub open spec fn has_event(events: Seq<WatchEvent>, ev: EventVal) -> bool {
    exists|i: int| 0 <= i < events.len() && events[i]@ == ev
}

/// The values of a sequence of events.
pub open spec fn event_views(events: Seq<WatchEvent>) -> Seq<EventVal> {
    events.map_values(|e: WatchEvent| e@)
}

/// Pushing an event value not yet present keeps the views duplicate-free.
proof fn lemma_views_push_fresh(pre: Seq<WatchEvent>, e: WatchEvent)
    requires
        event_views(pre).no_duplicates(),
        !has_event(pre, e@),
    ensures
        event_views(pre.push(e)).no_duplicates(),
{
    assert(event_views(pre.push(e)) =~= event_views(pre).push(e@));
    let vs = event_views(pre).push(e@);
    assert forall|a: int, b: int| 0 <= a < b < vs.len() implies vs[a] != vs[b] by {
        if b == vs.len() - 1 {
            if vs[a] == e@ {
                assert(pre[a]@ == e@);
            }
        }
    }
}

/// Pushing one event extends the set of event values by exactly that value.
proof fn lemma_has_event_push(pre: Seq<WatchEvent>, e: WatchEvent)
    ensures
        forall|ev: EventVal| #[trigger] has_event(pre.push(e), ev) <==> (has_event(pre, ev) || ev
            == e@),
{
    assert forall|ev: EventVal| #[trigger] has_event(pre.push(e), ev) implies (has_event(pre, ev)
        || ev == e@) by {
        let j = choose|j: int| 0 <= j < pre.push(e).len() && pre.push(e)[j]@ == ev;
        if j < pre.len() {
            assert(pre[j]@ == ev);
        }
    }
    assert forall|ev: EventVal| has_event(pre, ev) implies has_event(pre.push(e), ev) by {
        let j = choose|j: int| 0 <= j < pre.len() && pre[j]@ == ev;
        assert(pre.push(e)[j]@ == ev);
    }
    assert forall|ev: EventVal| ev == e@ implies has_event(pre.push(e), ev) by {
        assert(pre.push(e)[pre.len() as int]@ == ev);
    }
}

/// Compares two successive snapshots and returns the change events: Created
/// for paths new in `curr`, Modified for paths in both with differing
/// records, Removed for paths gone from `prev`. A path present in both with
/// an identical record emits nothing. No ordering is guaranteed among the
/// returned events.
pub fn diff(prev: &Snapshot, curr: &Snapshot) -> (events: Vec<WatchEvent>)
    requires
        prev.wf(),
        curr.wf(),
    ensures
        forall|ev: EventVal| #[trigger] has_event(events@, ev) <==> diff_event(prev@, curr@, ev),
        event_views(events@).no_duplicates(),
{
    let mut events: Vec<WatchEvent> = Vec::new();
    let n = curr.entries.len();
    let mut i: usize = 0;
    while i < n
        invariant
            i <= n,
            n == curr.entries@.len(),
            prev.wf(),
            curr.wf(),
            event_views(events@).no_duplicates(),
            forall|ev: EventVal| #[trigger] has_event(events@, ev) <==> match ev {
                EventVal::Created(p) => key_in_prefix(curr.entries@, i as int, p)
                    && !prev@.contains_key(p),
                EventVal::Modified(p) => key_in_prefix(curr.entries@, i as int, p)
                    && prev@.contains_key(p) && prev@[p] != curr@[p],
                EventVal::Removed(p) => false,
            },
        decreases n - i,
    {
        let e = &curr.entries[i];
        let ghost pre = events@;
        let ghost k = e.path@;
        proof {
            curr.lemma_view_entry(i as int);
            assert forall|p: Seq<char>| #[trigger] key_in_prefix(curr.entries@, i + 1, p) <==> (
            key_in_prefix(curr.entries@, i as int, p) || p == k) by {
                if key_in_prefix(curr.entries@, i + 1, p) {
                    let a = choose|a: int| 0 <= a < i + 1 && curr.entries@[a].path@ == p;
                    if a < i {
                        assert(key_in_prefix(curr.entries@, i as int, p));
                    }
                }
                if key_in_prefix(curr.entries@, i as int, p) {
                    let a = choose|a: int| 0 <= a < i && curr.entries@[a].path@ == p;
                    assert(0 <= a < i + 1 && curr.entries@[a].path@ == p);
                }
                if p == k {
                    assert(0 <= i < i + 1 && curr.entries@[i as int].path@ == p);
                }
            }
        }
        match prev.get(e.path.as_str()) {
            Option::None => {
                events.push(WatchEvent::Created(e.path.clone()));
                proof {
                    lemma_views_push_fresh(pre, WatchEvent::Created(e.path));
                    lemma_has_event_push(pre, WatchEvent::Created(e.path));
                }
            },
            Option::Some(old_rec) => {
                if *old_rec != e.record {
                    events.push(WatchEvent::Modified(e.path.clone()));
                    proof {
                        lemma_views_push_fresh(pre, WatchEvent::Modified(e.path));
                        lemma_has_event_push(pre, WatchEvent::Modified(e.path));
                    }
                }
            },
        }
        i += 1;
    }
    proof {
        assert forall|p: Seq<char>| #[trigger] key_in_prefix(curr.entries@, n as int, p)
            <==> curr@.contains_key(p) by {}
    }
    let m = prev.entries.len();
    let mut j: usize = 0;
    while j < m
        invariant
            j <= m,
            m == prev.entries@.len(),
            prev.wf(),
            curr.wf(),
            event_views(events@).no_duplicates(),
            forall|ev: EventVal| #[trigger] has_event(events@, ev) <==> match ev {
                EventVal::Created(p) => curr@.contains_key(p) && !prev@.contains_key(p),
                EventVal::Modified(p) => curr@.contains_key(p) && prev@.contains_key(p) && prev@[p]
                    != curr@[p],
                EventVal::Removed(p) => key_in_prefix(prev.entries@, j as int, p)
                    && !curr@.contains_key(p),
            },
        decreases m - j,
    {
        let e = &prev.entries[j];
        let ghost pre = events@;
        let ghost k = e.path@;
        proof {
            prev.lemma_view_entry(j as int);
            assert forall|p: Seq<char>| #[trigger] key_in_prefix(prev.entries@, j + 1, p) <==> (
            key_in_prefix(prev.entries@, j as int, p) || p == k) by {
                if key_in_prefix(prev.entries@, j + 1, p) {
                    let a = choose|a: int| 0 <= a < j + 1 && prev.entries@[a].path@ == p;
                    if a < j {
                        assert(key_in_prefix(prev.entries@, j as int, p));
                    }
                }
                if key_in_prefix(prev.entries@, j as int, p) {
                    let a = choose|a: int| 0 <= a < j && prev.entries@[a].path@ == p;
                    assert(0 <= a < j + 1 && prev.entries@[a].path@ == p);
                }
                if p == k {
                    assert(0 <= j < j + 1 && prev.entries@[j as int].path@ == p);
                }
            }
        }
        if !curr.contains_key(e.path.as_str()) {
            events.push(WatchEvent::Removed(e.path.clone()));
            proof {
                lemma_views_push_fresh(pre, WatchEvent::Removed(e.path));
                lemma_has_event_push(pre, WatchEvent::Removed(e.path));
            }
        }
        j += 1;
    }
    proof {
        assert forall|p: Seq<char>| #[trigger] key_in_prefix(prev.entries@, m as int, p)
            <==> prev@.contains_key(p) by {}
    }
    events
}

/// Law: diffing a snapshot against itself yields no events at all.
pub proof fn lemma_diff_self_empty(snap: Map<Seq<char>, FileRecord>, events: Seq<WatchEvent>)
    requires
        forall|ev: EventVal| #[trigger] has_event(events, ev) <==> diff_event(snap, snap, ev),
    ensures
        events.len() == 0,
{
    if events.len() > 0 {
        let ev = events[0]@;
        assert(has_event(events, ev));
        assert(diff_event(snap, snap, ev));
    }
}

/// Settings for the polling watcher loop.
pub struct WatcherConfig {
    /// Watch files inside subdirectories recursively.
    pub recursive: bool,
    /// How often to poll the directory, in milliseconds.
    pub interval_millis: u64,
    /// Maximum depth to recurse into; unlimited when absent.
    pub max_depth: Option<usize>,
}

impl Default for WatcherConfig {
    /// Half-second recursive polling with unlimited depth.
    fn default() -> (c: Self)
        ensures
            c.recursive == true,
            c.interval_millis == 500,
            c.max_depth is None,
    {
        WatcherConfig { recursive: true, interval_millis: 500, max_depth: None }
    }
}

} // verus!

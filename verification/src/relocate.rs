//! A model of one volume's files — a mapping from path to byte contents —
//! and the relocation step on it: an atomic rename where the volume
//! supports one, and the copy-then-delete fallback otherwise. Both
//! strategies end in the same state. The surrounding process performs the
//! real filesystem calls; this model is what they are meant to achieve.

use vstd::prelude::*;
use vstd::string::StringExecFns;
use crate::text::str_eq;

verus! {

/// One file of the model: a path and its byte contents.
struct VolEntry {
    path: String,
    data: Vec<u8>,
}

/// True when some entry among the first `upto` has path `k`.
spec fn vol_key_in_prefix(entries: Seq<VolEntry>, upto: int, k: Seq<char>) -> bool {
    exists|i: int| 0 <= i < upto && entries[i].path@ == k
}

/// True when some entry has path `k`.
spec fn vol_has_path(entries: Seq<VolEntry>, k: Seq<char>) -> bool {
    vol_key_in_prefix(entries, entries.len() as int, k)
}

/// The index of the entry with path `k`, unique under `Volume::wf`.
spec fn vol_index_of(entries: Seq<VolEntry>, k: Seq<char>) -> int {
    choose|i: int| 0 <= i < entries.len() && entries[i].path@ == k
}

/// The files of one volume: path to byte contents, paths unique.
pub struct Volume {
    files: Vec<VolEntry>,
}

impl View for Volume {
    type V = Map<Seq<char>, Seq<u8>>;

    closed spec fn view(&self) -> Map<Seq<char>, Seq<u8>> {
        Map::new(
            |k: Seq<char>| vol_has_path(self.files@, k),
            |k: Seq<char>| self.files@[vol_index_of(self.files@, k)].data@,
        )
    }
}

/// The end state of a successful relocation: the source's bytes now live
/// under the destination path, and the source is gone.
pub open spec fn relocate_spec(
    m: Map<Seq<char>, Seq<u8>>,
    source: Seq<char>,
    dest: Seq<char>,
) -> Map<Seq<char>, Seq<u8>> {
    m.remove(source).insert(dest, m[source])
}

/// Law: relocation preserves the file's bytes exactly, removes the source,
/// and touches nothing else — independently of whether the volume renamed
/// the file or fell back to copying and deleting.
pub proof fn lemma_relocation_preserves_content(
    m: Map<Seq<char>, Seq<u8>>,
    source: Seq<char>,
    dest: Seq<char>,
)
    requires
        m.contains_key(source),
        !m.contains_key(dest),
    ensures
        relocate_spec(m, source, dest).contains_key(dest),
        relocate_spec(m, source, dest)[dest] == m[source],
        !relocate_spec(m, source, dest).contains_key(source),
        forall|q: Seq<char>|
            q != source && q != dest ==> #[trigger] relocate_spec(m, source, dest).contains_key(q)
                == m.contains_key(q),
        forall|q: Seq<char>|
            q != source && q != dest && m.contains_key(q) ==> #[trigger] relocate_spec(
                m,
                source,
                dest,
            )[q] == m[q],
{
}

impl Volume {
    /// Well-formed: no path occurs twice.
    pub closed spec fn wf(&self) -> bool {
        forall|i: int, j: int|
            0 <= i < j < self.files@.len() ==> self.files@[i].path@ != self.files@[j].path@
    }

    /// The entry at a valid index is what the volume maps its path to.
    proof fn lemma_view_entry(&self, i: int)
        requires
            self.wf(),
            0 <= i < self.files@.len(),
        ensures
            self@.contains_key(self.files@[i].path@),
            self@[self.files@[i].path@] == self.files@[i].data@,
    {
        let k = self.files@[i].path@;
        assert(vol_key_in_prefix(self.files@, self.files@.len() as int, k));
        let j = vol_index_of(self.files@, k);
        assert(0 <= j < self.files@.len() && self.files@[j].path@ == k);
        if i < j {
            assert(self.files@[i].path@ != self.files@[j].path@);
        } else if j < i {
            assert(self.files@[j].path@ != self.files@[i].path@);
        }
    }

    /// After removing the entry at `i`, the volume maps as a removal.
    proof fn lemma_remove_entry(&self, prev: Volume, i: int)
        requires
            prev.wf(),
            0 <= i < prev.files@.len(),
            self.files@ == prev.files@.remove(i),
        ensures
            self.wf(),
            self@ == prev@.remove(prev.files@[i].path@),
    {
        let k = prev.files@[i].path@;
        let n = prev.files@.len() as int;
        assert forall|a: int, b: int| 0 <= a < b < n - 1 implies self.files@[a].path@
            != self.files@[b].path@ by {
            let pa: int = if a < i { a } else { a + 1 };
            let pb: int = if b < i { b } else { b + 1 };
            assert(self.files@[a] == prev.files@[pa]);
            assert(self.files@[b] == prev.files@[pb]);
            assert(prev.files@[pa].path@ != prev.files@[pb].path@);
        }
        assert forall|q: Seq<char>| #[trigger] vol_has_path(self.files@, q) implies (vol_has_path(
            prev.files@,
            q,
        ) && q != k) by {
            let a = choose|a: int| 0 <= a < n - 1 && self.files@[a].path@ == q;
            let pa: int = if a < i { a } else { a + 1 };
            assert(self.files@[a] == prev.files@[pa]);
            assert(prev.files@[pa].path@ == q);
            if q == k {
                if pa < i {
                    assert(prev.files@[pa].path@ != prev.files@[i].path@);
                } else {
                    assert(prev.files@[i].path@ != prev.files@[pa].path@);
                }
            }
        }
        assert forall|q: Seq<char>| vol_has_path(prev.files@, q) && q != k implies #[trigger] vol_has_path(
            self.files@,
            q,
        ) by {
            let pa = choose|pa: int| 0 <= pa < n && prev.files@[pa].path@ == q;
            if pa < i {
                assert(self.files@[pa] == prev.files@[pa]);
                assert(self.files@[pa].path@ == q);
            } else {
                assert(pa != i);
                assert(self.files@[pa - 1] == prev.files@[pa]);
                assert(self.files@[pa - 1].path@ == q);
            }
        }
        assert forall|q: Seq<char>| vol_has_path(self.files@, q) implies #[trigger] self@[q]
            == prev@.remove(k)[q] by {
            let a = choose|a: int| 0 <= a < n - 1 && self.files@[a].path@ == q;
            let pa: int = if a < i { a } else { a + 1 };
            assert(self.files@[a] == prev.files@[pa]);
            self.lemma_view_entry(a);
            prev.lemma_view_entry(pa);
        }
        assert(self@ =~= prev@.remove(k));
    }

    /// After pushing an entry with a fresh path, the volume maps as an
    /// insertion.
    proof fn lemma_push_entry(&self, prev: Volume)
        requires
            prev.wf(),
            self.files@.len() == prev.files@.len() + 1,
            self.files@ == prev.files@.push(self.files@.last()),
            !vol_has_path(prev.files@, self.files@.last().path@),
        ensures
            self.wf(),
            self@ == prev@.insert(self.files@.last().path@, self.files@.last().data@),
    {
        let k = self.files@.last().path@;
        let n = prev.files@.len() as int;
        assert forall|a: int, b: int| 0 <= a < b < n + 1 implies self.files@[a].path@
            != self.files@[b].path@ by {
            if b < n {
                assert(self.files@[a] == prev.files@[a]);
                assert(self.files@[b] == prev.files@[b]);
                assert(prev.files@[a].path@ != prev.files@[b].path@);
            } else {
                assert(self.files@[a] == prev.files@[a]);
                if self.files@[a].path@ == k {
                    assert(vol_key_in_prefix(prev.files@, n, k));
                }
            }
        }
        assert(vol_has_path(self.files@, k)) by {
            assert(self.files@[n].path@ == k);
        }
        assert forall|q: Seq<char>| q != k implies (#[trigger] vol_has_path(self.files@, q)
            <==> vol_has_path(prev.files@, q)) by {
            if vol_has_path(self.files@, q) {
                let a = choose|a: int| 0 <= a < n + 1 && self.files@[a].path@ == q;
                assert(a < n);
                assert(self.files@[a] == prev.files@[a]);
                assert(prev.files@[a].path@ == q);
            }
            if vol_has_path(prev.files@, q) {
                let a = choose|a: int| 0 <= a < n && prev.files@[a].path@ == q;
                assert(self.files@[a] == prev.files@[a]);
                assert(self.files@[a].path@ == q);
            }
        }
        assert forall|q: Seq<char>| vol_has_path(self.files@, q) implies #[trigger] self@[q]
            == prev@.insert(k, self.files@.last().data@)[q] by {
            let a = choose|a: int| 0 <= a < n + 1 && self.files@[a].path@ == q;
            self.lemma_view_entry(a);
            if q == k {
                if a < n {
                    assert(self.files@[a] == prev.files@[a]);
                    assert(vol_key_in_prefix(prev.files@, n, k));
                }
                assert(self@[q] == self.files@.last().data@);
            } else {
                assert(a < n);
                assert(self.files@[a] == prev.files@[a]);
                prev.lemma_view_entry(a);
            }
        }
        assert(self@ =~= prev@.insert(k, self.files@.last().data@));
    }

    /// An empty volume.
    pub fn new() -> (v: Volume)
        ensures
            v.wf(),
            v@ == Map::<Seq<char>, Seq<u8>>::empty(),
    {
        let v = Volume { files: Vec::new() };
        proof {
            assert(v@ =~= Map::<Seq<char>, Seq<u8>>::empty());
        }
        v
    }

    /// The index of the entry for `path`, if the file exists.
    fn find_index(&self, path: &str) -> (r: Option<usize>)
        ensures
            match r {
                Some(i) => i < self.files@.len() && self.files@[i as int].path@ == path@,
                None => !vol_has_path(self.files@, path@),
            },
    {
        let n = self.files.len();
        let mut i: usize = 0;
        while i < n
            invariant
                i <= n,
                n == self.files@.len(),
                !vol_key_in_prefix(self.files@, i as int, path@),
            decreases n - i,
        {
            if str_eq(self.files[i].path.as_str(), path) {
                return Some(i);
            }
            i += 1;
        }
        None
    }

    /// Whether a file exists under `path`.
    pub fn contains(&self, path: &str) -> (r: bool)
        ensures
            r == self@.contains_key(path@),
    {
        match self.find_index(path) {
            Some(i) => {
                proof {
                    assert(vol_has_path(self.files@, path@));
                }
                true
            },
            None => false,
        }
    }

    /// The bytes of the file under `path`, if it exists.
    pub fn read(&self, path: &str) -> (r: Option<&Vec<u8>>)
        requires
            self.wf(),
        ensures
            match r {
                Some(d) => self@.contains_key(path@) && d@ == self@[path@],
                None => !self@.contains_key(path@),
            },
    {
        match self.find_index(path) {
            Some(i) => {
                proof {
                    self.lemma_view_entry(i as int);
                }
                Some(&self.files[i].data)
            },
            None => None,
        }
    }

    /// Creates a file that does not exist yet.
    pub fn create(&mut self, path: String, data: Vec<u8>)
        requires
            old(self).wf(),
            !old(self)@.contains_key(path@),
        ensures
            final(self).wf(),
            final(self)@ == old(self)@.insert(path@, data@),
    {
        let ghost prev = *self;
        proof {
            if vol_has_path(self.files@, path@) {
                let a = vol_index_of(self.files@, path@);
                assert(0 <= a < self.files@.len() && self.files@[a].path@ == path@);
            }
        }
        self.files.push(VolEntry { path, data });
        proof {
            self.lemma_push_entry(prev);
        }
    }

    /// Moves the file at `source` to `dest`. Where the volume supports
    /// renames the entry moves in one step; otherwise the bytes are first
    /// copied to the destination and the original is deleted afterwards.
    /// Succeeds exactly when the source exists and the destination does
    /// not — and both strategies end in the very same state.
    pub fn relocate(&mut self, source: &str, dest: &str, rename_supported: bool) -> (r: bool)
        requires
            old(self).wf(),
        ensures
            final(self).wf(),
            r == (old(self)@.contains_key(source@) && !old(self)@.contains_key(dest@)),
            r ==> final(self)@ == relocate_spec(old(self)@, source@, dest@),
            !r ==> final(self)@ == old(self)@,
    {
        let idx = match self.find_index(source) {
            Some(i) => i,
            None => {
                return false;
            },
        };
        if self.contains(dest) {
            return false;
        }
        let ghost prev = *self;
        proof {
            prev.lemma_view_entry(idx as int);
        }
        if rename_supported {
            // Atomic rename: the entry moves in one step.
            let e = self.files.remove(idx);
            let ghost mid = *self;
            proof {
                mid.lemma_remove_entry(prev, idx as int);
            }
            self.files.push(VolEntry { path: String::from_str(dest), data: e.data });
            proof {
                if vol_has_path(mid.files@, dest@) {
                    assert(mid@.contains_key(dest@));
                }
                self.lemma_push_entry(mid);
            }
        } else {
            // Cross-volume fallback: copy the bytes to the destination,
            // then delete the original.
            let data_copy = clone_bytes(&self.files[idx].data);
            self.files.push(VolEntry { path: String::from_str(dest), data: data_copy });
            let ghost mid = *self;
            proof {
                if vol_has_path(prev.files@, dest@) {
                    assert(prev@.contains_key(dest@));
                }
                mid.lemma_push_entry(prev);
            }
            let e = self.files.remove(idx);
            proof {
                assert(mid.files@[idx as int] == prev.files@[idx as int]);
                self.lemma_remove_entry(mid, idx as int);
                assert(final(self)@ =~= relocate_spec(prev@, source@, dest@));
            }
        }
        true
    }
}

/// A byte-for-byte copy of a file's contents.
fn clone_bytes(data: &Vec<u8>) -> (r: Vec<u8>)
    ensures
        r@ == data@,
{
    let n = data.len();
    let mut r: Vec<u8> = Vec::new();
    let mut i: usize = 0;
    while i < n
        invariant
            i <= n,
            n == data@.len(),
            r@ == data@.subrange(0, i as int),
        decreases n - i,
    {
        r.push(data[i]);
        proof {
            assert(data@.subrange(0, i + 1 as int) =~= data@.subrange(0, i as int).push(
                data@[i as int],
            ));
        }
        i += 1;
    }
    proof {
        assert(r@ =~= data@);
    }
    r
}

} // verus!

//! Aggregation of small files into one block in memory.
use std::time::Instant;
use vstd::prelude::*;
use vstd::string::StringSliceAdditionalSpecFns;

use crate::text::{bytes_equal, copy_range};

verus! {

/// `std::time::Instant`, carried through unread.
#[verifier::external_type_specification]
#[verifier::external_body]
pub struct ExInstant(std::time::Instant);

struct IndexEntry {
    name: Vec<u8>,
    offset: u64,
    length: u64,
}

/// An entry as (name, offset, length).
spec fn entry_view(e: IndexEntry) -> (Seq<u8>, u64, u64) {
    (e.name@, e.offset, e.length)
}

spec fn entry_views(s: Seq<IndexEntry>) -> Seq<(Seq<u8>, u64, u64)> {
    s.map_values(|e: IndexEntry| entry_view(e))
}

/// The map from file name to (offset, length) that the entries describe;
/// a later entry for a name takes the place of an earlier one.
spec fn index_map(s: Seq<(Seq<u8>, u64, u64)>) -> Map<Seq<u8>, (u64, u64)>
    decreases s.len(),
{
    if s.len() == 0 {
        Map::empty()
    } else {
        index_map(s.drop_last()).insert(s.last().0, (s.last().1, s.last().2))
    }
}

spec fn names_unique(s: Seq<(Seq<u8>, u64, u64)>) -> bool {
    forall|i: int, j: int|
        0 <= i < s.len() && 0 <= j < s.len() && i != j ==> #[trigger] s[i].0 != #[trigger] s[j].0
}

proof fn lemma_index_map_update(s: Seq<(Seq<u8>, u64, u64)>, j: int, e: (Seq<u8>, u64, u64))
    requires
        names_unique(s),
        0 <= j < s.len(),
        s[j].0 == e.0,
    ensures
        index_map(s.update(j, e)) == index_map(s).insert(e.0, (e.1, e.2)),
    decreases s.len(),
{
    let t = s.update(j, e);
    if j == s.len() - 1 {
        assert(t.drop_last() =~= s.drop_last());
        assert(index_map(t) =~= index_map(s).insert(e.0, (e.1, e.2)));
    } else {
        let d = s.drop_last();
        assert(t.drop_last() =~= d.update(j, e));
        assert forall|a: int, b: int|
            0 <= a < d.len() && 0 <= b < d.len() && a != b implies #[trigger] d[a].0
                != #[trigger] d[b].0 by {
            assert(d[a] == s[a] && d[b] == s[b]);
        }
        lemma_index_map_update(d, j, e);
        assert(s[s.len() - 1].0 != s[j].0);
        assert(index_map(t) =~= index_map(s).insert(e.0, (e.1, e.2)));
    }
}

proof fn lemma_index_map_at(s: Seq<(Seq<u8>, u64, u64)>, j: int)
    requires
        names_unique(s),
        0 <= j < s.len(),
    ensures
        index_map(s).contains_key(s[j].0),
        index_map(s)[s[j].0] == (s[j].1, s[j].2),
    decreases s.len(),
{
    if j < s.len() - 1 {
        let d = s.drop_last();
        assert forall|a: int, b: int|
            0 <= a < d.len() && 0 <= b < d.len() && a != b implies #[trigger] d[a].0
                != #[trigger] d[b].0 by {
            assert(d[a] == s[a] && d[b] == s[b]);
        }
        assert(d[j] == s[j]);
        lemma_index_map_at(d, j);
        assert(s[s.len() - 1].0 != s[j].0);
    }
}

proof fn lemma_index_map_absent(s: Seq<(Seq<u8>, u64, u64)>, k: Seq<u8>)
    requires
        forall|j: int| 0 <= j < s.len() ==> (#[trigger] s[j]).0 != k,
    ensures
        !index_map(s).contains_key(k),
    decreases s.len(),
{
    if s.len() > 0 {
        let d = s.drop_last();
        assert forall|j: int| 0 <= j < d.len() implies (#[trigger] d[j]).0 != k by {
            assert(d[j] == s[j]);
        }
        lemma_index_map_absent(d, k);
        assert(s[s.len() - 1].0 != k);
    }
}

/// Small files merged into one buffer, with an index from each file's name
/// to its place in the buffer.
pub struct ObjectGroup {
    buffer: Vec<u8>,
    meta_index: Vec<IndexEntry>,
    created_at: Instant,
}

impl ObjectGroup {
    /// The index has one entry per name.
    pub closed spec fn wf(&self) -> bool {
        names_unique(entry_views(self.meta_index@))
    }

    /// The merged bytes.
    pub closed spec fn data(&self) -> Seq<u8> {
        self.buffer@
    }

    /// File name (as UTF-8 bytes) to (offset, length) in the merged bytes.
    pub closed spec fn index(&self) -> Map<Seq<u8>, (u64, u64)> {
        index_map(entry_views(self.meta_index@))
    }

    /// An empty group, started at `created_at`.
    pub fn new(created_at: Instant) -> (r: Self)
        ensures
            r.wf(),
            r.data() == Seq::<u8>::empty(),
            r.index() == Map::<Seq<u8>, (u64, u64)>::empty(),
    {
        let r = ObjectGroup { buffer: Vec::new(), meta_index: Vec::new(), created_at };
        assert(entry_views(r.meta_index@) =~= Seq::<(Seq<u8>, u64, u64)>::empty());
        r
    }

    /// Appends a small file to the group and records where it stands; a file
    /// added again under the same name takes the place of the earlier entry.
    pub fn add_file(&mut self, name: &str, data: &[u8])
        requires
            old(self).wf(),
            old(self).data().len() + data@.len() <= usize::MAX,
        ensures
            final(self).wf(),
            final(self).data() == old(self).data() + data@,
            final(self).index() == old(self).index().insert(
                name.spec_bytes(),
                (old(self).data().len() as u64, data@.len() as u64),
            ),
    {
        let offset = self.buffer.len();
        let mut i: usize = 0;
        while i < data.len()
            invariant
                i <= data@.len(),
                self.buffer@ == old(self).buffer@ + data@.take(i as int),
                self.meta_index == old(self).meta_index,
            decreases data@.len() - i,
        {
            self.buffer.push(data[i]);
            i = i + 1;
            assert(self.buffer@ =~= old(self).buffer@ + data@.take(i as int));
        }
        assert(data@.take(data@.len() as int) =~= data@);
        let nb = name.as_bytes();
        let key = copy_range(nb, 0, nb.len());
        assert(key@ =~= nb@);
        let entry = IndexEntry { name: key, offset: offset as u64, length: data.len() as u64 };
        let ghost ev = entry_views(self.meta_index@);
        let ghost e = (entry.name@, entry.offset, entry.length);
        let mut j: usize = 0;
        while j < self.meta_index.len()
            invariant
                j <= self.meta_index@.len(),
                ev == entry_views(self.meta_index@),
                forall|a: int| 0 <= a < j ==> (#[trigger] ev[a]).0 != e.0,
                e == (nb@, old(self).buffer@.len() as u64, data@.len() as u64),
                e == (entry.name@, entry.offset, entry.length),
                nb@ == name.spec_bytes(),
                names_unique(ev),
                self.buffer@ == old(self).buffer@ + data@,
                old(self).meta_index@ == self.meta_index@,
            decreases self.meta_index@.len() - j,
        {
            assert(ev[j as int] == entry_view(self.meta_index@[j as int]));
            if bytes_equal(self.meta_index[j].name.as_slice(), nb) {
                self.meta_index.set(j, entry);
                proof {
                    lemma_index_map_update(ev, j as int, e);
                    assert(entry_views(self.meta_index@) =~= ev.update(j as int, e));
                    let nv = ev.update(j as int, e);
                    assert forall|a: int, b: int|
                        0 <= a < nv.len() && 0 <= b < nv.len() && a != b implies #[trigger] nv[a].0
                            != #[trigger] nv[b].0 by {
                        if a == j {
                            assert(ev[b].0 != ev[a].0);
                        } else if b == j {
                            assert(ev[b].0 != ev[a].0);
                        }
                    }
                }
                return;
            }
            j = j + 1;
        }
        self.meta_index.push(entry);
        proof {
            assert(entry_views(self.meta_index@) =~= ev.push(e));
            assert(ev.push(e).drop_last() =~= ev);
            let nv = ev.push(e);
            assert forall|a: int, b: int|
                0 <= a < nv.len() && 0 <= b < nv.len() && a != b implies #[trigger] nv[a].0
                    != #[trigger] nv[b].0 by {
                if a < ev.len() && b < ev.len() {
                    assert(nv[a] == ev[a] && nv[b] == ev[b]);
                } else if a == ev.len() {
                    assert(nv[b] == ev[b]);
                } else {
                    assert(nv[a] == ev[a]);
                }
            }
        }
    }

    /// Where the file `name` stands in the merged bytes, as (offset, length).
    pub fn locate(&self, name: &str) -> (r: Option<(u64, u64)>)
        requires
            self.wf(),
        ensures
            r == if self.index().contains_key(name.spec_bytes()) {
                Some(self.index()[name.spec_bytes()])
            } else {
                None
            },
    {
        let ghost ev = entry_views(self.meta_index@);
        let nb = name.as_bytes();
        let mut j: usize = 0;
        while j < self.meta_index.len()
            invariant
                j <= self.meta_index@.len(),
                ev == entry_views(self.meta_index@),
                names_unique(ev),
                forall|a: int| 0 <= a < j ==> (#[trigger] ev[a]).0 != nb@,
                nb@ == name.spec_bytes(),
            decreases self.meta_index@.len() - j,
        {
            let e = &self.meta_index[j];
            assert(ev[j as int] == (e.name@, e.offset, e.length));
            if bytes_equal(e.name.as_slice(), nb) {
                proof {
                    lemma_index_map_at(ev, j as int);
                }
                return Some((e.offset, e.length));
            }
            j = j + 1;
        }
        proof {
            lemma_index_map_absent(ev, nb@);
        }
        None
    }

    /// Number of merged bytes.
    pub fn size(&self) -> (r: usize)
        ensures
            r == self.data().len(),
    {
        self.buffer.len()
    }

    /// When the group was started.
    pub fn created_at(&self) -> (r: &Instant) {
        &self.created_at
    }
}

} // verus!

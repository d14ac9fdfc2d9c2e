//! The snapshot store: the watcher's memory of the last observed
//! modification timestamp of every known path.
//!
//! The store is a sequence of `(path, timestamp)` entries with pairwise
//! distinct paths; its abstract value is the `Map` from each path to its
//! timestamp.

use vstd::prelude::*;

verus! {

/// The map a sequence of entries denotes, later entries winning.
spec fn map_of(es: Seq<(String, u64)>) -> Map<Seq<char>, u64>
    decreases es.len(),
{
    if es.len() == 0 {
        Map::empty()
    } else {
        map_of(es.drop_last()).insert(es.last().0@, es.last().1)
    }
}

/// No two entries carry the same path.
spec fn unique_keys(es: Seq<(String, u64)>) -> bool {
    forall|i: int, j: int| 0 <= i < j < es.len() ==> es[i].0@ != es[j].0@
}

/// A key is in the map exactly when some entry carries it.
proof fn lemma_map_of_contains(es: Seq<(String, u64)>)
    ensures
        forall|p: Seq<char>|
            #[trigger] map_of(es).contains_key(p)
                <==> exists|i: int| 0 <= i < es.len() && #[trigger] es[i].0@ == p,
    decreases es.len(),
{
    if es.len() > 0 {
        lemma_map_of_contains(es.drop_last());
        assert forall|p: Seq<char>| #[trigger] map_of(es).contains_key(p)
            implies exists|i: int| 0 <= i < es.len() && #[trigger] es[i].0@ == p by {
            if p == es.last().0@ {
                assert(es[es.len() - 1].0@ == p);
            } else {
                assert(map_of(es.drop_last()).contains_key(p));
                let i = choose|i: int|
                    0 <= i < es.drop_last().len() && #[trigger] es.drop_last()[i].0@ == p;
                assert(es.drop_last()[i] == es[i]);
                assert(es[i].0@ == p);
            }
        }
        assert forall|p: Seq<char>|
            (exists|i: int| 0 <= i < es.len() && #[trigger] es[i].0@ == p)
            implies #[trigger] map_of(es).contains_key(p) by {
            let i = choose|i: int| 0 <= i < es.len() && #[trigger] es[i].0@ == p;
            if i < es.len() - 1 {
                assert(es.drop_last()[i] == es[i]);
                assert(es.drop_last()[i].0@ == p);
                assert(map_of(es.drop_last()).contains_key(p));
            }
        }
    }
}

/// With distinct paths, the entry at `i` gives the map's value at its path.
proof fn lemma_map_of_index(es: Seq<(String, u64)>, i: int)
    requires
        unique_keys(es),
        0 <= i < es.len(),
    ensures
        map_of(es).contains_key(es[i].0@),
        map_of(es)[es[i].0@] == es[i].1,
    decreases es.len(),
{
    if i == es.len() - 1 {
    } else {
        assert(unique_keys(es.drop_last()));
        lemma_map_of_index(es.drop_last(), i);
        assert(es[i].0@ != es.last().0@);
    }
}

/// Removing the entry at `j` removes exactly its path from the map.
proof fn lemma_map_of_remove_at(es: Seq<(String, u64)>, j: int)
    requires
        unique_keys(es),
        0 <= j < es.len(),
    ensures
        unique_keys(es.remove(j)),
        map_of(es.remove(j)) == map_of(es).remove(es[j].0@),
    decreases es.len(),
{
    let r = es.remove(j);
    assert(unique_keys(r)) by {
        assert forall|a: int, b: int| 0 <= a < b < r.len() implies r[a].0@ != r[b].0@ by {
            let a0: int = if a < j { a } else { a + 1 };
            let b0: int = if b < j { b } else { b + 1 };
            assert(r[a] == es[a0]);
            assert(r[b] == es[b0]);
        }
    }
    lemma_map_of_contains(es.drop_last());
    if j == es.len() - 1 {
        assert(r =~= es.drop_last());
        assert(!map_of(es.drop_last()).contains_key(es[j].0@));
        assert(map_of(es.remove(j)) =~= map_of(es).remove(es[j].0@));
    } else {
        assert(unique_keys(es.drop_last()));
        lemma_map_of_remove_at(es.drop_last(), j);
        assert(r.drop_last() =~= es.drop_last().remove(j));
        assert(r.last() == es.last());
        assert(es[j].0@ != es.last().0@);
        assert(map_of(es.remove(j)) =~= map_of(es).remove(es[j].0@));
    }
}

/// Pushing an entry whose path no other entry carries inserts its pair.
proof fn lemma_map_of_push(es: Seq<(String, u64)>, e: (String, u64))
    requires
        unique_keys(es),
        forall|i: int| 0 <= i < es.len() ==> es[i].0@ != e.0@,
    ensures
        unique_keys(es.push(e)),
        map_of(es.push(e)) == map_of(es).insert(e.0@, e.1),
{
    assert(es.push(e).drop_last() =~= es);
    assert(es.push(e).last() == e);
}

/// The watcher's memory: each known path mapped to the modification
/// timestamp it carried when last observed.
pub struct SnapshotStore {
    entries: Vec<(String, u64)>,
}

impl View for SnapshotStore {
    type V = Map<Seq<char>, u64>;

    closed spec fn view(&self) -> Map<Seq<char>, u64> {
        map_of(self.entries@)
    }
}

impl SnapshotStore {
    /// The store's internal invariant: no path occurs twice.
    pub closed spec fn wf(&self) -> bool {
        unique_keys(self.entries@)
    }

    /// An empty store: no path is known.
    pub fn new() -> (s: SnapshotStore)
        ensures
            s@ == Map::<Seq<char>, u64>::empty(),
            s.wf(),
    {
        SnapshotStore { entries: Vec::new() }
    }

    /// The stored timestamp of `path`, if the path is known.
    pub fn get(&self, path: &String) -> (r: Option<u64>)
        requires
            self.wf(),
        ensures
            r == (if self@.contains_key(path@) {
                Some(self@[path@])
            } else {
                None::<u64>
            }),
    {
        let n = self.entries.len();
        let mut i: usize = 0;
        while i < n
            invariant
                n == self.entries@.len(),
                i <= n,
                self.wf(),
                forall|k: int| 0 <= k < i ==> self.entries@[k].0@ != path@,
            decreases n - i,
        {
            if self.entries[i].0 == *path {
                proof {
                    lemma_map_of_index(self.entries@, i as int);
                }
                return Some(self.entries[i].1);
            }
            i += 1;
        }
        proof {
            lemma_map_of_contains(self.entries@);
        }
        None
    }

    /// Whether `path` is known to the store.
    pub fn contains(&self, path: &String) -> (r: bool)
        requires
            self.wf(),
        ensures
            r == self@.contains_key(path@),
    {
        self.get(path).is_some()
    }

    /// Record `timestamp` for `path`, replacing any earlier record.
    pub fn insert_or_update(&mut self, path: String, timestamp: u64)
        requires
            old(self).wf(),
        ensures
            final(self).wf(),
            final(self)@ == old(self)@.insert(path@, timestamp),
    {
        self.remove(&path);
        proof {
            lemma_map_of_contains(self.entries@);
            assert forall|i: int| 0 <= i < self.entries@.len()
                implies self.entries@[i].0@ != path@ by {
                if self.entries@[i].0@ == path@ {
                    assert(map_of(self.entries@).contains_key(path@));
                }
            }
            lemma_map_of_push(self.entries@, (path, timestamp));
            assert(old(self)@.remove(path@).insert(path@, timestamp)
                =~= old(self)@.insert(path@, timestamp));
        }
        self.entries.push((path, timestamp));
    }

    /// Forget `path`; a no-op if the path is not known.
    pub fn remove(&mut self, path: &String)
        requires
            old(self).wf(),
        ensures
            final(self).wf(),
            final(self)@ == old(self)@.remove(path@),
    {
        let n = self.entries.len();
        let mut i: usize = 0;
        while i < n
            invariant
                n == self.entries@.len(),
                i <= n,
                self.wf(),
                self == old(self),
                forall|k: int| 0 <= k < i ==> self.entries@[k].0@ != path@,
            decreases n - i,
        {
            if self.entries[i].0 == *path {
                proof {
                    lemma_map_of_remove_at(self.entries@, i as int);
                }
                self.entries.remove(i);
                return;
            }
            i += 1;
        }
        proof {
            lemma_map_of_contains(self.entries@);
            assert(map_of(self.entries@) =~= map_of(self.entries@).remove(path@));
        }
    }

    /// A stable copy of the set of known paths: every known path appears
    /// exactly once, and nothing else does.
    pub fn known_paths(&self) -> (r: Vec<String>)
        requires
            self.wf(),
        ensures
            forall|p: Seq<char>|
                #[trigger] self@.contains_key(p)
                    <==> exists|i: int| 0 <= i < r@.len() && #[trigger] r@[i]@ == p,
            forall|i: int, j: int| 0 <= i < j < r@.len() ==> r@[i]@ != r@[j]@,
    {
        let mut r: Vec<String> = Vec::new();
        let n = self.entries.len();
        let mut i: usize = 0;
        while i < n
            invariant
                n == self.entries@.len(),
                i <= n,
                self.wf(),
                r@.len() == i,
                forall|k: int| 0 <= k < i ==> #[trigger] r@[k]@ == self.entries@[k].0@,
            decreases n - i,
        {
            r.push(self.entries[i].0.clone());
            i += 1;
        }
        proof {
            lemma_map_of_contains(self.entries@);
            assert forall|p: Seq<char>| #[trigger] self@.contains_key(p)
                implies exists|i: int| 0 <= i < r@.len() && #[trigger] r@[i]@ == p by {
                let i = choose|i: int|
                    0 <= i < self.entries@.len() && #[trigger] self.entries@[i].0@ == p;
                assert(r@[i]@ == p);
            }
            assert forall|p: Seq<char>|
                (exists|i: int| 0 <= i < r@.len() && #[trigger] r@[i]@ == p)
                implies #[trigger] self@.contains_key(p) by {
                let i = choose|i: int| 0 <= i < r@.len() && #[trigger] r@[i]@ == p;
                assert(self.entries@[i].0@ == p);
            }
        }
        r
    }
}

} // verus!

//! The storage engine: an in-memory ordered key/value store with snapshots,
//! forks that buffer changes, and patches that merge atomically.
use vstd::prelude::*;

use crate::keymap::{keys_ascending, lemma_prefix_map_full, lists_map, prefix_map, KeyMap};
use crate::keys::{copy_bytes, lex_lt};

verus! {

/// A single buffered mutation of one key.
pub enum Change {
    /// Put this value at the key.
    Put(Vec<u8>),
    /// Delete the key.
    Delete,
}

impl View for Change {
    /// `Some(v)` puts `v`, `None` deletes.
    type V = Option<Seq<u8>>;

    open spec fn view(&self) -> Option<Seq<u8>> {
        match self {
            Change::Put(v) => Some(v@),
            Change::Delete => None,
        }
    }
}

/// The store `base` with the buffered `changes` laid over it.
pub open spec fn apply_changes(
    base: Map<Seq<u8>, Seq<u8>>,
    changes: Map<Seq<u8>, Option<Seq<u8>>>,
) -> Map<Seq<u8>, Seq<u8>> {
    Map::new(
        |k: Seq<u8>|
            if changes.contains_key(k) {
                changes[k] is Some
            } else {
                base.contains_key(k)
            },
        |k: Seq<u8>|
            if changes.contains_key(k) {
                changes[k].unwrap()
            } else {
                base[k]
            },
    )
}

/// The part of the store whose keys are not below `from`.
pub open spec fn from_key(m: Map<Seq<u8>, Seq<u8>>, from: Seq<u8>) -> Map<Seq<u8>, Seq<u8>> {
    m.restrict(Set::new(|k: Seq<u8>| !lex_lt(k, from)))
}

proof fn lemma_apply_put(
    base: Map<Seq<u8>, Seq<u8>>,
    changes: Map<Seq<u8>, Option<Seq<u8>>>,
    k: Seq<u8>,
    c: Option<Seq<u8>>,
)
    ensures
        c is Some ==> apply_changes(base, changes.insert(k, c)) == apply_changes(
            base,
            changes,
        ).insert(k, c.unwrap()),
        c is None ==> apply_changes(base, changes.insert(k, c)) == apply_changes(
            base,
            changes,
        ).remove(k),
{
    if c is Some {
        assert(apply_changes(base, changes.insert(k, c)) =~= apply_changes(base, changes).insert(
            k,
            c.unwrap(),
        ));
    } else {
        assert(apply_changes(base, changes.insert(k, c)) =~= apply_changes(base, changes).remove(
            k,
        ));
    }
}

/// Merging into a store never fails in memory; the error stands for an
/// irrecoverable I/O condition of a persistent store.
#[derive(Clone, Copy, Debug, PartialEq, Eq, Structural)]
pub enum StorageError {
    Io,
}

/// An in-memory key/value store; keys are kept in lexicographic order.
pub struct MemoryDB {
    map: KeyMap<Vec<u8>>,
}

impl View for MemoryDB {
    type V = Map<Seq<u8>, Seq<u8>>;

    closed spec fn view(&self) -> Map<Seq<u8>, Seq<u8>> {
        self.map@
    }
}

impl MemoryDB {
    /// An empty store.
    pub fn new() -> (r: MemoryDB)
        ensures
            r@ == Map::<Seq<u8>, Seq<u8>>::empty(),
    {
        MemoryDB { map: KeyMap::new() }
    }

    /// A frozen copy of the current contents: later merges into `self` do not
    /// change it.
    pub fn snapshot(&self) -> (r: MemoryDB)
        ensures
            r@ == self@,
    {
        let n = self.map.len();
        let ghost items = self.map.items();
        let mut copy: KeyMap<Vec<u8>> = KeyMap::new();
        let mut i: usize = 0;
        while i < n
            invariant
                n == items.len(),
                items == self.map.items(),
                0 <= i <= n,
                copy@ == prefix_map(items, i as int),
            decreases n - i,
        {
            let e = self.map.entry(i);
            copy.insert(copy_bytes(e.0.as_slice()), copy_bytes(e.1.as_slice()));
            i = i + 1;
        }
        proof {
            lemma_prefix_map_full(items, self@);
        }
        MemoryDB { map: copy }
    }

    /// A fork over the current contents with no changes buffered yet.
    pub fn fork(&self) -> (r: Fork)
        ensures
            r.base() == self@,
            r.changes() == Map::<Seq<u8>, Option<Seq<u8>>>::empty(),
            r@ == self@,
    {
        let r = Fork { base: self.snapshot(), changes: KeyMap::new() };
        assert(r@ =~= self@);
        r
    }

    /// Applies every change of the patch: puts insert or overwrite, deletes
    /// remove the key.
    pub fn merge(&mut self, patch: Patch) -> (r: Result<(), StorageError>)
        ensures
            r is Ok,
            final(self)@ == apply_changes(old(self)@, patch@),
    {
        let n = patch.changes.len();
        let ghost items = patch.changes.items();
        let ghost start = self@;
        let mut i: usize = 0;
        while i < n
            invariant
                n == items.len(),
                items == patch.changes.items(),
                0 <= i <= n,
                self@ == apply_changes(start, prefix_map(items, i as int)),
            decreases n - i,
        {
            let e = patch.changes.entry(i);
            proof {
                lemma_apply_put(start, prefix_map(items, i as int), items[i as int].0, items[i as int].1);
            }
            match &e.1 {
                Change::Put(v) => {
                    self.map.insert(copy_bytes(e.0.as_slice()), copy_bytes(v.as_slice()));
                },
                Change::Delete => {
                    self.map.remove(e.0.as_slice());
                },
            }
            i = i + 1;
        }
        proof {
            lemma_prefix_map_full(items, patch@);
        }
        Ok(())
    }

    /// The value stored at `key`, if any.
    pub fn get(&self, key: &[u8]) -> (r: Option<Vec<u8>>)
        ensures
            r is Some == self@.contains_key(key@),
            r is Some ==> r.unwrap()@ == self@[key@],
    {
        match self.map.get(key) {
            Some(v) => Some(copy_bytes(v.as_slice())),
            None => None,
        }
    }

    /// Whether a value is stored at `key`.
    pub fn contains(&self, key: &[u8]) -> (r: bool)
        ensures
            r == self@.contains_key(key@),
    {
        self.map.contains(key)
    }

    /// A cursor over the entries whose keys are not below `from`, in
    /// ascending key order.
    pub fn iter(&self, from: &[u8]) -> (r: MemoryDBIter)
        ensures
            keys_ascending(r.remaining()),
            lists_map(r.remaining(), from_key(self@, from@)),
    {
        let n = self.map.len();
        let ghost items = self.map.items();
        let mut out: Vec<(Vec<u8>, Vec<u8>)> = Vec::new();
        let mut i: usize = 0;
        while i < n
            invariant
                n == items.len(),
                items == self.map.items(),
                keys_ascending(items),
                lists_map(items, self@),
                0 <= i <= n,
                keys_ascending(pairs_view(out@)),
                forall|t: int|
                    0 <= t < out@.len() ==> {
                        let p = #[trigger] pairs_view(out@)[t];
                        &&& self@.contains_key(p.0)
                        &&& self@[p.0] == p.1
                        &&& !lex_lt(p.0, from@)
                        &&& forall|j: int| i <= j < n ==> lex_lt(p.0, #[trigger] items[j].0)
                    },
                forall|j: int|
                    0 <= j < i && !lex_lt(#[trigger] items[j].0, from@) ==> exists|t: int|
                        0 <= t < out@.len() && pairs_view(out@)[t].0 == items[j].0,
            decreases n - i,
        {
            let e = self.map.entry(i);
            let ghost before = out@;
            if !crate::keys::key_below(e.0.as_slice(), from) {
                out.push((copy_bytes(e.0.as_slice()), copy_bytes(e.1.as_slice())));
                proof {
                    assert(pairs_view(out@) =~= pairs_view(before).push(items[i as int]));
                    assert(pairs_view(out@)[before.len() as int] == items[i as int]);
                }
            }
            proof {
                assert forall|t: int| 0 <= t < out@.len() implies {
                    let p = #[trigger] pairs_view(out@)[t];
                    &&& self@.contains_key(p.0)
                    &&& self@[p.0] == p.1
                    &&& !lex_lt(p.0, from@)
                    &&& forall|j: int| i + 1 <= j < n ==> lex_lt(p.0, #[trigger] items[j].0)
                } by {
                    if t < before.len() {
                        assert(pairs_view(out@)[t] == pairs_view(before)[t]);
                    } else {
                        assert(pairs_view(out@)[t] == items[i as int]);
                        assert(self@.contains_key(items[i as int].0));
                        assert forall|j: int| i + 1 <= j < n implies lex_lt(
                            items[i as int].0,
                            #[trigger] items[j].0,
                        ) by {
                            assert(lex_lt(items[i as int].0, items[j].0));
                        }
                    }
                }
                assert forall|j: int|
                    0 <= j < i + 1 && !lex_lt(#[trigger] items[j].0, from@) implies exists|t: int|
                    0 <= t < out@.len() && pairs_view(out@)[t].0 == items[j].0 by {
                    if j < i {
                        let t = choose|t: int|
                            0 <= t < before.len() && pairs_view(before)[t].0 == items[j].0;
                        assert(pairs_view(out@)[t] == pairs_view(before)[t]);
                    } else {
                        assert(pairs_view(out@)[before.len() as int] == items[i as int]);
                    }
                }
            }
            i = i + 1;
        }
        let r = MemoryDBIter { items: out, pos: 0 };
        assert(r.remaining() =~= pairs_view(out@));
        proof {
            let m = from_key(self@, from@);
            assert forall|k: Seq<u8>| #[trigger] m.contains_key(k) implies exists|t: int|
                0 <= t < r.remaining().len() && r.remaining()[t].0 == k by {
                let j = choose|j: int| 0 <= j < items.len() && items[j].0 == k;
                assert(!lex_lt(items[j].0, from@));
            }
        }
        r
    }
}

/// The pairs of a list of owned entries, as byte sequences.
pub open spec fn pairs_view(s: Seq<(Vec<u8>, Vec<u8>)>) -> Seq<(Seq<u8>, Seq<u8>)> {
    s.map_values(|e: (Vec<u8>, Vec<u8>)| (e.0@, e.1@))
}

/// A single-pass cursor over a store's entries, with look-ahead.
pub struct MemoryDBIter {
    items: Vec<(Vec<u8>, Vec<u8>)>,
    pos: usize,
}

impl MemoryDBIter {
    /// The entries not yet handed out, in order.
    pub closed spec fn remaining(&self) -> Seq<(Seq<u8>, Seq<u8>)> {
        pairs_view(self.items@).subrange(self.pos as int, self.items@.len() as int)
    }

    #[verifier::type_invariant]
    closed spec fn well_formed(&self) -> bool {
        self.pos <= self.items@.len()
    }

    /// Hands out the next entry and moves past it.
    pub fn next(&mut self) -> (r: Option<(Vec<u8>, Vec<u8>)>)
        ensures
            old(self).remaining().len() == 0 ==> r is None && final(self).remaining() == old(
                self,
            ).remaining(),
            old(self).remaining().len() > 0 ==> r is Some && (r.unwrap().0@, r.unwrap().1@)
                == old(self).remaining()[0] && final(self).remaining() == old(
                self,
            ).remaining().drop_first(),
    {
        proof {
            use_type_invariant(&*self);
        }
        if self.pos < self.items.len() {
            let e = &self.items[self.pos];
            let r = (copy_bytes(e.0.as_slice()), copy_bytes(e.1.as_slice()));
            self.pos = self.pos + 1;
            assert(self.remaining() =~= old(self).remaining().drop_first());
            Some(r)
        } else {
            None
        }
    }

    /// The entry that `next` would hand out, without moving past it.
    pub fn peek(&mut self) -> (r: Option<(Vec<u8>, Vec<u8>)>)
        ensures
            final(self).remaining() == old(self).remaining(),
            old(self).remaining().len() == 0 ==> r is None,
            old(self).remaining().len() > 0 ==> r is Some && (r.unwrap().0@, r.unwrap().1@)
                == old(self).remaining()[0],
    {
        proof {
            use_type_invariant(&*self);
        }
        if self.pos < self.items.len() {
            let e = &self.items[self.pos];
            Some((copy_bytes(e.0.as_slice()), copy_bytes(e.1.as_slice())))
        } else {
            None
        }
    }
}

/// A writable overlay on a frozen copy of the store: reads see the buffered
/// changes first, then the copy.
pub struct Fork {
    base: MemoryDB,
    changes: KeyMap<Change>,
}

impl View for Fork {
    type V = Map<Seq<u8>, Seq<u8>>;

    open spec fn view(&self) -> Map<Seq<u8>, Seq<u8>> {
        apply_changes(self.base(), self.changes())
    }
}

impl Fork {
    /// The contents of the store when the fork was taken.
    pub closed spec fn base(&self) -> Map<Seq<u8>, Seq<u8>> {
        self.base@
    }

    /// The changes buffered so far.
    pub closed spec fn changes(&self) -> Map<Seq<u8>, Option<Seq<u8>>> {
        self.changes@
    }

    /// The value at `key` as the fork sees it.
    pub fn get(&self, key: &[u8]) -> (r: Option<Vec<u8>>)
        ensures
            r is Some == self@.contains_key(key@),
            r is Some ==> r.unwrap()@ == self@[key@],
    {
        match self.changes.get(key) {
            Some(Change::Put(v)) => Some(copy_bytes(v.as_slice())),
            Some(Change::Delete) => None,
            None => self.base.get(key),
        }
    }

    /// Whether the fork sees a value at `key`.
    pub fn contains(&self, key: &[u8]) -> (r: bool)
        ensures
            r == self@.contains_key(key@),
    {
        match self.changes.get(key) {
            Some(Change::Put(_)) => true,
            Some(Change::Delete) => false,
            None => self.base.contains(key),
        }
    }

    /// Buffers a put of `value` at `key`.
    pub fn put(&mut self, key: Vec<u8>, value: Vec<u8>)
        ensures
            final(self).base() == old(self).base(),
            final(self).changes() == old(self).changes().insert(key@, Some(value@)),
            final(self)@ == old(self)@.insert(key@, value@),
    {
        proof {
            lemma_apply_put(self.base(), self.changes(), key@, Some(value@));
        }
        self.changes.insert(key, Change::Put(value));
    }

    /// Buffers a deletion of `key`.
    pub fn remove(&mut self, key: &[u8])
        ensures
            final(self).base() == old(self).base(),
            final(self).changes() == old(self).changes().insert(key@, None),
            final(self)@ == old(self)@.remove(key@),
    {
        proof {
            lemma_apply_put(self.base(), self.changes(), key@, None);
        }
        self.changes.insert(copy_bytes(key), Change::Delete);
    }

    /// Finishes the fork: its buffered changes, ready to merge.
    pub fn into_patch(self) -> (r: Patch)
        ensures
            r@ == self.changes(),
    {
        Patch { changes: self.changes }
    }
}

/// The finished change set of a fork.
pub struct Patch {
    changes: KeyMap<Change>,
}

impl View for Patch {
    type V = Map<Seq<u8>, Option<Seq<u8>>>;

    closed spec fn view(&self) -> Map<Seq<u8>, Option<Seq<u8>>> {
        self.changes@
    }
}

/// A snapshot is frozen: after a patch is merged into the store it was taken
/// from, the snapshot still reads, key by key, what the store held before,
/// and none of the patch's changes.
pub proof fn lemma_snapshot_isolation(
    before: MemoryDB,
    snapshot: MemoryDB,
    patch: Patch,
    after: MemoryDB,
)
    requires
        snapshot@ == before@,
        after@ == apply_changes(before@, patch@),
    ensures
        forall|k: Seq<u8>| #[trigger]
            snapshot@.contains_key(k) == before@.contains_key(k) && (before@.contains_key(k)
                ==> snapshot@[k] == before@[k]),
        forall|k: Seq<u8>|
            #[trigger] patch@.contains_key(k) ==> after@.contains_key(k) == (patch@[k] is Some),
{
}

/// Two snapshots taken with no merge in between hold the same contents.
pub proof fn lemma_snapshots_agree(db: MemoryDB, first: MemoryDB, second: MemoryDB)
    requires
        first@ == db@,
        second@ == db@,
    ensures
        first@ == second@,
{
}

} // verus!

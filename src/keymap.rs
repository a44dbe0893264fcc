//! An ordered map from byte-string keys to values, kept as a sorted vector.
use vstd::prelude::*;

use crate::keys::{compare_keys, lemma_lex_order, lex_lt, KeyOrder};

verus! {

/// Keys strictly ascending in lexicographic order (hence unique).
pub open spec fn keys_ascending<T>(s: Seq<(Seq<u8>, T)>) -> bool {
    forall|i: int, j: int| 0 <= i < j < s.len() ==> lex_lt(#[trigger] s[i].0, #[trigger] s[j].0)
}

/// The entries of `s`, viewed as a map.
pub open spec fn lists_map<T>(s: Seq<(Seq<u8>, T)>, m: Map<Seq<u8>, T>) -> bool {
    &&& forall|i: int| 0 <= i < s.len() ==> #[trigger] m.contains_key(s[i].0) && m[s[i].0] == s[i].1
    &&& forall|k: Seq<u8>| #[trigger] m.contains_key(k) ==> exists|i: int| 0 <= i < s.len() && s[i].0 == k
}

/// A map from byte-string keys to values whose entries are kept in ascending
/// key order; its view is the map it holds.
pub struct KeyMap<V: View> {
    entries: Vec<(Vec<u8>, V)>,
    m: Ghost<Map<Seq<u8>, V::V>>,
}

impl<V: View> View for KeyMap<V> {
    type V = Map<Seq<u8>, V::V>;

    closed spec fn view(&self) -> Map<Seq<u8>, V::V> {
        self.m@
    }
}

impl<V: View> KeyMap<V> {
    /// The entries in ascending key order.
    pub closed spec fn items(&self) -> Seq<(Seq<u8>, V::V)> {
        self.entries@.map_values(|e: (Vec<u8>, V)| (e.0@, e.1@))
    }

    #[verifier::type_invariant]
    closed spec fn well_formed(&self) -> bool {
        &&& keys_ascending(self.items())
        &&& lists_map(self.items(), self.m@)
    }

    pub fn new() -> (r: Self)
        ensures
            r@ == Map::<Seq<u8>, V::V>::empty(),
            r.items().len() == 0,
    {
        let r = KeyMap { entries: Vec::new(), m: Ghost(Map::empty()) };
        assert(r.items() =~= Seq::empty());
        r
    }

    /// The number of entries; the entries are listed in ascending key order
    /// and are exactly the map's.
    pub fn len(&self) -> (r: usize)
        ensures
            r == self.items().len(),
            keys_ascending(self.items()),
            lists_map(self.items(), self@),
    {
        proof {
            use_type_invariant(self);
        }
        self.entries.len()
    }

    pub fn entry(&self, i: usize) -> (r: &(Vec<u8>, V))
        requires
            i < self.items().len(),
        ensures
            r.0@ == self.items()[i as int].0,
            r.1@ == self.items()[i as int].1,
    {
        &self.entries[i]
    }

    /// The first position whose key is not below `key`, and whether it holds `key`.
    fn find(&self, key: &[u8]) -> (r: (bool, usize))
        ensures
            r.1 <= self.items().len(),
            forall|j: int| 0 <= j < r.1 ==> lex_lt(#[trigger] self.items()[j].0, key@),
            r.0 ==> r.1 < self.items().len() && self.items()[r.1 as int].0 == key@,
            !r.0 ==> forall|j: int|
                r.1 <= j < self.items().len() ==> lex_lt(key@, #[trigger] self.items()[j].0),
            r.0 == self@.contains_key(key@),
    {
        proof {
            use_type_invariant(self);
        }
        let mut i: usize = 0;
        while i < self.entries.len()
            invariant
                0 <= i <= self.items().len(),
                self.items().len() == self.entries@.len(),
                keys_ascending(self.items()),
                lists_map(self.items(), self.m@),
                forall|j: int| 0 <= j < i ==> lex_lt(#[trigger] self.items()[j].0, key@),
            decreases self.entries@.len() - i,
        {
            let c = compare_keys(self.entries[i].0.as_slice(), key);
            assert(self.items()[i as int].0 == self.entries@[i as int].0@);
            match c {
                KeyOrder::Less => {},
                KeyOrder::Equal => {
                    assert(self.m@.contains_key(self.items()[i as int].0));
                    return (true, i);
                },
                KeyOrder::Greater => {
                    assert forall|j: int| i <= j < self.items().len() implies lex_lt(
                        key@,
                        #[trigger] self.items()[j].0,
                    ) by {
                        lemma_lex_order(key@, self.items()[i as int].0, self.items()[j].0);
                    }
                    assert forall|j: int| 0 <= j < self.items().len() implies self.items()[j].0
                        != key@ by {
                        lemma_lex_order(key@, self.items()[j].0, key@);
                    }
                    assert(!self.m@.contains_key(key@));
                    return (false, i);
                },
            }
            i = i + 1;
        }
        assert forall|j: int| 0 <= j < self.items().len() implies self.items()[j].0 != key@ by {
            lemma_lex_order(key@, self.items()[j].0, key@);
        }
        assert(!self.m@.contains_key(key@));
        (false, i)
    }

    pub fn contains(&self, key: &[u8]) -> (r: bool)
        ensures
            r == self@.contains_key(key@),
    {
        self.find(key).0
    }

    pub fn get(&self, key: &[u8]) -> (r: Option<&V>)
        ensures
            r.is_some() == self@.contains_key(key@),
            r.is_some() ==> r.unwrap()@ == self@[key@],
    {
        proof {
            use_type_invariant(self);
        }
        let (found, i) = self.find(key);
        if found {
            assert(self.items()[i as int].1 == self.entries@[i as int].1@);
            Some(&self.entries[i].1)
        } else {
            None
        }
    }

    pub fn insert(&mut self, key: Vec<u8>, value: V)
        ensures
            final(self)@ == old(self)@.insert(key@, value@),
    {
        proof {
            use_type_invariant(&*self);
        }
        let (found, i) = self.find(key.as_slice());
        let ghost old_items = self.items();
        let ghost new_m = self.m@.insert(key@, value@);
        let mut whole = KeyMap::new();
        std::mem::swap(self, &mut whole);
        let mut entries = whole.entries;
        assert(entries@.map_values(|e: (Vec<u8>, V)| (e.0@, e.1@)) == old_items);
        let ghost kv = key@;
        let ghost vv = value@;
        if found {
            entries.set(i, (key, value));
        } else {
            entries.insert(i, (key, value));
        }
        let ghost items = entries@.map_values(|e: (Vec<u8>, V)| (e.0@, e.1@));
        proof {
            if found {
                assert(items =~= old_items.update(i as int, (kv, vv)));
                assert forall|j: int| 0 <= j < items.len() implies #[trigger] new_m.contains_key(
                    items[j].0,
                ) && new_m[items[j].0] == items[j].1 by {
                    if j != i {
                        assert(items[j] == old_items[j]);
                        lemma_lex_order(old_items[j].0, kv, kv);
                        lemma_lex_order(kv, old_items[j].0, kv);
                    }
                }
                assert forall|k: Seq<u8>| #[trigger] new_m.contains_key(k) implies exists|j: int|
                    0 <= j < items.len() && items[j].0 == k by {
                    if k != kv {
                        let j = choose|j: int| 0 <= j < old_items.len() && old_items[j].0 == k;
                        assert(items[j].0 == k);
                    } else {
                        assert(items[i as int].0 == k);
                    }
                }
                assert forall|a: int, b: int| 0 <= a < b < items.len() implies lex_lt(
                    #[trigger] items[a].0,
                    #[trigger] items[b].0,
                ) by {
                    assert(old_items[a].0 == items[a].0 && old_items[b].0 == items[b].0);
                }
            } else {
                assert(items =~= old_items.insert(i as int, (kv, vv)));
                assert forall|j: int| 0 <= j < old_items.len() implies #[trigger] old_items[j].0
                    != kv by {
                    lemma_lex_order(old_items[j].0, kv, kv);
                    lemma_lex_order(kv, old_items[j].0, kv);
                }
                assert forall|j: int| 0 <= j < items.len() implies #[trigger] new_m.contains_key(
                    items[j].0,
                ) && new_m[items[j].0] == items[j].1 by {
                    if j < i {
                        assert(items[j] == old_items[j]);
                    } else if j > i {
                        assert(items[j] == old_items[j - 1]);
                    }
                }
                assert forall|k: Seq<u8>| #[trigger] new_m.contains_key(k) implies exists|j: int|
                    0 <= j < items.len() && items[j].0 == k by {
                    if k != kv {
                        let j = choose|j: int| 0 <= j < old_items.len() && old_items[j].0 == k;
                        if j < i {
                            assert(items[j].0 == k);
                        } else {
                            assert(items[j + 1].0 == k);
                        }
                    } else {
                        assert(items[i as int].0 == k);
                    }
                }
                assert forall|a: int, b: int| 0 <= a < b < items.len() implies lex_lt(
                    #[trigger] items[a].0,
                    #[trigger] items[b].0,
                ) by {
                    if b < i {
                    } else if b == i {
                    } else if a < i {
                        lemma_lex_order(items[a].0, kv, items[b].0);
                    } else if a == i {
                    } else {
                        assert(items[a].0 == old_items[a - 1].0);
                        assert(items[b].0 == old_items[b - 1].0);
                    }
                }
            }
        }
        *self = KeyMap { entries, m: Ghost(new_m) };
    }

    pub fn remove(&mut self, key: &[u8])
        ensures
            final(self)@ == old(self)@.remove(key@),
    {
        proof {
            use_type_invariant(&*self);
        }
        let (found, i) = self.find(key);
        if found {
            let ghost old_items = self.items();
            let ghost new_m = self.m@.remove(key@);
            let mut whole = KeyMap::new();
        std::mem::swap(self, &mut whole);
        let mut entries = whole.entries;
            assert(entries@.map_values(|e: (Vec<u8>, V)| (e.0@, e.1@)) == old_items);
            let _ = entries.remove(i);
            let ghost items = entries@.map_values(|e: (Vec<u8>, V)| (e.0@, e.1@));
            proof {
                assert(items =~= old_items.remove(i as int));
                assert forall|j: int| 0 <= j < items.len() implies #[trigger] new_m.contains_key(
                    items[j].0,
                ) && new_m[items[j].0] == items[j].1 by {
                    if j < i {
                        assert(items[j] == old_items[j]);
                        assert(lex_lt(old_items[j].0, old_items[i as int].0));
                        lemma_lex_order(items[j].0, key@, key@);
                    } else {
                        assert(items[j] == old_items[j + 1]);
                        assert(lex_lt(old_items[i as int].0, old_items[j + 1].0));
                        lemma_lex_order(key@, items[j].0, key@);
                    }
                }
                assert forall|k: Seq<u8>| #[trigger] new_m.contains_key(k) implies exists|j: int|
                    0 <= j < items.len() && items[j].0 == k by {
                    let j = choose|j: int| 0 <= j < old_items.len() && old_items[j].0 == k;
                    if j < i {
                        assert(items[j].0 == k);
                    } else {
                        assert(items[j - 1].0 == k);
                    }
                }
                assert forall|a: int, b: int| 0 <= a < b < items.len() implies lex_lt(
                    #[trigger] items[a].0,
                    #[trigger] items[b].0,
                ) by {
                    if b < i {
                    } else if a < i {
                        assert(items[b] == old_items[b + 1]);
                    } else {
                        assert(items[a] == old_items[a + 1]);
                        assert(items[b] == old_items[b + 1]);
                    }
                }
            }
            *self = KeyMap { entries, m: Ghost(new_m) };
        } else {
            assert(self.m@.remove(key@) =~= self.m@);
        }
    }
}

} // verus!

verus! {

/// The map built by inserting the first `n` entries of `s` in order.
pub open spec fn prefix_map<T>(s: Seq<(Seq<u8>, T)>, n: int) -> Map<Seq<u8>, T>
    decreases n,
{
    if n <= 0 {
        Map::empty()
    } else {
        prefix_map(s, n - 1).insert(s[n - 1].0, s[n - 1].1)
    }
}

/// Two entries at different positions of an ascending list have different keys.
pub proof fn lemma_ascending_distinct<T>(s: Seq<(Seq<u8>, T)>, i: int, j: int)
    requires
        keys_ascending(s),
        0 <= i < s.len(),
        0 <= j < s.len(),
        i != j,
    ensures
        s[i].0 != s[j].0,
{
    lemma_lex_order(s[i].0, s[j].0, s[i].0);
    lemma_lex_order(s[j].0, s[i].0, s[j].0);
}

proof fn lemma_prefix_map_entries<T>(s: Seq<(Seq<u8>, T)>, n: int)
    requires
        keys_ascending(s),
        0 <= n <= s.len(),
    ensures
        forall|j: int|
            0 <= j < n ==> #[trigger] prefix_map(s, n).contains_key(s[j].0) && prefix_map(
                s,
                n,
            )[s[j].0] == s[j].1,
        forall|k: Seq<u8>| #[trigger]
            prefix_map(s, n).contains_key(k) ==> exists|j: int| 0 <= j < n && s[j].0 == k,
    decreases n,
{
    if n > 0 {
        lemma_prefix_map_entries(s, n - 1);
        assert forall|j: int| 0 <= j < n - 1 implies #[trigger] s[j].0 != s[n - 1].0 by {
            lemma_ascending_distinct(s, j, n - 1);
        }
        assert forall|j: int| 0 <= j < n implies #[trigger] prefix_map(s, n).contains_key(s[j].0)
            && prefix_map(s, n)[s[j].0] == s[j].1 by {
            if j < n - 1 {
                assert(prefix_map(s, n - 1).contains_key(s[j].0));
            }
        }
        assert forall|k: Seq<u8>| #[trigger]
            prefix_map(s, n).contains_key(k) implies exists|j: int| 0 <= j < n && s[j].0 == k by {
            if k != s[n - 1].0 {
                assert(prefix_map(s, n - 1).contains_key(k));
            }
        }
    }
}

/// Inserting all entries of an ascending list builds the map it lists.
pub proof fn lemma_prefix_map_full<T>(s: Seq<(Seq<u8>, T)>, m: Map<Seq<u8>, T>)
    requires
        keys_ascending(s),
        lists_map(s, m),
    ensures
        prefix_map(s, s.len() as int) == m,
{
    lemma_prefix_map_entries(s, s.len() as int);
    let p = prefix_map(s, s.len() as int);
    assert forall|k: Seq<u8>| p.contains_key(k) <==> m.contains_key(k) by {
        if m.contains_key(k) {
            let j = choose|j: int| 0 <= j < s.len() && s[j].0 == k;
            assert(p.contains_key(s[j].0));
        }
        if p.contains_key(k) {
            let j = choose|j: int| 0 <= j < s.len() && s[j].0 == k;
            assert(m.contains_key(s[j].0));
        }
    }
    assert forall|k: Seq<u8>| p.contains_key(k) implies p[k] == m[k] by {
        let j = choose|j: int| 0 <= j < s.len() && s[j].0 == k;
        assert(m.contains_key(s[j].0));
    }
    assert(p =~= m);
}

} // verus!

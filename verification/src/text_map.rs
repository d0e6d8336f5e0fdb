//! A map from texts to values that keeps its keys in lexicographic order.
use crate::text::{
    chars_of, lemma_seq_less_irreflexive, lemma_seq_less_total, lemma_seq_less_transitive, seq_less,
    string_of, text_less,
};
use vstd::prelude::*;

verus! {

/// A map whose keys are texts, stored in increasing lexicographic order of
/// their characters, so that iteration follows that order.
#[derive(Debug)]
pub struct TextMap<V> {
    keys: Vec<Vec<char>>,
    values: Vec<V>,
}

/// Keys in strictly increasing order.
pub open spec fn strictly_sorted(keys: Seq<Seq<char>>) -> bool {
    forall|i: int, j: int| 0 <= i < j < keys.len() ==> seq_less(#[trigger] keys[i], #[trigger] keys[j])
}

impl<V> TextMap<V> {
    /// The keys, in their order.
    pub closed spec fn key_seq(&self) -> Seq<Seq<char>> {
        self.keys@.map_values(|k: Vec<char>| k@)
    }

    /// The values, in the order of their keys.
    pub closed spec fn value_seq(&self) -> Seq<V> {
        self.values@
    }

    #[verifier::type_invariant]
    pub closed spec fn well_formed(&self) -> bool {
        &&& self.keys@.len() == self.values@.len()
        &&& strictly_sorted(self.key_seq())
    }

    /// The number of entries.
    pub closed spec fn size(&self) -> nat {
        self.keys@.len()
    }

    /// The position of a key, when it is present.
    pub closed spec fn position(&self, key: Seq<char>) -> int {
        choose|i: int| 0 <= i < self.key_seq().len() && self.key_seq()[i] == key
    }

    /// The mathematical map of the entries.
    pub closed spec fn as_map(&self) -> Map<Seq<char>, V> {
        Map::new(|k: Seq<char>| self.key_seq().contains(k), |k: Seq<char>| self.value_seq()[self.position(k)])
    }

    /// The entries in key order.
    pub closed spec fn entries(&self) -> Seq<(Seq<char>, V)> {
        Seq::new(self.key_seq().len(), |i: int| (self.key_seq()[i], self.value_seq()[i]))
    }

    /// The keys are sorted, the entries agree with the map, and the map's
    /// keys are exactly the listed ones.
    pub proof fn lemma_shape(&self)
        requires
            self.well_formed(),
        ensures
            strictly_sorted(self.entries().map_values(|e: (Seq<char>, V)| e.0)),
            self.entries().len() == self.size(),
            forall|i: int| 0 <= i < self.entries().len() ==> #[trigger] self.as_map().dom().contains(self.entries()[i].0)
                && self.as_map()[self.entries()[i].0] == self.entries()[i].1,
            forall|k: Seq<char>| #[trigger] self.as_map().dom().contains(k) ==> exists|i: int|
                0 <= i < self.entries().len() && #[trigger] self.entries()[i].0 == k,
            self.as_map().dom().finite(),
            self.as_map().dom().len() == self.size(),
    {
        assert(self.entries().map_values(|e: (Seq<char>, V)| e.0) =~= self.key_seq());
        assert forall|i: int| 0 <= i < self.entries().len() implies #[trigger] self.as_map().dom().contains(self.entries()[i].0)
            && self.as_map()[self.entries()[i].0] == self.entries()[i].1 by {
            assert(self.key_seq()[i] == self.entries()[i].0);
            self.lemma_position(self.key_seq()[i], i);
        }
        assert forall|k: Seq<char>| #[trigger] self.as_map().dom().contains(k) implies exists|i: int|
            0 <= i < self.entries().len() && #[trigger] self.entries()[i].0 == k by {
            let i = choose|i: int| 0 <= i < self.key_seq().len() && self.key_seq()[i] == k;
            assert(self.entries()[i].0 == k);
        }
        lemma_sorted_no_duplicates(self.key_seq());
        self.key_seq().unique_seq_to_set();
        assert(self.as_map().dom() =~= self.key_seq().to_set());
    }

    /// The position of a present key is the index where it is stored.
    proof fn lemma_position(&self, key: Seq<char>, i: int)
        requires
            self.well_formed(),
            0 <= i < self.key_seq().len(),
            self.key_seq()[i] == key,
        ensures
            self.position(key) == i,
    {
        let p = self.position(key);
        assert(0 <= p < self.key_seq().len() && self.key_seq()[p] == key);
        if p < i {
            lemma_seq_less_irreflexive(key);
        } else if p > i {
            lemma_seq_less_irreflexive(key);
        }
    }

    /// An empty map.
    pub fn new() -> (m: TextMap<V>)
        ensures
            m.as_map() == Map::<Seq<char>, V>::empty(),
            m.size() == 0,
    {
        let m = TextMap { keys: Vec::new(), values: Vec::new() };
        assert(m.as_map() =~= Map::<Seq<char>, V>::empty());
        m
    }

    /// The number of entries.
    pub fn len(&self) -> (n: usize)
        ensures
            n == self.size(),
            n == self.as_map().dom().len(),
    {
        proof {
            use_type_invariant(self);
            self.lemma_shape();
        }
        self.keys.len()
    }

    /// Where `key` is or would go: the first position whose key is not less
    /// than `key`, and whether the key there equals it.
    fn locate(&self, key: &[char]) -> (found: (usize, bool))
        ensures
            found.0 <= self.key_seq().len(),
            forall|i: int| 0 <= i < found.0 ==> seq_less(#[trigger] self.key_seq()[i], key@),
            found.0 < self.key_seq().len() ==> !seq_less(self.key_seq()[found.0 as int], key@),
            found.1 == (found.0 < self.key_seq().len() && self.key_seq()[found.0 as int] == key@),
    {
        proof {
            use_type_invariant(self);
        }
        let mut i: usize = 0;
        while i < self.keys.len()
            invariant
                i <= self.keys@.len(),
                forall|j: int| 0 <= j < i ==> seq_less(#[trigger] self.key_seq()[j], key@),
            decreases self.keys.len() - i,
        {
            assert(self.key_seq()[i as int] == self.keys[i as int]@);
            if !text_less(self.keys[i].as_slice(), key) {
                let same = self.keys[i].len() == key.len() && !text_less(key, self.keys[i].as_slice());
                proof {
                    if !same && self.key_seq()[i as int] == key@ {
                        lemma_seq_less_irreflexive(key@);
                    }
                    if same && self.key_seq()[i as int] != key@ {
                        lemma_seq_less_total(key@, self.key_seq()[i as int]);
                    }
                }
                return (i, same);
            }
            i = i + 1;
        }
        (i, false)
    }

    /// A key not found where `locate` points is absent.
    proof fn lemma_absent(&self, key: Seq<char>, i: int)
        requires
            self.well_formed(),
            0 <= i <= self.key_seq().len(),
            forall|j: int| 0 <= j < i ==> seq_less(#[trigger] self.key_seq()[j], key),
            i < self.key_seq().len() ==> !seq_less(self.key_seq()[i], key),
            !(i < self.key_seq().len() && self.key_seq()[i] == key),
        ensures
            !self.key_seq().contains(key),
    {
        if self.key_seq().contains(key) {
            let j = choose|j: int| 0 <= j < self.key_seq().len() && self.key_seq()[j] == key;
            if j < i {
                lemma_seq_less_irreflexive(key);
            } else {
                assert(j > i);
                assert(seq_less(self.key_seq()[i], self.key_seq()[j]));
                lemma_seq_less_total(key, self.key_seq()[i]);
                if seq_less(key, self.key_seq()[i]) {
                    lemma_seq_less_transitive(key, self.key_seq()[i], key);
                    lemma_seq_less_irreflexive(key);
                }
            }
        }
    }

    /// Whether `key` is present.
    pub fn contains_key(&self, key: &str) -> (found: bool)
        ensures
            found == self.as_map().dom().contains(key@),
    {
        proof {
            use_type_invariant(self);
        }
        let chars = chars_of(key);
        let (i, found) = self.locate(chars.as_slice());
        proof {
            if !found {
                self.lemma_absent(key@, i as int);
            }
        }
        found
    }

    /// The value stored under `key`.
    pub fn get(&self, key: &str) -> (value: Option<&V>)
        ensures
            value matches Some(v) ==> self.as_map().dom().contains(key@) && self.as_map()[key@] == *v,
            value is None ==> !self.as_map().dom().contains(key@),
    {
        proof {
            use_type_invariant(self);
        }
        let chars = chars_of(key);
        let (i, found) = self.locate(chars.as_slice());
        if found {
            proof {
                self.lemma_position(key@, i as int);
            }
            Some(&self.values[i])
        } else {
            proof {
                self.lemma_absent(key@, i as int);
            }
            None
        }
    }

    /// The key at position `i`, in key order.
    pub fn key_at(&self, i: usize) -> (key: String)
        requires
            i < self.size(),
        ensures
            key@ == self.entries()[i as int].0,
    {
        proof {
            use_type_invariant(self);
        }
        string_of(self.keys[i].as_slice())
    }

    /// The value at position `i`, in key order.
    pub fn value_at(&self, i: usize) -> (value: &V)
        requires
            i < self.size(),
        ensures
            *value == self.entries()[i as int].1,
    {
        proof {
            use_type_invariant(self);
        }
        &self.values[i]
    }

    /// Stores `value` under `key`, replacing an earlier value.
    pub fn insert(&mut self, key: &str, value: V)
        ensures
            final(self).as_map() == old(self).as_map().insert(key@, value),
    {
        proof {
            use_type_invariant(&*self);
        }
        let chars = chars_of(key);
        let (i, found) = self.locate(chars.as_slice());
        let ghost old_keys = self.key_seq();
        let ghost old_map = self.as_map();
        let ghost old_self = *self;
        let mut taken = TextMap::<V>::new();
        core::mem::swap(self, &mut taken);
        let TextMap { mut keys, mut values } = taken;
        let ghost old_values = values@;
        assert(keys@.map_values(|k: Vec<char>| k@) == old_keys);
        assert(old_values == old_self.value_seq());
        if found {
            values.set(i, value);
            let m = TextMap { keys, values };
            proof {
                assert(m.key_seq() =~= old_keys);
                assert forall|k: Seq<char>| #![auto] m.as_map().dom().contains(k) == old_map.insert(key@, value).dom().contains(k) by {
                    if k == key@ {
                        assert(old_keys[i as int] == k);
                    }
                }
                assert forall|k: Seq<char>| #![auto] m.as_map().dom().contains(k) implies m.as_map()[k] == old_map.insert(key@, value)[k] by {
                    let p = choose|p: int| 0 <= p < old_keys.len() && old_keys[p] == k;
                    m.lemma_position(k, p);
                    taken_position(old_keys, old_values, k, p);
                    if k == key@ {
                        lemma_sorted_no_duplicates(old_keys);
                    }
                }
                assert(m.as_map() =~= old_map.insert(key@, value));
            }
            *self = m;
        } else {
            keys.insert(i, chars);
            values.insert(i, value);
            let ghost new_keys = keys@.map_values(|k: Vec<char>| k@);
            proof {
                assert(new_keys =~= old_keys.insert(i as int, key@));
                assert forall|a: int, b: int| 0 <= a < b < new_keys.len() implies seq_less(#[trigger] new_keys[a], #[trigger] new_keys[b]) by {
                    if b < i {
                    } else if a < i && b == i {
                    } else if a < i {
                        assert(new_keys[b] == old_keys[b - 1]);
                        if b - 1 > a {
                        }
                    } else if a == i {
                        assert(new_keys[b] == old_keys[b - 1]);
                        lemma_seq_less_total(key@, old_keys[i as int]);
                        if b - 1 > i {
                            lemma_seq_less_transitive(key@, old_keys[i as int], old_keys[b - 1]);
                        }
                    } else {
                        assert(new_keys[a] == old_keys[a - 1]);
                        assert(new_keys[b] == old_keys[b - 1]);
                    }
                }
            }
            let m = TextMap { keys, values };
            proof {
                assert(m.key_seq() =~= new_keys);
                assert forall|k: Seq<char>| #![auto] m.as_map().dom().contains(k) == old_map.insert(key@, value).dom().contains(k) by {
                    if m.as_map().dom().contains(k) {
                        let p = choose|p: int| 0 <= p < new_keys.len() && new_keys[p] == k;
                        if p < i {
                            assert(old_keys[p] == k);
                        } else if p > i {
                            assert(old_keys[p - 1] == k);
                        }
                    }
                    if old_map.dom().contains(k) {
                        let p = choose|p: int| 0 <= p < old_keys.len() && old_keys[p] == k;
                        if p < i {
                            assert(new_keys[p] == k);
                        } else {
                            assert(new_keys[p + 1] == k);
                        }
                    }
                    if k == key@ {
                        assert(new_keys[i as int] == k);
                    }
                }
                assert forall|k: Seq<char>| #![auto] m.as_map().dom().contains(k) implies m.as_map()[k] == old_map.insert(key@, value)[k] by {
                    let p = choose|p: int| 0 <= p < new_keys.len() && new_keys[p] == k;
                    m.lemma_position(k, p);
                    assert(m.as_map()[k] == m.value_seq()[p]);
                    if p < i {
                        assert(old_keys[p] == k);
                        old_self.lemma_position(k, p);
                        lemma_seq_less_irreflexive(key@);
                        assert(k != key@);
                        assert(m.value_seq()[p] == old_values[p]);
                        assert(old_map.dom().contains(k));
                        assert(old_map[k] == old_values[p]);
                    } else if p > i {
                        assert(old_keys[p - 1] == k);
                        old_self.lemma_position(k, p - 1);
                        lemma_sorted_no_duplicates(new_keys);
                        assert(new_keys[i as int] == key@);
                        assert(k != key@);
                        assert(m.value_seq()[p] == old_values[p - 1]);
                        assert(old_map.dom().contains(k));
                        assert(old_map[k] == old_values[p - 1]);
                    } else {
                        assert(k == key@);
                        assert(m.value_seq()[p] == value);
                    }
                }
                assert(m.as_map() =~= old_map.insert(key@, value));
            }
            *self = m;
        }
    }

    /// Removes the entry of `key`, giving back its value.
    pub fn remove(&mut self, key: &str) -> (removed: Option<V>)
        ensures
            final(self).as_map() == old(self).as_map().remove(key@),
            removed matches Some(v) ==> old(self).as_map().dom().contains(key@) && old(self).as_map()[key@] == v,
            removed is None ==> !old(self).as_map().dom().contains(key@),
    {
        proof {
            use_type_invariant(&*self);
        }
        let present = self.contains_key(key);
        if !present {
            assert(self.as_map().remove(key@) =~= self.as_map());
            return None;
        }
        let chars = chars_of(key);
        let (i, found) = self.locate(chars.as_slice());
        let ghost old_keys = self.key_seq();
        let ghost old_map = self.as_map();
        proof {
            let j = choose|j: int| 0 <= j < old_keys.len() && old_keys[j] == key@;
            if !found {
                if j < i {
                    lemma_seq_less_irreflexive(key@);
                } else if j > i {
                    lemma_seq_less_total(key@, old_keys[i as int]);
                    if seq_less(key@, old_keys[i as int]) {
                        lemma_seq_less_transitive(key@, old_keys[i as int], key@);
                    }
                    lemma_seq_less_irreflexive(key@);
                }
            }
            self.lemma_position(key@, i as int);
        }
        let mut taken = TextMap::<V>::new();
        core::mem::swap(self, &mut taken);
        let TextMap { mut keys, mut values } = taken;
        let ghost old_values = values@;
        assert(keys@.map_values(|k: Vec<char>| k@) == old_keys);
        keys.remove(i);
        let v = values.remove(i);
        let ghost new_keys = keys@.map_values(|k: Vec<char>| k@);
        proof {
            assert(new_keys =~= old_keys.remove(i as int));
            assert forall|a: int, b: int| 0 <= a < b < new_keys.len() implies seq_less(#[trigger] new_keys[a], #[trigger] new_keys[b]) by {
                if a >= i {
                    assert(new_keys[a] == old_keys[a + 1]);
                }
                if b >= i {
                    assert(new_keys[b] == old_keys[b + 1]);
                }
            }
        }
        let m = TextMap { keys, values };
        proof {
            assert(m.key_seq() =~= new_keys);
            lemma_sorted_no_duplicates(old_keys);
            assert forall|k: Seq<char>| #![auto] m.as_map().dom().contains(k) == old_map.remove(key@).dom().contains(k) by {
                if m.as_map().dom().contains(k) {
                    let p = choose|p: int| 0 <= p < new_keys.len() && new_keys[p] == k;
                    if p < i {
                        assert(old_keys[p] == k);
                    } else {
                        assert(old_keys[p + 1] == k);
                    }
                }
                if old_map.dom().contains(k) && k != key@ {
                    let p = choose|p: int| 0 <= p < old_keys.len() && old_keys[p] == k;
                    if p < i {
                        assert(new_keys[p] == k);
                    } else {
                        assert(new_keys[p - 1] == k);
                    }
                }
            }
            assert forall|k: Seq<char>| #![auto] m.as_map().dom().contains(k) implies m.as_map()[k] == old_map.remove(key@)[k] by {
                let p = choose|p: int| 0 <= p < new_keys.len() && new_keys[p] == k;
                m.lemma_position(k, p);
                if p < i {
                    taken_position(old_keys, old_values, k, p);
                } else {
                    taken_position(old_keys, old_values, k, p + 1);
                }
            }
            assert(m.as_map() =~= old_map.remove(key@));
            taken_position(old_keys, old_values, key@, i as int);
        }
        *self = m;
        Some(v)
    }
}

/// In a map built from sorted keys and values, a key stored at position `p`
/// maps to the value at `p`.
proof fn taken_position<V>(keys: Seq<Seq<char>>, values: Seq<V>, k: Seq<char>, p: int)
    requires
        strictly_sorted(keys),
        keys.len() == values.len(),
        0 <= p < keys.len(),
        keys[p] == k,
    ensures
        (choose|i: int| 0 <= i < keys.len() && keys[i] == k) == p,
{
    let q = choose|i: int| 0 <= i < keys.len() && keys[i] == k;
    assert(0 <= q < keys.len() && keys[q] == k);
    lemma_sorted_no_duplicates(keys);
}

/// Keys in strictly increasing order are distinct.
pub proof fn lemma_sorted_no_duplicates(keys: Seq<Seq<char>>)
    requires
        strictly_sorted(keys),
    ensures
        keys.no_duplicates(),
{
    assert forall|i: int, j: int| 0 <= i < keys.len() && 0 <= j < keys.len() && i != j implies keys[i] != keys[j] by {
        if i < j {
            assert(seq_less(keys[i], keys[j]));
        } else {
            assert(seq_less(keys[j], keys[i]));
        }
        lemma_seq_less_irreflexive(keys[i]);
    }
}

/// The keys of a list of entries.
pub open spec fn entry_keys<V>(entries: Seq<(Seq<char>, V)>) -> Seq<Seq<char>> {
    entries.map_values(|e: (Seq<char>, V)| e.0)
}

/// Entries with strictly increasing keys that list exactly the map.
pub open spec fn lists_map<V>(entries: Seq<(Seq<char>, V)>, m: Map<Seq<char>, V>) -> bool {
    &&& strictly_sorted(entry_keys(entries))
    &&& forall|i: int| 0 <= i < entries.len() ==> #[trigger] m.dom().contains(entries[i].0) && m[entries[i].0] == entries[i].1
    &&& forall|k: Seq<char>| #[trigger] m.dom().contains(k) ==> exists|i: int| 0 <= i < entries.len() && #[trigger] entries[i].0 == k
}

/// The entries of a map in increasing key order.
pub open spec fn sorted_entries<V>(m: Map<Seq<char>, V>) -> Seq<(Seq<char>, V)> {
    choose|entries: Seq<(Seq<char>, V)>| lists_map(entries, m)
}

proof fn lemma_sorted_keys_unique(a: Seq<Seq<char>>, b: Seq<Seq<char>>)
    requires
        strictly_sorted(a),
        strictly_sorted(b),
        forall|k: Seq<char>| a.contains(k) <==> b.contains(k),
    ensures
        a == b,
    decreases a.len(),
{
    if a.len() == 0 {
        if b.len() > 0 {
            assert(b.contains(b[0]));
        }
        assert(a =~= b);
    } else {
        assert(a.contains(a[0]));
        let j = choose|j: int| 0 <= j < b.len() && b[j] == a[0];
        assert(b.contains(b[0]));
        let i = choose|i: int| 0 <= i < a.len() && a[i] == b[0];
        if j > 0 {
            assert(seq_less(b[0], b[j]));
            if i > 0 {
                assert(seq_less(a[0], a[i]));
                lemma_seq_less_transitive(a[0], b[0], a[0]);
            }
            lemma_seq_less_irreflexive(a[0]);
        }
        assert(a[0] == b[0]);
        let a1 = a.drop_first();
        let b1 = b.drop_first();
        assert forall|k: Seq<char>| a1.contains(k) <==> b1.contains(k) by {
            if a1.contains(k) {
                let p = choose|p: int| 0 <= p < a1.len() && a1[p] == k;
                assert(a[p + 1] == k);
                assert(seq_less(a[0], a[p + 1]));
                lemma_seq_less_irreflexive(k);
                assert(a.contains(k));
                let q = choose|q: int| 0 <= q < b.len() && b[q] == k;
                assert(q != 0);
                assert(b1[q - 1] == k);
            }
            if b1.contains(k) {
                let p = choose|p: int| 0 <= p < b1.len() && b1[p] == k;
                assert(b[p + 1] == k);
                assert(seq_less(b[0], b[p + 1]));
                lemma_seq_less_irreflexive(k);
                assert(b.contains(k));
                let q = choose|q: int| 0 <= q < a.len() && a[q] == k;
                assert(q != 0);
                assert(a1[q - 1] == k);
            }
        }
        lemma_sorted_keys_unique(a1, b1);
        assert(a =~= seq![a[0]] + a1);
        assert(b =~= seq![b[0]] + b1);
    }
}

/// A map has exactly one list of entries in increasing key order.
pub proof fn lemma_lists_map_unique<V>(a: Seq<(Seq<char>, V)>, b: Seq<(Seq<char>, V)>, m: Map<Seq<char>, V>)
    requires
        lists_map(a, m),
        lists_map(b, m),
    ensures
        a == b,
{
    let ka = entry_keys(a);
    let kb = entry_keys(b);
    assert forall|k: Seq<char>| ka.contains(k) <==> kb.contains(k) by {
        if ka.contains(k) {
            let p = choose|p: int| 0 <= p < ka.len() && ka[p] == k;
            assert(a[p].0 == k);
            assert(m.dom().contains(a[p].0));
            let q = choose|q: int| 0 <= q < b.len() && #[trigger] b[q].0 == k;
            assert(kb[q] == k);
        }
        if kb.contains(k) {
            let p = choose|p: int| 0 <= p < kb.len() && kb[p] == k;
            assert(b[p].0 == k);
            assert(m.dom().contains(b[p].0));
            let q = choose|q: int| 0 <= q < a.len() && #[trigger] a[q].0 == k;
            assert(ka[q] == k);
        }
    }
    lemma_sorted_keys_unique(ka, kb);
    assert forall|i: int| 0 <= i < a.len() implies a[i] == b[i] by {
        assert(ka[i] == kb[i]);
        assert(m.dom().contains(a[i].0));
        assert(m.dom().contains(b[i].0));
    }
    assert(a =~= b);
}

/// When some list of entries lists the map, it is the sorted one.
pub proof fn lemma_sorted_entries<V>(entries: Seq<(Seq<char>, V)>, m: Map<Seq<char>, V>)
    requires
        lists_map(entries, m),
    ensures
        sorted_entries(m) == entries,
{
    lemma_lists_map_unique(sorted_entries(m), entries, m);
}


/// A finite, non-empty set of texts has a greatest one.
proof fn lemma_greatest_key(keys: Set<Seq<char>>) -> (top: Seq<char>)
    requires
        keys.finite(),
        keys.len() > 0,
    ensures
        keys.contains(top),
        forall|k: Seq<char>| #[trigger] keys.contains(k) && k != top ==> seq_less(k, top),
    decreases keys.len(),
{
    let x = keys.choose();
    let rest = keys.remove(x);
    if rest.len() == 0 {
        assert forall|k: Seq<char>| #[trigger] keys.contains(k) && k != x implies seq_less(k, x) by {
            assert(rest.contains(k));
        }
        x
    } else {
        let y = lemma_greatest_key(rest);
        if seq_less(x, y) {
            assert forall|k: Seq<char>| #[trigger] keys.contains(k) && k != y implies seq_less(k, y) by {
                if k != x {
                    assert(rest.contains(k));
                }
            }
            y
        } else {
            if x != y {
                lemma_seq_less_total(x, y);
            }
            assert forall|k: Seq<char>| #[trigger] keys.contains(k) && k != x implies seq_less(k, x) by {
                assert(rest.contains(k));
                if k != y {
                    lemma_seq_less_transitive(k, y, x);
                }
            }
            x
        }
    }
}

/// Every finite map keyed by texts has its entries in increasing key
/// order.
pub proof fn lemma_sorted_entries_list<V>(m: Map<Seq<char>, V>)
    requires
        m.dom().finite(),
    ensures
        lists_map(sorted_entries(m), m),
    decreases m.dom().len(),
{
    if m.dom().len() == 0 {
        let e = Seq::<(Seq<char>, V)>::empty();
        assert forall|k: Seq<char>| #[trigger] m.dom().contains(k) implies exists|i: int|
            0 <= i < e.len() && #[trigger] e[i].0 == k by {
            vstd::set::axiom_set_contains_len(m.dom(), k);
        }
        assert(entry_keys(e) =~= Seq::<Seq<char>>::empty());
        assert(lists_map(e, m));
    } else {
        let top = lemma_greatest_key(m.dom());
        let rest = m.remove(top);
        assert(rest.dom() =~= m.dom().remove(top));
        lemma_sorted_entries_list(rest);
        let front = sorted_entries(rest);
        let e = front.push((top, m[top]));
        let keys = entry_keys(e);
        assert(entry_keys(front) =~= keys.drop_last());
        assert forall|i: int, j: int| 0 <= i < j < keys.len() implies seq_less(#[trigger] keys[i], #[trigger] keys[j]) by {
            if j == keys.len() - 1 {
                assert(rest.dom().contains(front[i].0));
                assert(keys[i] == front[i].0);
            } else {
                assert(keys[i] == entry_keys(front)[i]);
                assert(keys[j] == entry_keys(front)[j]);
            }
        }
        assert forall|i: int| 0 <= i < e.len() implies #[trigger] m.dom().contains(e[i].0) && m[e[i].0] == e[i].1 by {
            if i < front.len() {
                assert(rest.dom().contains(front[i].0));
            }
        }
        assert forall|k: Seq<char>| #[trigger] m.dom().contains(k) implies exists|i: int|
            0 <= i < e.len() && #[trigger] e[i].0 == k by {
            if k == top {
                assert(e[e.len() - 1].0 == k);
            } else {
                assert(rest.dom().contains(k));
                let i = choose|i: int| 0 <= i < front.len() && #[trigger] front[i].0 == k;
                assert(e[i].0 == k);
            }
        }
        assert(lists_map(e, m));
    }
}

} // verus!

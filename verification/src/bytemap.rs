//! A map from byte strings to values, kept in dictionary order of its keys.

use vstd::prelude::*;
use crate::bytes::{bytes_equal, bytes_less, spec_less};

verus! {

/// No string comes before itself.
pub proof fn lemma_less_irreflexive(a: Seq<u8>)
    ensures
        !spec_less(a, a),
    decreases a.len(),
{
    if a.len() > 0 {
        lemma_less_irreflexive(a.drop_first());
    }
}

/// Of two different strings one comes before the other.
pub proof fn lemma_less_total(a: Seq<u8>, b: Seq<u8>)
    ensures
        spec_less(a, b) || spec_less(b, a) || a == b,
    decreases a.len(),
{
    if a.len() > 0 && b.len() > 0 && a[0] == b[0] {
        lemma_less_total(a.drop_first(), b.drop_first());
        if a.drop_first() == b.drop_first() {
            assert(a =~= seq![a[0]] + a.drop_first());
            assert(b =~= seq![b[0]] + b.drop_first());
        }
    } else if a.len() == 0 && b.len() == 0 {
        assert(a =~= b);
    }
}

/// The order is transitive.
pub proof fn lemma_less_transitive(a: Seq<u8>, b: Seq<u8>, c: Seq<u8>)
    requires
        spec_less(a, b),
        spec_less(b, c),
    ensures
        spec_less(a, c),
    decreases a.len(),
{
    if a.len() > 0 && a[0] == b[0] && b[0] == c[0] {
        lemma_less_transitive(a.drop_first(), b.drop_first(), c.drop_first());
    }
}

/// The keys increase strictly.
pub open spec fn keys_increase<V>(entries: Seq<(Vec<u8>, V)>) -> bool {
    forall|i: int, j: int|
        0 <= i < j < entries.len() ==> spec_less(
            (#[trigger] entries[i]).0@,
            (#[trigger] entries[j]).0@,
        )
}

/// Some entry has this key.
pub open spec fn has_key<V>(entries: Seq<(Vec<u8>, V)>, key: Seq<u8>) -> bool {
    exists|i: int| 0 <= i < entries.len() && (#[trigger] entries[i]).0@ == key
}

/// Index of an entry with this key.
pub open spec fn index_of_key<V>(entries: Seq<(Vec<u8>, V)>, key: Seq<u8>) -> int {
    choose|i: int| 0 <= i < entries.len() && (#[trigger] entries[i]).0@ == key
}

/// The map that a list of entries stands for.
pub open spec fn map_of<V>(entries: Seq<(Vec<u8>, V)>) -> Map<Seq<u8>, V> {
    Map::new(|key: Seq<u8>| has_key(entries, key), |key: Seq<u8>| entries[index_of_key(entries, key)].1)
}

/// In a list with increasing keys an entry is found by its key alone.
pub proof fn lemma_key_unique<V>(entries: Seq<(Vec<u8>, V)>, i: int)
    requires
        keys_increase(entries),
        0 <= i < entries.len(),
    ensures
        has_key(entries, entries[i].0@),
        index_of_key(entries, entries[i].0@) == i,
        map_of(entries).dom().contains(entries[i].0@),
        map_of(entries)[entries[i].0@] == entries[i].1,
{
    let key = entries[i].0@;
    let chosen = index_of_key(entries, key);
    lemma_less_irreflexive(key);
    if chosen < i {
        assert(spec_less(entries[chosen].0@, entries[i].0@));
    } else if i < chosen {
        assert(spec_less(entries[i].0@, entries[chosen].0@));
    }
}

/// A map from byte strings to values. Its entries are kept, and handed
/// out, in dictionary order of their keys.
pub struct ByteMap<V> {
    entries: Vec<(Vec<u8>, V)>,
}

impl<V> View for ByteMap<V> {
    type V = Map<Seq<u8>, V>;

    closed spec fn view(&self) -> Map<Seq<u8>, V> {
        map_of(self.entries@)
    }
}

impl<V> ByteMap<V> {
    pub closed spec fn wf(&self) -> bool {
        keys_increase(self.entries@)
    }

    /// The keys in the order in which the entries are handed out.
    pub closed spec fn keys(&self) -> Seq<Seq<u8>> {
        self.entries@.map_values(|entry: (Vec<u8>, V)| entry.0@)
    }

    /// The keys are those of the map, each once, in dictionary order.
    pub proof fn lemma_keys(&self)
        requires
            self.wf(),
        ensures
            forall|i: int, j: int|
                0 <= i < j < self.keys().len() ==> spec_less(
                    #[trigger] self.keys()[i],
                    #[trigger] self.keys()[j],
                ),
            forall|i: int| 0 <= i < self.keys().len() ==> self@.dom().contains(#[trigger] self.keys()[i]),
            forall|key: Seq<u8>| self@.dom().contains(key) ==> self.keys().contains(key),
    {
        assert forall|i: int, j: int| 0 <= i < j < self.keys().len() implies spec_less(
            #[trigger] self.keys()[i],
            #[trigger] self.keys()[j],
        ) by {
            assert(spec_less(self.entries@[i].0@, self.entries@[j].0@));
        }
        assert forall|i: int| 0 <= i < self.keys().len() implies self@.dom().contains(
            #[trigger] self.keys()[i],
        ) by {
            lemma_key_unique(self.entries@, i);
        }
        assert forall|key: Seq<u8>| self@.dom().contains(key) implies self.keys().contains(key) by {
            let i = index_of_key(self.entries@, key);
            assert(self.keys()[i] == key);
        }
    }

    pub fn new() -> (map: ByteMap<V>)
        ensures
            map.wf(),
            map@ == Map::<Seq<u8>, V>::empty(),
            map.keys() == Seq::<Seq<u8>>::empty(),
    {
        let map = ByteMap { entries: Vec::new() };
        assert(map@ =~= Map::<Seq<u8>, V>::empty());
        assert(map.keys() =~= Seq::<Seq<u8>>::empty());
        map
    }

    /// Number of entries.
    pub fn len(&self) -> (count: usize)
        ensures
            count == self.keys().len(),
    {
        self.entries.len()
    }

    /// The key of the entry at `i` in dictionary order.
    pub fn key_at(&self, i: usize) -> (key: &Vec<u8>)
        requires
            i < self.keys().len(),
        ensures
            key@ == self.keys()[i as int],
    {
        &self.entries[i].0
    }

    /// The value of the entry at `i` in dictionary order.
    pub fn value_at(&self, i: usize) -> (value: &V)
        requires
            self.wf(),
            i < self.keys().len(),
        ensures
            self@.dom().contains(self.keys()[i as int]),
            *value == self@[self.keys()[i as int]],
    {
        proof {
            lemma_key_unique(self.entries@, i as int);
        }
        &self.entries[i].1
    }

    /// All entries in dictionary order of their keys.
    pub fn into_entries(self) -> (entries: Vec<(Vec<u8>, V)>)
        requires
            self.wf(),
        ensures
            entries@.len() == self.keys().len(),
            forall|i: int|
                0 <= i < entries@.len() ==> (#[trigger] entries@[i]).0@ == self.keys()[i]
                    && self@.dom().contains(self.keys()[i]) && entries@[i].1 == self@[self.keys()[i]],
    {
        proof {
            assert forall|i: int| 0 <= i < self.entries@.len() implies self@.dom().contains(
                self.keys()[i],
            ) && (#[trigger] self.entries@[i]).1 == self@[self.keys()[i]] by {
                lemma_key_unique(self.entries@, i);
            }
        }
        self.entries
    }

    /// Where `key` is, or where it belongs.
    fn locate(&self, key: &[u8]) -> (place: (usize, bool))
        requires
            self.wf(),
        ensures
            place.0 <= self.entries@.len(),
            forall|j: int| 0 <= j < place.0 ==> spec_less((#[trigger] self.entries@[j]).0@, key@),
            place.1 ==> place.0 < self.entries@.len() && self.entries@[place.0 as int].0@ == key@,
            !place.1 ==> !has_key(self.entries@, key@) && forall|j: int|
                place.0 <= j < self.entries@.len() ==> spec_less(
                    key@,
                    (#[trigger] self.entries@[j]).0@,
                ),
    {
        let mut i: usize = 0;
        while i < self.entries.len()
            invariant
                i <= self.entries.len(),
                keys_increase(self.entries@),
                forall|j: int| 0 <= j < i ==> spec_less((#[trigger] self.entries@[j]).0@, key@),
            decreases self.entries.len() - i,
        {
            if !bytes_less(self.entries[i].0.as_slice(), key) {
                let found = bytes_equal(self.entries[i].0.as_slice(), key);
                proof {
                    let here = self.entries@[i as int].0@;
                    lemma_less_total(here, key@);
                    if !found {
                        assert forall|j: int| i <= j < self.entries@.len() implies spec_less(
                            key@,
                            (#[trigger] self.entries@[j]).0@,
                        ) by {
                            if i < j {
                                assert(spec_less(self.entries@[i as int].0@, self.entries@[j].0@));
                                lemma_less_transitive(key@, here, self.entries@[j].0@);
                            }
                        }
                        if has_key(self.entries@, key@) {
                            let k = index_of_key(self.entries@, key@);
                            lemma_less_irreflexive(key@);
                            if k < i {
                                assert(spec_less(self.entries@[k].0@, key@));
                            } else {
                                assert(spec_less(key@, self.entries@[k].0@));
                            }
                        }
                    }
                }
                return (i, found);
            }
            i += 1;
        }
        proof {
            if has_key(self.entries@, key@) {
                let k = index_of_key(self.entries@, key@);
                lemma_less_irreflexive(key@);
                assert(spec_less(self.entries@[k].0@, key@));
            }
        }
        (i, false)
    }

    /// Whether the map has an entry for `key`.
    pub fn contains_key(&self, key: &[u8]) -> (found: bool)
        requires
            self.wf(),
        ensures
            found == self@.dom().contains(key@),
    {
        self.locate(key).1
    }

    /// The value stored for `key`.
    pub fn get(&self, key: &[u8]) -> (value: Option<&V>)
        requires
            self.wf(),
        ensures
            match value {
                Some(value) => self@.dom().contains(key@) && *value == self@[key@],
                None => !self@.dom().contains(key@),
            },
    {
        let (i, found) = self.locate(key);
        if found {
            proof {
                lemma_key_unique(self.entries@, i as int);
            }
            Some(&self.entries[i].1)
        } else {
            None
        }
    }

    /// Stores `value` for `key` and hands back what was stored before.
    pub fn insert(&mut self, key: Vec<u8>, value: V) -> (previous: Option<V>)
        requires
            old(self).wf(),
        ensures
            final(self).wf(),
            final(self)@ == old(self)@.insert(key@, value),
            match previous {
                Some(previous) => old(self)@.dom().contains(key@) && previous == old(self)@[key@],
                None => !old(self)@.dom().contains(key@),
            },
    {
        let (i, found) = self.locate(key.as_slice());
        let ghost before = self.entries@;
        if found {
            proof {
                lemma_key_unique(before, i as int);
            }
            let mut entry = (key, value);
            std::mem::swap(&mut entry, &mut self.entries[i]);
            proof {
                lemma_replaced(before, self.entries@, i as int);
            }
            Some(entry.1)
        } else {
            self.entries.insert(i, (key, value));
            proof {
                lemma_inserted(before, self.entries@, i as int);
            }
            None
        }
    }

    /// Takes the entry of `key` out of the map.
    pub fn remove(&mut self, key: &[u8]) -> (previous: Option<V>)
        requires
            old(self).wf(),
        ensures
            final(self).wf(),
            final(self)@ == old(self)@.remove(key@),
            match previous {
                Some(previous) => old(self)@.dom().contains(key@) && previous == old(self)@[key@],
                None => !old(self)@.dom().contains(key@),
            },
    {
        let (i, found) = self.locate(key);
        let ghost before = self.entries@;
        if found {
            proof {
                lemma_key_unique(before, i as int);
            }
            let entry = self.entries.remove(i);
            proof {
                lemma_removed(before, self.entries@, i as int);
            }
            Some(entry.1)
        } else {
            assert(self@ =~= old(self)@.remove(key@));
            None
        }
    }
}

proof fn lemma_replaced<V>(before: Seq<(Vec<u8>, V)>, after: Seq<(Vec<u8>, V)>, i: int)
    requires
        keys_increase(before),
        0 <= i < before.len(),
        after.len() == before.len(),
        after[i].0@ == before[i].0@,
        forall|j: int| 0 <= j < before.len() && j != i ==> after[j] == before[j],
    ensures
        keys_increase(after),
        map_of(after) == map_of(before).insert(after[i].0@, after[i].1),
{
    assert forall|a: int, b: int| 0 <= a < b < after.len() implies spec_less(
        (#[trigger] after[a]).0@,
        (#[trigger] after[b]).0@,
    ) by {
        assert(spec_less(before[a].0@, before[b].0@));
    }
    let target = map_of(before).insert(after[i].0@, after[i].1);
    assert forall|key: Seq<u8>| map_of(after).dom().contains(key) <==> target.dom().contains(
        key,
    ) by {
        if has_key(after, key) {
            let k = index_of_key(after, key);
            assert(before[k].0@ == key);
        }
        if has_key(before, key) {
            let k = index_of_key(before, key);
            assert(after[k].0@ == key);
        }
        if key == after[i].0@ {
            assert(after[i].0@ == key);
        }
    }
    assert forall|key: Seq<u8>| map_of(after).dom().contains(key) implies map_of(after)[key]
        == target[key] by {
        let k = index_of_key(after, key);
        lemma_key_unique(after, k);
        lemma_key_unique(after, i);
        assert(before[k].0@ == key);
        lemma_key_unique(before, k);
        if k != i {
            assert(after[k] == before[k]);
        }
    }
    assert(map_of(after) =~= target);
}

proof fn lemma_inserted<V>(before: Seq<(Vec<u8>, V)>, after: Seq<(Vec<u8>, V)>, i: int)
    requires
        keys_increase(before),
        0 <= i <= before.len(),
        after == before.insert(i, after[i]),
        forall|j: int| 0 <= j < i ==> spec_less((#[trigger] before[j]).0@, after[i].0@),
        forall|j: int| i <= j < before.len() ==> spec_less(after[i].0@, (#[trigger] before[j]).0@),
    ensures
        keys_increase(after),
        map_of(after) == map_of(before).insert(after[i].0@, after[i].1),
{
    let key = after[i].0@;
    assert forall|a: int, b: int| 0 <= a < b < after.len() implies spec_less(
        (#[trigger] after[a]).0@,
        (#[trigger] after[b]).0@,
    ) by {
        let from_a = if a < i { a } else { a - 1 };
        let from_b = if b < i { b } else { b - 1 };
        if a != i {
            assert(after[a] == before[from_a]);
        }
        if b != i {
            assert(after[b] == before[from_b]);
        }
        if a != i && b != i {
            assert(spec_less(before[from_a].0@, before[from_b].0@));
        }
    }
    let target = map_of(before).insert(key, after[i].1);
    assert forall|other: Seq<u8>| map_of(after).dom().contains(other) <==> target.dom().contains(
        other,
    ) by {
        if has_key(after, other) {
            let k = index_of_key(after, other);
            if k < i {
                assert(before[k].0@ == other);
            } else if k > i {
                assert(before[k - 1].0@ == other);
            }
        }
        if has_key(before, other) {
            let k = index_of_key(before, other);
            let to = if k < i { k } else { k + 1 };
            assert(after[to].0@ == other);
        }
        if other == key {
            assert(after[i].0@ == other);
        }
    }
    assert forall|other: Seq<u8>| map_of(after).dom().contains(other) implies map_of(after)[other]
        == target[other] by {
        let k = index_of_key(after, other);
        lemma_key_unique(after, k);
        if k < i {
            assert(before[k] == after[k]);
            lemma_key_unique(before, k);
            lemma_less_irreflexive(key);
        } else if k > i {
            assert(before[k - 1] == after[k]);
            lemma_key_unique(before, k - 1);
            lemma_less_irreflexive(key);
        }
    }
    assert(map_of(after) =~= target);
}

proof fn lemma_removed<V>(before: Seq<(Vec<u8>, V)>, after: Seq<(Vec<u8>, V)>, i: int)
    requires
        keys_increase(before),
        0 <= i < before.len(),
        after == before.remove(i),
    ensures
        keys_increase(after),
        map_of(after) == map_of(before).remove(before[i].0@),
{
    let key = before[i].0@;
    assert forall|a: int, b: int| 0 <= a < b < after.len() implies spec_less(
        (#[trigger] after[a]).0@,
        (#[trigger] after[b]).0@,
    ) by {
        let from_a = if a < i { a } else { a + 1 };
        let from_b = if b < i { b } else { b + 1 };
        assert(after[a] == before[from_a]);
        assert(after[b] == before[from_b]);
        assert(spec_less(before[from_a].0@, before[from_b].0@));
    }
    let target = map_of(before).remove(key);
    assert forall|other: Seq<u8>| map_of(after).dom().contains(other) <==> target.dom().contains(
        other,
    ) by {
        if has_key(after, other) {
            let k = index_of_key(after, other);
            let from = if k < i { k } else { k + 1 };
            assert(before[from] == after[k]);
            lemma_key_unique(before, from);
            lemma_key_unique(before, i);
        }
        if has_key(before, other) && other != key {
            let k = index_of_key(before, other);
            let to = if k < i { k } else { k - 1 };
            assert(after[to] == before[k]);
        }
    }
    assert forall|other: Seq<u8>| map_of(after).dom().contains(other) implies map_of(after)[other]
        == target[other] by {
        let k = index_of_key(after, other);
        lemma_key_unique(after, k);
        let from = if k < i { k } else { k + 1 };
        assert(before[from] == after[k]);
        lemma_key_unique(before, from);
        lemma_key_unique(before, i);
    }
    assert(map_of(after) =~= target);
}

} // verus!

//! A map from texts to values, kept in the order of the texts.

use vstd::prelude::*;

use crate::text;
use crate::text::{comes_before, same_text, starts_with};

verus! {

/// A map from texts to values that hands out its keys in ascending order.
pub struct TextMap<V> {
    entries: Vec<(String, V)>,
}

/// Whether each text of a row comes before all that follow it.
pub open spec fn ascending(row: Seq<Seq<char>>) -> bool {
    forall|i: int, j: int|
        0 <= i < j < row.len() ==> text::precedes(#[trigger] row[i], #[trigger] row[j])
}

/// Whether a row holds the texts of a set and no others.
pub open spec fn lists(row: Seq<Seq<char>>, set: Set<Seq<char>>) -> bool {
    forall|k: Seq<char>| #[trigger] row.contains(k) <==> set.contains(k)
}

/// The texts of a finite set in ascending order.
pub open spec fn in_order(set: Set<Seq<char>>) -> Seq<Seq<char>> {
    choose|row: Seq<Seq<char>>| ascending(row) && lists(row, set)
}

/// There is no more than one way to write a set of texts in ascending order.
pub proof fn lemma_order_is_unique(a: Seq<Seq<char>>, b: Seq<Seq<char>>)
    requires
        ascending(a),
        ascending(b),
        forall|k: Seq<char>| #[trigger] a.contains(k) <==> b.contains(k),
    ensures
        a == b,
    decreases a.len(),
{
    if a.len() == 0 {
        if b.len() > 0 {
            assert(b.contains(b[0]));
            assert(a.contains(b[0]));
        }
        assert(a =~= b);
    } else {
        assert(a.contains(a[0]));
        let last = a.last();
        assert(a.contains(last)) by {
            assert(a[a.len() - 1] == last);
        }
        assert(b.contains(last));
        assert(b.contains(b.last())) by {
            assert(b[b.len() - 1] == b.last());
        }
        assert(a.contains(b.last()));
        let i = choose|i: int| 0 <= i < b.len() && b[i] == last;
        let j = choose|j: int| 0 <= j < a.len() && a[j] == b.last();
        text::lemma_precedes_is_total(last, b.last());
        assert(last == b.last()) by {
            if i < b.len() - 1 {
                assert(text::precedes(b[i], b[b.len() - 1]));
            }
            if j < a.len() - 1 {
                assert(text::precedes(a[j], a[a.len() - 1]));
            }
        }
        lemma_without_the_last(a);
        lemma_without_the_last(b);
        lemma_order_is_unique(a.drop_last(), b.drop_last());
        assert(a =~= a.drop_last().push(last));
        assert(b =~= b.drop_last().push(last));
    }
}

/// An ascending row without its last text is ascending, and holds all but that text.
proof fn lemma_without_the_last(row: Seq<Seq<char>>)
    requires
        ascending(row),
        row.len() > 0,
    ensures
        ascending(row.drop_last()),
        forall|k: Seq<char>| #[trigger]
            row.drop_last().contains(k) <==> row.contains(k) && k != row.last(),
{
    let rest = row.drop_last();
    assert forall|k: Seq<char>| #[trigger] rest.contains(k) <==> row.contains(k) && k
        != row.last() by {
        if rest.contains(k) {
            let i = choose|i: int| 0 <= i < rest.len() && rest[i] == k;
            assert(row[i] == k);
            assert(text::precedes(row[i], row[row.len() - 1]));
            text::lemma_precedes_is_total(k, k);
        }
        if row.contains(k) && k != row.last() {
            let i = choose|i: int| 0 <= i < row.len() && row[i] == k;
            assert(rest[i] == k);
        }
    }
}

/// A row that is ascending and lists a set is that set in ascending order.
pub proof fn lemma_in_order(row: Seq<Seq<char>>, set: Set<Seq<char>>)
    requires
        ascending(row),
        lists(row, set),
    ensures
        in_order(set) == row,
{
    let other = in_order(set);
    assert(ascending(other) && lists(other, set));
    assert forall|k: Seq<char>| #[trigger] other.contains(k) <==> row.contains(k) by {
        assert(row.contains(k) <==> set.contains(k));
    }
    lemma_order_is_unique(other, row);
}

impl<V> TextMap<V> {
    spec fn keys_view(&self) -> Seq<Seq<char>> {
        Seq::new(self.entries@.len(), |i: int| self.entries@[i].0@)
    }

    /// Whether the entries are in order, which the functions of this type establish and keep.
    pub closed spec fn well_formed(&self) -> bool {
        ascending(self.keys_view())
    }

    /// The keys of a map in order are the keys of its entries, each at one place.
    proof fn lemma_view(&self)
        requires
            self.well_formed(),
        ensures
            forall|i: int|
                0 <= i < self.entries@.len() ==> {
                    &&& self@.contains_key(#[trigger] self.entries@[i].0@)
                    &&& self@[self.entries@[i].0@] == self.entries@[i].1
                },
            forall|k: Seq<char>| #[trigger]
                self@.contains_key(k) ==> exists|i: int|
                    0 <= i < self.entries@.len() && #[trigger] self.entries@[i].0@ == k,
            forall|i: int, j: int|
                0 <= i < j < self.entries@.len() ==> #[trigger] self.entries@[i].0@
                    != #[trigger] self.entries@[j].0@,
    {
        let keys = self.keys_view();
        assert forall|i: int, j: int| 0 <= i < j < self.entries@.len() implies #[trigger]
        self.entries@[i].0@ != #[trigger] self.entries@[j].0@ by {
            assert(text::precedes(keys[i], keys[j]));
            text::lemma_precedes_is_total(keys[i], keys[j]);
        }
        assert forall|i: int| 0 <= i < self.entries@.len() implies {
            &&& self@.contains_key(#[trigger] self.entries@[i].0@)
            &&& self@[self.entries@[i].0@] == self.entries@[i].1
        } by {
            let k = self.entries@[i].0@;
            assert(keys[i] == k);
            assert(keys.contains(k));
            let j = keys.index_of(k);
            assert(keys[j] == k);
        }
        assert forall|k: Seq<char>| #[trigger] self@.contains_key(k) implies exists|i: int|
            0 <= i < self.entries@.len() && #[trigger] self.entries@[i].0@ == k by {
            let i = keys.index_of(k);
            assert(self.entries@[i].0@ == k);
        }
    }

    /// A map has finitely many keys.
    pub proof fn lemma_keys_are_finite(&self)
        ensures
            self@.dom().finite(),
    {
        let keys = self.keys_view();
        vstd::seq_lib::seq_to_set_is_finite(keys);
        assert(self@.dom() =~= keys.to_set());
    }

    /// An empty map.
    pub fn new() -> (map: Self)
        ensures
            map.well_formed(),
            map@ == Map::<Seq<char>, V>::empty(),
    {
        let map = TextMap { entries: Vec::new() };
        proof {
            assert(map@ =~= Map::<Seq<char>, V>::empty());
        }
        map
    }

    /// Where a key is, or where it belongs, and whether it is there.
    fn locate(&self, key: &str) -> (place: (usize, bool))
        requires
            self.well_formed(),
        ensures
            place.0 <= self.entries@.len(),
            forall|j: int|
                0 <= j < place.0 ==> text::precedes(#[trigger] self.entries@[j].0@, key@),
            place.1 ==> place.0 < self.entries@.len() && self.entries@[place.0 as int].0@ == key@,
            !place.1 ==> forall|j: int|
                place.0 <= j < self.entries@.len() ==> text::precedes(
                    key@,
                    #[trigger] self.entries@[j].0@,
                ),
            place.1 == self@.contains_key(key@),
    {
        proof {
            self.lemma_view();
        }
        let mut i: usize = 0;
        while i < self.entries.len() && comes_before(self.entries[i].0.as_str(), key)
            invariant
                i <= self.entries@.len(),
                forall|j: int|
                    0 <= j < i ==> text::precedes(#[trigger] self.entries@[j].0@, key@),
            decreases self.entries@.len() - i,
        {
            i += 1;
        }
        let found = i < self.entries.len() && same_text(self.entries[i].0.as_str(), key);
        proof {
            text::lemma_precedes_is_total(key@, key@);
            if !found {
                assert forall|j: int| i <= j < self.entries@.len() implies text::precedes(
                    key@,
                    #[trigger] self.entries@[j].0@,
                ) by {
                    let keys = self.keys_view();
                    text::lemma_precedes_is_total(key@, keys[i as int]);
                    if i < j {
                        assert(text::precedes(keys[i as int], keys[j]));
                        text::lemma_precedes_is_transitive(key@, keys[i as int], keys[j]);
                    }
                }
            }
        }
        (i, found)
    }

    /// The value of a key.
    pub fn get(&self, key: &str) -> (value: Option<&V>)
        requires
            self.well_formed(),
        ensures
            match value {
                Some(v) => self@.contains_key(key@) && self@[key@] == *v,
                None => !self@.contains_key(key@),
            },
    {
        let (i, found) = self.locate(key);
        proof {
            self.lemma_view();
        }
        if found {
            Some(&self.entries[i].1)
        } else {
            None
        }
    }

    /// Takes out the entry at a place.
    fn remove_at(&mut self, i: usize) -> (entry: (String, V))
        requires
            old(self).well_formed(),
            i < old(self).entries@.len(),
        ensures
            final(self).well_formed(),
            final(self).entries@ == old(self).entries@.remove(i as int),
            entry == old(self).entries@[i as int],
            final(self)@ == old(self)@.remove(entry.0@),
    {
        let ghost before = *self;
        let entry = self.entries.remove(i);
        proof {
            let keys = before.keys_view();
            let left = self.keys_view();
            assert(left =~= keys.remove(i as int));
            before.lemma_view();
            self.lemma_view();
            assert forall|k: Seq<char>| self@.contains_key(k) <==> before@.remove(
                entry.0@,
            ).contains_key(k) by {
                if self@.contains_key(k) {
                    let j = choose|j: int|
                        0 <= j < self.entries@.len() && #[trigger] self.entries@[j].0@ == k;
                    if j < i {
                        assert(before.entries@[j].0@ == k);
                    } else {
                        assert(before.entries@[j + 1].0@ == k);
                    }
                }
                if before@.contains_key(k) && k != entry.0@ {
                    let j = choose|j: int|
                        0 <= j < before.entries@.len() && #[trigger] before.entries@[j].0@ == k;
                    if j < i {
                        assert(self.entries@[j].0@ == k);
                    } else {
                        assert(self.entries@[j - 1].0@ == k);
                    }
                }
            }
            assert forall|k: Seq<char>| self@.contains_key(k) implies self@[k] == before@[k] by {
                let j = choose|j: int|
                    0 <= j < self.entries@.len() && #[trigger] self.entries@[j].0@ == k;
                if j < i {
                    assert(before.entries@[j].0@ == k);
                } else {
                    assert(before.entries@[j + 1].0@ == k);
                }
            }
            assert(self@ =~= before@.remove(entry.0@));
        }
        entry
    }

    /// Takes a key out, and returns the value that it had.
    pub fn remove(&mut self, key: &str) -> (value: Option<V>)
        requires
            old(self).well_formed(),
        ensures
            final(self).well_formed(),
            final(self)@ == old(self)@.remove(key@),
            match value {
                Some(v) => old(self)@.contains_key(key@) && old(self)@[key@] == v,
                None => !old(self)@.contains_key(key@),
            },
    {
        let (i, found) = self.locate(key);
        proof {
            self.lemma_view();
        }
        if found {
            let (_, value) = self.remove_at(i);
            Some(value)
        } else {
            proof {
                assert(self@.remove(key@) =~= self@);
            }
            None
        }
    }

    /// Gives a key a value, in place of the one that it had.
    pub fn insert(&mut self, key: String, value: V)
        requires
            old(self).well_formed(),
        ensures
            final(self).well_formed(),
            final(self)@ == old(self)@.insert(key@, value),
    {
        let ghost before = self@;
        self.remove(key.as_str());
        let (i, _) = self.locate(key.as_str());
        let ghost without = *self;
        let ghost name = key@;
        self.entries.insert(i, (key, value));
        proof {
            let keys = self.keys_view();
            assert(keys =~= without.keys_view().insert(i as int, name));
            assert forall|a: int, b: int| 0 <= a < b < keys.len() implies text::precedes(
                #[trigger] keys[a],
                #[trigger] keys[b],
            ) by {
                let old_keys = without.keys_view();
                if a < i && b < i {
                    assert(text::precedes(old_keys[a], old_keys[b]));
                } else if a < i && b == i {
                    assert(text::precedes(without.entries@[a].0@, name));
                } else if a < i {
                    assert(text::precedes(old_keys[a], old_keys[b - 1]));
                } else if a == i {
                    assert(text::precedes(name, without.entries@[b - 1].0@));
                } else {
                    assert(text::precedes(old_keys[a - 1], old_keys[b - 1]));
                }
            }
            without.lemma_view();
            self.lemma_view();
            assert(self.entries@[i as int].0@ == name);
            assert forall|k: Seq<char>| self@.contains_key(k) <==> without@.insert(
                name,
                value,
            ).contains_key(k) by {
                if self@.contains_key(k) && k != name {
                    let j = choose|j: int|
                        0 <= j < self.entries@.len() && #[trigger] self.entries@[j].0@ == k;
                    if j < i {
                        assert(without.entries@[j].0@ == k);
                    } else {
                        assert(without.entries@[j - 1].0@ == k);
                    }
                }
                if without@.contains_key(k) {
                    let j = choose|j: int|
                        0 <= j < without.entries@.len() && #[trigger] without.entries@[j].0@ == k;
                    if j < i {
                        assert(self.entries@[j].0@ == k);
                    } else {
                        assert(self.entries@[j + 1].0@ == k);
                    }
                }
            }
            assert forall|k: Seq<char>| without@.contains_key(k) implies self@[k]
                == without@[k] by {
                let j = choose|j: int|
                    0 <= j < without.entries@.len() && #[trigger] without.entries@[j].0@ == k;
                if j < i {
                    assert(self.entries@[j].0@ == k);
                } else {
                    assert(self.entries@[j + 1].0@ == k);
                }
            }
            assert(self@ =~= without@.insert(name, value));
            assert(self@ =~= before.insert(name, value));
        }
    }

    /// Whether there is no key at all.
    pub fn is_empty(&self) -> (empty: bool)
        requires
            self.well_formed(),
        ensures
            empty == (self@ == Map::<Seq<char>, V>::empty()),
    {
        proof {
            self.lemma_view();
            if self.entries@.len() == 0 {
                assert(self@ =~= Map::<Seq<char>, V>::empty());
            } else {
                assert(self@.contains_key(self.entries@[0].0@));
            }
        }
        self.entries.len() == 0
    }

    /// The keys, in ascending order.
    pub fn keys(&self) -> (keys: Vec<String>)
        requires
            self.well_formed(),
        ensures
            text::texts(keys@) == in_order(self@.dom()),
            ascending(text::texts(keys@)),
            lists(text::texts(keys@), self@.dom()),
    {
        let mut keys: Vec<String> = Vec::new();
        let mut i: usize = 0;
        while i < self.entries.len()
            invariant
                i <= self.entries@.len(),
                keys@.len() == i,
                forall|j: int| 0 <= j < i ==> #[trigger] keys@[j]@ == self.entries@[j].0@,
            decreases self.entries@.len() - i,
        {
            keys.push(self.entries[i].0.clone());
            i += 1;
        }
        proof {
            let row = text::texts(keys@);
            assert(row =~= self.keys_view());
            self.lemma_view();
            assert forall|k: Seq<char>| #[trigger] row.contains(k) <==> self@.dom().contains(k) by {
                if self@.contains_key(k) {
                    let j = choose|j: int|
                        0 <= j < self.entries@.len() && #[trigger] self.entries@[j].0@ == k;
                    assert(row[j] == k);
                }
            }
            lemma_in_order(row, self@.dom());
        }
        keys
    }

    /// Takes out all keys that begin with a prefix, and says whether there were any.
    pub fn remove_prefixed(&mut self, prefix: &str) -> (removed: bool)
        requires
            old(self).well_formed(),
        ensures
            final(self).well_formed(),
            final(self)@ == old(self)@.restrict(
                Set::new(|k: Seq<char>| !prefix@.is_prefix_of(k)),
            ),
            removed == exists|k: Seq<char>| #[trigger]
                old(self)@.contains_key(k) && prefix@.is_prefix_of(k),
    {
        let ghost before = self@;
        let mut removed = false;
        let mut i: usize = 0;
        while i < self.entries.len()
            invariant
                self.well_formed(),
                i <= self.entries@.len(),
                forall|k: Seq<char>| #[trigger]
                    self@.contains_key(k) ==> before.contains_key(k) && self@[k] == before[k],
                forall|k: Seq<char>|
                    before.contains_key(k) && !prefix@.is_prefix_of(k) ==> #[trigger]
                        self@.contains_key(k),
                forall|j: int|
                    0 <= j < i ==> !prefix@.is_prefix_of(#[trigger] self.entries@[j].0@),
                !removed ==> self@ == before,
                removed ==> exists|k: Seq<char>| #[trigger]
                    before.contains_key(k) && prefix@.is_prefix_of(k),
            decreases self.entries@.len() - i,
        {
            if starts_with(self.entries[i].0.as_str(), prefix) {
                proof {
                    self.lemma_view();
                    let k = self.entries@[i as int].0@;
                    assert(self@.contains_key(k));
                    assert(before.contains_key(k));
                }
                self.remove_at(i);
                removed = true;
            } else {
                i += 1;
            }
        }
        proof {
            self.lemma_view();
            assert forall|k: Seq<char>| #[trigger] self@.contains_key(k) implies
            !prefix@.is_prefix_of(k) by {
                let j = choose|j: int|
                    0 <= j < self.entries@.len() && #[trigger] self.entries@[j].0@ == k;
            }
            assert(self@ =~= before.restrict(Set::new(|k: Seq<char>| !prefix@.is_prefix_of(k))));
        }
        removed
    }
}

impl<V> View for TextMap<V> {
    type V = Map<Seq<char>, V>;

    closed spec fn view(&self) -> Map<Seq<char>, V> {
        Map::new(
            |k: Seq<char>| self.keys_view().contains(k),
            |k: Seq<char>| self.entries@[self.keys_view().index_of(k)].1,
        )
    }
}

} // verus!

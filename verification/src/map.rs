//! A map from texts to values, kept in the order of its keys.

use crate::text::{
    comes_before, lemma_text_order_total, lemma_text_order_transitive, same_text, slice_views,
    text_before,
};
use vstd::prelude::*;

verus! {

/// A map from texts to values that lists its entries in ascending key order.
#[derive(Debug)]
pub struct TextMap<V> {
    entries: Vec<(String, V)>,
}

/// Whether the keys ascend.
pub open spec fn keys_ascend<V>(entries: Seq<(String, V)>) -> bool {
    forall|i: int, j: int|
        0 <= i < j < entries.len() ==> text_before(
            (#[trigger] entries[i]).0@,
            (#[trigger] entries[j]).0@,
        )
}

/// Whether `entries` has the key.
pub open spec fn has_key<V>(entries: Seq<(String, V)>, key: Seq<char>) -> bool {
    exists|i: int| 0 <= i < entries.len() && (#[trigger] entries[i]).0@ == key
}

/// Where `entries` has the key.
pub open spec fn key_index<V>(entries: Seq<(String, V)>, key: Seq<char>) -> int {
    choose|i: int| 0 <= i < entries.len() && (#[trigger] entries[i]).0@ == key
}

/// The map that `entries` list.
pub open spec fn entry_map<V>(entries: Seq<(String, V)>) -> Map<Seq<char>, V> {
    Map::new(
        |key: Seq<char>| has_key(entries, key),
        |key: Seq<char>| entries[key_index(entries, key)].1,
    )
}

proof fn lemma_entry<V>(entries: Seq<(String, V)>, index: int)
    requires
        keys_ascend(entries),
        0 <= index < entries.len(),
    ensures
        has_key(entries, entries[index].0@),
        key_index(entries, entries[index].0@) == index,
        entry_map(entries)[entries[index].0@] == entries[index].1,
{
    let key = entries[index].0@;
    let at = key_index(entries, key);
    assert(entries[at].0@ == key);
    lemma_text_order_total(key, key);
    if at < index {
        assert(text_before(entries[at].0@, entries[index].0@));
    } else if at > index {
        assert(text_before(entries[index].0@, entries[at].0@));
    }
}

proof fn lemma_entry_count<V>(entries: Seq<(String, V)>)
    requires
        keys_ascend(entries),
    ensures
        entry_map(entries).dom().finite(),
        entry_map(entries).dom().len() == entries.len(),
{
    let keys = entries.map_values(|entry: (String, V)| entry.0@);
    assert forall|i: int, j: int| 0 <= i < keys.len() && 0 <= j < keys.len() && i != j implies keys[i]
        != keys[j] by {
        lemma_entry(entries, i);
        lemma_entry(entries, j);
    }
    keys.unique_seq_to_set();
    assert(keys.to_set() =~= entry_map(entries).dom()) by {
        assert forall|key: Seq<char>| keys.contains(key) == has_key(entries, key) by {
            if has_key(entries, key) {
                assert(keys[key_index(entries, key)] == key);
            }
            if keys.contains(key) {
                let at = choose|i: int| 0 <= i < keys.len() && keys[i] == key;
                assert(entries[at].0@ == key);
            }
        }
    }
}

impl<V> View for TextMap<V> {
    type V = Map<Seq<char>, V>;

    closed spec fn view(&self) -> Map<Seq<char>, V> {
        entry_map(self.entries@)
    }
}

impl<V: Clone> Clone for TextMap<V> {
    fn clone(&self) -> (map: Self)
        ensures
            map@.dom() == self@.dom(),
            forall|key: Seq<char>|
                self@.contains_key(key) ==> cloned(#[trigger] self@[key], map@[key]),
    {
        proof {
            use_type_invariant(self);
        }
        let mut entries: Vec<(String, V)> = Vec::new();
        let mut index: usize = 0;
        while index < self.entries.len()
            invariant
                keys_ascend(self.entries@),
                index <= self.entries@.len(),
                entries@.len() == index,
                forall|i: int|
                    0 <= i < index ==> (#[trigger] entries@[i]).0@ == self.entries@[i].0@ && cloned(
                        self.entries@[i].1,
                        entries@[i].1,
                    ),
            decreases self.entries@.len() - index,
        {
            let entry = &self.entries[index];
            entries.push((entry.0.clone(), entry.1.clone()));
            index += 1;
        }
        assert(keys_ascend(entries@));
        let map = TextMap { entries };
        assert forall|key: Seq<char>| has_key(self.entries@, key) == has_key(entries@, key) && (
        has_key(self.entries@, key) ==> cloned(
            entry_map(self.entries@)[key],
            entry_map(entries@)[key],
        )) by {
            if has_key(self.entries@, key) {
                let at = key_index(self.entries@, key);
                assert(entries@[at].0@ == key);
                lemma_entry(entries@, at);
            }
            if has_key(entries@, key) {
                let at = key_index(entries@, key);
                assert(self.entries@[at].0@ == key);
            }
        }
        assert(map@.dom() =~= self@.dom());
        map
    }
}

impl<V> TextMap<V> {
    #[verifier::type_invariant]
    closed spec fn wf(&self) -> bool {
        keys_ascend(self.entries@)
    }

    /// The entries in ascending key order.
    pub closed spec fn listed(&self) -> Seq<(String, V)> {
        self.entries@
    }

    pub fn new() -> (map: Self)
        ensures
            map@ == Map::<Seq<char>, V>::empty(),
    {
        let map = TextMap { entries: Vec::new() };
        assert(map@ =~= Map::<Seq<char>, V>::empty());
        map
    }

    /// The first position whose key does not precede `key`.
    fn lower_bound(&self, key: &str) -> (position: usize)
        ensures
            position <= self.entries@.len(),
            forall|i: int| 0 <= i < position ==> text_before((#[trigger] self.entries@[i]).0@, key@),
            position < self.entries@.len() ==> !text_before(self.entries@[position as int].0@, key@),
    {
        let mut position: usize = 0;
        while position < self.entries.len() && comes_before(self.entries[position].0.as_str(), key)
            invariant
                position <= self.entries@.len(),
                forall|i: int|
                    0 <= i < position ==> text_before((#[trigger] self.entries@[i]).0@, key@),
            decreases self.entries@.len() - position,
        {
            position += 1;
        }
        position
    }

    /// The position of `key`.
    fn position(&self, key: &str) -> (found: Option<usize>)
        ensures
            found is None <==> !has_key(self.entries@, key@),
            found matches Some(position) ==> position < self.entries@.len()
                && self.entries@[position as int].0@ == key@,
    {
        proof {
            use_type_invariant(&*self);
        }
        let position = self.lower_bound(key);
        if position < self.entries.len() && same_text(self.entries[position].0.as_str(), key) {
            Some(position)
        } else {
            assert forall|i: int| 0 <= i < self.entries@.len() implies (
            #[trigger] self.entries@[i]).0@ != key@ by {
                lemma_text_order_total(self.entries@[i].0@, key@);
                if i > position {
                    assert(text_before(self.entries@[position as int].0@, self.entries@[i].0@));
                    lemma_text_order_total(self.entries@[position as int].0@, key@);
                }
            }
            None
        }
    }

    pub fn get(&self, key: &str) -> (value: Option<&V>)
        ensures
            value is Some <==> self@.contains_key(key@),
            value matches Some(value) ==> *value == self@[key@],
    {
        match self.position(key) {
            Some(position) => {
                proof {
                    use_type_invariant(&*self);
                    lemma_entry(self.entries@, position as int);
                }
                Some(&self.entries[position].1)
            },
            None => None,
        }
    }

    pub fn contains_key(&self, key: &str) -> (present: bool)
        ensures
            present == self@.contains_key(key@),
    {
        self.position(key).is_some()
    }

    /// Sets the value of `key` and gives back the value it had.
    pub fn insert(&mut self, key: String, value: V) -> (previous: Option<V>)
        ensures
            final(self)@ == old(self)@.insert(key@, value),
            previous is Some <==> old(self)@.contains_key(key@),
            previous matches Some(previous) ==> previous == old(self)@[key@],
    {
        proof {
            use_type_invariant(&*self);
        }
        let ghost before = self.entries@;
        let position = self.lower_bound(key.as_str());
        let held = self.position(key.as_str());
        let mut entries: Vec<(String, V)> = Vec::new();
        core::mem::swap(&mut self.entries, &mut entries);
        let previous = match held {
            Some(position) => {
                proof {
                    lemma_entry(before, position as int);
                }
                let (_, value) = entries.remove(position);
                Some(value)
            },
            None => None,
        };
        let ghost middle = entries@;
        assert(keys_ascend(middle));
        assert(!has_key(middle, key@)) by {
            if has_key(middle, key@) {
                let at = key_index(middle, key@);
                if let Some(_) = previous {
                    let removed = key_index(before, key@);
                    lemma_entry(before, removed);
                    let original = if at < removed { at } else { at + 1 };
                    assert(before[original] == middle[at]);
                    lemma_entry(before, original);
                } else {
                    assert(before[at].0@ == key@);
                }
            }
        }
        proof {
            if let Some(at) = held {
                lemma_text_order_total(key@, key@);
                if position < at {
                    lemma_text_order_total(before[position as int].0@, key@);
                    assert(text_before(before[position as int].0@, before[at as int].0@));
                }
                assert(position == at);
            }
            assert forall|i: int| 0 <= i < position implies text_before(
                (#[trigger] middle[i]).0@,
                key@,
            ) by {
                assert(middle[i] == before[i]);
            }
            if position < middle.len() {
                if let Some(at) = held {
                    assert(middle[position as int] == before[position + 1]);
                    assert(text_before(before[at as int].0@, before[position + 1].0@));
                } else {
                    assert(middle[position as int] == before[position as int]);
                    lemma_text_order_total(middle[position as int].0@, key@);
                    assert(middle[position as int].0@ != key@);
                }
            }
        }
        let ghost inserted = middle.insert(position as int, (key, value));
        assert(keys_ascend(inserted)) by {
            assert forall|i: int, j: int| 0 <= i < j < inserted.len() implies text_before(
                (#[trigger] inserted[i]).0@,
                (#[trigger] inserted[j]).0@,
            ) by {
                let left = if i < position { i } else { i - 1 };
                let right = if j < position { j } else { j - 1 };
                if i != position && j != position {
                    assert(inserted[i] == middle[left] && inserted[j] == middle[right]);
                } else if i == position {
                    assert(inserted[j] == middle[right]);
                    if right > position {
                        assert(text_before(middle[position as int].0@, middle[right].0@));
                        lemma_text_order_transitive(
                            key@,
                            middle[position as int].0@,
                            middle[right].0@,
                        );
                    }
                } else {
                    assert(inserted[i] == middle[left]);
                }
            }
        }
        entries.insert(position, (key, value));
        assert(entries@ =~= inserted);
        self.entries = entries;
        assert(self@ =~= entry_map(before).insert(key@, value)) by {
            lemma_entry(inserted, position as int);
            assert forall|other: Seq<char>| other != key@ implies has_key(inserted, other)
                == has_key(before, other) && (has_key(before, other) ==> entry_map(inserted)[other]
                == entry_map(before)[other]) by {
                if has_key(before, other) {
                    let at = key_index(before, other);
                    lemma_entry(before, at);
                    let kept = match previous {
                        Some(_) => if at < key_index(before, key@) { at } else { at - 1 },
                        None => at,
                    };
                    assert(middle[kept] == before[at]);
                    let moved = if kept < position { kept } else { kept + 1 };
                    assert(inserted[moved] == middle[kept]);
                    lemma_entry(inserted, moved);
                }
                if has_key(inserted, other) {
                    let at = key_index(inserted, other);
                    assert(at != position);
                    let kept = if at < position { at } else { at - 1 };
                    assert(middle[kept] == inserted[at]);
                    let original = match previous {
                        Some(_) => if kept < key_index(before, key@) { kept } else { kept + 1 },
                        None => kept,
                    };
                    assert(before[original] == middle[kept]);
                }
            }
        }
        previous
    }

    /// Removes `key` and gives back the value it had.
    pub fn remove(&mut self, key: &str) -> (previous: Option<V>)
        ensures
            final(self)@ == old(self)@.remove(key@),
            previous is Some <==> old(self)@.contains_key(key@),
            previous matches Some(previous) ==> previous == old(self)@[key@],
    {
        proof {
            use_type_invariant(&*self);
        }
        let ghost before = self.entries@;
        match self.position(key) {
            Some(position) => {
                proof {
                    lemma_entry(before, position as int);
                }
                let mut entries: Vec<(String, V)> = Vec::new();
                core::mem::swap(&mut self.entries, &mut entries);
                let (_, value) = entries.remove(position);
                let ghost after = entries@;
                self.entries = entries;
                assert(self@ =~= entry_map(before).remove(key@)) by {
                    assert forall|other: Seq<char>| has_key(after, other) == (has_key(before, other)
                        && other != key@) && (has_key(after, other) ==> entry_map(after)[other]
                        == entry_map(before)[other]) by {
                        if has_key(after, other) {
                            let at = key_index(after, other);
                            let original = if at < position { at } else { at + 1 };
                            assert(before[original] == after[at]);
                            lemma_entry(before, original);
                            lemma_entry(after, at);
                        }
                        if has_key(before, other) && other != key@ {
                            let at = key_index(before, other);
                            let kept = if at < position { at } else { at - 1 };
                            assert(after[kept] == before[at]);
                        }
                    }
                }
                Some(value)
            },
            None => {
                assert(self@ =~= entry_map(before).remove(key@));
                None
            },
        }
    }

    /// The number of entries. The listed entries are exactly the map's, in
    /// strictly ascending key order.
    pub fn len(&self) -> (count: usize)
        ensures
            count == self.listed().len(),
            count == self@.dom().len(),
            self@.dom().finite(),
            keys_ascend(self.listed()),
            self@ == entry_map(self.listed()),
    {
        proof {
            use_type_invariant(&*self);
            lemma_entry_count(self.entries@);
        }
        self.entries.len()
    }

    /// The entry at `index` in ascending key order.
    pub fn entry(&self, index: usize) -> (entry: (&String, &V))
        requires
            index < self.listed().len(),
        ensures
            *entry.0 == self.listed()[index as int].0,
            *entry.1 == self.listed()[index as int].1,
            self@.contains_key(entry.0@),
            self@[entry.0@] == *entry.1,
    {
        proof {
            use_type_invariant(&*self);
            lemma_entry(self.entries@, index as int);
        }
        let entry = &self.entries[index];
        (&entry.0, &entry.1)
    }
}

/// Adds every name as a key.
pub fn add_names(set: &mut TextMap<()>, names: &[&str])
    ensures
        final(set)@.dom() == old(set)@.dom().union(slice_views(names@).to_set()),
{
    let ghost all = slice_views(names@);
    let mut index: usize = 0;
    while index < names.len()
        invariant
            all == slice_views(names@),
            index <= names@.len(),
            set@.dom() == old(set)@.dom().union(all.take(index as int).to_set()),
        decreases names@.len() - index,
    {
        set.insert(names[index].to_owned(), ());
        index += 1;
        assert(all.take(index as int) =~= all.take(index - 1).push(all[index - 1]));
        assert(all.take(index as int).to_set() =~= all.take(index - 1).to_set().insert(
            all[index - 1],
        )) by {
            lemma_set_of_push(all.take(index - 1), all[index - 1]);
        }
    }
    assert(all.take(index as int) =~= all);
}

/// The set of a sequence with one more element.
pub proof fn lemma_set_of_push<A>(elements: Seq<A>, element: A)
    ensures
        elements.push(element).to_set() == elements.to_set().insert(element),
{
    let pushed = elements.push(element);
    assert forall|other: A| #[trigger]
        pushed.to_set().contains(other) == elements.to_set().insert(element).contains(other) by {
        if elements.contains(other) {
            let at = choose|i: int| 0 <= i < elements.len() && elements[i] == other;
            assert(pushed[at] == other);
        }
        if other == element {
            assert(pushed[elements.len() as int] == other);
        }
        if pushed.contains(other) && other != element {
            let at = choose|i: int| 0 <= i < pushed.len() && pushed[i] == other;
            assert(elements[at] == other);
        }
    }
    assert(pushed.to_set() =~= elements.to_set().insert(element));
}

fn keys_within<A, B>(inner: &TextMap<A>, outer: &TextMap<B>) -> (within: bool)
    ensures
        within == inner@.dom().subset_of(outer@.dom()),
{
    let count = inner.len();
    let mut index: usize = 0;
    while index < count
        invariant
            count == inner.listed().len(),
            inner@ == entry_map(inner.listed()),
            index <= count,
            forall|i: int|
                0 <= i < index ==> outer@.contains_key((#[trigger] inner.listed()[i]).0@),
        decreases count - index,
    {
        let (key, _) = inner.entry(index);
        if !outer.contains_key(key.as_str()) {
            assert(inner@.dom().contains(key@));
            return false;
        }
        index += 1;
    }
    assert forall|key: Seq<char>| inner@.dom().contains(key) implies outer@.dom().contains(key) by {
        let at = key_index(inner.listed(), key);
        assert(inner.listed()[at].0@ == key);
    }
    true
}

/// Whether the two maps have the same keys.
pub fn same_keys<A, B>(left: &TextMap<A>, right: &TextMap<B>) -> (same: bool)
    ensures
        same == (left@.dom() == right@.dom()),
{
    let same = keys_within(left, right) && keys_within(right, left);
    assert(same ==> left@.dom() =~= right@.dom());
    same
}

} // verus!

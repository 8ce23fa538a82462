//! An ordered map from texts to values.

use vstd::prelude::*;

use crate::text::{copy_of, order_of, precedes, precedes_is_irreflexive, precedes_is_total,
    precedes_is_transitive, Order, Text};

verus! {

/// Texts in strictly ascending dictionary order; none occurs twice.
pub open spec fn ascending(keys: Seq<Text>) -> bool {
    forall|i: int, j: int| 0 <= i < j < keys.len() ==> precedes(#[trigger] keys[i], #[trigger] keys[j])
}

/// The members of a finite set of texts in ascending order.
pub open spec fn in_order(members: Set<Text>) -> Seq<Text> {
    choose|keys: Seq<Text>| ascending(keys) && keys.to_set() == members
}

/// There is one ascending sequence with given members.
pub proof fn ascending_is_unique(a: Seq<Text>, b: Seq<Text>)
    requires
        ascending(a),
        ascending(b),
        a.to_set() == b.to_set(),
    ensures
        a == b,
    decreases a.len(),
{
    if a.len() == 0 {
        if b.len() > 0 {
            assert(b.to_set().contains(b[0]));
            assert(a.to_set().contains(b[0]));
        }
        assert(a =~= b);
    } else {
        assert(a.to_set().contains(a[0]));
        assert(b.to_set().contains(a[0]));
        assert(b.len() > 0);
        let last_a = a.last();
        let last_b = b.last();
        assert(b.to_set().contains(last_a)) by {
            assert(a.to_set().contains(a[a.len() - 1]));
        }
        assert(a.to_set().contains(last_b)) by {
            assert(b.to_set().contains(b[b.len() - 1]));
        }
        let i = choose|i: int| 0 <= i < b.len() && b[i] == last_a;
        let j = choose|j: int| 0 <= j < a.len() && a[j] == last_b;
        if last_a != last_b {
            assert(precedes(b[i], b[b.len() - 1]));
            assert(precedes(a[j], a[a.len() - 1]));
            precedes_is_transitive(last_a, last_b, last_a);
            precedes_is_irreflexive(last_a);
        }
        let front_a = a.drop_last();
        let front_b = b.drop_last();
        assert forall|key: Text| front_a.to_set().contains(key) implies front_b.to_set().contains(
            key,
        ) by {
            let n = choose|n: int| 0 <= n < front_a.len() && front_a[n] == key;
            assert(a[n] == key);
            assert(precedes(a[n], a[a.len() - 1]));
            precedes_is_irreflexive(key);
            assert(a.to_set().contains(key));
            let m = choose|m: int| 0 <= m < b.len() && b[m] == key;
            assert(m != b.len() - 1);
            assert(front_b[m] == key);
        }
        assert forall|key: Text| front_b.to_set().contains(key) implies front_a.to_set().contains(
            key,
        ) by {
            let n = choose|n: int| 0 <= n < front_b.len() && front_b[n] == key;
            assert(b[n] == key);
            assert(precedes(b[n], b[b.len() - 1]));
            precedes_is_irreflexive(key);
            assert(b.to_set().contains(key));
            let m = choose|m: int| 0 <= m < a.len() && a[m] == key;
            assert(m != a.len() - 1);
            assert(front_a[m] == key);
        }
        assert(front_a.to_set() =~= front_b.to_set());
        ascending_is_unique(front_a, front_b);
        assert(a =~= front_a.push(last_a));
        assert(b =~= front_b.push(last_b));
    }
}

/// An ascending sequence is the ordering of its own members.
pub proof fn ascending_is_in_order(keys: Seq<Text>)
    requires
        ascending(keys),
    ensures
        in_order(keys.to_set()) == keys,
{
    ascending_is_unique(in_order(keys.to_set()), keys);
}

/// A finite set of texts can be put in order.
pub proof fn in_order_has_the_members(members: Set<Text>)
    requires
        members.finite(),
    ensures
        ascending(in_order(members)),
        in_order(members).to_set() == members,
{
    let keys = sorted(members);
    assert(ascending(keys) && keys.to_set() == members);
}

/// Some ascending sequence with the given members.
proof fn sorted(members: Set<Text>) -> (keys: Seq<Text>)
    requires
        members.finite(),
    ensures
        ascending(keys),
        keys.to_set() == members,
    decreases members.len(),
{
    if members.len() == 0 {
        assert(Seq::<Text>::empty().to_set() =~= members);
        Seq::empty()
    } else {
        let key = members.choose();
        let rest = sorted(members.remove(key));
        let keys = placed(rest, key);
        assert(keys.to_set() =~= members) by {
            assert forall|other: Text| keys.to_set().contains(other) <==> members.contains(other) by {
                assert(keys.contains(other) <==> rest.contains(other) || other == key);
                assert(rest.to_set().contains(other) <==> members.remove(key).contains(other));
            }
        }
        keys
    }
}

/// An ascending sequence with one more member.
proof fn placed(rest: Seq<Text>, key: Text) -> (keys: Seq<Text>)
    requires
        ascending(rest),
        !rest.contains(key),
    ensures
        ascending(keys),
        forall|other: Text| keys.contains(other) <==> rest.contains(other) || other == key,
    decreases rest.len(),
{
    if rest.len() == 0 || precedes(rest.last(), key) {
        let keys = rest.push(key);
        assert forall|i: int, j: int| 0 <= i < j < keys.len() implies precedes(#[trigger] keys[i], #[trigger] keys[j]) by {
            if j == rest.len() && i < rest.len() - 1 {
                precedes_is_transitive(rest[i], rest.last(), key);
            }
        }
        assert forall|other: Text| keys.contains(other) <==> rest.contains(other) || other == key by {
            if rest.contains(other) {
                let i = choose|i: int| 0 <= i < rest.len() && rest[i] == other;
                assert(keys[i] == other);
            }
            assert(keys[rest.len() as int] == key);
        }
        keys
    } else {
        let front = rest.drop_last();
        let last = rest.last();
        assert forall|other: Text| rest.contains(other) <==> front.contains(other) || other == last by {
            if front.contains(other) {
                let i = choose|i: int| 0 <= i < front.len() && front[i] == other;
                assert(rest[i] == other);
            }
            if rest.contains(other) && other != last {
                let i = choose|i: int| 0 <= i < rest.len() && rest[i] == other;
                assert(front[i] == other);
            }
            assert(rest[rest.len() - 1] == last);
        }
        let most = placed(front, key);
        let keys = most.push(last);
        precedes_is_total(last, key);
        assert forall|i: int, j: int| 0 <= i < j < keys.len() implies precedes(#[trigger] keys[i], #[trigger] keys[j]) by {
            if j == most.len() {
                assert(most.contains(most[i]));
                if most[i] != key {
                    let n = choose|n: int| 0 <= n < front.len() && front[n] == most[i];
                    assert(precedes(rest[n], rest[rest.len() - 1]));
                }
            }
        }
        assert forall|other: Text| keys.contains(other) <==> rest.contains(other) || other == key by {
            if most.contains(other) {
                let i = choose|i: int| 0 <= i < most.len() && most[i] == other;
                assert(keys[i] == other);
            }
            assert(keys[most.len() as int] == last);
        }
        keys
    }
}

spec fn keys_of<V>(entries: Seq<(String, V)>) -> Seq<Text> {
    Seq::new(entries.len(), |i: int| entries[i].0@)
}

spec fn index_for<V>(entries: Seq<(String, V)>, key: Text) -> int {
    choose|i: int| 0 <= i < entries.len() && (#[trigger] entries[i]).0@ == key
}

spec fn map_of<V: DeepView>(entries: Seq<(String, V)>) -> Map<Text, V::V> {
    Map::new(
        |key: Text| exists|i: int| 0 <= i < entries.len() && (#[trigger] entries[i]).0@ == key,
        |key: Text| entries[index_for(entries, key)].1.deep_view(),
    )
}

proof fn lemma_entry<V: DeepView>(entries: Seq<(String, V)>, i: int)
    requires
        ascending(keys_of(entries)),
        0 <= i < entries.len(),
    ensures
        map_of(entries).contains_key(entries[i].0@),
        map_of(entries)[entries[i].0@] == entries[i].1.deep_view(),
{
    let key = entries[i].0@;
    assert(entries[i].0@ == key);
    let j = index_for(entries, key);
    let keys = keys_of(entries);
    assert(keys[i] == keys[j]);
    if i < j {
        assert(precedes(keys[i], keys[j]));
    } else if j < i {
        assert(precedes(keys[j], keys[i]));
    }
    precedes_is_irreflexive(key);
}

/// A map from texts to values that keeps its entries in ascending order of their keys.
#[derive(Debug, PartialEq, Eq)]
pub struct Table<V> {
    entries: Vec<(String, V)>,
}

impl<V> Table<V> {
    /// The keys, in ascending order.
    pub closed spec fn keys(&self) -> Seq<Text> {
        keys_of(self.entries@)
    }

    #[verifier::type_invariant]
    spec fn ordered(self) -> bool {
        ascending(self.keys())
    }
}

impl<V: DeepView> View for Table<V> {
    type V = Map<Text, V::V>;

    closed spec fn view(&self) -> Map<Text, V::V> {
        map_of(self.entries@)
    }
}

impl<V: DeepView> DeepView for Table<V> {
    type V = Map<Text, V::V>;

    open spec fn deep_view(&self) -> Map<Text, V::V> {
        self.view()
    }
}

impl<V: DeepView> Table<V> {
    /// A table without entries.
    pub fn new() -> (table: Self)
        ensures
            table@ == Map::<Text, V::V>::empty(),
    {
        let table = Table { entries: Vec::new() };
        assert(table@ =~= Map::<Text, V::V>::empty());
        table
    }

    /// How many entries there are. They are numbered in the order of their keys.
    pub fn len(&self) -> (count: usize)
        ensures
            count == self.keys().len(),
            self.keys() == in_order(self@.dom()),
            self@.dom().finite(),
            count == self@.dom().len(),
            forall|i: int| 0 <= i < count ==> self@.contains_key(#[trigger] self.keys()[i]),
    {
        proof {
            use_type_invariant(self);
            self.lemma_keys();
        }
        self.entries.len()
    }

    proof fn lemma_keys(&self)
        requires
            ascending(self.keys()),
        ensures
            self.keys() == in_order(self@.dom()),
            self@.dom().finite(),
            self.keys().to_set() == self@.dom(),
            self.keys().len() == self@.dom().len(),
            forall|i: int| 0 <= i < self.keys().len() ==> self@.contains_key(#[trigger] self.keys()[i]),
    {
        let keys = self.keys();
        assert forall|key: Text| keys.to_set().contains(key) <==> self@.dom().contains(key) by {
            if keys.to_set().contains(key) {
                let i = choose|i: int| 0 <= i < keys.len() && keys[i] == key;
                assert(self.entries@[i].0@ == key);
            }
            if self@.dom().contains(key) {
                let i = choose|i: int|
                    0 <= i < self.entries@.len() && (#[trigger] self.entries@[i]).0@ == key;
                assert(keys[i] == key);
            }
        }
        assert(keys.to_set() =~= self@.dom());
        ascending_is_in_order(keys);
        assert(keys.no_duplicates()) by {
            assert forall|i: int, j: int| 0 <= i < keys.len() && 0 <= j < keys.len() && i != j implies
                keys[i] != keys[j] by {
                precedes_is_irreflexive(keys[i]);
                if i < j {
                    assert(precedes(keys[i], keys[j]));
                } else {
                    assert(precedes(keys[j], keys[i]));
                }
            }
        }
        keys.unique_seq_to_set();
        assert forall|i: int| 0 <= i < keys.len() implies self@.contains_key(#[trigger] keys[i]) by {
            assert(keys.to_set().contains(keys[i]));
        }
    }

    /// The numbered keys are exactly the keys of the map.
    pub proof fn lemma_members(&self)
        ensures
            forall|key: Text| self.keys().contains(key) <==> self@.contains_key(key),
    {
        assert forall|key: Text| self.keys().contains(key) <==> self@.contains_key(key) by {
            if self.keys().contains(key) {
                let i = choose|i: int| 0 <= i < self.keys().len() && self.keys()[i] == key;
                assert(self.entries@[i].0@ == key);
            }
            if self@.contains_key(key) {
                let i = index_for(self.entries@, key);
                assert(self.keys()[i] == key);
            }
        }
    }

    /// No key stands among those before it.
    pub proof fn lemma_distinct(&self, i: int)
        requires
            self.keys() == in_order(self@.dom()),
            self@.dom().finite(),
            0 <= i < self.keys().len(),
        ensures
            !self.keys().take(i).contains(self.keys()[i]),
    {
        in_order_has_the_members(self@.dom());
        let seen = self.keys().take(i);
        if seen.contains(self.keys()[i]) {
            let n = choose|n: int| 0 <= n < seen.len() && seen[n] == self.keys()[i];
            assert(precedes(self.keys()[n], self.keys()[i]));
            precedes_is_irreflexive(self.keys()[i]);
        }
    }

    /// The key of one entry.
    pub fn key_at(&self, index: usize) -> (key: &str)
        requires
            index < self.keys().len(),
        ensures
            key@ == self.keys()[index as int],
    {
        self.entries[index].0.as_str()
    }

    /// The value of one entry.
    pub fn value_at(&self, index: usize) -> (value: &V)
        requires
            index < self.keys().len(),
        ensures
            self@.contains_key(self.keys()[index as int]),
            value.deep_view() == self@[self.keys()[index as int]],
    {
        proof {
            use_type_invariant(self);
            lemma_entry(self.entries@, index as int);
        }
        &self.entries[index].1
    }

    /// The number of entries whose keys come before `key`.
    fn position(&self, key: &str) -> (position: usize)
        ensures
            position <= self.entries@.len(),
            forall|i: int| 0 <= i < position ==> precedes(#[trigger] keys_of(self.entries@)[i], key@),
            position < self.entries@.len() ==> !precedes(self.entries@[position as int].0@, key@),
            (position < self.entries@.len() && self.entries@[position as int].0@ == key@) <==> self@.contains_key(key@),
    {
        let mut i: usize = 0;
        while i < self.entries.len()
            invariant_except_break
                i <= self.entries@.len(),
                forall|j: int| 0 <= j < i ==> precedes(#[trigger] keys_of(self.entries@)[j], key@),
            ensures
                i <= self.entries@.len(),
                forall|j: int| 0 <= j < i ==> precedes(#[trigger] keys_of(self.entries@)[j], key@),
                i < self.entries@.len() ==> !precedes(self.entries@[i as int].0@, key@),
            decreases self.entries.len() - i,
        {
            match order_of(self.entries[i].0.as_str(), key) {
                Order::Before => {
                    i += 1;
                },
                _ => {
                    proof {
                        precedes_is_irreflexive(key@);
                    }
                    break;
                },
            }
        }
        proof {
            use_type_invariant(self);
            let keys = keys_of(self.entries@);
            if self@.contains_key(key@) {
                let j = choose|j: int|
                    0 <= j < self.entries@.len() && (#[trigger] self.entries@[j]).0@ == key@;
                assert(keys[j] == key@);
                precedes_is_irreflexive(key@);
                if j > i {
                    assert(precedes(keys[i as int], keys[j]));
                }
            }
        }
        i
    }

    /// Whether `key` has an entry.
    pub fn contains_key(&self, key: &str) -> (found: bool)
        ensures
            found == self@.contains_key(key@),
    {
        let position: usize = self.position(key);
        if position < self.entries.len() {
            match order_of(self.entries[position].0.as_str(), key) {
                Order::Same => true,
                _ => false,
            }
        } else {
            false
        }
    }

    /// The value that belongs to `key`.
    pub fn get(&self, key: &str) -> (value: Option<&V>)
        ensures
            value is Some <==> self@.contains_key(key@),
            value matches Some(found) ==> found.deep_view() == self@[key@],
    {
        let position: usize = self.position(key);
        if position < self.entries.len() {
            match order_of(self.entries[position].0.as_str(), key) {
                Order::Same => {
                    proof {
                        use_type_invariant(self);
                        lemma_entry(self.entries@, position as int);
                    }
                    Some(&self.entries[position].1)
                },
                _ => None,
            }
        } else {
            None
        }
    }

    /// Gives `key` the value, in place of any that it had.
    pub fn insert(&mut self, key: String, value: V)
        ensures
            final(self)@ == old(self)@.insert(key@, value.deep_view()),
    {
        proof {
            use_type_invariant(&*self);
        }
        let position: usize = self.position(key.as_str());
        let present: bool = self.contains_key(key.as_str());
        let mut entries: Vec<(String, V)> = Vec::new();
        std::mem::swap(&mut entries, &mut self.entries);
        let ghost before = entries@;
        let ghost new_key = key@;
        let ghost new_value = value.deep_view();
        if present {
            let _ = entries.remove(position);
        }
        let ghost rest = entries@;
        entries.insert(position, (key, value));
        proof {
            let at = position as int;
            let old_keys = keys_of(before);
            let keys = keys_of(entries@);
            let shift: int = if present { 0 } else { 1 };
            assert forall|i: int| 0 <= i < keys.len() && i != at implies #[trigger] keys[i] == old_keys[if i < at { i } else { i - shift }]
                && entries@[i] == before[if i < at { i } else { i - shift }] by {}
            assert(keys[at] == new_key);
            assert forall|i: int, j: int| 0 <= i < j < keys.len() implies precedes(#[trigger] keys[i], #[trigger] keys[j]) by {
                if i == at {
                    let k = j - shift;
                    assert(keys[j] == old_keys[k]);
                    precedes_is_total(new_key, old_keys[at]);
                    if present {
                        assert(precedes(old_keys[at], old_keys[k]));
                    } else if k > at {
                        assert(precedes(old_keys[at], old_keys[k]));
                        if old_keys[at] != new_key {
                            precedes_is_transitive(new_key, old_keys[at], old_keys[k]);
                        }
                    } else {
                        assert(before[at].0@ != new_key);
                    }
                } else if j == at {
                    assert(keys[i] == old_keys[i]);
                } else {
                    let a = if i < at { i } else { i - shift };
                    let b = if j < at { j } else { j - shift };
                    assert(precedes(old_keys[a], old_keys[b]));
                }
            }
            assert(ascending(keys));
            let goal = map_of(before).insert(new_key, new_value);
            assert forall|k: Text| map_of(entries@).contains_key(k) <==> goal.contains_key(k) by {
                if map_of(entries@).contains_key(k) {
                    let i = choose|i: int| 0 <= i < entries@.len() && (#[trigger] entries@[i]).0@ == k;
                    if i != at {
                        assert(keys[i] == k);
                        assert(before[if i < at { i } else { i - shift }].0@ == k);
                    }
                }
                if map_of(before).contains_key(k) {
                    let i = choose|i: int| 0 <= i < before.len() && (#[trigger] before[i]).0@ == k;
                    let n = if i < at { i } else { i + shift };
                    assert(entries@[n].0@ == k || (present && n == at));
                    if present && n == at {
                        assert(k == new_key);
                    }
                }
                assert(entries@[at].0@ == new_key);
            }
            assert forall|k: Text| #[trigger] map_of(entries@).contains_key(k) implies map_of(entries@)[k] == goal[k] by {
                let i = choose|i: int| 0 <= i < entries@.len() && (#[trigger] entries@[i]).0@ == k;
                lemma_entry(entries@, i);
                if i != at {
                    assert(keys[i] == k);
                    let n = if i < at { i } else { i - shift };
                    lemma_entry(before, n);
                    precedes_is_irreflexive(new_key);
                    if k == new_key {
                        if i < at {
                            assert(precedes(keys[i], keys[at]));
                        } else {
                            assert(precedes(keys[at], keys[i]));
                        }
                    }
                }
            }
            assert(map_of(entries@) =~= goal);
        }
        self.entries = entries;
    }

    /// Drops the entry of `key`. Tells whether there was one.
    pub fn remove(&mut self, key: &str) -> (removed: bool)
        ensures
            removed == old(self)@.contains_key(key@),
            final(self)@ == old(self)@.remove(key@),
    {
        proof {
            use_type_invariant(&*self);
        }
        if !self.contains_key(key) {
            assert(self@.remove(key@) =~= self@);
            return false;
        }
        let position: usize = self.position(key);
        let mut entries: Vec<(String, V)> = Vec::new();
        std::mem::swap(&mut entries, &mut self.entries);
        let ghost before = entries@;
        let _ = entries.remove(position);
        proof {
            let at = position as int;
            let old_keys = keys_of(before);
            let keys = keys_of(entries@);
            assert forall|i: int, j: int| 0 <= i < j < keys.len() implies precedes(#[trigger] keys[i], #[trigger] keys[j]) by {
                let a = if i < at { i } else { i + 1 };
                let b = if j < at { j } else { j + 1 };
                assert(precedes(old_keys[a], old_keys[b]));
            }
            let goal = map_of(before).remove(key@);
            assert forall|k: Text| map_of(entries@).contains_key(k) <==> goal.contains_key(k) by {
                if map_of(entries@).contains_key(k) {
                    let i = choose|i: int| 0 <= i < entries@.len() && (#[trigger] entries@[i]).0@ == k;
                    let n = if i < at { i } else { i + 1 };
                    assert(before[n].0@ == k);
                    precedes_is_irreflexive(key@);
                    if k == key@ {
                        assert(old_keys[n] == key@ && old_keys[at] == key@);
                        if n < at {
                            assert(precedes(old_keys[n], old_keys[at]));
                        } else {
                            assert(precedes(old_keys[at], old_keys[n]));
                        }
                    }
                }
                if map_of(before).contains_key(k) && k != key@ {
                    let i = choose|i: int| 0 <= i < before.len() && (#[trigger] before[i]).0@ == k;
                    let n = if i < at { i } else { i - 1 };
                    assert(entries@[n].0@ == k);
                }
            }
            assert forall|k: Text| #[trigger] map_of(entries@).contains_key(k) implies map_of(entries@)[k] == goal[k] by {
                let i = choose|i: int| 0 <= i < entries@.len() && (#[trigger] entries@[i]).0@ == k;
                lemma_entry(entries@, i);
                let n = if i < at { i } else { i + 1 };
                assert(before[n] == entries@[i]);
                lemma_entry(before, n);
                assert(goal.contains_key(k));
            }
            assert(map_of(entries@) =~= goal);
        }
        self.entries = entries;
        true
    }
}

/// Whether clones of values say the same as the values.
pub open spec fn clones_say_the_same<V: DeepView + Clone>() -> bool {
    forall|a: V, b: V| #[trigger] cloned::<V>(a, b) ==> a.deep_view() == b.deep_view()
}

impl<V: DeepView + Clone> Table<V> {
    /// A table with the same entries.
    pub fn duplicate(&self) -> (copy: Self)
        requires
            clones_say_the_same::<V>(),
        ensures
            copy@ == self@,
    {
        proof {
            use_type_invariant(self);
        }
        let mut entries: Vec<(String, V)> = Vec::new();
        let mut i: usize = 0;
        while i < self.entries.len()
            invariant
                clones_say_the_same::<V>(),
                i <= self.entries@.len(),
                entries@.len() == i,
                forall|j: int| 0 <= j < i ==> (#[trigger] entries@[j]).0@ == self.entries@[j].0@
                    && entries@[j].1.deep_view() == self.entries@[j].1.deep_view(),
            decreases self.entries.len() - i,
        {
            let entry = &self.entries[i];
            let value = entry.1.clone();
            assert(cloned::<V>(entry.1, value));
            entries.push((copy_of(entry.0.as_str()), value));
            i += 1;
        }
        proof {
            assert(keys_of(entries@) =~= keys_of(self.entries@));
            assert forall|k: Text| map_of(entries@).contains_key(k) <==> self@.contains_key(k) by {
                if map_of(entries@).contains_key(k) {
                    let n = index_for(entries@, k);
                    assert(self.entries@[n].0@ == k);
                }
                if self@.contains_key(k) {
                    let n = index_for(self.entries@, k);
                    assert(entries@[n].0@ == k);
                }
            }
            assert forall|k: Text| #[trigger] map_of(entries@).contains_key(k) implies map_of(entries@)[k] == self@[k] by {
                let n = index_for(entries@, k);
                assert(entries@[n].0@ == k);
                lemma_entry(entries@, n);
                lemma_entry(self.entries@, n);
            }
            assert(map_of(entries@) =~= self@);
        }
        Table { entries }
    }
}

impl Table<i128> {
    /// Tests whether two tables have the same entries.
    pub fn same(&self, other: &Self) -> (same: bool)
        ensures
            same == (self@ == other@),
    {
        proof {
            use_type_invariant(self);
            use_type_invariant(other);
            self.lemma_keys();
            other.lemma_keys();
        }
        if self.entries.len() != other.entries.len() {
            return false;
        }
        let mut i: usize = 0;
        while i < self.entries.len()
            invariant
                i <= self.entries@.len(),
                self.entries@.len() == other.entries@.len(),
                ascending(self.keys()),
                ascending(other.keys()),
                self.keys() == in_order(self@.dom()),
                other.keys() == in_order(other@.dom()),
                forall|j: int| 0 <= j < i ==> (#[trigger] self.entries@[j]).0@ == other.entries@[j].0@
                    && self.entries@[j].1 == other.entries@[j].1,
            decreases self.entries.len() - i,
        {
            let here = &self.entries[i];
            let there = &other.entries[i];
            proof {
                assert(self.keys()[i as int] == here.0@);
                assert(other.keys()[i as int] == there.0@);
                lemma_entry(self.entries@, i as int);
                lemma_entry(other.entries@, i as int);
            }
            match order_of(here.0.as_str(), there.0.as_str()) {
                Order::Same => {},
                _ => {
                    return false;
                },
            }
            if here.1 != there.1 {
                return false;
            }
            i += 1;
        }
        proof {
            assert forall|k: Text| self@.contains_key(k) <==> other@.contains_key(k) by {
                if self@.contains_key(k) {
                    let n = index_for(self.entries@, k);
                    assert(self.entries@[n].0@ == k);
                    assert(other.entries@[n].0@ == k);
                }
                if other@.contains_key(k) {
                    let n = index_for(other.entries@, k);
                    assert(other.entries@[n].0@ == k);
                    assert(self.entries@[n].0@ == k);
                }
            }
            assert forall|k: Text| #[trigger] self@.contains_key(k) implies self@[k] == other@[k] by {
                let n = index_for(self.entries@, k);
                assert(self.entries@[n].0@ == k);
                lemma_entry(self.entries@, n);
                lemma_entry(other.entries@, n);
            }
            assert(self@ =~= other@);
        }
        true
    }
}

} // verus!

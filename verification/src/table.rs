//! Association lists keyed by text.

use crate::text::same;
use vstd::prelude::*;

verus! {

/// The value stored under `key`, the first one where there are several.
pub open spec fn lookup<V>(items: Seq<(Seq<char>, V)>, key: Seq<char>) -> Option<V>
    decreases items.len(),
{
    if items.len() == 0 {
        None
    } else if items[0].0 == key {
        Some(items[0].1)
    } else {
        lookup(items.skip(1), key)
    }
}

/// `items` with `value` stored under `key`: in place of the first entry with
/// that key, or at the end.
pub open spec fn stored<V>(items: Seq<(Seq<char>, V)>, key: Seq<char>, value: V) -> Seq<
    (Seq<char>, V),
>
    decreases items.len(),
{
    if items.len() == 0 {
        seq![(key, value)]
    } else if items[0].0 == key {
        items.update(0, (key, value))
    } else {
        seq![items[0]] + stored(items.skip(1), key, value)
    }
}

/// No key occurs twice.
pub open spec fn distinct_keys<V>(items: Seq<(Seq<char>, V)>) -> bool {
    forall|i: int, j: int|
        0 <= i < j < items.len() ==> #[trigger] items[i].0 != #[trigger] items[j].0
}

/// `lookup` finds the first entry with the key, and fails only where there is none.
pub proof fn lemma_lookup<V>(items: Seq<(Seq<char>, V)>, key: Seq<char>)
    ensures
        match lookup(items, key) {
            Some(v) => exists|i: int|
                0 <= i < items.len() && #[trigger] items[i] == (key, v) && forall|j: int|
                    0 <= j < i ==> (#[trigger] items[j]).0 != key,
            None => forall|i: int| 0 <= i < items.len() ==> (#[trigger] items[i]).0 != key,
        },
    decreases items.len(),
{
    if items.len() > 0 {
        if items[0].0 != key {
            let rest = items.skip(1);
            lemma_lookup(rest, key);
            match lookup(rest, key) {
                Some(v) => {
                    let i = choose|i: int|
                        0 <= i < rest.len() && #[trigger] rest[i] == (key, v) && forall|j: int|
                            0 <= j < i ==> (#[trigger] rest[j]).0 != key;
                    assert(items[i + 1] == (key, v));
                    assert forall|j: int| 0 <= j < i + 1 implies (#[trigger] items[j]).0 != key by {
                        if j > 0 {
                            assert(items[j] == rest[j - 1]);
                        }
                    }
                },
                None => {
                    assert forall|i: int| 0 <= i < items.len() implies (#[trigger] items[i]).0
                        != key by {
                        if i > 0 {
                            assert(items[i] == rest[i - 1]);
                        }
                    }
                },
            }
        } else {
            assert(items[0] == (key, items[0].1));
        }
    }
}

/// What was stored is what is found, and every other key is found as before.
pub proof fn lemma_stored_lookup<V>(
    items: Seq<(Seq<char>, V)>,
    key: Seq<char>,
    value: V,
    other: Seq<char>,
)
    ensures
        lookup(stored(items, key, value), key) == Some(value),
        other != key ==> lookup(stored(items, key, value), other) == lookup(items, other),
    decreases items.len(),
{
    if items.len() == 0 {
        assert(stored(items, key, value).skip(1) =~= items);
        assert(lookup(items, other) is None);
    } else if items[0].0 == key {
        assert(items.update(0, (key, value)).skip(1) =~= items.skip(1));
    } else {
        lemma_stored_lookup(items.skip(1), key, value, other);
        assert(stored(items, key, value).skip(1) =~= stored(items.skip(1), key, value));
    }
}

proof fn lemma_stored_keys<V>(items: Seq<(Seq<char>, V)>, key: Seq<char>, value: V)
    ensures
        stored(items, key, value).len() == if lookup(items, key) is Some {
            items.len()
        } else {
            items.len() + 1
        },
        forall|i: int|
            0 <= i < items.len() ==> (#[trigger] stored(items, key, value)[i]).0 == items[i].0,
        lookup(items, key) is None ==> stored(items, key, value)[items.len() as int].0 == key,
    decreases items.len(),
{
    if items.len() > 0 && items[0].0 != key {
        let rest = items.skip(1);
        lemma_stored_keys(rest, key, value);
        let whole = stored(items, key, value);
        assert forall|i: int| 0 <= i < items.len() implies (#[trigger] whole[i]).0
            == items[i].0 by {
            if i > 0 {
                assert(whole[i] == stored(rest, key, value)[i - 1]);
                assert(items[i] == rest[i - 1]);
            }
        }
        if lookup(items, key) is None {
            assert(whole[items.len() as int] == stored(rest, key, value)[rest.len() as int]);
        }
    }
}

/// Storing keeps the keys distinct.
pub proof fn lemma_stored_distinct<V>(items: Seq<(Seq<char>, V)>, key: Seq<char>, value: V)
    requires
        distinct_keys(items),
    ensures
        distinct_keys(stored(items, key, value)),
{
    lemma_stored_keys(items, key, value);
    lemma_lookup(items, key);
    let whole = stored(items, key, value);
    assert forall|i: int, j: int| 0 <= i < j < whole.len() implies #[trigger] whole[i].0
        != #[trigger] whole[j].0 by {
        assert(whole[i].0 == items[i].0);
        if j < items.len() {
            assert(whole[j].0 == items[j].0);
        }
    }
}

/// Values stored under texts, in the order in which their keys were first stored.
#[derive(Debug)]
pub struct Table<V> {
    entries: Vec<(String, V)>,
}

impl<V> Table<V> {
    /// The entries in their order.
    pub closed spec fn view(&self) -> Seq<(Seq<char>, V)> {
        self.entries@.map_values(|e: (String, V)| (e.0@, e.1))
    }

    /// No key occurs twice.
    #[verifier::type_invariant]
    pub closed spec fn wf(&self) -> bool {
        distinct_keys(self.view())
    }

    /// An empty table.
    pub fn new() -> (r: Table<V>)
        ensures
            r@ == Seq::<(Seq<char>, V)>::empty(),
    {
        let entries: Vec<(String, V)> = Vec::new();
        assert(entries@.map_values(|e: (String, V)| (e.0@, e.1)) =~= Seq::empty());
        Table { entries }
    }

    /// How many entries there are.
    pub fn len(&self) -> (n: usize)
        ensures
            n == self@.len(),
            distinct_keys(self@),
    {
        proof {
            use_type_invariant(self);
        }
        self.entries.len()
    }

    /// The key of an entry.
    pub fn key(&self, i: usize) -> (k: &String)
        requires
            i < self@.len(),
        ensures
            k@ == self@[i as int].0,
    {
        &self.entries[i].0
    }

    /// The value of an entry.
    pub fn value(&self, i: usize) -> (v: &V)
        requires
            i < self@.len(),
        ensures
            *v == self@[i as int].1,
    {
        &self.entries[i].1
    }

    /// The position of the first entry with `key`.
    pub fn position(&self, key: &str) -> (r: Option<usize>)
        ensures
            match r {
                Some(i) => i < self@.len() && self@[i as int].0 == key@ && lookup(self@, key@)
                    == Some(self@[i as int].1) && forall|j: int|
                    0 <= j < i ==> (#[trigger] self@[j]).0 != key@,
                None => lookup(self@, key@) is None,
            },
    {
        let mut i: usize = 0;
        assert(self@.skip(0) =~= self@);
        while i < self.entries.len()
            invariant
                0 <= i <= self@.len(),
                self@.len() == self.entries@.len(),
                lookup(self@, key@) == lookup(self@.skip(i as int), key@),
                forall|j: int| 0 <= j < i ==> (#[trigger] self@[j]).0 != key@,
            decreases self@.len() - i,
        {
            assert(self@[i as int].0 == self.entries@[i as int].0@);
            if same(self.entries[i].0.as_str(), key) {
                return Some(i);
            }
            assert(self@.skip(i as int).skip(1) =~= self@.skip(i + 1));
            i += 1;
        }
        None
    }

    /// The value stored under `key`.
    pub fn get(&self, key: &str) -> (r: Option<&V>)
        ensures
            match r {
                Some(v) => lookup(self@, key@) == Some(*v),
                None => lookup(self@, key@) is None,
            },
    {
        match self.position(key) {
            Some(i) => Some(&self.entries[i].1),
            None => None,
        }
    }

    /// Whether anything is stored under `key`.
    pub fn contains(&self, key: &str) -> (r: bool)
        ensures
            r == (lookup(self@, key@) is Some),
    {
        self.position(key).is_some()
    }

    /// Stores `value` under `key`.
    pub fn insert(&mut self, key: String, value: V)
        ensures
            final(self)@ == stored(old(self)@, key@, value),
    {
        let ghost before = self@;
        let ghost k = key@;
        proof {
            use_type_invariant(&*self);
            lemma_stored_distinct(before, key@, value);
        }
        let at = self.position(key.as_str());
        let mut entries: Vec<(String, V)> = Vec::new();
        std::mem::swap(&mut entries, &mut self.entries);
        match at {
            Some(i) => {
                entries.set(i, (key, value));
                proof {
                    lemma_stored_at(before, k, value, i as int);
                }
                assert(entries@.map_values(|e: (String, V)| (e.0@, e.1)) =~= before.update(
                    i as int,
                    (k, value),
                ));
            },
            None => {
                entries.push((key, value));
                proof {
                    lemma_stored_end(before, k, value);
                }
                assert(entries@.map_values(|e: (String, V)| (e.0@, e.1)) =~= before.push(
                    (k, value),
                ));
            },
        }
        self.entries = entries;
    }
}

/// What is stored under a key that is there stands where the key first stood.
pub proof fn lemma_stored_at<V>(items: Seq<(Seq<char>, V)>, key: Seq<char>, value: V, i: int)
    requires
        0 <= i < items.len(),
        items[i].0 == key,
        forall|j: int| 0 <= j < i ==> (#[trigger] items[j]).0 != key,
    ensures
        stored(items, key, value) == items.update(i, (key, value)),
    decreases items.len(),
{
    if i > 0 {
        let rest = items.skip(1);
        assert(rest[i - 1] == items[i]);
        assert forall|j: int| 0 <= j < i - 1 implies (#[trigger] rest[j]).0 != key by {
            assert(rest[j] == items[j + 1]);
        }
        assert(items[0].0 != key);
        lemma_stored_at(rest, key, value, i - 1);
        assert(seq![items[0]] + rest.update(i - 1, (key, value)) =~= items.update(i, (key, value)));
    }
}

/// What is stored under a new key stands at the end.
pub proof fn lemma_stored_end<V>(items: Seq<(Seq<char>, V)>, key: Seq<char>, value: V)
    requires
        lookup(items, key) is None,
    ensures
        stored(items, key, value) == items.push((key, value)),
    decreases items.len(),
{
    if items.len() > 0 {
        lemma_stored_end(items.skip(1), key, value);
        assert(seq![items[0]] + items.skip(1).push((key, value)) =~= items.push((key, value)));
    } else {
        assert(seq![(key, value)] =~= items.push((key, value)));
    }
}

} // verus!

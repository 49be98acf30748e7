//! A map keyed by text that remembers the order of insertion.

use vstd::prelude::*;

use crate::text::same_text;

verus! {

/// Where `key` stands among the entries; their number when it is not there.
pub open spec fn position<V>(m: Seq<(Seq<char>, V)>, key: Seq<char>) -> int
    decreases m.len(),
{
    if m.len() == 0 {
        0
    } else if m[0].0 == key {
        0
    } else {
        1 + position(m.skip(1), key)
    }
}

/// Whether `key` has an entry.
pub open spec fn has_key<V>(m: Seq<(Seq<char>, V)>, key: Seq<char>) -> bool {
    position(m, key) < m.len()
}

/// The value under `key`.
pub open spec fn lookup<V>(m: Seq<(Seq<char>, V)>, key: Seq<char>) -> Option<V> {
    if has_key(m, key) {
        Some(m[position(m, key)].1)
    } else {
        None
    }
}

/// The entries after `value` is put under `key`: in place of the value that was
/// there, or behind all others.
pub open spec fn put<V>(m: Seq<(Seq<char>, V)>, key: Seq<char>, value: V) -> Seq<(Seq<char>, V)> {
    if has_key(m, key) {
        m.update(position(m, key), (key, value))
    } else {
        m.push((key, value))
    }
}

/// Whether no key occurs twice.
pub open spec fn keys_distinct<V>(m: Seq<(Seq<char>, V)>) -> bool {
    forall|i: int, j: int| 0 <= i < j < m.len() ==> (#[trigger] m[i]).0 != (#[trigger] m[j]).0
}

/// The entries of a list of pairs.
pub open spec fn entries_of<V>(entries: Seq<(String, V)>) -> Seq<(Seq<char>, V)> {
    Seq::new(entries.len(), |i: int| (entries[i].0@, entries[i].1))
}

/// `position` is the first place of its key.
pub proof fn position_is_first<V>(m: Seq<(Seq<char>, V)>, key: Seq<char>)
    ensures
        0 <= position(m, key) <= m.len(),
        has_key(m, key) ==> m[position(m, key)].0 == key,
        forall|i: int| 0 <= i < position(m, key) ==> (#[trigger] m[i]).0 != key,
    decreases m.len(),
{
    if m.len() > 0 && m[0].0 != key {
        position_is_first(m.skip(1), key);
        assert forall|i: int| 0 <= i < position(m, key) implies (#[trigger] m[i]).0 != key by {
            if i > 0 {
                assert(m.skip(1)[i - 1] == m[i]);
            }
        }
    }
}

/// The first place of a key is its position.
pub proof fn first_is_position<V>(m: Seq<(Seq<char>, V)>, key: Seq<char>, at: int)
    requires
        0 <= at <= m.len(),
        at < m.len() ==> m[at].0 == key,
        forall|i: int| 0 <= i < at ==> (#[trigger] m[i]).0 != key,
    ensures
        position(m, key) == at,
{
    position_is_first(m, key);
}

/// Putting keeps keys distinct.
pub proof fn put_keeps_keys_distinct<V>(m: Seq<(Seq<char>, V)>, key: Seq<char>, value: V)
    requires
        keys_distinct(m),
    ensures
        keys_distinct(put(m, key, value)),
{
    position_is_first(m, key);
}

/// What was put is what is found; every other key keeps its value.
pub proof fn put_then_lookup<V>(m: Seq<(Seq<char>, V)>, key: Seq<char>, value: V, other: Seq<char>)
    ensures
        lookup(put(m, key, value), key) == Some(value),
        other != key ==> lookup(put(m, key, value), other) == lookup(m, other),
{
    let p = put(m, key, value);
    position_is_first(m, key);
    position_is_first(m, other);
    first_is_position(p, key, position(m, key));
    if other != key {
        if has_key(m, other) {
            first_is_position(p, other, position(m, other));
        } else {
            first_is_position(p, other, p.len() as int);
        }
    }
}

/// A map keyed by text. Entries keep the order in which their keys were first
/// inserted, and no key occurs twice.
#[derive(Debug)]
pub struct TextMap<V> {
    entries: Vec<(String, V)>,
}

impl<V> View for TextMap<V> {
    type V = Seq<(Seq<char>, V)>;

    closed spec fn view(&self) -> Seq<(Seq<char>, V)> {
        entries_of(self.entries@)
    }
}

impl<V> TextMap<V> {
    #[verifier::type_invariant]
    spec fn inv(self) -> bool {
        keys_distinct(entries_of(self.entries@))
    }

    /// An empty map.
    pub fn new() -> (m: Self)
        ensures
            m@ == Seq::<(Seq<char>, V)>::empty(),
    {
        let m = TextMap { entries: Vec::new() };
        assert(m@ =~= Seq::<(Seq<char>, V)>::empty());
        m
    }

    /// Number of entries.
    pub fn len(&self) -> (n: usize)
        ensures
            n == self@.len(),
    {
        self.entries.len()
    }

    /// Whether there are no entries.
    pub fn is_empty(&self) -> (r: bool)
        ensures
            r == (self@.len() == 0),
    {
        self.entries.len() == 0
    }

    /// The `i`-th entry, in insertion order.
    pub fn entry(&self, i: usize) -> (e: (&String, &V))
        requires
            i < self@.len(),
        ensures
            e.0@ == self@[i as int].0,
            *e.1 == self@[i as int].1,
    {
        (&self.entries[i].0, &self.entries[i].1)
    }

    fn find(&self, key: &str) -> (i: usize)
        ensures
            i == position(self@, key@),
            i <= self@.len(),
    {
        let mut i: usize = 0;
        while i < self.entries.len() && !same_text(self.entries[i].0.as_str(), key)
            invariant
                i <= self.entries@.len(),
                forall|j: int| 0 <= j < i ==> (#[trigger] self@[j]).0 != key@,
            decreases self.entries@.len() - i,
        {
            i = i + 1;
        }
        proof {
            first_is_position(self@, key@, i as int);
        }
        i
    }

    /// The value under `key`.
    pub fn get(&self, key: &str) -> (r: Option<&V>)
        ensures
            match r {
                Some(v) => lookup(self@, key@) == Some(*v),
                None => lookup(self@, key@) is None,
            },
    {
        let i: usize = self.find(key);
        if i < self.entries.len() {
            Some(&self.entries[i].1)
        } else {
            None
        }
    }

    /// Put a value under a key, replacing the one that was there.
    pub fn insert(&mut self, key: String, value: V)
        ensures
            final(self)@ == put(old(self)@, key@, value),
    {
        let i: usize = self.find(key.as_str());
        proof {
            use_type_invariant(&*self);
            put_keeps_keys_distinct(self@, key@, value);
        }
        let ghost before = self@;
        let mut entries: Vec<(String, V)> = Vec::new();
        std::mem::swap(&mut entries, &mut self.entries);
        if i < entries.len() {
            entries.set(i, (key, value));
        } else {
            entries.push((key, value));
        }
        assert(entries_of(entries@) =~= put(before, key@, value));
        self.entries = entries;
    }
}

impl<V> Default for TextMap<V> {
    fn default() -> (m: Self)
        ensures
            m@ == Seq::<(Seq<char>, V)>::empty(),
    {
        TextMap::new()
    }
}

} // verus!

//! An insertion-ordered map from names to values in which no name occurs
//! twice.

use vstd::prelude::*;

verus! {

/// The entries of a map from texts to texts, in their order.
pub type Entries = Seq<(Seq<char>, Seq<char>)>;

/// The position of the first entry of `entries` under `key`, or the length
/// of `entries` if there is none.
pub open spec fn position<T>(entries: Seq<(Seq<char>, T)>, key: Seq<char>) -> int
    decreases entries.len(),
{
    if entries.len() == 0 {
        0
    } else if entries[0].0 == key {
        0
    } else {
        1 + position(entries.skip(1), key)
    }
}

/// Whether some entry of `entries` stands under `key`.
pub open spec fn has_key<T>(entries: Seq<(Seq<char>, T)>, key: Seq<char>) -> bool {
    position(entries, key) < entries.len()
}

/// The value of the first entry under `key`.
pub open spec fn lookup<T>(entries: Seq<(Seq<char>, T)>, key: Seq<char>) -> Option<T> {
    if has_key(entries, key) {
        Some(entries[position(entries, key)].1)
    } else {
        None
    }
}

/// `entries` after `value` was put under `key`: in the place of the entry
/// that stood under `key`, or at the end if there was none.
pub open spec fn put<T>(entries: Seq<(Seq<char>, T)>, key: Seq<char>, value: T) -> Seq<
    (Seq<char>, T),
> {
    if has_key(entries, key) {
        entries.update(position(entries, key), (key, value))
    } else {
        entries.push((key, value))
    }
}

/// `entries` after each entry of `more` was put into it, in order.
pub open spec fn put_all<T>(entries: Seq<(Seq<char>, T)>, more: Seq<(Seq<char>, T)>) -> Seq<
    (Seq<char>, T),
>
    decreases more.len(),
{
    if more.len() == 0 {
        entries
    } else {
        put(put_all(entries, more.drop_last()), more.last().0, more.last().1)
    }
}

/// Whether no two entries of `entries` stand under the same key.
pub open spec fn distinct_keys<T>(entries: Seq<(Seq<char>, T)>) -> bool {
    forall|i: int, j: int|
        0 <= i < j < entries.len() ==> (#[trigger] entries[i]).0 != (#[trigger] entries[j]).0
}

/// The position is within bounds, no entry before it stands under `key`,
/// and the entry at it does, unless it is the length.
pub proof fn position_is_first<T>(entries: Seq<(Seq<char>, T)>, key: Seq<char>)
    ensures
        0 <= position(entries, key) <= entries.len(),
        forall|j: int| 0 <= j < position(entries, key) ==> (#[trigger] entries[j]).0 != key,
        has_key(entries, key) ==> entries[position(entries, key)].0 == key,
    decreases entries.len(),
{
    if entries.len() == 0 || entries[0].0 == key {
    } else {
        position_is_first(entries.skip(1), key);
        assert forall|j: int| 0 <= j < position(entries, key) implies (#[trigger] entries[j]).0
            != key by {
            if j > 0 {
                assert(entries[j] == entries.skip(1)[j - 1]);
            }
        }
    }
}

/// An index before which no entry stands under `key`, and which is the
/// length or holds such an entry, is the position of `key`.
pub proof fn position_found<T>(entries: Seq<(Seq<char>, T)>, key: Seq<char>, at: int)
    requires
        0 <= at <= entries.len(),
        forall|j: int| 0 <= j < at ==> (#[trigger] entries[j]).0 != key,
        at < entries.len() ==> entries[at].0 == key,
    ensures
        position(entries, key) == at,
{
    position_is_first(entries, key);
    let p = position(entries, key);
    if p < at {
        assert(entries[p].0 == key);
    } else if at < p {
        assert(entries[at].0 == key);
    }
}

/// Putting an entry keeps the keys distinct, and afterwards the value
/// stands under the key and every other key keeps what it had.
pub proof fn put_keeps<T>(entries: Seq<(Seq<char>, T)>, key: Seq<char>, value: T)
    requires
        distinct_keys(entries),
    ensures
        distinct_keys(put(entries, key, value)),
        lookup(put(entries, key, value), key) == Some(value),
        forall|other: Seq<char>|
            other != key ==> lookup(put(entries, key, value), other) == lookup(entries, other),
{
    position_is_first(entries, key);
    let after = put(entries, key, value);
    let p = position(entries, key);
    assert forall|i: int, j: int| 0 <= i < j < after.len() implies (#[trigger] after[i]).0 != (
    #[trigger] after[j]).0 by {
        if i < entries.len() {
            assert(after[i].0 == entries[i].0);
        }
        if j < entries.len() {
            assert(after[j].0 == entries[j].0);
        }
    }
    assert(after[p].0 == key);
    assert forall|j: int| 0 <= j < p implies (#[trigger] after[j]).0 != key by {
        assert(after[j].0 == entries[j].0);
    }
    position_found(after, key, p);
    assert forall|other: Seq<char>| other != key implies lookup(after, other) == lookup(
        entries,
        other,
    ) by {
        position_is_first(entries, other);
        let q = position(entries, other);
        assert forall|j: int| 0 <= j < q implies (#[trigger] after[j]).0 != other by {
            if j < entries.len() {
                assert(after[j].0 == entries[j].0 || after[j].0 == key);
            }
        }
        if q < entries.len() {
            assert(after[q] == entries[q]);
            position_found(after, other, q);
        } else {
            position_is_first(after, other);
            let r = position(after, other);
            if r < after.len() {
                assert(after[r].0 == other);
                if r < entries.len() {
                    assert(after[r].0 == entries[r].0 || after[r].0 == key);
                    assert(entries[r].0 != other);
                }
            }
        }
    }
}

/// Later entries win: after the entries of `more` were put into
/// `entries`, a key of `more` holds what `more` holds under it, and every
/// other key holds what it held.
pub proof fn put_all_prefers_later<T>(
    entries: Seq<(Seq<char>, T)>,
    more: Seq<(Seq<char>, T)>,
    key: Seq<char>,
)
    requires
        distinct_keys(entries),
        distinct_keys(more),
    ensures
        lookup(put_all(entries, more), key) == if has_key(more, key) {
            lookup(more, key)
        } else {
            lookup(entries, key)
        },
    decreases more.len(),
{
    if more.len() > 0 {
        let before = more.drop_last();
        let last = more.last();
        assert forall|i: int, j: int| 0 <= i < j < before.len() implies (#[trigger] before[i]).0
            != (#[trigger] before[j]).0 by {
            assert(before[i] == more[i]);
            assert(before[j] == more[j]);
        }
        put_all_prefers_later(entries, before, key);
        put_all_distinct(entries, before);
        put_keeps(put_all(entries, before), last.0, last.1);
        position_is_first(more, key);
        position_is_first(before, key);
        if last.0 == key {
            assert forall|j: int| 0 <= j < more.len() - 1 implies (#[trigger] more[j]).0 != key by {
                assert(more[more.len() - 1].0 == key);
            }
            position_found(more, key, more.len() - 1);
        } else {
            let at = position(before, key);
            assert forall|j: int| 0 <= j < at implies (#[trigger] more[j]).0 != key by {
                assert(more[j] == before[j]);
            }
            if at < before.len() {
                assert(more[at] == before[at]);
                position_found(more, key, at);
            } else {
                assert forall|j: int| 0 <= j < more.len() implies (#[trigger] more[j]).0
                    != key by {
                    if j < before.len() {
                        assert(more[j] == before[j]);
                    }
                }
                position_found(more, key, more.len() as int);
            }
        }
    }
}

/// Putting entries one after another keeps the keys distinct.
pub proof fn put_all_distinct<T>(entries: Seq<(Seq<char>, T)>, more: Seq<(Seq<char>, T)>)
    requires
        distinct_keys(entries),
    ensures
        distinct_keys(put_all(entries, more)),
    decreases more.len(),
{
    if more.len() > 0 {
        put_all_distinct(entries, more.drop_last());
        put_keeps(put_all(entries, more.drop_last()), more.last().0, more.last().1);
    }
}

/// A map from names to values that keeps its entries in the order in which
/// their names were first put in.
#[derive(Debug)]
pub struct Dict<V: View> {
    entries: Vec<(String, V)>,
}

impl<V: View> View for Dict<V> {
    type V = Seq<(Seq<char>, V::V)>;

    closed spec fn view(&self) -> Seq<(Seq<char>, V::V)> {
        self.entries@.map_values(|e: (String, V)| (e.0@, e.1@))
    }
}

impl<V: View> Dict<V> {
    #[verifier::type_invariant]
    spec fn keys_are_distinct(self) -> bool {
        distinct_keys(self@)
    }

    /// A map without entries.
    pub fn new() -> (out: Self)
        ensures
            out@ == Seq::<(Seq<char>, V::V)>::empty(),
    {
        let out = Dict { entries: Vec::new() };
        assert(out@ == Seq::<(Seq<char>, V::V)>::empty());
        out
    }

    /// The number of entries, no two of which stand under the same key.
    pub fn len(&self) -> (n: usize)
        ensures
            n == self@.len(),
            distinct_keys(self@),
    {
        proof {
            use_type_invariant(self);
        }
        self.entries.len()
    }

    /// The name of the entry at `index`.
    pub fn key_at(&self, index: usize) -> (key: &String)
        requires
            index < self@.len(),
        ensures
            key@ == self@[index as int].0,
    {
        &self.entries[index].0
    }

    /// The value of the entry at `index`.
    pub fn value_at(&self, index: usize) -> (value: &V)
        requires
            index < self@.len(),
        ensures
            value@ == self@[index as int].1,
    {
        &self.entries[index].1
    }

    /// The index of the entry under `key`, if there is one.
    pub fn find(&self, key: &str) -> (found: Option<usize>)
        ensures
            match found {
                Some(index) => has_key(self@, key@) && index == position(self@, key@),
                None => !has_key(self@, key@),
            },
    {
        let wanted = key.to_owned();
        let mut i: usize = 0;
        while i < self.entries.len()
            invariant
                i <= self.entries.len(),
                wanted@ == key@,
                forall|j: int| 0 <= j < i ==> (#[trigger] self@[j]).0 != key@,
            decreases self.entries.len() - i,
        {
            if self.entries[i].0 == wanted {
                proof {
                    position_found(self@, key@, i as int);
                }
                return Some(i);
            }
            i = i + 1;
        }
        proof {
            position_found(self@, key@, i as int);
        }
        None
    }

    /// Whether an entry stands under `key`.
    pub fn contains_key(&self, key: &str) -> (found: bool)
        ensures
            found == has_key(self@, key@),
    {
        self.find(key).is_some()
    }

    /// The value under `key`, if there is one.
    pub fn get(&self, key: &str) -> (value: Option<&V>)
        ensures
            match value {
                Some(v) => lookup(self@, key@) == Some(v@),
                None => lookup(self@, key@) is None,
            },
    {
        match self.find(key) {
            Some(index) => Some(&self.entries[index].1),
            None => None,
        }
    }

    /// Puts `value` under `key`: in the place of the value that stood there,
    /// or as a new last entry.
    pub fn insert(&mut self, key: String, value: V)
        ensures
            final(self)@ == put(old(self)@, key@, value@),
    {
        proof {
            use_type_invariant(&*self);
            put_keeps(self@, key@, value@);
        }
        let ghost before = self@;
        let found = self.find(key.as_str());
        let mut entries: Vec<(String, V)> = Vec::new();
        core::mem::swap(&mut self.entries, &mut entries);
        match found {
            Some(index) => {
                entries.set(index, (key, value));
            },
            None => {
                entries.push((key, value));
            },
        }
        assert(entries@.map_values(|e: (String, V)| (e.0@, e.1@)) == put(before, key@, value@));
        core::mem::swap(&mut self.entries, &mut entries);
    }
}

impl<V: View> Dict<V> {
    /// Puts each entry of `other` into this map, in the order of `other`.
    pub fn extend(&mut self, other: Dict<V>)
        ensures
            final(self)@ == put_all(old(self)@, other@),
    {
        let ghost before = self@;
        let ghost more = other@;
        for entry in it: other.entries
            invariant
                it.seq().map_values(|e: (String, V)| (e.0@, e.1@)) == more,
                self@ == put_all(before, more.take(it.index() as int)),
        {
            proof {
                let i = it.index() as int;
                assert(more.take(i + 1).drop_last() == more.take(i));
                assert(more.take(i + 1).last() == (entry.0@, entry.1@));
            }
            self.insert(entry.0, entry.1);
        }
        proof {
            assert(more.take(more.len() as int) == more);
        }
    }
}

impl Clone for Dict<String> {
    fn clone(&self) -> (out: Self)
        ensures
            out@ == self@,
    {
        proof {
            use_type_invariant(self);
        }
        let mut entries: Vec<(String, String)> = Vec::new();
        let mut i: usize = 0;
        while i < self.entries.len()
            invariant
                i <= self.entries.len(),
                entries@.map_values(|e: (String, String)| (e.0@, e.1@)) == self@.take(i as int),
            decreases self.entries.len() - i,
        {
            let key = self.entries[i].0.clone();
            let value = self.entries[i].1.clone();
            entries.push((key, value));
            proof {
                assert(self@.take(i + 1) == self@.take(i as int).push(self@[i as int]));
            }
            i = i + 1;
        }
        proof {
            assert(self@.take(self.entries.len() as int) == self@);
        }
        Dict { entries }
    }
}

} // verus!

//! A map from strings to values that keeps its keys in order.

use vstd::prelude::*;

use crate::text::{str_eq, str_less};

verus! {

broadcast use vstd::string::group_string_axioms;

use crate::text::{
    chars_less, lemma_chars_less_irreflexive, lemma_chars_less_total, lemma_chars_less_transitive,
};

/// Entries by key, in the order of the keys.
#[derive(Clone, Debug, PartialEq, Eq)]
pub struct SortedMap<V> {
    keys: Vec<String>,
    items: Vec<V>,
}

/// Whether the keys of entries ascend.
pub open spec fn keys_ascend<V>(entries: Seq<(Seq<char>, V)>) -> bool {
    forall|i: int, j: int|
        #![trigger entries[i], entries[j]]
        0 <= i < j < entries.len() ==> chars_less(entries[i].0, entries[j].0)
}

/// The place of a key in entries, or where it would go: behind all smaller keys.
pub open spec fn slot_of<V>(entries: Seq<(Seq<char>, V)>, key: Seq<char>) -> int
    decreases entries.len(),
{
    if entries.len() == 0 || !chars_less(entries[0].0, key) {
        0
    } else {
        1 + slot_of(entries.drop_first(), key)
    }
}

/// Whether a key is among entries.
pub open spec fn has_key<V>(entries: Seq<(Seq<char>, V)>, key: Seq<char>) -> bool {
    slot_of(entries, key) < entries.len() && entries[slot_of(entries, key)].0 == key
}

/// The value under a key.
pub open spec fn value_under<V>(entries: Seq<(Seq<char>, V)>, key: Seq<char>) -> Option<V> {
    if has_key(entries, key) {
        Some(entries[slot_of(entries, key)].1)
    } else {
        None
    }
}

/// Entries with a value put under a key.
pub open spec fn with_value<V>(entries: Seq<(Seq<char>, V)>, key: Seq<char>, value: V) -> Seq<
    (Seq<char>, V),
> {
    if has_key(entries, key) {
        entries.update(slot_of(entries, key), (key, value))
    } else {
        entries.insert(slot_of(entries, key), (key, value))
    }
}

/// Entries with a key taken out.
pub open spec fn without_value<V>(entries: Seq<(Seq<char>, V)>, key: Seq<char>) -> Seq<
    (Seq<char>, V),
> {
    if has_key(entries, key) {
        entries.remove(slot_of(entries, key))
    } else {
        entries
    }
}

/// All keys before the slot of a key are smaller, and the one at it is not.
pub proof fn lemma_slot_of<V>(entries: Seq<(Seq<char>, V)>, key: Seq<char>)
    ensures
        0 <= slot_of(entries, key) <= entries.len(),
        forall|i: int|
            0 <= i < slot_of(entries, key) ==> chars_less((#[trigger] entries[i]).0, key),
        slot_of(entries, key) < entries.len() ==> !chars_less(
            entries[slot_of(entries, key)].0,
            key,
        ),
    decreases entries.len(),
{
    if entries.len() > 0 && chars_less(entries[0].0, key) {
        let rest = entries.drop_first();
        lemma_slot_of(rest, key);
        assert forall|i: int| 0 <= i < slot_of(entries, key) implies chars_less(
            (#[trigger] entries[i]).0,
            key,
        ) by {
            if i > 0 {
                assert(entries[i] == rest[i - 1]);
            }
        }
    }
}

proof fn lemma_slot_unique<V>(entries: Seq<(Seq<char>, V)>, key: Seq<char>, at: int)
    requires
        0 <= at <= entries.len(),
        forall|i: int| 0 <= i < at ==> chars_less((#[trigger] entries[i]).0, key),
        at < entries.len() ==> !chars_less(entries[at].0, key),
    ensures
        slot_of(entries, key) == at,
{
    lemma_slot_of(entries, key);
    let s = slot_of(entries, key);
    if s < at {
        assert(chars_less(entries[s].0, key));
    } else if at < s {
        assert(chars_less(entries[at].0, key));
    }
}

/// Entries with the same keys have the same slots.
pub proof fn lemma_slot_same_keys<A, B>(
    a: Seq<(Seq<char>, A)>,
    b: Seq<(Seq<char>, B)>,
    key: Seq<char>,
)
    requires
        a.len() == b.len(),
        forall|i: int| 0 <= i < a.len() ==> (#[trigger] a[i]).0 == b[i].0,
    ensures
        slot_of(a, key) == slot_of(b, key),
        has_key(a, key) == has_key(b, key),
{
    lemma_slot_of(a, key);
    let s = slot_of(a, key);
    assert forall|i: int| 0 <= i < s implies chars_less((#[trigger] b[i]).0, key) by {
        assert(a[i].0 == b[i].0);
    }
    if s < a.len() {
        assert(a[s].0 == b[s].0);
    }
    lemma_slot_unique(b, key, s);
}

/// Putting a value in keeps the keys in order.
pub proof fn lemma_with_value_ascends<V>(
    entries: Seq<(Seq<char>, V)>,
    key: Seq<char>,
    value: V,
)
    requires
        keys_ascend(entries),
    ensures
        keys_ascend(with_value(entries, key, value)),
{
    lemma_slot_of(entries, key);
    let s = slot_of(entries, key);
    let after = with_value(entries, key, value);
    if has_key(entries, key) {
        assert forall|i: int, j: int|
            #![trigger after[i], after[j]]
            0 <= i < j < after.len() implies chars_less(after[i].0, after[j].0) by {
            assert(chars_less(entries[i].0, entries[j].0));
        }
    } else {
        assert forall|i: int, j: int|
            #![trigger after[i], after[j]]
            0 <= i < j < after.len() implies chars_less(after[i].0, after[j].0) by {
            if j < s {
                assert(chars_less(entries[i].0, entries[j].0));
            } else if j == s {
                assert(chars_less(entries[i].0, key));
            } else if i < s {
                assert(chars_less(entries[i].0, entries[j - 1].0));
            } else if i == s {
                lemma_chars_less_total(key, entries[s].0);
                assert(chars_less(key, entries[s].0));
                if j - 1 > s {
                    assert(chars_less(entries[s].0, entries[j - 1].0));
                    lemma_chars_less_transitive(key, entries[s].0, entries[j - 1].0);
                }
            } else {
                assert(chars_less(entries[i - 1].0, entries[j - 1].0));
            }
        }
    }
}

/// Taking a key out keeps the keys in order.
pub proof fn lemma_without_value_ascends<V>(entries: Seq<(Seq<char>, V)>, key: Seq<char>)
    requires
        keys_ascend(entries),
    ensures
        keys_ascend(without_value(entries, key)),
{
    let s = slot_of(entries, key);
    lemma_slot_of(entries, key);
    let after = without_value(entries, key);
    if has_key(entries, key) {
        assert forall|i: int, j: int|
            #![trigger after[i], after[j]]
            0 <= i < j < after.len() implies chars_less(after[i].0, after[j].0) by {
            let a = if i < s {
                i
            } else {
                i + 1
            };
            let b = if j < s {
                j
            } else {
                j + 1
            };
            assert(chars_less(entries[a].0, entries[b].0));
        }
    }
}

/// Where keys ascend, a key that stands anywhere stands at its slot.
pub proof fn lemma_key_at<V>(entries: Seq<(Seq<char>, V)>, key: Seq<char>, at: int)
    requires
        keys_ascend(entries),
        0 <= at < entries.len(),
        entries[at].0 == key,
    ensures
        has_key(entries, key),
        slot_of(entries, key) == at,
{
    lemma_chars_less_irreflexive(key);
    assert forall|i: int| 0 <= i < at implies chars_less((#[trigger] entries[i]).0, key) by {
        assert(chars_less(entries[i].0, entries[at].0));
    }
    lemma_slot_unique(entries, key, at);
}

/// What was put in under a key is what is there.
pub proof fn law_put_then_get<V>(entries: Seq<(Seq<char>, V)>, key: Seq<char>, value: V)
    requires
        keys_ascend(entries),
    ensures
        value_under(with_value(entries, key, value), key) == Some(value),
{
    lemma_with_value_ascends(entries, key, value);
    lemma_slot_of(entries, key);
    let after = with_value(entries, key, value);
    lemma_key_at(after, key, slot_of(entries, key));
}

/// What was taken out is gone.
pub proof fn law_taken_is_gone<V>(entries: Seq<(Seq<char>, V)>, key: Seq<char>)
    requires
        keys_ascend(entries),
    ensures
        !has_key(without_value(entries, key), key),
{
    lemma_slot_of(entries, key);
    let s = slot_of(entries, key);
    let after = without_value(entries, key);
    lemma_without_value_ascends(entries, key);
    if has_key(after, key) {
        let t = slot_of(after, key);
        lemma_slot_of(after, key);
        if has_key(entries, key) {
            let at = if t < s {
                t
            } else {
                t + 1
            };
            assert(entries[at].0 == key);
            lemma_key_at(entries, key, at);
        }
    }
}

impl<V> SortedMap<V> {
    /// The entries in the order of the keys.
    pub closed spec fn entries(self) -> Seq<(Seq<char>, V)> {
        Seq::new(self.keys@.len(), |i: int| (self.keys@[i]@, self.items@[i]))
    }

    /// Whether keys and values belong together and the keys ascend.
    pub closed spec fn wf(self) -> bool {
        self.keys@.len() == self.items@.len() && keys_ascend(self.entries())
    }

    /// The keys ascend.
    pub proof fn lemma_wf(self)
        requires
            self.wf(),
        ensures
            keys_ascend(self.entries()),
    {
    }

    /// A map without entries.
    #[must_use]
    pub fn new() -> (m: Self)
        ensures
            m.wf(),
            m.entries() == Seq::<(Seq<char>, V)>::empty(),
    {
        let m = SortedMap { keys: Vec::new(), items: Vec::new() };
        assert(m.entries() =~= Seq::empty());
        m
    }

    /// How many entries there are.
    #[must_use]
    pub fn len(&self) -> (n: usize)
        ensures
            n == self.entries().len(),
    {
        self.keys.len()
    }

    /// Whether there are none.
    #[must_use]
    pub fn is_empty(&self) -> (r: bool)
        ensures
            r == (self.entries().len() == 0),
    {
        self.keys.len() == 0
    }

    /// The key at a place.
    #[must_use]
    pub fn key_at(&self, at: usize) -> (key: &str)
        requires
            at < self.entries().len(),
        ensures
            key@ == self.entries()[at as int].0,
    {
        self.keys[at].as_str()
    }

    /// The value at a place.
    #[must_use]
    pub fn value_at(&self, at: usize) -> (value: &V)
        requires
            self.wf(),
            at < self.entries().len(),
        ensures
            *value == self.entries()[at as int].1,
    {
        &self.items[at]
    }

    /// The place of a key, or where it would go.
    fn slot(&self, key: &str) -> (r: usize)
        ensures
            r == slot_of(self.entries(), key@),
            r <= self.entries().len(),
    {
        let mut i: usize = 0;
        while i < self.keys.len() && str_less(self.keys[i].as_str(), key)
            invariant
                i <= self.keys.len(),
                forall|k: int| 0 <= k < i ==> chars_less((#[trigger] self.entries()[k]).0, key@),
            decreases self.keys.len() - i,
        {
            i += 1;
        }
        proof {
            if i < self.keys@.len() {
                assert(self.entries()[i as int].0 == self.keys@[i as int]@);
            }
            lemma_slot_unique(self.entries(), key@, i as int);
        }
        i
    }

    /// The place of a key.
    #[must_use]
    pub fn position(&self, key: &str) -> (r: Option<usize>)
        ensures
            match r {
                Some(i) => has_key(self.entries(), key@) && i == slot_of(self.entries(), key@)
                    && i < self.entries().len() && self.entries()[i as int].0 == key@,
                None => !has_key(self.entries(), key@),
            },
    {
        let at = self.slot(key);
        if at < self.keys.len() && str_eq(self.keys[at].as_str(), key) {
            assert(self.entries()[at as int].0 == self.keys@[at as int]@);
            Some(at)
        } else {
            proof {
                if at < self.keys@.len() {
                    assert(self.entries()[at as int].0 == self.keys@[at as int]@);
                }
            }
            None
        }
    }

    /// Whether a key is there.
    #[must_use]
    pub fn contains_key(&self, key: &str) -> (r: bool)
        ensures
            r == has_key(self.entries(), key@),
    {
        self.position(key).is_some()
    }

    /// The value under a key.
    #[must_use]
    pub fn get(&self, key: &str) -> (r: Option<&V>)
        requires
            self.wf(),
        ensures
            match value_under(self.entries(), key@) {
                Some(v) => r matches Some(w) && *w == v,
                None => r is None,
            },
    {
        match self.position(key) {
            Some(i) => Some(&self.items[i]),
            None => None,
        }
    }

    /// The value at a place, to be changed.
    pub fn value_at_mut(&mut self, at: usize) -> (value: &mut V)
        requires
            old(self).wf(),
            at < old(self).entries().len(),
        ensures
            *value == old(self).entries()[at as int].1,
            final(self).wf(),
            final(self).entries() == old(self).entries().update(
                at as int,
                (old(self).entries()[at as int].0, *final(value)),
            ),
    {
        let ghost before = self.entries();
        let ghost keys = self.keys@;
        let ghost items = self.items@;
        proof {
            assert forall|v: V| keys_ascend(#[trigger] before.update(at as int, (before[at as int].0, v))) by {
                let after = before.update(at as int, (before[at as int].0, v));
                assert forall|i: int, j: int|
                    #![trigger after[i], after[j]]
                    0 <= i < j < after.len() implies chars_less(after[i].0, after[j].0) by {
                    assert(chars_less(before[i].0, before[j].0));
                }
            }
            assert forall|v: V|
                Seq::new(keys.len(), |i: int| (keys[i]@, (#[trigger] items.update(at as int, v))[i]))
                    == before.update(at as int, (before[at as int].0, v)) by {
                assert(Seq::new(keys.len(), |i: int| (keys[i]@, items.update(at as int, v)[i]))
                    =~= before.update(at as int, (before[at as int].0, v)));
            }
        }
        &mut self.items[at]
    }

    /// Puts a value under a key.
    pub fn insert(&mut self, key: String, value: V)
        requires
            old(self).wf(),
        ensures
            final(self).wf(),
            final(self).entries() == with_value(old(self).entries(), key@, value),
    {
        let ghost before = self.entries();
        let ghost k = key@;
        proof {
            lemma_with_value_ascends(before, k, value);
        }
        match self.position(key.as_str()) {
            Some(i) => {
                self.items[i] = value;
            },
            None => {
                let at = self.slot(key.as_str());
                self.keys.insert(at, key);
                self.items.insert(at, value);
            },
        }
        assert(self.entries() =~= with_value(before, k, value));
    }

    /// Takes a key out.
    pub fn remove(&mut self, key: &str) -> (r: Option<V>)
        requires
            old(self).wf(),
        ensures
            final(self).wf(),
            final(self).entries() == without_value(old(self).entries(), key@),
            r == value_under(old(self).entries(), key@),
    {
        let ghost before = self.entries();
        proof {
            lemma_without_value_ascends(before, key@);
        }
        match self.position(key) {
            Some(i) => {
                self.keys.remove(i);
                let value = self.items.remove(i);
                assert(self.entries() =~= without_value(before, key@));
                Some(value)
            },
            None => None,
        }
    }
}

/// A key is among ascending entries just where one of them has it, and that one's value stands
/// under it.
pub proof fn law_entry_stands_under_its_key<V>(entries: Seq<(Seq<char>, V)>, key: Seq<char>)
    requires
        keys_ascend(entries),
    ensures
        forall|i: int|
            0 <= i < entries.len() && (#[trigger] entries[i]).0 == key ==> value_under(entries, key)
                == Some(entries[i].1),
        (forall|i: int| 0 <= i < entries.len() ==> (#[trigger] entries[i]).0 != key) ==> value_under(
            entries,
            key,
        ) is None,
{
    assert forall|i: int|
        0 <= i < entries.len() && (#[trigger] entries[i]).0 == key implies value_under(entries, key)
        == Some(entries[i].1) by {
        lemma_key_at(entries, key, i);
    }
    lemma_slot_of(entries, key);
}

/// Putting a value under a key, or taking a key out, leaves what stands under every other key.
pub proof fn law_other_keys_stay<V>(
    entries: Seq<(Seq<char>, V)>,
    key: Seq<char>,
    value: V,
    other: Seq<char>,
)
    requires
        keys_ascend(entries),
        other != key,
    ensures
        value_under(with_value(entries, key, value), other) == value_under(entries, other),
        value_under(without_value(entries, key), other) == value_under(entries, other),
{
    let with = with_value(entries, key, value);
    let without = without_value(entries, key);
    let s = slot_of(entries, key);
    lemma_slot_of(entries, key);
    lemma_with_value_ascends(entries, key, value);
    lemma_without_value_ascends(entries, key);
    law_entry_stands_under_its_key(entries, other);
    law_entry_stands_under_its_key(with, other);
    law_entry_stands_under_its_key(without, other);
    if exists|i: int| 0 <= i < entries.len() && (#[trigger] entries[i]).0 == other {
        let i = choose|i: int| 0 <= i < entries.len() && (#[trigger] entries[i]).0 == other;
        let (in_with, in_without) = if has_key(entries, key) {
            (
                i,
                if i < s {
                    i
                } else {
                    i - 1
                },
            )
        } else {
            (
                if i < s {
                    i
                } else {
                    i + 1
                },
                i,
            )
        };
        assert(with[in_with] == entries[i]);
        assert(without[in_without] == entries[i]);
    } else {
        assert forall|k: int| 0 <= k < with.len() implies (#[trigger] with[k]).0 != other by {
            if k != s {
                let i = if has_key(entries, key) || k < s {
                    k
                } else {
                    k - 1
                };
                assert(with[k] == entries[i]);
            }
        }
        assert forall|k: int| 0 <= k < without.len() implies (#[trigger] without[k]).0 != other by {
            let i = if has_key(entries, key) && k >= s {
                k + 1
            } else {
                k
            };
            assert(without[k] == entries[i]);
        }
    }
}

} // verus!

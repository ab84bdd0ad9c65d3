//! A map with string keys that remembers the order in which keys first came in.

use indexmap::IndexSet;
use vstd::prelude::*;

verus! {

broadcast use vstd::string::group_string_axioms;

/// A set that numbers its items in the order they came in.
#[verifier::external_type_specification]
#[verifier::external_body]
#[verifier::reject_recursive_types(T)]
#[verifier::reject_recursive_types(S)]
pub struct ExIndexSet<T, S>(indexmap::IndexSet<T, S>);

/// The keys of an index, in order.
pub uninterp spec fn index_keys(index: IndexSet<String>) -> Seq<Seq<char>>;

/// `IndexSet::new` makes an empty set.
#[verifier::external_body]
fn index_new() -> (index: IndexSet<String>)
    ensures
        index_keys(index) == Seq::<Seq<char>>::empty(),
{
    IndexSet::new()
}

/// `IndexSet::get_index_of` finds an item's place, where the set holds it.
#[verifier::external_body]
fn index_position(index: &IndexSet<String>, key: &str) -> (r: Option<usize>)
    ensures
        match r {
            Some(i) => i < index_keys(*index).len() && index_keys(*index)[i as int] == key@,
            None => !index_keys(*index).contains(key@),
        },
{
    index.get_index_of(key)
}

/// `IndexSet::insert` puts a new item behind all others and leaves the set alone
/// where the item is there already.
#[verifier::external_body]
fn index_insert(index: &mut IndexSet<String>, key: String)
    ensures
        index_keys(*final(index)) == if index_keys(*old(index)).contains(key@) {
            index_keys(*old(index))
        } else {
            index_keys(*old(index)).push(key@)
        },
{
    index.insert(key);
}

/// `IndexSet::shift_remove_index` takes the item at a place out; those behind it
/// move up.
#[verifier::external_body]
fn index_remove(index: &mut IndexSet<String>, at: usize)
    requires
        at < index_keys(*old(index)).len(),
    ensures
        index_keys(*final(index)) == index_keys(*old(index)).remove(at as int),
{
    index.shift_remove_index(at);
}

/// `IndexSet::get_index` reads the item at a place.
#[verifier::external_body]
fn index_key(index: &IndexSet<String>, at: usize) -> (r: Option<&String>)
    ensures
        match r {
            Some(key) => at < index_keys(*index).len() && key@ == index_keys(*index)[at as int],
            None => at >= index_keys(*index).len(),
        },
{
    index.get_index(at)
}

/// `IndexSet::clone` makes a set of the same items in the same order.
#[verifier::external_body]
fn index_clone(index: &IndexSet<String>) -> (r: IndexSet<String>)
    ensures
        index_keys(r) == index_keys(*index),
{
    index.clone()
}

/// A map that keeps its keys in the order they came in. Taking a key out keeps the
/// order of the rest; putting one in again leaves it where it was.
pub struct OrderedMap<V> {
    index: IndexSet<String>,
    items: Vec<V>,
}

/// The place of a key in a list of entries, or the list's length.
pub open spec fn place_of_key<V>(entries: Seq<(Seq<char>, V)>, key: Seq<char>) -> int
    decreases entries.len(),
{
    if entries.len() == 0 {
        0
    } else if entries[0].0 == key {
        0
    } else {
        1 + place_of_key(entries.drop_first(), key)
    }
}

/// Whether a list of entries holds a key.
pub open spec fn holds_key<V>(entries: Seq<(Seq<char>, V)>, key: Seq<char>) -> bool {
    exists|i: int| 0 <= i < entries.len() && (#[trigger] entries[i]).0 == key
}

/// The value under a key.
pub open spec fn value_of<V>(entries: Seq<(Seq<char>, V)>, key: Seq<char>) -> Option<V> {
    if holds_key(entries, key) {
        Some(entries[place_of_key(entries, key)].1)
    } else {
        None
    }
}

/// The entries with a value put under a key.
pub open spec fn with_entry<V>(entries: Seq<(Seq<char>, V)>, key: Seq<char>, value: V) -> Seq<
    (Seq<char>, V),
> {
    if holds_key(entries, key) {
        entries.update(place_of_key(entries, key), (key, value))
    } else {
        entries.push((key, value))
    }
}

/// The entries without a key.
pub open spec fn without_entry<V>(entries: Seq<(Seq<char>, V)>, key: Seq<char>) -> Seq<
    (Seq<char>, V),
> {
    if holds_key(entries, key) {
        entries.remove(place_of_key(entries, key))
    } else {
        entries
    }
}

/// No key stands twice.
pub open spec fn keys_distinct<V>(entries: Seq<(Seq<char>, V)>) -> bool {
    forall|i: int, j: int|
        #![trigger entries[i], entries[j]]
        0 <= i < j < entries.len() ==> entries[i].0 != entries[j].0
}

/// `place_of_key` finds the first entry with the key.
pub proof fn lemma_place_of_key<V>(entries: Seq<(Seq<char>, V)>, key: Seq<char>)
    ensures
        0 <= place_of_key(entries, key) <= entries.len(),
        holds_key(entries, key) ==> place_of_key(entries, key) < entries.len() && entries[place_of_key(
            entries,
            key,
        )].0 == key,
        !holds_key(entries, key) ==> place_of_key(entries, key) == entries.len(),
    decreases entries.len(),
{
    if entries.len() > 0 && entries[0].0 != key {
        lemma_place_of_key(entries.drop_first(), key);
        if holds_key(entries, key) {
            let i = choose|i: int| 0 <= i < entries.len() && (#[trigger] entries[i]).0 == key;
            assert(entries.drop_first()[i - 1] == entries[i]);
        }
        if holds_key(entries.drop_first(), key) {
            let i = choose|i: int|
                0 <= i < entries.drop_first().len() && (#[trigger] entries.drop_first()[i]).0
                    == key;
            assert(entries[i + 1].0 == key);
        }
    } else if entries.len() > 0 {
        assert(entries[0].0 == key);
    }
}

/// In a list without duplicates, an entry with the key is the one that
/// `place_of_key` finds.
pub proof fn lemma_place_unique<V>(entries: Seq<(Seq<char>, V)>, key: Seq<char>, i: int)
    requires
        keys_distinct(entries),
        0 <= i < entries.len(),
        entries[i].0 == key,
    ensures
        place_of_key(entries, key) == i,
        holds_key(entries, key),
{
    lemma_place_of_key(entries, key);
    let p = place_of_key(entries, key);
    assert(entries[p].0 == entries[i].0);
}

impl<V: Clone> Clone for OrderedMap<V> {
    fn clone(&self) -> (r: Self)
        ensures
            self.wf() ==> r.wf(),
            r.entries().len() == self.entries().len(),
            forall|i: int|
                0 <= i < r.entries().len() ==> (#[trigger] r.entries()[i]).0
                    == self.entries()[i].0 && cloned(self.entries()[i].1, r.entries()[i].1),
    {
        OrderedMap { index: index_clone(&self.index), items: self.items.clone() }
    }
}

impl<V> OrderedMap<V> {
    /// The entries in order.
    pub closed spec fn entries(self) -> Seq<(Seq<char>, V)> {
        Seq::new(self.items@.len(), |i: int| (index_keys(self.index)[i], self.items@[i]))
    }

    /// Every key once, one value for each.
    pub closed spec fn wf(self) -> bool {
        &&& index_keys(self.index).len() == self.items@.len()
        &&& index_keys(self.index).no_duplicates()
    }

    /// A map without entries.
    pub fn new() -> (m: Self)
        ensures
            m.wf(),
            m.entries() == Seq::<(Seq<char>, V)>::empty(),
    {
        let m = OrderedMap { index: index_new(), items: Vec::new() };
        assert(m.entries() =~= Seq::<(Seq<char>, V)>::empty());
        m
    }

    /// What well-formedness says of the entries.
    pub proof fn lemma_wf(self)
        requires
            self.wf(),
        ensures
            keys_distinct(self.entries()),
    {
    }

    /// How many entries there are.
    pub fn len(&self) -> (n: usize)
        ensures
            n == self.entries().len(),
    {
        self.items.len()
    }

    /// Whether there is no entry.
    pub fn is_empty(&self) -> (r: bool)
        ensures
            r == (self.entries().len() == 0),
    {
        self.items.len() == 0
    }

    /// The values in order.
    pub fn values(&self) -> (v: &Vec<V>)
        ensures
            v@.len() == self.entries().len(),
            forall|i: int| 0 <= i < v@.len() ==> #[trigger] v@[i] == self.entries()[i].1,
    {
        &self.items
    }

    /// The key at a place.
    pub fn key_at(&self, at: usize) -> (key: &str)
        requires
            self.wf(),
            at < self.entries().len(),
        ensures
            key@ == self.entries()[at as int].0,
    {
        index_key(&self.index, at).unwrap().as_str()
    }

    /// The value at a place.
    pub fn value_at(&self, at: usize) -> (value: &V)
        requires
            at < self.entries().len(),
        ensures
            *value == self.entries()[at as int].1,
    {
        &self.items[at]
    }

    /// The place of a key.
    pub fn position(&self, key: &str) -> (r: Option<usize>)
        requires
            self.wf(),
        ensures
            match r {
                Some(i) => {
                    &&& holds_key(self.entries(), key@)
                    &&& i == place_of_key(self.entries(), key@)
                    &&& i < self.entries().len()
                    &&& self.entries()[i as int].0 == key@
                },
                None => !holds_key(self.entries(), key@),
            },
    {
        let r = index_position(&self.index, key);
        proof {
            match r {
                Some(i) => {
                    assert(self.entries()[i as int].0 == key@);
                    self.lemma_wf();
                    lemma_place_unique(self.entries(), key@, i as int);
                },
                None => {
                    if holds_key(self.entries(), key@) {
                        lemma_place_of_key(self.entries(), key@);
                        let p = place_of_key(self.entries(), key@);
                        assert(index_keys(self.index)[p] == key@);
                    }
                },
            }
        }
        r
    }

    /// Whether a key is there.
    pub fn contains_key(&self, key: &str) -> (r: bool)
        requires
            self.wf(),
        ensures
            r == holds_key(self.entries(), key@),
    {
        self.position(key).is_some()
    }

    /// The value under a key.
    pub fn get(&self, key: &str) -> (r: Option<&V>)
        requires
            self.wf(),
        ensures
            match value_of(self.entries(), key@) {
                Some(v) => r matches Some(w) && *w == v,
                None => r is None,
            },
    {
        match self.position(key) {
            Some(i) => Some(&self.items[i]),
            None => None,
        }
    }

    /// The value at a place, to be changed.
    pub fn value_at_mut(&mut self, at: usize) -> (value: &mut V)
        requires
            old(self).wf(),
            at < old(self).entries().len(),
        ensures
            *value == old(self).entries()[at as int].1,
            final(self).wf(),
            final(self).entries() == old(self).entries().update(
                at as int,
                (old(self).entries()[at as int].0, *final(value)),
            ),
    {
        &mut self.items[at]
    }

    /// Puts a value under a key: in the place of the old one, or behind all others.
    pub fn insert(&mut self, key: String, value: V)
        requires
            old(self).wf(),
        ensures
            final(self).wf(),
            final(self).entries() == with_entry(old(self).entries(), key@, value),
    {
        let ghost before = self.entries();
        match self.position(key.as_str()) {
            Some(i) => {
                self.items[i] = value;
                assert(self.entries() =~= with_entry(before, key@, value));
            },
            None => {
                proof {
                    assert forall|i: int| 0 <= i < index_keys(self.index).len() implies index_keys(
                        self.index,
                    )[i] != key@ by {
                        assert(before[i].0 == index_keys(self.index)[i]);
                    }
                }
                let ghost k = key@;
                index_insert(&mut self.index, key);
                self.items.push(value);
                assert(self.entries() =~= before.push((k, value)));
            },
        }
    }

    /// Takes the entry at a place out.
    pub fn remove_at(&mut self, at: usize) -> (value: V)
        requires
            old(self).wf(),
            at < old(self).entries().len(),
        ensures
            final(self).wf(),
            final(self).entries() == old(self).entries().remove(at as int),
            value == old(self).entries()[at as int].1,
    {
        let ghost before = self.entries();
        index_remove(&mut self.index, at);
        let value = self.items.remove(at);
        assert(self.entries() =~= before.remove(at as int));
        value
    }

    /// Takes a key out; the entries behind it move up.
    pub fn shift_remove(&mut self, key: &str) -> (r: Option<V>)
        requires
            old(self).wf(),
        ensures
            final(self).wf(),
            final(self).entries() == without_entry(old(self).entries(), key@),
            r == value_of(old(self).entries(), key@),
    {
        match self.position(key) {
            Some(i) => Some(self.remove_at(i)),
            None => None,
        }
    }
}

/// Lists with the same keys agree on where a key is.
pub proof fn lemma_same_keys<A, B>(a: Seq<(Seq<char>, A)>, b: Seq<(Seq<char>, B)>, key: Seq<char>)
    requires
        a.len() == b.len(),
        forall|i: int| 0 <= i < a.len() ==> (#[trigger] a[i]).0 == b[i].0,
    ensures
        place_of_key(a, key) == place_of_key(b, key),
        holds_key(a, key) == holds_key(b, key),
    decreases a.len(),
{
    if a.len() > 0 {
        assert(a[0].0 == b[0].0);
        assert forall|i: int| 0 <= i < a.drop_first().len() implies (
        #[trigger] a.drop_first()[i]).0 == b.drop_first()[i].0 by {
            assert(a[i + 1].0 == b[i + 1].0);
        }
        lemma_same_keys(a.drop_first(), b.drop_first(), key);
    }
    lemma_place_of_key(a, key);
    lemma_place_of_key(b, key);
    if holds_key(a, key) {
        let p = place_of_key(a, key);
        assert(b[p].0 == key);
    }
    if holds_key(b, key) {
        let p = place_of_key(b, key);
        assert(a[p].0 == b[p].0);
    }
}

/// Filtering one item further.
pub proof fn lemma_filter_step<A>(s: Seq<A>, i: int, p: spec_fn(A) -> bool)
    requires
        0 <= i < s.len(),
    ensures
        s.take(i + 1).filter(p) == if p(s[i]) {
            s.take(i).filter(p).push(s[i])
        } else {
            s.take(i).filter(p)
        },
{
    assert(s.take(i + 1).drop_last() =~= s.take(i));
    assert(s.take(i + 1).last() == s[i]);
    reveal(Seq::filter);
}

/// What is left after filtering was there before and passes the filter.
pub proof fn lemma_filter_from<A>(s: Seq<A>, p: spec_fn(A) -> bool, i: int)
    requires
        0 <= i < s.filter(p).len(),
    ensures
        p(s.filter(p)[i]),
        s.contains(s.filter(p)[i]),
    decreases s.len(),
{
    reveal(Seq::filter);
    if s.len() > 0 {
        let rest = s.drop_last().filter(p);
        if i < rest.len() {
            lemma_filter_from(s.drop_last(), p, i);
            let x = rest[i];
            let k = choose|k: int| 0 <= k < s.drop_last().len() && s.drop_last()[k] == x;
            assert(s[k] == x);
        } else {
            assert(s[s.len() - 1] == s.filter(p)[i]);
        }
    }
}

/// What was there and passes the filter is left.
pub proof fn lemma_filter_to<A>(s: Seq<A>, p: spec_fn(A) -> bool, i: int)
    requires
        0 <= i < s.len(),
        p(s[i]),
    ensures
        s.filter(p).contains(s[i]),
    decreases s.len(),
{
    reveal(Seq::filter);
    let f = s.filter(p);
    let rest = s.drop_last().filter(p);
    if i < s.len() - 1 {
        lemma_filter_to(s.drop_last(), p, i);
        let k = choose|k: int| 0 <= k < rest.len() && rest[k] == s[i];
        assert(f[k] == s[i]);
    } else {
        assert(f[rest.len() as int] == s[i]);
    }
}

/// Filtering keeps keys distinct.
pub proof fn lemma_filter_distinct<V>(
    s: Seq<(Seq<char>, V)>,
    p: spec_fn((Seq<char>, V)) -> bool,
)
    requires
        keys_distinct(s),
    ensures
        keys_distinct(s.filter(p)),
    decreases s.len(),
{
    reveal(Seq::filter);
    if s.len() > 0 {
        let init = s.drop_last();
        assert forall|i: int, j: int|
            #![trigger init[i], init[j]]
            0 <= i < j < init.len() implies init[i].0 != init[j].0 by {
            assert(s[i].0 != s[j].0);
        }
        lemma_filter_distinct(init, p);
        let rest = init.filter(p);
        let f = s.filter(p);
        assert forall|i: int, j: int|
            #![trigger f[i], f[j]]
            0 <= i < j < f.len() implies f[i].0 != f[j].0 by {
            if j < rest.len() {
                assert(rest[i].0 != rest[j].0);
            } else {
                lemma_filter_from(init, p, i);
                let k = choose|k: int| 0 <= k < init.len() && init[k] == rest[i];
                assert(s[k].0 != s[s.len() - 1].0);
            }
        }
    }
}

} // verus!

//! JSON values as plain data.

use vstd::prelude::*;

use crate::text::str_eq;

verus! {

broadcast use vstd::string::group_string_axioms;

/// A JSON number: the text it is written as, and its value where that is a
/// non-negative integer of 64 bits.
#[derive(Debug, PartialEq, Eq)]
pub struct JsonNumber {
    pub text: String,
    pub unsigned: Option<u64>,
}

/// A JSON value. An object keeps its members in the order they were handed over; `==` asks
/// for the same order, [`Json::same_as`] does not.
#[derive(Debug, PartialEq, Eq)]
pub enum Json {
    Null,
    Bool(bool),
    Number(JsonNumber),
    Text(String),
    Array(Vec<Json>),
    Object(Vec<(String, Json)>),
}

/// What a JSON value says.
pub enum JsonView {
    Null,
    Bool(bool),
    Number(Seq<char>, Option<u64>),
    Text(Seq<char>),
    Array(Seq<JsonView>),
    Object(Seq<(Seq<char>, JsonView)>),
}

/// What a JSON value says.
pub open spec fn json_view(j: Json) -> JsonView
    decreases j,
{
    match j {
        Json::Null => JsonView::Null,
        Json::Bool(b) => JsonView::Bool(b),
        Json::Number(n) => JsonView::Number(n.text@, n.unsigned),
        Json::Text(s) => JsonView::Text(s@),
        Json::Array(items) => JsonView::Array(
            Seq::new(
                items@.len(),
                |i: int|
                    if 0 <= i < items@.len() {
                        json_view(items@[i])
                    } else {
                        JsonView::Null
                    },
            ),
        ),
        Json::Object(members) => JsonView::Object(
            Seq::new(
                members@.len(),
                |i: int|
                    if 0 <= i < members@.len() {
                        (members@[i].0@, json_view(members@[i].1))
                    } else {
                        (Seq::empty(), JsonView::Null)
                    },
            ),
        ),
    }
}

impl View for Json {
    type V = JsonView;

    open spec fn view(&self) -> JsonView {
        json_view(*self)
    }
}

/// The member of an object under a key, the last one where the key stands twice.
pub open spec fn member_of(members: Seq<(Seq<char>, JsonView)>, key: Seq<char>) -> Option<JsonView>
    decreases members.len(),
{
    if members.len() == 0 {
        None
    } else if members.last().0 == key {
        Some(members.last().1)
    } else {
        member_of(members.drop_last(), key)
    }
}

impl JsonView {
    /// The member of an object under a key; nothing of any other value.
    pub open spec fn get(self, key: Seq<char>) -> Option<JsonView> {
        match self {
            JsonView::Object(members) => member_of(members, key),
            _ => None,
        }
    }

    /// The text of a string value under a key.
    pub open spec fn get_string(self, key: Seq<char>) -> Option<Seq<char>> {
        match self.get(key) {
            Some(JsonView::Text(s)) => Some(s),
            _ => None,
        }
    }
}

/// Whether a member of an object counts: no later one has its key.
pub open spec fn is_kept(members: Seq<(Seq<char>, JsonView)>, i: int) -> bool {
    0 <= i < members.len() && forall|k: int|
        i < k < members.len() ==> (#[trigger] members[k]).0 != members[i].0
}

/// Whether a number is written as a zero with a fraction.
pub open spec fn is_zero(text: Seq<char>) -> bool {
    text == "0.0"@ || text == "-0.0"@
}

/// Whether two values say the same: the members of an object may stand in any order, and
/// zero may have a sign.
pub open spec fn same_json(a: JsonView, b: JsonView) -> bool
    decreases a,
{
    match a {
        JsonView::Null => b is Null,
        JsonView::Bool(x) => b == JsonView::Bool(x),
        JsonView::Number(s, m) => b matches JsonView::Number(t, n) && ((s == t && m == n) || (
        is_zero(s) && is_zero(t))),
        JsonView::Text(s) => b == JsonView::Text(s),
        JsonView::Array(x) => b matches JsonView::Array(y) && x.len() == y.len() && forall|i: int|
            0 <= i < x.len() ==> same_json(#[trigger] x[i], y[i]),
        JsonView::Object(x) => {
            &&& b matches JsonView::Object(y)
            &&& forall|i: int| #[trigger]
                is_kept(x, i) ==> exists|j: int| #[trigger]
                    is_kept(y, j) && x[i].0 == y[j].0 && same_json(x[i].1, y[j].1)
            &&& forall|j: int| #[trigger]
                is_kept(y, j) ==> exists|i: int| #[trigger] is_kept(x, i) && x[i].0 == y[j].0
        },
    }
}

impl Clone for Json {
    fn clone(&self) -> (r: Self)
        ensures
            r@ == self@,
        decreases self,
    {
        match self {
            Json::Null => Json::Null,
            Json::Bool(b) => Json::Bool(*b),
            Json::Number(n) => Json::Number(
                JsonNumber { text: n.text.clone(), unsigned: n.unsigned },
            ),
            Json::Text(s) => Json::Text(s.clone()),
            Json::Array(items) => {
                let mut copy: Vec<Json> = Vec::new();
                let mut i: usize = 0;
                while i < items.len()
                    invariant
                        i <= items@.len(),
                        copy@.len() == i,
                        *self == Json::Array(*items),
                        forall|k: int| 0 <= k < i ==> (#[trigger] copy@[k])@ == items@[k]@,
                    decreases items@.len() - i,
                {
                    assert(decreases_to!(*self => self->Array_0));
                    assert(decreases_to!(items@ => items@[i as int]));
                    copy.push(items[i].clone());
                    i = i + 1;
                }
                let r = Json::Array(copy);
                assert(r@->Array_0 =~= self@->Array_0);
                r
            },
            Json::Object(members) => {
                let mut copy: Vec<(String, Json)> = Vec::new();
                let mut i: usize = 0;
                while i < members.len()
                    invariant
                        i <= members@.len(),
                        copy@.len() == i,
                        *self == Json::Object(*members),
                        forall|k: int|
                            0 <= k < i ==> (#[trigger] copy@[k]).0@ == members@[k].0@ && copy@[k].1@
                                == members@[k].1@,
                    decreases members@.len() - i,
                {
                    assert(decreases_to!(*self => self->Object_0));
                    assert(decreases_to!(members@ => members@[i as int]));
                    assert(decreases_to!(members@[i as int] => members@[i as int].1));
                    copy.push((members[i].0.clone(), members[i].1.clone()));
                    i = i + 1;
                }
                let r = Json::Object(copy);
                assert(r@->Object_0 =~= self@->Object_0);
                r
            },
        }
    }
}

impl Json {
    /// Whether the value is `null`.
    pub fn is_null(&self) -> (r: bool)
        ensures
            r == (self@ is Null),
    {
        match self {
            Json::Null => true,
            _ => false,
        }
    }

    /// The text of a string value.
    pub fn as_str(&self) -> (r: Option<&str>)
        ensures
            match self@ {
                JsonView::Text(s) => r matches Some(t) && t@ == s,
                _ => r is None,
            },
    {
        match self {
            Json::Text(s) => Some(s.as_str()),
            _ => None,
        }
    }

    /// The value of a non-negative integer of 64 bits.
    pub fn as_u64(&self) -> (r: Option<u64>)
        ensures
            r == (match self@ {
                JsonView::Number(_, n) => n,
                _ => None,
            }),
    {
        match self {
            Json::Number(n) => n.unsigned,
            _ => None,
        }
    }

    /// The member of an object under a key, the last one where the key stands twice.
    pub fn get(&self, key: &str) -> (r: Option<&Json>)
        ensures
            match self@.get(key@) {
                Some(v) => r matches Some(j) && j@ == v,
                None => r is None,
            },
    {
        match self {
            Json::Object(members) => {
                let mut n: usize = members.len();
                let ghost all = self@->Object_0;
                assert(all.take(n as int) =~= all);
                while n > 0
                    invariant
                        n <= members@.len(),
                        *self == Json::Object(*members),
                        all == self@->Object_0,
                        member_of(all, key@) == member_of(all.take(n as int), key@),
                    decreases n,
                {
                    assert(all.take(n as int).last() == all[n - 1]);
                    assert(all.take(n as int).drop_last() =~= all.take(n - 1));
                    if str_eq(members[n - 1].0.as_str(), key) {
                        return Some(&members[n - 1].1);
                    }
                    n = n - 1;
                }
                None
            },
            _ => None,
        }
    }

    fn kept_member(members: &Vec<(String, Json)>, key: &str) -> (r: Option<usize>)
        ensures
            match r {
                Some(i) => i < members@.len() && members@[i as int].0@ == key@ && forall|k: int|
                    i < k < members@.len() ==> (#[trigger] members@[k]).0@ != key@,
                None => forall|k: int|
                    0 <= k < members@.len() ==> (#[trigger] members@[k]).0@ != key@,
            },
    {
        let mut n: usize = members.len();
        while n > 0
            invariant
                n <= members@.len(),
                forall|k: int| n <= k < members@.len() ==> (#[trigger] members@[k]).0@ != key@,
            decreases n,
        {
            n = n - 1;
            if str_eq(members[n].0.as_str(), key) {
                return Some(n);
            }
        }
        None
    }

    /// Whether another value says the same, whatever the order of its members.
    #[must_use]
    pub fn same_as(&self, other: &Json) -> (r: bool)
        ensures
            r == same_json(self@, other@),
        decreases self,
    {
        match (self, other) {
            (Json::Null, Json::Null) => true,
            (Json::Bool(x), Json::Bool(y)) => *x == *y,
            (Json::Number(m), Json::Number(n)) => {
                let written: bool = str_eq(m.text.as_str(), n.text.as_str());
                let valued: bool = match (m.unsigned, n.unsigned) {
                    (Some(x), Some(y)) => x == y,
                    (None, None) => true,
                    _ => false,
                };
                let zeros: bool = (str_eq(m.text.as_str(), "0.0") || str_eq(
                    m.text.as_str(),
                    "-0.0",
                )) && (str_eq(n.text.as_str(), "0.0") || str_eq(n.text.as_str(), "-0.0"));
                (written && valued) || zeros
            },
            (Json::Text(s), Json::Text(t)) => str_eq(s.as_str(), t.as_str()),
            (Json::Array(x), Json::Array(y)) => {
                let ghost (a, b) = (self@->Array_0, other@->Array_0);
                if x.len() != y.len() {
                    return false;
                }
                let mut i: usize = 0;
                while i < x.len()
                    invariant
                        i <= x@.len(),
                        x@.len() == y@.len(),
                        *self == Json::Array(*x),
                        *other == Json::Array(*y),
                        a == self@->Array_0,
                        b == other@->Array_0,
                        forall|k: int| 0 <= k < i ==> same_json(#[trigger] a[k], b[k]),
                    decreases x@.len() - i,
                {
                    assert(decreases_to!(*self => self->Array_0));
                    assert(decreases_to!(x@ => x@[i as int]));
                    assert(a[i as int] == x@[i as int]@);
                    assert(b[i as int] == y@[i as int]@);
                    if !x[i].same_as(&y[i]) {
                        assert(!same_json(a[i as int], b[i as int]));
                        return false;
                    }
                    i = i + 1;
                }
                true
            },
            (Json::Object(x), Json::Object(y)) => {
                let ghost (a, b) = (self@->Object_0, other@->Object_0);
                let mut i: usize = 0;
                while i < x.len()
                    invariant
                        i <= x@.len(),
                        *self == Json::Object(*x),
                        *other == Json::Object(*y),
                        a == self@->Object_0,
                        b == other@->Object_0,
                        forall|k: int|
                            k < i && #[trigger] is_kept(a, k) ==> exists|j: int| #[trigger]
                                is_kept(b, j) && a[k].0 == b[j].0 && same_json(a[k].1, b[j].1),
                    decreases x@.len() - i,
                {
                    let key: &str = x[i].0.as_str();
                    assert(forall|k: int|
                        0 <= k < x@.len() ==> (#[trigger] a[k]) == (x@[k].0@, x@[k].1@));
                    assert(forall|k: int|
                        0 <= k < y@.len() ==> (#[trigger] b[k]) == (y@[k].0@, y@[k].1@));
                    let last = Json::kept_member(x, key);
                    let kept: bool = match last {
                        Some(n) => n == i,
                        None => false,
                    };
                    assert(kept == is_kept(a, i as int)) by {
                        if kept {
                            assert forall|k: int| i < k < a.len() implies (#[trigger] a[k]).0
                                != a[i as int].0 by {
                                assert(x@[k].0@ != key@);
                            }
                        } else {
                            assert(x@[i as int].0@ == key@);
                            let n = last->0;
                            assert(n > i);
                            assert(a[n as int].0 == a[i as int].0);
                        }
                    }
                    if kept {
                        let found = Json::kept_member(y, key);
                        assert forall|j: int| #[trigger] is_kept(b, j) && b[j].0
                            == key@ implies found == Some(j as usize) by {
                            assert(y@[j].0@ == key@);
                            let n = found->0;
                            assert(b[n as int].0 == key@);
                        }
                        match found {
                            Some(j) => {
                                assert(is_kept(b, j as int)) by {
                                    assert forall|k: int| j < k < b.len() implies (
                                    #[trigger] b[k]).0 != b[j as int].0 by {
                                        assert(y@[k].0@ != key@);
                                    }
                                }
                                assert(decreases_to!(*self => self->Object_0));
                                assert(decreases_to!(x@ => x@[i as int]));
                                assert(decreases_to!(x@[i as int] => x@[i as int].1));
                                if !x[i].1.same_as(&y[j].1) {
                                    assert(!same_json(self@, other@)) by {
                                        if same_json(self@, other@) {
                                            let w = choose|w: int| #[trigger]
                                                is_kept(b, w) && a[i as int].0 == b[w].0
                                                    && same_json(a[i as int].1, b[w].1);
                                            assert(w == j);
                                        }
                                    }
                                    return false;
                                }
                            },
                            None => {
                                assert(!same_json(self@, other@)) by {
                                    if same_json(self@, other@) {
                                        let w = choose|w: int| #[trigger]
                                            is_kept(b, w) && a[i as int].0 == b[w].0
                                                && same_json(a[i as int].1, b[w].1);
                                        assert(y@[w].0@ == key@);
                                    }
                                }
                                return false;
                            },
                        }
                    }
                    i = i + 1;
                }
                let mut j: usize = 0;
                while j < y.len()
                    invariant
                        j <= y@.len(),
                        *self == Json::Object(*x),
                        *other == Json::Object(*y),
                        a == self@->Object_0,
                        b == other@->Object_0,
                        forall|k: int|
                            k < j && #[trigger] is_kept(b, k) ==> exists|i: int| #[trigger]
                                is_kept(a, i) && a[i].0 == b[k].0,
                    decreases y@.len() - j,
                {
                    let key: &str = y[j].0.as_str();
                    assert(forall|k: int|
                        0 <= k < x@.len() ==> (#[trigger] a[k]) == (x@[k].0@, x@[k].1@));
                    assert(forall|k: int|
                        0 <= k < y@.len() ==> (#[trigger] b[k]) == (y@[k].0@, y@[k].1@));
                    match Json::kept_member(x, key) {
                        Some(i) => {
                            assert(is_kept(a, i as int)) by {
                                assert forall|k: int| i < k < a.len() implies (#[trigger] a[k]).0
                                    != a[i as int].0 by {
                                    assert(x@[k].0@ != key@);
                                }
                            }
                        },
                        None => {
                            proof {
                                if same_json(self@, other@) {
                                    lemma_kept(b, j as int);
                                    let w = choose|w: int| #[trigger]
                                        is_kept(b, w) && b[w].0 == b[j as int].0;
                                    let i = choose|i: int| #[trigger]
                                        is_kept(a, i) && a[i].0 == b[w].0;
                                    assert(x@[i].0@ == key@);
                                }
                            }
                            return false;
                        },
                    }
                    j = j + 1;
                }
                true
            },
            _ => false,
        }
    }

    /// The text of a string value under a key.
    pub fn get_str(&self, key: &str) -> (r: Option<&str>)
        ensures
            match self@.get_string(key@) {
                Some(s) => r matches Some(t) && t@ == s,
                None => r is None,
            },
    {
        match self.get(key) {
            Some(v) => v.as_str(),
            None => None,
        }
    }
}

proof fn lemma_kept(members: Seq<(Seq<char>, JsonView)>, i: int)
    requires
        0 <= i < members.len(),
    ensures
        exists|k: int| #[trigger] is_kept(members, k) && members[k].0 == members[i].0,
    decreases members.len() - i,
{
    if !is_kept(members, i) {
        let later = choose|k: int|
            i < k < members.len() && (#[trigger] members[k]).0 == members[i].0;
        lemma_kept(members, later);
    }
}

/// Every value says the same as itself.
pub proof fn law_value_says_what_it_says(a: JsonView)
    ensures
        same_json(a, a),
    decreases a,
{
    match a {
        JsonView::Array(x) => {
            assert forall|i: int| 0 <= i < x.len() implies same_json(#[trigger] x[i], x[i]) by {
                law_value_says_what_it_says(x[i]);
            }
        },
        JsonView::Object(x) => {
            assert forall|i: int| #[trigger] is_kept(x, i) implies exists|j: int| #[trigger]
                is_kept(x, j) && x[i].0 == x[j].0 && same_json(x[i].1, x[j].1) by {
                law_value_says_what_it_says(x[i].1);
                assert(is_kept(x, i) && x[i].0 == x[i].0);
            }
        },
        _ => {},
    }
}

proof fn lemma_same_objects(
    x: Seq<(Seq<char>, JsonView)>,
    y: Seq<(Seq<char>, JsonView)>,
)
    requires
        forall|i: int| #[trigger]
            is_kept(x, i) ==> exists|j: int| #[trigger]
                is_kept(y, j) && x[i].0 == y[j].0 && same_json(x[i].1, y[j].1),
        forall|j: int| #[trigger]
            is_kept(y, j) ==> exists|i: int| #[trigger] is_kept(x, i) && x[i].0 == y[j].0,
    ensures
        same_json(JsonView::Object(x), JsonView::Object(y)),
{
    let (a, b) = (JsonView::Object(x), JsonView::Object(y));
    if !same_json(a, b) {
        assert(a->Object_0 == x && b->Object_0 == y);
        assert(false);
    }
}

/// The order of an object's members does not matter: it says the same with two of them
/// exchanged.
pub proof fn law_member_order_does_not_matter(
    members: Seq<(Seq<char>, JsonView)>,
    i: int,
    j: int,
)
    requires
        0 <= i < members.len(),
        0 <= j < members.len(),
        forall|m: int, n: int|
            0 <= m < n < members.len() ==> (#[trigger] members[m]).0 != (#[trigger] members[n]).0,
    ensures
        same_json(
            JsonView::Object(members),
            JsonView::Object(members.update(i, members[j]).update(j, members[i])),
        ),
{
    let other = members.update(i, members[j]).update(j, members[i]);
    let place = |k: int|
        if k == i {
            j
        } else if k == j {
            i
        } else {
            k
        };
    assert forall|k: int| 0 <= k < members.len() implies #[trigger] is_kept(other, place(k))
        && other[place(k)] == members[k] && is_kept(members, k) by {
        assert(other[place(k)] == members[k]);
        assert forall|n: int| place(k) < n < other.len() implies (#[trigger] other[n]).0
            != other[place(k)].0 by {
            assert(other[n] == members[place(n)]);
            assert(place(n) != k);
        }
    }
    assert forall|k: int| #[trigger] is_kept(members, k) implies exists|n: int| #[trigger]
        is_kept(other, n) && members[k].0 == other[n].0 && same_json(
            members[k].1,
            other[n].1,
        ) by {
        assert(is_kept(other, place(k)));
        law_value_says_what_it_says(members[k].1);
    }
    assert forall|n: int| #[trigger] is_kept(other, n) implies exists|k: int| #[trigger]
        is_kept(members, k) && members[k].0 == other[n].0 by {
        assert(is_kept(other, place(place(n))));
        assert(is_kept(members, place(n)));
    }
    lemma_same_objects(members, other);
}

} // verus!

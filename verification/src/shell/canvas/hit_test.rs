//! The order in which components are painted, and which of those under the pointer
//! is on top.

use vstd::prelude::*;

use crate::shell::canvas::ledger::CanvasLedger;
use crate::shell::canvas::patch::{ComponentId, Rect};

verus! {

use crate::shell::canvas::ledger::Components;

/// Whether the component at `i` is painted before the one at `j`: by stacking order,
/// then by age.
pub open spec fn painted_before(components: Components, i: int, j: int) -> bool {
    ||| components[i].1.z_index < components[j].1.z_index
    ||| components[i].1.z_index == components[j].1.z_index && i < j
}

/// Whether `order` lists the places of all components as they are painted.
pub open spec fn is_paint_order(components: Components, order: Seq<int>) -> bool {
    &&& order.len() == components.len()
    &&& forall|k: int| 0 <= k < order.len() ==> 0 <= #[trigger] order[k] < components.len()
    &&& forall|a: int, b: int|
        #![trigger order[a], order[b]]
        0 <= a < b < order.len() ==> painted_before(components, order[a], order[b])
}

/// The places of the components as they are painted.
pub fn paint_places(ledger: &CanvasLedger) -> (order: Vec<usize>)
    ensures
        is_paint_order(ledger@.components, order@.map_values(|n: usize| n as int)),
{
    let values = ledger.components.values();
    let ghost components = ledger@.components;
    let mut order: Vec<usize> = Vec::new();
    let mut i: usize = 0;
    while i < values.len()
        invariant
            i <= values@.len(),
            components == ledger@.components,
            values@.len() == components.len(),
            forall|k: int|
                0 <= k < values@.len() ==> (#[trigger] values@[k]).z_index
                    == components[k].1.z_index,
            order@.len() == i,
            forall|k: int| 0 <= k < order@.len() ==> #[trigger] order@[k] < i,
            forall|a: int, b: int|
                #![trigger order@[a], order@[b]]
                0 <= a < b < order@.len() ==> painted_before(
                    components,
                    order@[a] as int,
                    order@[b] as int,
                ),
        decreases values@.len() - i,
    {
        let z: i32 = values[i].z_index;
        let mut at: usize = order.len();
        while at > 0 && values[order[at - 1]].z_index > z
            invariant
                at <= order@.len(),
                i < values@.len(),
                order@.len() == i,
                z == components[i as int].1.z_index,
                values@.len() == components.len(),
                forall|k: int|
                    0 <= k < values@.len() ==> (#[trigger] values@[k]).z_index
                        == components[k].1.z_index,
                forall|k: int| 0 <= k < order@.len() ==> #[trigger] order@[k] < i,
                forall|k: int|
                    at <= k < order@.len() ==> z < components[(#[trigger] order@[k]) as int].1.z_index,
            decreases at,
        {
            at = at - 1;
        }
        let ghost before = order@;
        order.insert(at, i);
        proof {
            assert forall|a: int, b: int|
                #![trigger order@[a], order@[b]]
                0 <= a < b < order@.len() implies painted_before(
                components,
                order@[a] as int,
                order@[b] as int,
            ) by {
                let x = if a < at {
                    a
                } else {
                    a - 1
                };
                let y = if b < at {
                    b
                } else {
                    b - 1
                };
                if a != at && b != at {
                    assert(order@[a] == before[x] && order@[b] == before[y]);
                } else if a == at {
                    assert(order@[b] == before[y]);
                } else {
                    assert(order@[a] == before[x]);
                    if x < at - 1 {
                        assert(painted_before(
                            components,
                            before[x] as int,
                            before[at - 1] as int,
                        ));
                    }
                    assert(components[before[at - 1] as int].1.z_index <= z);
                }
            }
            assert forall|k: int| 0 <= k < order@.len() implies #[trigger] order@[k] < i + 1 by {
                if k != at {
                    let x = if k < at {
                        k
                    } else {
                        k - 1
                    };
                    assert(order@[k] == before[x]);
                }
            }
        }
        i = i + 1;
    }
    proof {
        let p = order@.map_values(|n: usize| n as int);
        assert forall|a: int, b: int|
            #![trigger p[a], p[b]]
            0 <= a < b < p.len() implies painted_before(components, p[a], p[b]) by {
            assert(painted_before(components, order@[a] as int, order@[b] as int));
        }
        assert forall|k: int| 0 <= k < p.len() implies 0 <= #[trigger] p[k] < components.len() by {
            assert(order@[k] < i);
        }
    }
    order
}

/// Ids and rectangles of the components as they are painted: by stacking order, then
/// by age.
pub fn paint_order(ledger: &CanvasLedger) -> (r: Vec<(ComponentId, Rect)>)
    ensures
        exists|order: Seq<int>| #[trigger]
            is_paint_order(ledger@.components, order) && r@.len() == order.len() && forall|k: int|
                0 <= k < r@.len() ==> {
                    &&& (#[trigger] r@[k]).0@ == ledger@.components[order[k]].1.id
                    &&& r@[k].1 == ledger@.components[order[k]].1.rect
                },
{
    let places = paint_places(ledger);
    let ghost order = places@.map_values(|n: usize| n as int);
    let values = ledger.components.values();
    let mut r: Vec<(ComponentId, Rect)> = Vec::new();
    let mut i: usize = 0;
    while i < places.len()
        invariant
            i <= places@.len(),
            order == places@.map_values(|n: usize| n as int),
            is_paint_order(ledger@.components, order),
            values@.len() == ledger@.components.len(),
            forall|k: int|
                0 <= k < values@.len() ==> (#[trigger] values@[k])@ == ledger@.components[k].1,
            r@.len() == i,
            forall|k: int|
                0 <= k < r@.len() ==> {
                    &&& (#[trigger] r@[k]).0@ == ledger@.components[order[k]].1.id
                    &&& r@[k].1 == ledger@.components[order[k]].1.rect
                },
        decreases places@.len() - i,
    {
        let at: usize = places[i];
        assert(order[i as int] == at);
        assert(values@[at as int]@ == ledger@.components[at as int].1);
        r.push((values[at].id.clone(), values[at].rect));
        i = i + 1;
    }
    r
}

/// The place of the last hit: what is painted last is on top.
pub open spec fn last_hit(hits: Seq<bool>) -> Option<int>
    decreases hits.len(),
{
    if hits.len() == 0 {
        None
    } else if hits.last() {
        Some(hits.len() - 1)
    } else {
        last_hit(hits.drop_last())
    }
}

/// The component on top of those hit, given in paint order with a flag for each.
pub fn topmost_hit(painted: &Vec<(ComponentId, Rect)>, hits: &Vec<bool>) -> (r: Option<ComponentId>)
    requires
        hits@.len() == painted@.len(),
    ensures
        match last_hit(hits@) {
            Some(k) => 0 <= k < painted@.len() && (r matches Some(id) && id@ == painted@[k].0@),
            None => r is None,
        },
{
    let mut n: usize = hits.len();
    assert(hits@.take(n as int) =~= hits@);
    while n > 0
        invariant
            n <= hits@.len() == painted@.len(),
            last_hit(hits@) == last_hit(hits@.take(n as int)),
        decreases n,
    {
        assert(hits@.take(n as int).last() == hits@[n - 1]);
        assert(hits@.take(n as int).drop_last() =~= hits@.take(n - 1));
        if hits[n - 1] {
            return Some(painted[n - 1].0.clone());
        }
        n = n - 1;
    }
    None
}

/// There is one paint order and no other.
pub proof fn law_paint_order_is_unique(components: Components, p: Seq<int>, q: Seq<int>)
    requires
        is_paint_order(components, p),
        is_paint_order(components, q),
    ensures
        p == q,
{
    lemma_order_holds_all(components, p);
    lemma_order_holds_all(components, q);
    assert forall|k: int| 0 <= k < p.len() implies p[k] == q[k] by {
        lemma_orders_agree(components, p, q, k);
    }
    assert(p =~= q);
}

proof fn lemma_order_holds_all(components: Components, p: Seq<int>)
    requires
        is_paint_order(components, p),
    ensures
        forall|x: int| 0 <= x < components.len() ==> #[trigger] p.contains(x),
{
    let n = components.len() as int;
    assert(p.no_duplicates());
    p.unique_seq_to_set();
    let all = vstd::set_lib::set_int_range(0, n);
    vstd::set_lib::lemma_int_range(0, n);
    assert(p.to_set().subset_of(all)) by {
        assert forall|x: int| p.to_set().contains(x) implies all.contains(x) by {
            let k = choose|k: int| 0 <= k < p.len() && p[k] == x;
        }
    }
    vstd::set_lib::lemma_subset_equality(p.to_set(), all);
    assert forall|x: int| 0 <= x < components.len() implies #[trigger] p.contains(x) by {
        assert(all.contains(x));
        assert(p.to_set().contains(x));
    }
}

proof fn lemma_orders_agree(components: Components, p: Seq<int>, q: Seq<int>, k: int)
    requires
        is_paint_order(components, p),
        is_paint_order(components, q),
        forall|x: int| 0 <= x < components.len() ==> #[trigger] p.contains(x),
        forall|x: int| 0 <= x < components.len() ==> #[trigger] q.contains(x),
        0 <= k < p.len(),
    ensures
        p[k] == q[k],
    decreases k,
{
    assert forall|m: int| 0 <= m < k implies #[trigger] p[m] == q[m] by {
        lemma_orders_agree(components, p, q, m);
    }
    assert(q.contains(p[k]) && p.contains(q[k]));
    let a = choose|a: int| 0 <= a < q.len() && q[a] == p[k];
    let b = choose|b: int| 0 <= b < p.len() && p[b] == q[k];
    if a < k {
        assert(p[a] == q[a]);
        assert(painted_before(components, p[a], p[k]));
    }
    if b < k {
        assert(p[b] == q[b]);
        assert(painted_before(components, q[b], q[k]));
    }
    if a > k && b > k {
        assert(painted_before(components, q[k], q[a]));
        assert(painted_before(components, p[k], p[b]));
    }
}

/// Every component is painted once: those with a lower place in the stack first and, of those
/// with the same, the one that came to the canvas first.
pub proof fn law_higher_components_are_painted_later(
    components: Components,
    order: Seq<int>,
    i: int,
    j: int,
)
    requires
        is_paint_order(components, order),
        0 <= i < components.len(),
        0 <= j < components.len(),
        i != j,
        components[i].1.z_index < components[j].1.z_index || components[i].1.z_index
            == components[j].1.z_index && i < j,
    ensures
        exists|a: int, b: int|
            0 <= a < b < order.len() && #[trigger] order[a] == i && #[trigger] order[b] == j,
        order.len() == components.len(),
{
    lemma_order_holds_all(components, order);
    assert(order.contains(i) && order.contains(j));
    let a = choose|a: int| 0 <= a < order.len() && order[a] == i;
    let b = choose|b: int| 0 <= b < order.len() && order[b] == j;
    if b < a {
        assert(painted_before(components, order[b], order[a]));
    }
    assert(order[a] == i && order[b] == j);
}

/// What is hit on top is hit, and nothing painted later is; nothing is where nothing is hit.
pub proof fn law_topmost_hit_is_the_last_painted(hits: Seq<bool>)
    ensures
        match last_hit(hits) {
            Some(k) => 0 <= k < hits.len() && hits[k] && forall|later: int|
                k < later < hits.len() ==> !#[trigger] hits[later],
            None => forall|k: int| 0 <= k < hits.len() ==> !#[trigger] hits[k],
        },
    decreases hits.len(),
{
    if hits.len() > 0 && !hits.last() {
        let front = hits.drop_last();
        law_topmost_hit_is_the_last_painted(front);
        assert forall|k: int| 0 <= k < front.len() implies front[k] == #[trigger] hits[k] by {}
    }
}

} // verus!

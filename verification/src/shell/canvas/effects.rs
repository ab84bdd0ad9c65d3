//! What each patch does to a canvas, told by what it carries and by what is on the canvas
//! before and after it.

use vstd::prelude::*;

use crate::shell::canvas::ledger::CanvasMode;
use crate::shell::canvas::patch::{Coord, Rect, Viewport};

verus! {

broadcast use vstd::string::group_string_axioms;

use crate::json::JsonView;
use crate::ordered_map::{
    holds_key, lemma_filter_from, lemma_filter_to, lemma_place_of_key, lemma_place_unique,
    place_of_key,
};
use crate::shell::canvas::ledger::{
    changed, compact_of, edge_kind_of, edge_stays, fresh_ledger, kind_of, laid_out, layout_ids,
    layout_reach, layout_scope, ledger_wf, locally_applied, other_than, remotely_applied,
    touched_by, with_missing, Components, ComponentView, EdgeKindView, LedgerView,
};
use crate::shell::canvas::patch::{
    law_version_irreflexive, version_less, ActorView, ComponentPatchView, EdgePatchView,
    EnvelopeView, FocusView, LayoutTargetView, PatchView, StrategyView, VersionView,
};
use crate::text::{chars_less, ends_with_chars};

/// After an upsert the canvas holds the component, with everything that the patch carries:
/// content and metadata where they are not null, a rectangle and a place in the stack where
/// they are given, and the kind, whether or not the component was there before.
pub proof fn law_upsert_holds_what_it_carries(
    v: LedgerView,
    p: ComponentPatchView,
    actor: ActorView,
    now: i64,
    slot: Rect,
    rects: Seq<Rect>,
)
    requires
        ledger_wf(v),
    ensures
        ({
            let after = locally_applied(v, PatchView::Upsert(p), actor, now, slot, rects);
            &&& exists|i: int|
                0 <= i < after.components.len() && (#[trigger] after.components[i]).0 == p.id
            &&& forall|i: int|
                0 <= i < after.components.len() && (#[trigger] after.components[i]).0 == p.id ==> {
                    let c = after.components[i].1;
                    &&& c.id == p.id
                    &&& c.template == p.kind
                    &&& c.kind == kind_of(p.kind)
                    &&& !(p.content is Null) ==> c.content == p.content
                    &&& !(p.metadata is Null) ==> c.metadata == p.metadata
                    &&& p.rect matches Some(rect) ==> c.rect == rect
                    &&& p.z_index matches Some(z) ==> c.z_index == z
                    &&& c.updated_by == actor
                    &&& c.updated_at_ms == now
                }
        }),
{
    lemma_place_of_key(v.components, p.id);
    let after = locally_applied(v, PatchView::Upsert(p), actor, now, slot, rects);
    let at = place_of_key(v.components, p.id);
    assert(after.components[at].0 == p.id);
    assert forall|i: int|
        0 <= i < after.components.len() && (#[trigger] after.components[i]).0
            == p.id implies i == at by {
        if i != at {
            assert(after.components[i] == v.components[i]);
            assert(holds_key(v.components, p.id));
            lemma_place_unique(v.components, p.id, i);
        }
    }
}

/// What an upsert leaves out stays as it was on a component that is there, and so do its
/// ports, its children, who made it and when, and every other component.
pub proof fn law_upsert_keeps_what_it_leaves_out(
    v: LedgerView,
    p: ComponentPatchView,
    actor: ActorView,
    now: i64,
    slot: Rect,
    rects: Seq<Rect>,
    i: int,
)
    requires
        ledger_wf(v),
        0 <= i < v.components.len(),
        v.components[i].0 == p.id,
    ensures
        ({
            let after = locally_applied(v, PatchView::Upsert(p), actor, now, slot, rects);
            let (was, is) = (v.components[i].1, after.components[i].1);
            &&& after.components.len() == v.components.len()
            &&& after.components[i].0 == p.id
            &&& p.content is Null ==> is.content == was.content
            &&& p.metadata is Null ==> is.metadata == was.metadata
            &&& p.rect is None ==> is.rect == was.rect
            &&& p.z_index is None ==> is.z_index == was.z_index
            &&& is.ports == was.ports
            &&& is.children == was.children
            &&& is.created_by == was.created_by
            &&& is.created_at_ms == was.created_at_ms
            &&& forall|j: int|
                0 <= j < v.components.len() && j != i ==> #[trigger] after.components[j]
                    == v.components[j]
        }),
{
    lemma_place_unique(v.components, p.id, i);
}

/// A component that was not there comes last, bare but for what the patch carries: it stands
/// in the free slot and at the bottom where the patch does not say where.
pub proof fn law_new_component_comes_last(
    v: LedgerView,
    p: ComponentPatchView,
    actor: ActorView,
    now: i64,
    slot: Rect,
    rects: Seq<Rect>,
)
    requires
        ledger_wf(v),
        forall|i: int| 0 <= i < v.components.len() ==> (#[trigger] v.components[i]).0 != p.id,
    ensures
        ({
            let after = locally_applied(v, PatchView::Upsert(p), actor, now, slot, rects);
            let c = after.components.last().1;
            &&& after.components.len() == v.components.len() + 1
            &&& after.components.drop_last() == v.components
            &&& after.components.last().0 == p.id
            &&& c.content == p.content
            &&& c.metadata == p.metadata
            &&& p.rect is None ==> c.rect == slot
            &&& p.z_index is None ==> c.z_index == 0
            &&& c.ports.len() == 0
            &&& c.children.len() == 0
            &&& c.created_by == actor
            &&& c.created_at_ms == now
        }),
{
    let after = locally_applied(v, PatchView::Upsert(p), actor, now, slot, rects);
    assert(!holds_key(v.components, p.id));
    assert(after.components.drop_last() =~= v.components);
}

/// A move takes a component to the place that the patch names and changes nothing else but
/// who changed it last and when; its size stays.
pub proof fn law_move_moves(
    v: LedgerView,
    id: Seq<char>,
    x: Coord,
    y: Coord,
    actor: ActorView,
    now: i64,
    slot: Rect,
    rects: Seq<Rect>,
    i: int,
)
    requires
        ledger_wf(v),
        0 <= i < v.components.len(),
        v.components[i].0 == id,
    ensures
        ({
            let after = locally_applied(v, PatchView::Move(id, x, y), actor, now, slot, rects);
            let (was, is) = (v.components[i].1, after.components[i].1);
            &&& after.components.len() == v.components.len()
            &&& after.components[i].0 == id
            &&& is.rect.x == x
            &&& is.rect.y == y
            &&& is.rect.w == was.rect.w
            &&& is.rect.h == was.rect.h
            &&& is.updated_by == actor
            &&& is.updated_at_ms == now
            &&& (ComponentView {
                rect: was.rect,
                updated_by: was.updated_by,
                updated_at_ms: was.updated_at_ms,
                ..is
            }) == was
            &&& forall|j: int|
                0 <= j < v.components.len() && j != i ==> #[trigger] after.components[j]
                    == v.components[j]
        }),
{
    lemma_place_unique(v.components, id, i);
}

/// A resize gives a component the size that the patch names and changes nothing else but who
/// changed it last and when; its place stays.
pub proof fn law_resize_resizes(
    v: LedgerView,
    id: Seq<char>,
    w: Coord,
    h: Coord,
    actor: ActorView,
    now: i64,
    slot: Rect,
    rects: Seq<Rect>,
    i: int,
)
    requires
        ledger_wf(v),
        0 <= i < v.components.len(),
        v.components[i].0 == id,
    ensures
        ({
            let after = locally_applied(v, PatchView::Resize(id, w, h), actor, now, slot, rects);
            let (was, is) = (v.components[i].1, after.components[i].1);
            &&& after.components.len() == v.components.len()
            &&& after.components[i].0 == id
            &&& is.rect.w == w
            &&& is.rect.h == h
            &&& is.rect.x == was.rect.x
            &&& is.rect.y == was.rect.y
            &&& is.updated_by == actor
            &&& is.updated_at_ms == now
            &&& (ComponentView {
                rect: was.rect,
                updated_by: was.updated_by,
                updated_at_ms: was.updated_at_ms,
                ..is
            }) == was
            &&& forall|j: int|
                0 <= j < v.components.len() && j != i ==> #[trigger] after.components[j]
                    == v.components[j]
        }),
{
    lemma_place_unique(v.components, id, i);
}

/// A patch on a component that is not there changes no component, no edge and no selection.
pub proof fn law_absent_component_stays_absent(
    v: LedgerView,
    patch: PatchView,
    id: Seq<char>,
    actor: ActorView,
    now: i64,
    slot: Rect,
    rects: Seq<Rect>,
)
    requires
        forall|i: int| 0 <= i < v.components.len() ==> (#[trigger] v.components[i]).0 != id,
        (patch matches PatchView::Move(m, _, _) && m == id) || (patch matches PatchView::Resize(
            m,
            _,
            _,
        ) && m == id) || patch == PatchView::Delete(id) || (patch matches PatchView::Group(m, _)
            && m == id),
    ensures
        ({
            let after = locally_applied(v, patch, actor, now, slot, rects);
            &&& after.components == v.components
            &&& after.edges == v.edges
            &&& after.selected == v.selected
            &&& after.selected_edges == v.selected_edges
        }),
{
    assert(!holds_key(v.components, id));
}

/// A delete takes one component out and leaves all others in their order; the edges at it and
/// its selection go with it, the edges between others and their selection stay.
pub proof fn law_delete_takes_one_out(
    v: LedgerView,
    id: Seq<char>,
    actor: ActorView,
    now: i64,
    slot: Rect,
    rects: Seq<Rect>,
    i: int,
)
    requires
        ledger_wf(v),
        0 <= i < v.components.len(),
        v.components[i].0 == id,
    ensures
        ({
            let after = locally_applied(v, PatchView::Delete(id), actor, now, slot, rects);
            &&& after.components == v.components.remove(i)
            &&& forall|j: int|
                0 <= j < after.components.len() ==> (#[trigger] after.components[j]).0 != id
            &&& forall|j: int|
                0 <= j < after.edges.len() ==> {
                    let e = (#[trigger] after.edges[j]).1;
                    e.from.component_id != id && e.to.component_id != id && v.edges.contains(
                        after.edges[j],
                    )
                }
            &&& forall|j: int|
                0 <= j < v.edges.len() && (#[trigger] v.edges[j]).1.from.component_id != id
                    && v.edges[j].1.to.component_id != id ==> after.edges.contains(v.edges[j])
            &&& !after.selected.contains(id)
            &&& forall|j: int|
                0 <= j < v.selected.len() && #[trigger] v.selected[j] != id
                    ==> after.selected.contains(v.selected[j])
            &&& forall|j: int|
                0 <= j < after.selected.len() ==> v.selected.contains(
                    #[trigger] after.selected[j],
                )
            &&& after.selected_edges == v.selected_edges
        }),
{
    let after = locally_applied(v, PatchView::Delete(id), actor, now, slot, rects);
    lemma_place_unique(v.components, id, i);
    assert forall|j: int| 0 <= j < after.components.len() implies (
    #[trigger] after.components[j]).0 != id by {
        let a = if j < i {
            j
        } else {
            j + 1
        };
        assert(after.components[j] == v.components[a]);
        assert(v.components[a].0 != v.components[i].0);
    }
    assert forall|j: int| 0 <= j < after.edges.len() implies ({
        let e = (#[trigger] after.edges[j]).1;
        e.from.component_id != id && e.to.component_id != id && v.edges.contains(after.edges[j])
    }) by {
        lemma_filter_from(v.edges, edge_stays(id), j);
    }
    assert forall|j: int|
        0 <= j < v.edges.len() && (#[trigger] v.edges[j]).1.from.component_id != id
            && v.edges[j].1.to.component_id != id implies after.edges.contains(v.edges[j]) by {
        lemma_filter_to(v.edges, edge_stays(id), j);
    }
    if after.selected.contains(id) {
        let j = choose|j: int| 0 <= j < after.selected.len() && after.selected[j] == id;
        lemma_filter_from(v.selected, other_than(id), j);
    }
    assert forall|j: int| 0 <= j < v.selected.len() && #[trigger] v.selected[j]
        != id implies after.selected.contains(v.selected[j]) by {
        lemma_filter_to(v.selected, other_than(id), j);
    }
    assert forall|j: int| 0 <= j < after.selected.len() implies v.selected.contains(
        #[trigger] after.selected[j],
    ) by {
        lemma_filter_from(v.selected, other_than(id), j);
    }
}

/// After two components are connected the canvas holds the edge, with the ends, the label
/// and the metadata that the patch carries; every other edge stays as it was.
pub proof fn law_connect_connects(
    v: LedgerView,
    p: EdgePatchView,
    actor: ActorView,
    now: i64,
    slot: Rect,
    rects: Seq<Rect>,
)
    requires
        ledger_wf(v),
    ensures
        ({
            let after = locally_applied(v, PatchView::Connect(p), actor, now, slot, rects);
            &&& exists|i: int| 0 <= i < after.edges.len() && (#[trigger] after.edges[i]).0 == p.id
            &&& forall|i: int|
                0 <= i < after.edges.len() && (#[trigger] after.edges[i]).0 == p.id ==> {
                    let e = after.edges[i].1;
                    &&& e.id == p.id
                    &&& e.from == p.from
                    &&& e.to == p.to
                    &&& e.label == p.label
                    &&& e.metadata == p.metadata
                    &&& e.route is Straight
                    &&& p.kind is None ==> e.kind is Reference
                }
            &&& forall|i: int|
                0 <= i < v.edges.len() && (#[trigger] v.edges[i]).0 != p.id ==> after.edges[i]
                    == v.edges[i]
            &&& forall|i: int|
                0 <= i < after.edges.len() && (#[trigger] after.edges[i]).0 != p.id ==> i
                    < v.edges.len() && after.edges[i] == v.edges[i]
        }),
{
    lemma_place_of_key(v.edges, p.id);
    let after = locally_applied(v, PatchView::Connect(p), actor, now, slot, rects);
    let at = place_of_key(v.edges, p.id);
    assert(after.edges[at].0 == p.id);
    assert forall|i: int| 0 <= i < after.edges.len() && (#[trigger] after.edges[i]).0
        == p.id implies i == at by {
        if i != at {
            assert(after.edges[i] == v.edges[i]);
            assert(holds_key(v.edges, p.id));
            lemma_place_unique(v.edges, p.id, i);
        }
    }
}

/// An edge that is taken away is gone, from the selection too; all others stay in their order.
pub proof fn law_disconnect_disconnects(
    v: LedgerView,
    id: Seq<char>,
    actor: ActorView,
    now: i64,
    slot: Rect,
    rects: Seq<Rect>,
)
    requires
        ledger_wf(v),
    ensures
        ({
            let after = locally_applied(v, PatchView::Disconnect(id), actor, now, slot, rects);
            &&& forall|j: int| 0 <= j < after.edges.len() ==> (#[trigger] after.edges[j]).0 != id
            &&& forall|i: int|
                0 <= i < v.edges.len() && (#[trigger] v.edges[i]).0 == id ==> after.edges
                    == v.edges.remove(i)
            &&& (forall|i: int| 0 <= i < v.edges.len() ==> (#[trigger] v.edges[i]).0 != id)
                ==> after.edges == v.edges
            &&& !after.selected_edges.contains(id)
            &&& forall|j: int|
                0 <= j < v.selected_edges.len() && #[trigger] v.selected_edges[j] != id
                    ==> after.selected_edges.contains(v.selected_edges[j])
            &&& after.selected == v.selected
        }),
{
    let after = locally_applied(v, PatchView::Disconnect(id), actor, now, slot, rects);
    lemma_place_of_key(v.edges, id);
    let at = place_of_key(v.edges, id);
    assert forall|i: int| 0 <= i < v.edges.len() && (#[trigger] v.edges[i]).0
        == id implies after.edges == v.edges.remove(i) by {
        lemma_place_unique(v.edges, id, i);
    }
    assert forall|j: int| 0 <= j < after.edges.len() implies (#[trigger] after.edges[j]).0
        != id by {
        if holds_key(v.edges, id) {
            let a = if j < at {
                j
            } else {
                j + 1
            };
            assert(after.edges[j] == v.edges[a]);
            assert(v.edges[a].0 != v.edges[at].0);
        } else {
            assert(after.edges[j] == v.edges[j]);
        }
    }
    if after.selected_edges.contains(id) {
        let j = choose|j: int|
            0 <= j < after.selected_edges.len() && after.selected_edges[j] == id;
        lemma_filter_from(v.selected_edges, other_than(id), j);
    }
    assert forall|j: int| 0 <= j < v.selected_edges.len() && #[trigger] v.selected_edges[j]
        != id implies after.selected_edges.contains(v.selected_edges[j]) by {
        lemma_filter_to(v.selected_edges, other_than(id), j);
    }
}

/// What is focused or selected is what is selected afterwards; the focus on the canvas itself
/// selects nothing.
pub proof fn law_selection_is_what_was_chosen(
    v: LedgerView,
    id: Seq<char>,
    ids: Seq<Seq<char>>,
    actor: ActorView,
    now: i64,
    slot: Rect,
    rects: Seq<Rect>,
)
    ensures
        ({
            let focused = locally_applied(
                v,
                PatchView::Focus(FocusView::Component(id)),
                actor,
                now,
                slot,
                rects,
            );
            let edge = locally_applied(
                v,
                PatchView::Focus(FocusView::Edge(id)),
                actor,
                now,
                slot,
                rects,
            );
            let canvas = locally_applied(
                v,
                PatchView::Focus(FocusView::Canvas),
                actor,
                now,
                slot,
                rects,
            );
            let selected = locally_applied(v, PatchView::Select(ids), actor, now, slot, rects);
            &&& focused.selected.len() == 1 && focused.selected[0] == id
            &&& focused.selected_edges == v.selected_edges
            &&& edge.selected_edges.len() == 1 && edge.selected_edges[0] == id
            &&& edge.selected == v.selected
            &&& canvas.selected.len() == 0 && canvas.selected_edges.len() == 0
            &&& selected.selected == ids
            &&& selected.selected_edges == v.selected_edges
        }),
{
}

/// The viewport that is set is the one that is shown.
pub proof fn law_viewport_is_set(
    v: LedgerView,
    viewport: Viewport,
    actor: ActorView,
    now: i64,
    slot: Rect,
    rects: Seq<Rect>,
)
    ensures
        locally_applied(v, PatchView::SetViewport(viewport), actor, now, slot, rects).viewport
            == viewport,
{
}

/// A patch changes only what it is about: the canvas stays in its session and its mode, and
/// components, edges, selection and viewport change only under patches on them.
pub proof fn law_patch_keeps_to_its_subject(
    v: LedgerView,
    patch: PatchView,
    actor: ActorView,
    now: i64,
    slot: Rect,
    rects: Seq<Rect>,
)
    ensures
        ({
            let after = locally_applied(v, patch, actor, now, slot, rects);
            &&& after.canvas_id == v.canvas_id
            &&& after.session_id == v.session_id
            &&& after.mode == v.mode
            &&& after.metadata == v.metadata
            &&& !(patch is SetViewport) ==> after.viewport == v.viewport
            &&& !(patch is Connect || patch is Disconnect || patch is Delete) ==> after.edges
                == v.edges
            &&& !(patch is Focus || patch is Select || patch is Delete) ==> after.selected
                == v.selected
            &&& !(patch is Focus || patch is Disconnect) ==> after.selected_edges
                == v.selected_edges
            &&& (patch is Connect || patch is Disconnect || patch is Focus || patch is Select
                || patch is SetViewport) ==> after.components == v.components
        }),
{
}

/// Where a patch changes a component, or takes it out, it names it among those it touched.
pub proof fn law_touched_names_what_changed(
    v: LedgerView,
    patch: PatchView,
    actor: ActorView,
    now: i64,
    slot: Rect,
    rects: Seq<Rect>,
    i: int,
)
    requires
        ledger_wf(v),
        0 <= i < v.components.len(),
        !touched_by(v, patch, rects).contains(v.components[i].0),
    ensures
        locally_applied(v, patch, actor, now, slot, rects).components.contains(v.components[i]),
{
    let after = changed(v, patch, actor, now, slot, rects);
    let touched = touched_by(v, patch, rects);
    let id = v.components[i].0;
    match patch {
        PatchView::Upsert(p) => {
            assert(touched[0] == p.id);
            lemma_place_of_key(v.components, p.id);
            assert(after.components[i] == v.components[i]);
        },
        PatchView::Move(m, _, _) => {
            lemma_place_of_key(v.components, m);
            if holds_key(v.components, m) {
                assert(touched[0] == m);
            }
            assert(after.components[i] == v.components[i]);
        },
        PatchView::Resize(m, _, _) => {
            lemma_place_of_key(v.components, m);
            if holds_key(v.components, m) {
                assert(touched[0] == m);
            }
            assert(after.components[i] == v.components[i]);
        },
        PatchView::Delete(m) => {
            lemma_place_of_key(v.components, m);
            let at = place_of_key(v.components, m);
            if holds_key(v.components, m) {
                assert(touched[0] == m);
                let j = if i < at {
                    i
                } else {
                    i - 1
                };
                assert(after.components[j] == v.components[i]);
            } else {
                assert(after.components[i] == v.components[i]);
            }
        },
        PatchView::Group(frame, children) => {
            assert(touched[0] == frame);
            lemma_place_of_key(v.components, frame);
            assert(after.components[i] == v.components[i]);
        },
        PatchView::Layout(target, _) => {
            let ids = layout_ids(v.components, target);
            let n = layout_reach(ids, rects);
            assert forall|k: int| 0 <= k < n implies #[trigger] ids[k] != id by {
                assert(touched[k] == ids[k]);
            }
            lemma_laid_out_untouched(v.components, ids, rects, now, n, i);
            assert(after.components[i] == v.components[i]);
        },
        _ => {
            assert(after.components[i] == v.components[i]);
        },
    }
}

proof fn lemma_laid_out_keys(
    components: Components,
    ids: Seq<Seq<char>>,
    rects: Seq<Rect>,
    now: i64,
    n: int,
)
    ensures
        laid_out(components, ids, rects, now, n).len() == components.len(),
        forall|i: int|
            0 <= i < components.len() ==> (#[trigger] laid_out(components, ids, rects, now, n)[i]).0
                == components[i].0,
    decreases n,
{
    if n > 0 {
        lemma_laid_out_keys(components, ids, rects, now, n - 1);
        lemma_place_of_key(laid_out(components, ids, rects, now, n - 1), ids[n - 1]);
    }
}

proof fn lemma_laid_out_untouched(
    components: Components,
    ids: Seq<Seq<char>>,
    rects: Seq<Rect>,
    now: i64,
    n: int,
    i: int,
)
    requires
        0 <= i < components.len(),
        forall|k: int| 0 <= k < n ==> #[trigger] ids[k] != components[i].0,
    ensures
        laid_out(components, ids, rects, now, n).len() == components.len(),
        laid_out(components, ids, rects, now, n)[i] == components[i],
    decreases n,
{
    if n > 0 {
        lemma_laid_out_untouched(components, ids, rects, now, n - 1, i);
        let before = laid_out(components, ids, rects, now, n - 1);
        lemma_place_of_key(before, ids[n - 1]);
        assert(ids[n - 1] != components[i].0);
    }
}

proof fn lemma_laid_out_one(
    components: Components,
    ids: Seq<Seq<char>>,
    rects: Seq<Rect>,
    now: i64,
    n: int,
    k: int,
    i: int,
)
    requires
        forall|a: int, b: int|
            0 <= a < b < components.len() ==> (#[trigger] components[a]).0
                != (#[trigger] components[b]).0,
        forall|a: int, b: int| 0 <= a < b < ids.len() ==> ids[a] != ids[b],
        0 <= k < n <= ids.len(),
        0 <= i < components.len(),
        components[i].0 == ids[k],
    ensures
        laid_out(components, ids, rects, now, n).len() == components.len(),
        laid_out(components, ids, rects, now, n)[i] == (
            components[i].0,
            ComponentView { rect: rects[k], updated_at_ms: now, ..components[i].1 },
        ),
    decreases n,
{
    let before = laid_out(components, ids, rects, now, n - 1);
    lemma_laid_out_keys(components, ids, rects, now, n - 1);
    lemma_place_of_key(before, ids[n - 1]);
    assert(before[i].0 == components[i].0);
    if k == n - 1 {
        lemma_laid_out_untouched(components, ids, rects, now, n - 1, i);
        assert(holds_key(before, ids[k]));
        let at = place_of_key(before, ids[k]);
        assert(before[at].0 == components[at].0);
        assert(at == i);
    } else {
        lemma_laid_out_one(components, ids, rects, now, n - 1, k, i);
        if holds_key(before, ids[n - 1]) {
            let at = place_of_key(before, ids[n - 1]);
            assert(at != i);
        }
    }
}

/// Laying named components out gives each its own rectangle, in the order of the names, and
/// changes nothing else of it but when it was changed; a component that is not named stays.
pub proof fn law_layout_places_the_named(
    v: LedgerView,
    ids: Seq<Seq<char>>,
    strategy: StrategyView,
    actor: ActorView,
    now: i64,
    slot: Rect,
    rects: Seq<Rect>,
    k: int,
    i: int,
)
    requires
        ledger_wf(v),
        forall|a: int, b: int| 0 <= a < b < ids.len() ==> ids[a] != ids[b],
        forall|a: int| 0 <= a < ids.len() ==> named_on(v.components, #[trigger] ids[a]),
        ids.len() <= rects.len(),
        0 <= i < v.components.len(),
    ensures
        ({
            let after = locally_applied(
                v,
                PatchView::Layout(LayoutTargetView::Components(ids), strategy),
                actor,
                now,
                slot,
                rects,
            );
            &&& after.components.len() == v.components.len()
            &&& after.components[i].0 == v.components[i].0
            &&& 0 <= k < ids.len() && v.components[i].0 == ids[k] ==> after.components[i].1 == (
            ComponentView { rect: rects[k], updated_at_ms: now, ..v.components[i].1 })
            &&& !ids.contains(v.components[i].0) ==> after.components[i] == v.components[i]
        }),
{
    let target = LayoutTargetView::Components(ids);
    let present = |id: Seq<char>| holds_key(v.components, id);
    lemma_filter_keeps_all(ids, present);
    assert(layout_ids(v.components, target) == ids);
    lemma_laid_out_keys(v.components, ids, rects, now, ids.len() as int);
    if 0 <= k < ids.len() && v.components[i].0 == ids[k] {
        lemma_laid_out_one(v.components, ids, rects, now, ids.len() as int, k, i);
    }
    if !ids.contains(v.components[i].0) {
        lemma_laid_out_untouched(v.components, ids, rects, now, ids.len() as int, i);
    }
}

/// Laying the whole canvas out gives every component its own rectangle, in their order.
pub proof fn law_layout_places_everything(
    v: LedgerView,
    strategy: StrategyView,
    actor: ActorView,
    now: i64,
    slot: Rect,
    rects: Seq<Rect>,
    i: int,
)
    requires
        ledger_wf(v),
        v.components.len() <= rects.len(),
        0 <= i < v.components.len(),
    ensures
        ({
            let after = locally_applied(
                v,
                PatchView::Layout(LayoutTargetView::Canvas, strategy),
                actor,
                now,
                slot,
                rects,
            );
            &&& after.components.len() == v.components.len()
            &&& after.components[i].0 == v.components[i].0
            &&& after.components[i].1 == (ComponentView {
                rect: rects[i],
                updated_at_ms: now,
                ..v.components[i].1
            })
        }),
{
    let ids = Seq::new(v.components.len(), |j: int| v.components[j].0);
    assert(layout_scope(v.components, LayoutTargetView::Canvas) =~= ids);
    assert forall|a: int| 0 <= a < ids.len() implies named_on(
        v.components,
        #[trigger] ids[a],
    ) by {
        assert(v.components[a].0 == ids[a]);
    }
    assert forall|a: int, b: int| 0 <= a < b < ids.len() implies ids[a] != ids[b] by {
        assert(v.components[a].0 != v.components[b].0);
    }
    lemma_filter_keeps_all(ids, |id: Seq<char>| holds_key(v.components, id));
    lemma_laid_out_keys(v.components, ids, rects, now, ids.len() as int);
    lemma_laid_out_one(v.components, ids, rects, now, ids.len() as int, i, i);
}

/// Whether a component stands on the canvas.
pub open spec fn named_on(components: Components, id: Seq<char>) -> bool {
    exists|i: int| 0 <= i < components.len() && (#[trigger] components[i]).0 == id
}

proof fn lemma_filter_keeps_all<A>(s: Seq<A>, p: spec_fn(A) -> bool)
    requires
        forall|i: int| 0 <= i < s.len() ==> p(#[trigger] s[i]),
    ensures
        s.filter(p) == s,
    decreases s.len(),
{
    reveal(Seq::filter);
    if s.len() > 0 {
        let front = s.drop_last();
        assert forall|i: int| 0 <= i < front.len() implies p(#[trigger] front[i]) by {
            assert(front[i] == s[i]);
        }
        lemma_filter_keeps_all(front, p);
        assert(p(s[s.len() - 1]));
        assert(front.push(s.last()) =~= s);
    }
}

proof fn lemma_with_missing(have: Seq<Seq<char>>, add: Seq<Seq<char>>)
    ensures
        have.is_prefix_of(with_missing(have, add)),
        forall|k: int|
            0 <= k < add.len() ==> with_missing(have, add).contains(#[trigger] add[k]),
        forall|id: Seq<char>| #[trigger]
            with_missing(have, add).contains(id) ==> have.contains(id) || add.contains(id),
    decreases add.len(),
{
    if add.len() > 0 {
        let front = add.drop_last();
        lemma_with_missing(have, front);
        let before = with_missing(have, front);
        let all = with_missing(have, add);
        assert forall|k: int| 0 <= k < add.len() implies all.contains(#[trigger] add[k]) by {
            if k < front.len() {
                assert(before.contains(front[k]));
                let j = choose|j: int| 0 <= j < before.len() && before[j] == front[k];
                assert(all[j] == add[k]);
            } else if !before.contains(add.last()) {
                assert(all[before.len() as int] == add[k]);
            }
        }
        assert forall|id: Seq<char>| #[trigger] all.contains(id) implies have.contains(id)
            || add.contains(id) by {
            let j = choose|j: int| 0 <= j < all.len() && all[j] == id;
            if j < before.len() {
                assert(before[j] == id);
                assert(before.contains(id));
                if front.contains(id) {
                    let m = choose|m: int| 0 <= m < front.len() && front[m] == id;
                    assert(add[m] == id);
                }
            } else {
                assert(add[add.len() - 1] == id);
            }
        }
    }
}

/// Grouping puts every child into the frame, behind those that it has, and nothing else; the
/// frame stays what it is otherwise, and so do all other components.
pub proof fn law_group_gathers_children(
    v: LedgerView,
    frame: Seq<char>,
    children: Seq<Seq<char>>,
    actor: ActorView,
    now: i64,
    slot: Rect,
    rects: Seq<Rect>,
    i: int,
)
    requires
        ledger_wf(v),
        0 <= i < v.components.len(),
        v.components[i].0 == frame,
    ensures
        ({
            let after = locally_applied(
                v,
                PatchView::Group(frame, children),
                actor,
                now,
                slot,
                rects,
            );
            let (was, is) = (v.components[i].1, after.components[i].1);
            &&& after.components.len() == v.components.len()
            &&& after.components[i].0 == frame
            &&& was.children.is_prefix_of(is.children)
            &&& forall|k: int| 0 <= k < children.len() ==> is.children.contains(
                #[trigger] children[k],
            )
            &&& forall|id: Seq<char>| #[trigger]
                is.children.contains(id) ==> was.children.contains(id) || children.contains(id)
            &&& is.updated_at_ms == now
            &&& (ComponentView {
                children: was.children,
                updated_at_ms: was.updated_at_ms,
                ..is
            }) == was
            &&& forall|j: int|
                0 <= j < v.components.len() && j != i ==> #[trigger] after.components[j]
                    == v.components[j]
        }),
{
    lemma_place_unique(v.components, frame, i);
    lemma_with_missing(v.components[i].1.children, children);
}

/// A patch from elsewhere with a higher revision than the one that is here does what it does
/// where it was made; one with a lower revision changes nothing that is shown and is not
/// logged.
pub proof fn law_higher_revision_decides(
    v: LedgerView,
    env: EnvelopeView,
    id: Seq<char>,
    slot: Rect,
    rects: Seq<Rect>,
)
    requires
        ledger_wf(v),
        env.version is Some,
        contends_for(env.patch, id),
    ensures
        ({
            let after = remotely_applied(v, env, slot, rects);
            let here = locally_applied(
                v,
                env.patch,
                env.actor,
                env.created_at_ms,
                slot,
                rects,
            );
            let lands = !v.merge_state.contains_key(id) || v.merge_state[id].rev
                < env.version->0.rev;
            let stays = v.merge_state.contains_key(id) && (env.version->0.rev
                < v.merge_state[id].rev || env.version->0 == v.merge_state[id]);
            &&& lands ==> {
                &&& after.components == here.components
                &&& after.edges == here.edges
                &&& after.selected == here.selected
                &&& after.revision == here.revision
                &&& after.patch_log == v.patch_log.push(env)
                &&& after.merge_state.contains_pair(id, env.version->0)
            }
            &&& stays ==> {
                &&& after.components == v.components
                &&& after.edges == v.edges
                &&& after.selected == v.selected
                &&& after.selected_edges == v.selected_edges
                &&& after.viewport == v.viewport
                &&& after.revision == v.revision
                &&& after.patch_log == v.patch_log
                &&& after.merge_state == v.merge_state
            }
        }),
{
    if v.merge_state.contains_key(id) {
        law_version_irreflexive(v.merge_state[id]);
    }
}

/// Whether a patch is a write on one component.
pub open spec fn contends_for(patch: PatchView, id: Seq<char>) -> bool {
    match patch {
        PatchView::Upsert(p) => p.id == id,
        PatchView::Move(m, _, _) => m == id,
        PatchView::Resize(m, _, _) => m == id,
        PatchView::Delete(m) => m == id,
        _ => false,
    }
}

/// Patches on edges, on the selection, on the view and on many components at once are made
/// wherever they come from, whatever version they carry.
pub proof fn law_shared_patches_always_land(
    v: LedgerView,
    env: EnvelopeView,
    slot: Rect,
    rects: Seq<Rect>,
)
    requires
        v.revision < u64::MAX,
        !(env.patch is Upsert || env.patch is Move || env.patch is Resize || env.patch is Delete),
    ensures
        ({
            let after = remotely_applied(v, env, slot, rects);
            let here = locally_applied(v, env.patch, env.actor, env.created_at_ms, slot, rects);
            &&& after.components == here.components
            &&& after.edges == here.edges
            &&& after.selected == here.selected
            &&& after.selected_edges == here.selected_edges
            &&& after.viewport == here.viewport
            &&& after.revision == v.revision + 1
            &&& after.patch_log.len() == v.patch_log.len() + 1
            &&& after.merge_state == v.merge_state
            &&& after.clock == v.clock
        }),
{
}

/// A write made here carries a version past every one that this canvas has seen, and the
/// clock moves on to it.
pub proof fn law_own_write_is_the_newest(
    v: LedgerView,
    patch: PatchView,
    id: Seq<char>,
    actor: ActorView,
    now: i64,
    slot: Rect,
    rects: Seq<Rect>,
)
    requires
        ledger_wf(v),
        v.clock < u64::MAX,
        contends_for(patch, id),
    ensures
        ({
            let after = locally_applied(v, patch, actor, now, slot, rects);
            &&& after.merge_state.contains_key(id)
            &&& after.merge_state[id].rev == v.clock + 1
            &&& after.clock == v.clock + 1
            &&& forall|other: Seq<char>| #[trigger]
                v.merge_state.contains_key(other) ==> v.merge_state[other].rev
                    < after.merge_state[id].rev
            &&& after.patch_log.len() == v.patch_log.len() + 1
            &&& after.patch_log.last().patch == patch
            &&& after.patch_log.last().actor == actor
            &&& after.patch_log.last().created_at_ms == now
            &&& after.patch_log.last().canvas_id == v.canvas_id
            &&& after.patch_log.last().session_id == v.session_id
            &&& after.patch_log.last().version == Some(after.merge_state[id])
        }),
{
}

/// Of two writers at the same revision the one whose name stands later wins, the same on
/// every surface; a higher revision beats any name.
pub proof fn law_revision_comes_before_name(
    a: VersionView,
    b: VersionView,
)
    ensures
        a.rev < b.rev ==> version_less(a, b) && !version_less(b, a),
        a.rev == b.rev ==> version_less(a, b) == chars_less(a.actor, b.actor),
{
}

/// The short account tells of every component its id, its kind as it was given, its rectangle
/// and the title in its content, in the order of the canvas; of every edge its id and its
/// ends; and what is selected.
pub proof fn law_short_account_tells_everything_once(v: LedgerView, i: int)
    ensures
        ({
            let short = compact_of(v);
            &&& short.canvas_id == v.canvas_id
            &&& short.revision == v.revision
            &&& short.mode == v.mode
            &&& short.viewport == v.viewport
            &&& short.selection == v.selected
            &&& short.components.len() == v.components.len()
            &&& short.edges.len() == v.edges.len()
            &&& 0 <= i < v.components.len() ==> {
                &&& short.components[i].id == v.components[i].1.id
                &&& short.components[i].kind == v.components[i].1.template
                &&& short.components[i].rect == v.components[i].1.rect
                &&& short.components[i].title == (match v.components[i].1.content.get("title"@) {
                    Some(JsonView::Text(title)) => Some(title),
                    _ => None,
                })
            }
            &&& 0 <= i < v.edges.len() ==> {
                &&& short.edges[i].id == v.edges[i].1.id
                &&& short.edges[i].from == v.edges[i].1.from.component_id
                &&& short.edges[i].to == v.edges[i].1.to.component_id
            }
        }),
{
}

/// A new canvas belongs to its session and holds nothing.
pub proof fn law_new_canvas_is_empty(
    canvas_id: Seq<char>,
    session_id: Seq<char>,
    mode: CanvasMode,
)
    ensures
        ({
            let v = fresh_ledger(canvas_id, session_id, mode);
            &&& ledger_wf(v)
            &&& v.canvas_id == canvas_id
            &&& v.session_id == session_id
            &&& v.mode == mode
            &&& v.revision == 0
            &&& v.components.len() == 0
            &&& v.edges.len() == 0
            &&& v.selected.len() == 0
            &&& v.selected_edges.len() == 0
            &&& v.patch_log.len() == 0
            &&& v.clock == 0
            &&& v.viewport.x.0 == 0
            &&& v.viewport.y.0 == 0
            &&& v.viewport.zoom.0 == 0x3f80_0000
        }),
{
}

/// The kind of an edge is the one that it is asked for by: three names have a kind of their
/// own, and any other name is carried as it is.
pub proof fn law_edge_kind_carries_its_name(name: Seq<char>)
    ensures
        edge_kind_of(Some(name)) is Flow == (name == "flow"@),
        edge_kind_of(Some(name)) is Dependency == (name == "dependency"@),
        edge_kind_of(Some(name)) is Reference == (name == "reference"@),
        edge_kind_of(Some(name)) matches EdgeKindView::Other(carried) ==> carried == name,
        edge_kind_of(None) is Reference,
{
    reveal_strlit("flow");
    reveal_strlit("dependency");
    reveal_strlit("reference");
    assert("flow"@.len() != "dependency"@.len());
    assert("flow"@.len() != "reference"@.len());
    assert("dependency"@.len() != "reference"@.len());
}

proof fn lemma_ending_decides(front: Seq<char>, ending: Seq<char>)
    ensures
        ends_with_chars(front + ending, ending),
{
    let s = front + ending;
    assert(s.skip(s.len() - ending.len()) =~= ending);
}

/// A name that says what a component is by its ending gives that kind, whatever stands before
/// the ending.
pub proof fn law_kind_goes_by_the_ending(front: Seq<char>)
    ensures
        kind_of(front + "_card"@) is Card,
        kind_of(front + "_node"@) is Node,
        kind_of(front + "_column"@) is Lane,
        kind_of(front + "_lane"@) is Lane,
        kind_of(front + "_frame"@) is Frame,
{
    reveal_strlit("card");
    reveal_strlit("text_block");
    reveal_strlit("textblock");
    reveal_strlit("frame");
    reveal_strlit("node");
    reveal_strlit("port");
    reveal_strlit("edge_label");
    reveal_strlit("edgelabel");
    reveal_strlit("lane");
    reveal_strlit("table");
    reveal_strlit("media_slot");
    reveal_strlit("mediaslot");
    reveal_strlit("stat");
    reveal_strlit("_card");
    reveal_strlit("_node");
    reveal_strlit("_column");
    reveal_strlit("_lane");
    reveal_strlit("_frame");
    lemma_ending_decides(front, "_card"@);
    lemma_ending_decides(front, "_node"@);
    lemma_ending_decides(front, "_column"@);
    lemma_ending_decides(front, "_lane"@);
    lemma_ending_decides(front, "_frame"@);
    lemma_other_ending(front, "_card"@, "_node"@, 1);
    lemma_other_ending(front, "_node"@, "_card"@, 1);
    lemma_other_ending(front, "_column"@, "_card"@, 1);
    lemma_other_ending(front, "_column"@, "_node"@, 1);
    lemma_other_ending(front, "_lane"@, "_card"@, 1);
    lemma_other_ending(front, "_lane"@, "_node"@, 2);
    lemma_other_ending(front, "_frame"@, "_card"@, 1);
    lemma_other_ending(front, "_frame"@, "_node"@, 2);
    lemma_other_ending(front, "_frame"@, "_column"@, 1);
    lemma_other_ending(front, "_frame"@, "_lane"@, 2);
}

/// A text with an ending has no other ending that differs from it in a character, counted
/// from the end, and is no text that does.
proof fn lemma_other_ending(front: Seq<char>, ending: Seq<char>, other: Seq<char>, k: int)
    requires
        0 < k <= ending.len(),
        k <= other.len(),
        ending[ending.len() - k] != other[other.len() - k],
    ensures
        !ends_with_chars(front + ending, other),
        ({
            let s = front + ending;
            &&& s.len() == front.len() + ending.len()
            &&& s[s.len() - 1] == ending[ending.len() - 1]
            &&& ending.len() >= 2 ==> s[s.len() - 2] == ending[ending.len() - 2]
            &&& ending.len() >= 3 ==> s[s.len() - 3] == ending[ending.len() - 3]
            &&& ending.len() >= 4 ==> s[s.len() - 4] == ending[ending.len() - 4]
            &&& ending.len() >= 5 ==> s[s.len() - 5] == ending[ending.len() - 5]
        }),
{
    let s = front + ending;
    if ends_with_chars(s, other) {
        assert(s.skip(s.len() - other.len())[other.len() - k] == s[s.len() - k]);
    }
}

/// The clock moves up to the version of every write on a component that comes in, whether it
/// is made or comes too late, and never goes back.
pub proof fn law_clock_sees_every_write(
    v: LedgerView,
    env: EnvelopeView,
    slot: Rect,
    rects: Seq<Rect>,
)
    requires
        env.patch is Upsert || env.patch is Move || env.patch is Resize || env.patch is Delete,
        env.version is Some,
    ensures
        ({
            let after = remotely_applied(v, env, slot, rects);
            &&& after.clock >= v.clock
            &&& after.clock >= env.version->0.rev
            &&& after.clock == v.clock || after.clock == env.version->0.rev
        }),
{
}

} // verus!

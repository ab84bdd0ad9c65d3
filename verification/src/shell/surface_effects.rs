//! What the operations of the surface do to its panes and canvases.

use vstd::prelude::*;

use crate::shell::surface::{LedgerComponent, PaneDock, SurfaceIpcEvent, SurfaceMode};

verus! {

use crate::ordered_map::{lemma_filter_from, lemma_filter_to};
use crate::shell::surface::{
    after_ipc, attached_at, canvas_context, components_by_id, empty_canvas, is_attached,
    next_canvas_id, pane_at, pane_context, surface_context, with_canvas,
    with_component, with_pane_docked, with_pane_opened, PaneView, SurfaceComponentView,
    SurfaceLedgerView, SurfaceView,
};
use crate::sorted_map::{
    has_key, keys_ascend, law_other_keys_stay, law_put_then_get, lemma_with_value_ascends, slot_of,
    value_under,
};
use crate::text::{blank, decimal, texts};

/// The pane that is opened comes behind all others, attached at the right, under its title or
/// as a canvas where it has none; its new canvas is empty and of the mode asked for. All panes
/// and canvases before stay.
pub proof fn law_opened_pane_shows_an_empty_canvas(
    v: SurfaceView,
    title: Seq<char>,
    mode: SurfaceMode,
    other: Seq<char>,
)
    requires
        keys_ascend(v.canvases),
        v.next_pane_ordinal < u32::MAX,
        v.next_canvas_ordinal < u32::MAX,
        other != next_canvas_id(v),
    ensures
        ({
            let after = with_pane_opened(v, title, mode);
            let pane = after.panes.last();
            &&& after.panes.drop_last() == v.panes
            &&& after.active_pane_id == pane.pane_id
            &&& pane.pane_id == "pane:"@ + decimal(v.next_pane_ordinal as nat)
            &&& !blank(title) ==> pane.title == title
            &&& blank(title) ==> pane.title == "Canvas"@
            &&& pane.attached
            &&& pane.dock is Right
            &&& pane.kind is TldrawCanvas
            &&& pane.canvas_id == Some("canvas:"@ + decimal(v.next_canvas_ordinal as nat))
            &&& value_under(after.canvases, next_canvas_id(v)) matches Some(canvas)
                && canvas.components.len() == 0 && canvas.mode == mode && canvas.revision == 0
                && canvas.selection.len() == 0 && canvas.canvas_id == next_canvas_id(v)
                && pane.tldraw_room_id == Some(canvas.tldraw_room_id)
            &&& value_under(after.canvases, other) == value_under(v.canvases, other)
            &&& after.next_pane_ordinal == v.next_pane_ordinal + 1
            &&& after.next_canvas_ordinal == v.next_canvas_ordinal + 1
            &&& after.session_id == v.session_id
        }),
{
    let after = with_pane_opened(v, title, mode);
    assert(after.panes.drop_last() =~= v.panes);
    let room_id = "ocean-surface-"@ + decimal(v.next_canvas_ordinal as nat);
    let canvas = empty_canvas(next_canvas_id(v), room_id, mode);
    law_put_then_get(v.canvases, next_canvas_id(v), canvas);
    law_other_keys_stay(v.canvases, next_canvas_id(v), canvas, other);
}

/// A pane that is found has the id, and no pane before it does; an attached pane that is found
/// is attached too. Where none is found, none is there.
pub proof fn law_found_pane_is_the_first(panes: Seq<PaneView>, id: Seq<char>, from: int)
    requires
        0 <= from,
    ensures
        match pane_at(panes, id, from) {
            Some(i) => from <= i < panes.len() && panes[i].pane_id == id && forall|k: int|
                from <= k < i ==> (#[trigger] panes[k]).pane_id != id,
            None => forall|k: int|
                from <= k < panes.len() ==> (#[trigger] panes[k]).pane_id != id,
        },
        match attached_at(panes, id, from) {
            Some(i) => from <= i < panes.len() && panes[i].pane_id == id && panes[i].attached
                && forall|k: int|
                from <= k < i ==> !((#[trigger] panes[k]).pane_id == id && panes[k].attached),
            None => forall|k: int|
                from <= k < panes.len() ==> !((#[trigger] panes[k]).pane_id == id
                    && panes[k].attached),
        },
    decreases panes.len() - from,
{
    if from < panes.len() {
        law_found_pane_is_the_first(panes, id, from + 1);
    }
}

/// Attaching or detaching a pane changes whether it is attached and where it stands, of that
/// pane alone.
pub proof fn law_docking_changes_one_pane(
    panes: Seq<PaneView>,
    id: Seq<char>,
    attached: bool,
    dock: PaneDock,
    i: int,
)
    requires
        0 <= i < panes.len(),
    ensures
        ({
            let after = with_pane_docked(panes, id, attached, dock);
            &&& after.len() == panes.len()
            &&& pane_at(panes, id, 0) == Some(i) ==> after[i].attached == attached && after[i].dock
                == dock
            &&& pane_at(panes, id, 0) != Some(i) ==> after[i] == panes[i]
            &&& after[i].pane_id == panes[i].pane_id
            &&& after[i].title == panes[i].title
            &&& after[i].kind == panes[i].kind
            &&& after[i].canvas_id == panes[i].canvas_id
            &&& after[i].tldraw_room_id == panes[i].tldraw_room_id
        }),
{
    law_found_pane_is_the_first(panes, id, 0);
}

/// A component that is put on a canvas is on it as it came, one revision further; every other
/// component stays.
pub proof fn law_put_component_is_on_the_canvas(
    canvas: SurfaceLedgerView,
    component: SurfaceComponentView,
    other: Seq<char>,
)
    requires
        keys_ascend(canvas.components),
        canvas.revision < u64::MAX,
        other != component.id,
    ensures
        ({
            let after = with_component(canvas, component);
            &&& value_under(after.components, component.id) == Some(component)
            &&& value_under(after.components, other) == value_under(canvas.components, other)
            &&& after.revision == canvas.revision + 1
            &&& after.selection == canvas.selection
            &&& after.canvas_id == canvas.canvas_id
            &&& after.mode == canvas.mode
        }),
{
    law_put_then_get(canvas.components, component.id, component);
    law_other_keys_stay(canvas.components, component.id, component, other);
}

/// A pane whose canvas is ready shows that canvas and its room, and the canvas is there; all
/// other panes and canvases stay. News of a pane that is not there counts for nothing.
pub proof fn law_ready_canvas_is_shown(
    v: SurfaceView,
    pane_id: String,
    canvas_id: String,
    tldraw_room_id: String,
    i: int,
    other: Seq<char>,
)
    requires
        keys_ascend(v.canvases),
        other != canvas_id@,
    ensures
        ({
            let (after, counted) = after_ipc(
                v,
                (SurfaceIpcEvent::CanvasReady { pane_id, canvas_id, tldraw_room_id }),
            );
            &&& counted <==> exists|k: int|
                0 <= k < v.panes.len() && (#[trigger] v.panes[k]).pane_id == pane_id@
            &&& !counted ==> after == v
            &&& counted ==> after.panes.len() == v.panes.len()
            &&& pane_at(v.panes, pane_id@, 0) == Some(i) ==> after.panes[i].canvas_id == Some(
                canvas_id@,
            ) && after.panes[i].tldraw_room_id == Some(tldraw_room_id@) && after.panes[i].pane_id
                == v.panes[i].pane_id && after.panes[i].attached == v.panes[i].attached
            &&& 0 <= i < v.panes.len() && pane_at(v.panes, pane_id@, 0) != Some(i)
                ==> after.panes[i] == v.panes[i]
            &&& counted ==> (value_under(after.canvases, canvas_id@) matches Some(canvas)
                && canvas.tldraw_room_id == tldraw_room_id@ && (value_under(
                v.canvases,
                canvas_id@,
            ) matches Some(before) ==> canvas == (SurfaceLedgerView {
                tldraw_room_id: tldraw_room_id@,
                ..before
            })))
            &&& value_under(after.canvases, other) == value_under(v.canvases, other)
            &&& after.active_pane_id == v.active_pane_id
        }),
{
    law_found_pane_is_the_first(v.panes, pane_id@, 0);
    if let Some(p) = pane_at(v.panes, pane_id@, 0) {
        assert(v.panes[p].pane_id == pane_id@);
        lemma_canvas_changed(v.canvases, canvas_id@, tldraw_room_id@, other);
        let canvases = with_canvas(v.canvases, canvas_id@, tldraw_room_id@);
        let canvas = SurfaceLedgerView {
            tldraw_room_id: tldraw_room_id@,
            ..canvases[slot_of(canvases, canvas_id@)].1
        };
        law_put_then_get(canvases, canvas_id@, canvas);
        law_other_keys_stay(canvases, canvas_id@, canvas, other);
    }
}

proof fn lemma_canvas_changed(
    canvases: Seq<(Seq<char>, SurfaceLedgerView)>,
    id: Seq<char>,
    room: Seq<char>,
    other: Seq<char>,
)
    requires
        keys_ascend(canvases),
        other != id,
    ensures
        ({
            let with = with_canvas(canvases, id, room);
            &&& keys_ascend(with)
            &&& has_key(with, id)
            &&& with[slot_of(with, id)].1 == (match value_under(canvases, id) {
                Some(canvas) => canvas,
                None => empty_canvas(id, room, SurfaceMode::General),
            })
            &&& value_under(with, other) == value_under(canvases, other)
        }),
{
    let canvas = empty_canvas(id, room, SurfaceMode::General);
    lemma_with_value_ascends(canvases, id, canvas);
    law_put_then_get(canvases, id, canvas);
    law_other_keys_stay(canvases, id, canvas, other);
}

/// A snapshot of a canvas puts its components in the place of those that were there, at its
/// own revision; a selection is taken as it comes, one revision further. No other canvas and
/// no pane changes.
pub proof fn law_canvas_takes_what_comes_in(
    v: SurfaceView,
    canvas_id: String,
    revision: u64,
    components: Vec<LedgerComponent>,
    selected_ids: Vec<String>,
    other: Seq<char>,
)
    requires
        keys_ascend(v.canvases),
        other != canvas_id@,
        value_under(v.canvases, canvas_id@) matches Some(canvas) ==> canvas.revision < u64::MAX,
    ensures
        ({
            let (snapped, first) = after_ipc(
                v,
                (SurfaceIpcEvent::LedgerSnapshot { canvas_id, revision, components }),
            );
            let (chosen, second) = after_ipc(
                v,
                (SurfaceIpcEvent::SelectionChanged { canvas_id, selected_ids }),
            );
            &&& first
            &&& second
            &&& snapped.panes == v.panes
            &&& chosen.panes == v.panes
            &&& value_under(snapped.canvases, canvas_id@) matches Some(canvas) && canvas.revision
                == revision && canvas.components == components_by_id(components@) && (value_under(
                v.canvases,
                canvas_id@,
            ) matches Some(before) ==> canvas.selection == before.selection && canvas.mode
                == before.mode)
            &&& value_under(chosen.canvases, canvas_id@) matches Some(canvas) && canvas.selection
                == texts(selected_ids@) && (value_under(v.canvases, canvas_id@) matches Some(before)
                ==> canvas.revision == before.revision + 1 && canvas.components
                == before.components)
            &&& value_under(snapped.canvases, other) == value_under(v.canvases, other)
            &&& value_under(chosen.canvases, other) == value_under(v.canvases, other)
        }),
{
    lemma_canvas_changed(v.canvases, canvas_id@, canvas_id@, other);
    let canvases = with_canvas(v.canvases, canvas_id@, canvas_id@);
    let canvas = canvases[slot_of(canvases, canvas_id@)].1;
    let snapped = SurfaceLedgerView {
        revision,
        components: components_by_id(components@),
        ..canvas
    };
    let chosen = SurfaceLedgerView {
        selection: texts(selected_ids@),
        revision: (canvas.revision + 1) as u64,
        ..canvas
    };
    law_put_then_get(canvases, canvas_id@, snapped);
    law_put_then_get(canvases, canvas_id@, chosen);
    law_other_keys_stay(canvases, canvas_id@, snapped, other);
    law_other_keys_stay(canvases, canvas_id@, chosen, other);
}

/// Of the components that come in with the same id the last counts, and each that comes in is
/// there.
pub proof fn law_last_component_of_an_id_counts(list: Seq<LedgerComponent>, i: int)
    requires
        0 <= i < list.len(),
    ensures
        keys_ascend(components_by_id(list)),
        (forall|k: int| i < k < list.len() ==> (#[trigger] list[k]).id@ != list[i].id@)
            ==> value_under(components_by_id(list), list[i].id@) == Some(list[i]@),
    decreases list.len(),
{
    let front = list.drop_last();
    let last = list.last();
    lemma_by_id_ascends(front);
    lemma_by_id_ascends(list);
    let before = components_by_id(front);
    if i == list.len() - 1 {
        law_put_then_get(before, last.id@, last@);
    } else if forall|k: int| i < k < list.len() ==> (#[trigger] list[k]).id@ != list[i].id@ {
        assert(list[list.len() - 1].id@ != list[i].id@);
        assert forall|k: int| i < k < front.len() implies (#[trigger] front[k]).id@
            != front[i].id@ by {
            assert(front[k] == list[k]);
        }
        law_last_component_of_an_id_counts(front, i);
        law_other_keys_stay(before, last.id@, last@, list[i].id@);
    }
}

proof fn lemma_by_id_ascends(list: Seq<LedgerComponent>)
    ensures
        keys_ascend(components_by_id(list)),
    decreases list.len(),
{
    if list.len() > 0 {
        lemma_by_id_ascends(list.drop_last());
        lemma_with_value_ascends(
            components_by_id(list.drop_last()),
            list.last().id@,
            list.last()@,
        );
    }
}

/// An error of a canvas changes nothing and counts for nothing.
pub proof fn law_canvas_error_changes_nothing(v: SurfaceView, event: SurfaceIpcEvent)
    requires
        event is CanvasError,
    ensures
        after_ipc(v, event) == (v, false),
{
}

/// An agent is told of every attached pane and of no other, and of every canvas with all its
/// components, in order.
pub proof fn law_agent_is_told_of_what_is_shown(v: SurfaceView, i: int, k: int)
    ensures
        ({
            let told = surface_context(v);
            &&& told.session_id == v.session_id
            &&& told.active_pane_id == v.active_pane_id
            &&& 0 <= i < v.panes.len() && v.panes[i].attached ==> exists|a: int|
                0 <= a < told.panes.len() && (#[trigger] told.panes[a]).pane_id == v.panes[i].pane_id
                    && told.panes[a].title == v.panes[i].title && told.panes[a].canvas_id
                    == v.panes[i].canvas_id && told.panes[a].dock == v.panes[i].dock
                    && told.panes[a].kind == v.panes[i].kind
            &&& 0 <= k < told.panes.len() ==> exists|a: int|
                0 <= a < v.panes.len() && (#[trigger] v.panes[a]).attached && v.panes[a].pane_id
                    == told.panes[k].pane_id
            &&& told.canvases.len() == v.canvases.len()
            &&& 0 <= i < v.canvases.len() ==> {
                let canvas = v.canvases[i].1;
                &&& told.canvases[i].canvas_id == canvas.canvas_id
                &&& told.canvases[i].revision == canvas.revision
                &&& told.canvases[i].mode == canvas.mode
                &&& told.canvases[i].selection == canvas.selection
                &&& told.canvases[i].components.len() == canvas.components.len()
                &&& 0 <= k < canvas.components.len() ==> told.canvases[i].components[k]
                    == canvas.components[k].1
            }
        }),
{
    let told = surface_context(v);
    let shown = v.panes.filter(is_attached());
    if 0 <= i < v.panes.len() && v.panes[i].attached {
        lemma_filter_to(v.panes, is_attached(), i);
        let a = choose|a: int| 0 <= a < shown.len() && shown[a] == v.panes[i];
        assert(told.panes[a] == pane_context(v.panes[i]));
    }
    if 0 <= k < told.panes.len() {
        lemma_filter_from(v.panes, is_attached(), k);
        assert(told.panes[k] == pane_context(shown[k]));
        assert(v.panes.contains(shown[k]));
        let a = choose|a: int| 0 <= a < v.panes.len() && v.panes[a] == shown[k];
        assert(v.panes[a].attached);
    }
    if 0 <= i < v.canvases.len() {
        assert(told.canvases[i] == canvas_context(v.canvases[i].1));
    }
}

} // verus!

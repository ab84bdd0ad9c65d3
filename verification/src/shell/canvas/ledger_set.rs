//! All canvases of a session by id, with the one that is shown.

use vstd::prelude::*;

use crate::ordered_map::OrderedMap;
use crate::shell::canvas::ledger::CanvasLedger;
use crate::shell::canvas::patch::CanvasId;

verus! {

broadcast use vstd::string::group_string_axioms;

use crate::ordered_map::{
    holds_key, lemma_filter_from, lemma_filter_step, lemma_filter_to, lemma_place_of_key,
    lemma_same_keys, place_of_key, value_of, with_entry,
};

/// The canvases of a session, each in its place since it was first seen, and the
/// one that is shown. A canvas can be taken out to be worked on; its place is kept
/// until it comes back.
pub struct CanvasLedgerSet {
    slots: OrderedMap<Option<CanvasLedger>>,
    active: Option<CanvasId>,
}

/// A place for each canvas ever seen, empty while the canvas is taken out.
pub type Slots = Seq<(Seq<char>, Option<CanvasLedger>)>;

/// Whether a place is filled.
pub open spec fn filled() -> spec_fn((Seq<char>, Option<CanvasLedger>)) -> bool {
    |s: (Seq<char>, Option<CanvasLedger>)| s.1 is Some
}

/// The canvases that are there, in order.
pub open spec fn present(slots: Slots) -> Slots {
    slots.filter(filled())
}

/// The canvas with an id, where it is there.
pub open spec fn canvas_of(slots: Slots, id: Seq<char>) -> Option<CanvasLedger> {
    match value_of(slots, id) {
        Some(slot) => slot,
        None => None,
    }
}

impl CanvasLedgerSet {
    /// The places in order.
    pub closed spec fn slots(self) -> Slots {
        self.slots.entries()
    }

    /// The canvas that is shown.
    pub closed spec fn shown(self) -> Option<Seq<char>> {
        match self.active {
            Some(id) => Some(id@),
            None => None,
        }
    }

    /// Every canvas stands under its own id, and the one that is shown has a place.
    pub closed spec fn wf(self) -> bool {
        &&& self.slots.wf()
        &&& forall|i: int|
            0 <= i < self.slots().len() ==> ((#[trigger] self.slots()[i]).1 matches Some(l)
                ==> l.canvas_id@ == self.slots()[i].0)
        &&& self.shown() matches Some(id) ==> holds_key(self.slots(), id)
    }

    /// What well-formedness says.
    pub proof fn lemma_wf(self)
        requires
            self.wf(),
        ensures
            forall|i: int|
                0 <= i < self.slots().len() ==> ((#[trigger] self.slots()[i]).1 matches Some(l)
                    ==> l.canvas_id@ == self.slots()[i].0),
            self.shown() matches Some(id) ==> holds_key(self.slots(), id),
    {
    }

    /// No canvas.
    pub fn new() -> (set: Self)
        ensures
            set.wf(),
            set.slots().len() == 0,
            set.shown() is None,
    {
        CanvasLedgerSet { slots: OrderedMap::new(), active: None }
    }

    /// Whether no canvas is there.
    pub fn is_empty(&self) -> (r: bool)
        requires
            self.wf(),
        ensures
            r == (present(self.slots()).len() == 0),
    {
        self.len() == 0
    }

    /// How many canvases are there.
    pub fn len(&self) -> (n: usize)
        requires
            self.wf(),
        ensures
            n == present(self.slots()).len(),
    {
        self.canvas_ids().len()
    }

    /// The ids of the canvases that are there, in the order they were first seen.
    pub fn canvas_ids(&self) -> (ids: Vec<CanvasId>)
        requires
            self.wf(),
        ensures
            ids@.len() == present(self.slots()).len(),
            forall|i: int| 0 <= i < ids@.len() ==> (#[trigger] ids@[i])@ == present(self.slots())[i].0,
    {
        let ghost all = self.slots();
        let mut ids: Vec<CanvasId> = Vec::new();
        let mut i: usize = 0;
        assert(all.take(0).filter(filled()) =~= Seq::empty()) by {
            reveal(Seq::filter);
        }
        while i < self.slots.len()
            invariant
                self.slots.wf(),
                all == self.slots.entries(),
                i <= all.len(),
                ids@.len() == all.take(i as int).filter(filled()).len(),
                forall|k: int|
                    0 <= k < ids@.len() ==> (#[trigger] ids@[k])@ == all.take(i as int).filter(
                        filled(),
                    )[k].0,
            decreases all.len() - i,
        {
            proof {
                lemma_filter_step(all, i as int, filled());
            }
            if self.slots.value_at(i).is_some() {
                ids.push(CanvasId::new(self.slots.key_at(i)));
            }
            i = i + 1;
        }
        assert(all.take(all.len() as int) =~= all);
        ids
    }

    /// The id of the canvas that is shown.
    pub fn active_id(&self) -> (r: Option<&CanvasId>)
        ensures
            match self.shown() {
                Some(id) => r matches Some(c) && c@ == id,
                None => r is None,
            },
    {
        self.active.as_ref()
    }

    /// The canvas that is shown.
    pub fn active(&self) -> (r: Option<&CanvasLedger>)
        requires
            self.wf(),
        ensures
            match self.shown() {
                Some(id) => match canvas_of(self.slots(), id) {
                    Some(l) => r == Some(&l),
                    None => r is None,
                },
                None => r is None,
            },
    {
        match &self.active {
            Some(id) => self.get(id),
            None => None,
        }
    }

    /// The canvas with an id.
    pub fn get(&self, canvas_id: &CanvasId) -> (r: Option<&CanvasLedger>)
        requires
            self.wf(),
        ensures
            match canvas_of(self.slots(), canvas_id@) {
                Some(l) => r == Some(&l),
                None => r is None,
            },
    {
        match self.slots.get(canvas_id.as_str()) {
            Some(slot) => slot.as_ref(),
            None => None,
        }
    }

    /// Takes a canvas out to be worked on. The other canvases and the order stay.
    pub fn take(&mut self, canvas_id: &CanvasId) -> (r: Option<CanvasLedger>)
        requires
            old(self).wf(),
        ensures
            final(self).wf(),
            r == canvas_of(old(self).slots(), canvas_id@),
            final(self).shown() == old(self).shown(),
            final(self).slots() == if holds_key(old(self).slots(), canvas_id@) {
                with_entry(old(self).slots(), canvas_id@, None)
            } else {
                old(self).slots()
            },
    {
        let ghost before = self.slots();
        proof {
            lemma_place_of_key(before, canvas_id@);
        }
        match self.slots.position(canvas_id.as_str()) {
            Some(i) => {
                let slot = self.slots.value_at_mut(i);
                let taken = slot.take();
                proof {
                    assert(self.slots() =~= with_entry(before, canvas_id@, None));
                    self.lemma_keys_kept(before);
                }
                taken
            },
            None => None,
        }
    }

    /// Puts a canvas in, in its old place or behind all others. The first one is the
    /// one that is shown.
    pub fn put(&mut self, ledger: CanvasLedger)
        requires
            old(self).wf(),
        ensures
            final(self).wf(),
            final(self).slots() == with_entry(
                old(self).slots(),
                ledger.canvas_id@,
                Some(ledger),
            ),
            final(self).shown() == match old(self).shown() {
                Some(id) => Some(id),
                None => Some(ledger.canvas_id@),
            },
    {
        let ghost before = self.slots();
        let id = ledger.canvas_id.clone();
        let key = ledger.canvas_id.as_str().to_owned();
        proof {
            lemma_place_of_key(before, id@);
        }
        self.slots.insert(key, Some(ledger));
        proof {
            let after = self.slots();
            let n = before.len();
            if !holds_key(before, id@) {
                assert(after[n as int].0 == id@);
            } else {
                assert(after[place_of_key(before, id@)].0 == id@);
            }
            assert(holds_key(after, id@));
            if let Some(a) = self.shown() {
                let k = choose|k: int| 0 <= k < before.len() && (#[trigger] before[k]).0 == a;
                assert(after[k].0 == a);
                assert(holds_key(after, a));
            }
            assert forall|i: int| 0 <= i < after.len() implies ((#[trigger] after[i]).1 matches Some(
                l,
            ) ==> l.canvas_id@ == after[i].0) by {
                if i < n {
                    assert(before[i].1 matches Some(l) ==> l.canvas_id@ == before[i].0);
                }
            }
        }
        if self.active.is_none() {
            self.active = Some(id);
        }
    }

    proof fn lemma_keys_kept(self, before: Slots)
        requires
            self.slots.wf(),
            self.slots().len() == before.len(),
            forall|i: int|
                0 <= i < before.len() ==> (#[trigger] self.slots()[i]).0 == before[i].0 && (
                self.slots()[i].1 is None || self.slots()[i] == before[i]),
            forall|i: int|
                0 <= i < before.len() ==> ((#[trigger] before[i]).1 matches Some(l)
                    ==> l.canvas_id@ == before[i].0),
            self.shown() matches Some(id) ==> holds_key(before, id),
        ensures
            self.wf(),
    {
        if let Some(a) = self.shown() {
            let k = choose|k: int| 0 <= k < before.len() && (#[trigger] before[k]).0 == a;
            assert(self.slots()[k].0 == a);
        }
    }

    /// Shows a canvas that is there; changes nothing where it is not.
    pub fn set_active(&mut self, canvas_id: &CanvasId)
        requires
            old(self).wf(),
        ensures
            final(self).wf(),
            final(self).slots() == old(self).slots(),
            final(self).shown() == if canvas_of(old(self).slots(), canvas_id@) is Some {
                Some(canvas_id@)
            } else {
                old(self).shown()
            },
    {
        if self.get(canvas_id).is_some() {
            self.active = Some(canvas_id.clone());
        }
    }
}

/// Taking a canvas out and putting it back leaves every canvas in its place.
pub proof fn law_take_then_put_keeps_order(slots: Slots, ledger: CanvasLedger)
    requires
        holds_key(slots, ledger.canvas_id@),
    ensures
        ({
            let id = ledger.canvas_id@;
            let out = with_entry(slots, id, None);
            let back = with_entry(out, id, Some(ledger));
            &&& back.len() == slots.len()
            &&& forall|i: int| 0 <= i < slots.len() ==> (#[trigger] back[i]).0 == slots[i].0
            &&& forall|i: int|
                0 <= i < slots.len() && i != place_of_key(slots, id) ==> #[trigger] back[i]
                    == slots[i]
            &&& canvas_of(back, id) == Some(ledger)
        }),
{
    let id = ledger.canvas_id@;
    lemma_place_of_key(slots, id);
    let out = with_entry(slots, id, None::<CanvasLedger>);
    let p = place_of_key(slots, id);
    lemma_same_keys(slots, out, id);
    lemma_place_of_key(out, id);
    let back = with_entry(out, id, Some(ledger));
    lemma_same_keys(slots, back, id);
}

proof fn lemma_pushed_behind(slots: Slots, last: (Seq<char>, Option<CanvasLedger>), id: Seq<char>)
    requires
        last.0 != id,
    ensures
        holds_key(slots.push(last), id) == holds_key(slots, id),
        holds_key(slots, id) ==> place_of_key(slots.push(last), id) == place_of_key(slots, id),
    decreases slots.len(),
{
    let more = slots.push(last);
    if holds_key(slots, id) {
        let i = choose|i: int| 0 <= i < slots.len() && (#[trigger] slots[i]).0 == id;
        assert(more[i].0 == id);
    }
    if holds_key(more, id) {
        let i = choose|i: int| 0 <= i < more.len() && (#[trigger] more[i]).0 == id;
        assert(slots[i].0 == id);
    }
    if slots.len() > 0 {
        let rest = slots.drop_first();
        assert(more.drop_first() =~= rest.push(last));
        lemma_pushed_behind(rest, last, id);
        if holds_key(slots, id) && slots[0].0 != id {
            let i = choose|i: int| 0 <= i < slots.len() && (#[trigger] slots[i]).0 == id;
            assert(rest[i - 1].0 == id);
        }
    }
}

/// No canvas is lost to another: putting one in or taking one out leaves every other as it
/// is.
pub proof fn law_other_canvases_stay(
    slots: Slots,
    id: Seq<char>,
    slot: Option<CanvasLedger>,
    other: Seq<char>,
)
    requires
        other != id,
    ensures
        canvas_of(with_entry(slots, id, slot), other) == canvas_of(slots, other),
{
    let after = with_entry(slots, id, slot);
    lemma_place_of_key(slots, id);
    lemma_place_of_key(slots, other);
    if holds_key(slots, id) {
        lemma_same_keys(slots, after, other);
    } else {
        lemma_pushed_behind(slots, (id, slot), other);
    }
}

/// The canvases that are there are those whose places are filled, in the order of the places.
pub proof fn law_filled_places_are_there(slots: Slots, i: int, k: int)
    ensures
        0 <= i < slots.len() && slots[i].1 is Some ==> present(slots).contains(slots[i]),
        0 <= k < present(slots).len() ==> present(slots)[k].1 is Some && slots.contains(
            present(slots)[k],
        ),
{
    if 0 <= i < slots.len() && slots[i].1 is Some {
        lemma_filter_to(slots, filled(), i);
    }
    if 0 <= k < present(slots).len() {
        lemma_filter_from(slots, filled(), k);
    }
}

/// A canvas that is put in is found under its id; one that is taken out is not.
pub proof fn law_put_canvas_is_found(slots: Slots, ledger: CanvasLedger)
    ensures
        canvas_of(with_entry(slots, ledger.canvas_id@, Some(ledger)), ledger.canvas_id@) == Some(
            ledger,
        ),
        canvas_of(with_entry(slots, ledger.canvas_id@, None), ledger.canvas_id@) is None,
{
    let id = ledger.canvas_id@;
    lemma_place_of_key(slots, id);
    let with = with_entry(slots, id, Some(ledger));
    let without = with_entry(slots, id, None::<CanvasLedger>);
    if holds_key(slots, id) {
        lemma_same_keys(slots, with, id);
        lemma_same_keys(slots, without, id);
        assert(with[place_of_key(slots, id)].0 == id);
    } else {
        let n = slots.len() as int;
        assert(with[n].0 == id);
        assert(without[n].0 == id);
        lemma_place_of_key(with, id);
        lemma_place_of_key(without, id);
        let p = place_of_key(with, id);
        let q = place_of_key(without, id);
        if p < n {
            assert(slots[p].0 == id);
        }
        if q < n {
            assert(slots[q].0 == id);
        }
    }
}

} // verus!

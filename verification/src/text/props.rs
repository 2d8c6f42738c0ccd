//! Text properties and overlays.
//!
//! A **text property** is a buffer-resident annotation covering a range; an
//! **overlay** is the same shape but addressed by a stable handle
//! ([`OverlayId`]) so it can be mutated or removed individually. The entry
//! type `E` is whatever range-plus-style record the editor stores.

use vstd::prelude::*;

use crate::text::buffer::FilePos;

verus! {

/// Opaque handle for an overlay, stable for the lifetime of the buffer.
#[derive(Clone, Copy, Debug, PartialEq, Eq, Hash, Structural)]
pub struct OverlayId(pub u64);

/// An absolute half-open range `[start, end)` with a property bag, the
/// entry kept for text properties and overlays alike.
#[derive(Debug, Clone)]
pub struct PropEntry {
    pub start: FilePos,
    pub end: FilePos,
    /// Name of the face to style the range with, resolved through the theme
    /// when rendering.
    pub face: Option<String>,
    /// Overlays only: among overlapping overlays, the higher wins.
    pub priority: i64,
    /// Whether the highlight pads to the area's full width on each row.
    pub pad_to_width: bool,
}

/// Position of the overlay with id `id` in `s`, if any.
pub open spec fn overlay_index<E>(s: Seq<(OverlayId, E)>, id: OverlayId) -> Option<int> {
    if exists|i: int| 0 <= i < s.len() && s[i].0 == id {
        Some(choose|i: int| 0 <= i < s.len() && s[i].0 == id)
    } else {
        None
    }
}

/// Per-buffer property/overlay storage.
#[derive(Debug)]
pub struct PropStore<E> {
    /// Anonymous range annotations, in insertion order.
    text_properties: Vec<E>,
    /// Named overlays keyed by `OverlayId`, in creation order.
    overlays: Vec<(OverlayId, E)>,
    next_id: u64,
}

impl<E> PropStore<E> {
    /// Every overlay id was handed out by this store (it is below the next
    /// id) and no two overlays share one.
    pub closed spec fn wf(&self) -> bool {
        &&& forall|i: int| 0 <= i < self.overlays@.len() ==> (#[trigger] self.overlays@[i]).0.0 < self.next_id
        &&& forall|i: int, j: int|
            0 <= i < j < self.overlays@.len() ==> (#[trigger] self.overlays@[i]).0 != (
            #[trigger] self.overlays@[j]).0
    }

    pub closed spec fn text_props(&self) -> Seq<E> {
        self.text_properties@
    }

    pub closed spec fn overlay_list(&self) -> Seq<(OverlayId, E)> {
        self.overlays@
    }

    /// Anonymous range annotations, in insertion order.
    pub fn text_properties(&self) -> (r: &Vec<E>)
        ensures
            r@ == self.text_props(),
    {
        &self.text_properties
    }

    /// Overlays with their ids, in creation order.
    pub fn overlays(&self) -> (r: &Vec<(OverlayId, E)>)
        ensures
            r@ == self.overlay_list(),
    {
        &self.overlays
    }

    /// The id the next overlay will get.
    pub closed spec fn next_id(&self) -> u64 {
        self.next_id
    }

    pub fn new() -> (p: Self)
        ensures
            p.wf(),
            p.text_props().len() == 0,
            p.overlay_list().len() == 0,
            p.next_id() == 0,
    {
        PropStore { text_properties: Vec::new(), overlays: Vec::new(), next_id: 0 }
    }

    pub fn push_text_property(&mut self, e: E)
        requires
            old(self).wf(),
        ensures
            final(self).wf(),
            final(self).text_props() == old(self).text_props().push(e),
            final(self).overlay_list() == old(self).overlay_list(),
            final(self).next_id() == old(self).next_id(),
    {
        self.text_properties.push(e);
    }

    pub fn clear_text_properties(&mut self)
        requires
            old(self).wf(),
        ensures
            final(self).wf(),
            final(self).text_props().len() == 0,
            final(self).overlay_list() == old(self).overlay_list(),
            final(self).next_id() == old(self).next_id(),
    {
        self.text_properties.clear();
    }

    /// Add an overlay under a fresh id. Ids count up from 0; the store must
    /// not have handed out every `u64` already.
    pub fn create_overlay(&mut self, e: E) -> (id: OverlayId)
        requires
            old(self).wf(),
            old(self).next_id() < u64::MAX,
        ensures
            final(self).wf(),
            id == OverlayId(old(self).next_id()),
            final(self).next_id() == old(self).next_id() + 1,
            final(self).overlay_list() == old(self).overlay_list().push((id, e)),
            final(self).text_props() == old(self).text_props(),
    {
        let id = OverlayId(self.next_id);
        self.next_id = self.next_id + 1;
        self.overlays.push((id, e));
        id
    }

    fn find(&self, id: OverlayId) -> (r: Option<usize>)
        ensures
            match r {
                Some(i) => i < self.overlays@.len() && self.overlays@[i as int].0 == id,
                None => forall|i: int|
                    0 <= i < self.overlays@.len() ==> (#[trigger] self.overlays@[i]).0 != id,
            },
    {
        let mut i: usize = 0;
        while i < self.overlays.len()
            invariant
                i <= self.overlays@.len(),
                forall|j: int| 0 <= j < i ==> (#[trigger] self.overlays@[j]).0 != id,
            decreases self.overlays@.len() - i,
        {
            if self.overlays[i].0 == id {
                return Some(i);
            }
            i = i + 1;
        }
        None
    }

    /// The overlay with id `id`, if it exists.
    pub fn overlay(&self, id: OverlayId) -> (r: Option<&E>)
        requires
            self.wf(),
        ensures
            match overlay_index(self.overlay_list(), id) {
                Some(i) => r == Some(&self.overlay_list()[i].1),
                None => r is None,
            },
    {
        match self.find(id) {
            Some(i) => {
                proof {
                    let k = choose|k: int|
                        0 <= k < self.overlays@.len() && self.overlays@[k].0 == id;
                    assert(k == i as int);
                }
                Some(&self.overlays[i].1)
            },
            None => None,
        }
    }

    /// Remove the overlay with id `id`; returns whether one was removed.
    pub fn delete_overlay(&mut self, id: OverlayId) -> (removed: bool)
        requires
            old(self).wf(),
        ensures
            final(self).wf(),
            removed == overlay_index(old(self).overlay_list(), id) is Some,
            match overlay_index(old(self).overlay_list(), id) {
                Some(i) => final(self).overlay_list() == old(self).overlay_list().remove(i),
                None => final(self).overlay_list() == old(self).overlay_list(),
            },
            final(self).text_props() == old(self).text_props(),
            final(self).next_id() == old(self).next_id(),
    {
        match self.find(id) {
            Some(i) => {
                proof {
                    let k = choose|k: int|
                        0 <= k < self.overlays@.len() && self.overlays@[k].0 == id;
                    assert(k == i as int);
                }
                let _ = self.overlays.remove(i);
                proof {
                    assert forall|a: int, b: int|
                        0 <= a < b < self.overlays@.len() implies (#[trigger] self.overlays@[a]).0
                        != (#[trigger] self.overlays@[b]).0 by {
                        let a0 = if a < i {
                            a
                        } else {
                            a + 1
                        };
                        let b0 = if b < i {
                            b
                        } else {
                            b + 1
                        };
                        assert(self.overlays@[a] == old(self).overlay_list()[a0]);
                        assert(self.overlays@[b] == old(self).overlay_list()[b0]);
                    }
                    assert forall|a: int| 0 <= a < self.overlays@.len() implies (
                    #[trigger] self.overlays@[a]).0.0 < self.next_id by {
                        let a0 = if a < i {
                            a
                        } else {
                            a + 1
                        };
                        assert(self.overlays@[a] == old(self).overlay_list()[a0]);
                    }
                }
                true
            },
            None => false,
        }
    }
}

/// A new overlay's id is not held by any existing overlay, and deleting it
/// right after creating it takes the overlay list back to what it was.
pub proof fn law_create_then_delete<E>(ov: Seq<(OverlayId, E)>, next: u64, e: E)
    requires
        forall|i: int| 0 <= i < ov.len() ==> (#[trigger] ov[i]).0.0 < next,
    ensures
        overlay_index(ov, OverlayId(next)) is None,
        overlay_index(ov.push((OverlayId(next), e)), OverlayId(next)) == Some(ov.len() as int),
        ov.push((OverlayId(next), e)).remove(ov.len() as int) == ov,
{
    let s = ov.push((OverlayId(next), e));
    assert(s[ov.len() as int].0 == OverlayId(next));
    let k = choose|k: int| 0 <= k < s.len() && s[k].0 == OverlayId(next);
    if k < ov.len() {
        assert(s[k] == ov[k]);
    }
    assert(s.remove(ov.len() as int) =~= ov);
}

} // verus!

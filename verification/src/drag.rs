//! The drag-reposition state machine, and the delete gesture that shares
//! its hit-test.
//!
//! The caller hit-tests the live peg and spawner instances against the
//! pointer and hands in the first match, if any.  On the grab edge the
//! machine latches that identifier; while the button stays held it mirrors
//! the pointer position into the store entry and asks the caller to move
//! the live instance alike; on release it returns to idle.  A hit under the
//! delete gesture instead removes the store entry and asks the caller to
//! destroy the live instance.  A dragged entry that has meanwhile vanished
//! from the store abandons the drag instead of faulting.

use vstd::prelude::*;

use crate::store::SceneObjects;
use crate::store::StoreModel;
use crate::store::WorldPos;

verus! {

/// The drag machine's state: the identifier being dragged, if any.
pub struct CurrentDraggedPegId(pub Option<u32>);

/// One tick's worth of pointer state, as the drag machine reads it.  `hit`
/// is the identifier of the first live peg or spawner instance within the
/// hit radius of the pointer, found by the caller.
#[derive(Clone, Copy)]
pub struct DragInput {
    pub delete_pressed: bool,
    pub grab_pressed: bool,
    pub held: bool,
    pub pointer_captured: bool,
    pub pointer: Option<WorldPos>,
    pub hit: Option<u32>,
}

/// What the drag machine asks the caller to do to the live instances.
#[derive(Clone, Copy, PartialEq, Eq, Structural, Debug)]
pub enum DragAction {
    Nothing,
    Destroy(u32),
    Mirror(u32, WorldPos),
}

/// The store after the entry under an identifier is removed, if present.
pub open spec fn removed_entry(m: StoreModel, id: u32) -> StoreModel {
    if m.has_key(id) {
        StoreModel { entries: m.entries.remove(m.key_index(id)), next_id: m.next_id }
    } else {
        m
    }
}

/// The store after the entry under an identifier moves to a new position.
pub open spec fn moved_entry(m: StoreModel, id: u32, p: WorldPos) -> StoreModel {
    StoreModel {
        entries: m.entries.update(m.key_index(id), (id, m.value_of(id).with_pos(p.x, p.y))),
        next_id: m.next_id,
    }
}

/// What one tick does to the store, the drag state, and the live world.
pub open spec fn drag_step(m: StoreModel, drag: Option<u32>, input: DragInput) -> (
    StoreModel,
    Option<u32>,
    DragAction,
) {
    if input.delete_pressed && !input.pointer_captured {
        if input.pointer is Some && input.hit is Some {
            (removed_entry(m, input.hit->0), drag, DragAction::Destroy(input.hit->0))
        } else {
            (m, drag, DragAction::Nothing)
        }
    } else if input.grab_pressed && !input.pointer_captured {
        if input.pointer is Some && input.hit is Some {
            (m, Some(input.hit->0), DragAction::Nothing)
        } else {
            (m, drag, DragAction::Nothing)
        }
    } else if input.held {
        match drag {
            Some(id) => match input.pointer {
                Some(p) => if m.has_key(id) {
                    (moved_entry(m, id, p), drag, DragAction::Mirror(id, p))
                } else {
                    (m, None, DragAction::Nothing)
                },
                None => (m, drag, DragAction::Nothing),
            },
            None => (m, drag, DragAction::Nothing),
        }
    } else {
        (m, None, DragAction::Nothing)
    }
}

/// Runs one tick of the drag machine: hit deletion, grab, held mirroring,
/// or release, exactly one of them, and reports the live-instance work the
/// caller owes this tick.
pub fn drag_peg(
    scene_objects: &mut SceneObjects,
    current_dragged_peg_id: &mut CurrentDraggedPegId,
    input: DragInput,
) -> (action: DragAction)
    requires
        old(scene_objects)@.wf(),
    ensures
        final(scene_objects)@ =~= drag_step(
            old(scene_objects)@,
            old(current_dragged_peg_id).0,
            input,
        ).0,
        final(current_dragged_peg_id).0 == drag_step(
            old(scene_objects)@,
            old(current_dragged_peg_id).0,
            input,
        ).1,
        action == drag_step(old(scene_objects)@, old(current_dragged_peg_id).0, input).2,
        final(scene_objects)@.wf(),
{
    if input.delete_pressed && !input.pointer_captured {
        match (input.pointer, input.hit) {
            (Some(_), Some(id)) => {
                scene_objects.remove(id);
                DragAction::Destroy(id)
            }
            _ => DragAction::Nothing,
        }
    } else if input.grab_pressed && !input.pointer_captured {
        match (input.pointer, input.hit) {
            (Some(_), Some(id)) => {
                current_dragged_peg_id.0 = Some(id);
                DragAction::Nothing
            }
            _ => DragAction::Nothing,
        }
    } else if input.held {
        match (current_dragged_peg_id.0, input.pointer) {
            (Some(id), Some(p)) => {
                let updated = scene_objects.set_position(id, p.x, p.y);
                if updated {
                    DragAction::Mirror(id, p)
                } else {
                    current_dragged_peg_id.0 = None;
                    DragAction::Nothing
                }
            }
            _ => DragAction::Nothing,
        }
    } else {
        current_dragged_peg_id.0 = None;
        DragAction::Nothing
    }
}

/// Drag mirroring law: while an existing entry is being dragged and the
/// button stays held, one tick moves that entry to the pointer position —
/// its notes untouched — and asks the caller to move the live instance to
/// the very same position; the drag stays latched.
pub proof fn lemma_drag_mirrors_store(m: StoreModel, id: u32, p: WorldPos, input: DragInput)
    requires
        m.wf(),
        m.has_key(id),
        !(input.delete_pressed && !input.pointer_captured),
        !(input.grab_pressed && !input.pointer_captured),
        input.held,
        input.pointer == Some(p),
    ensures
        drag_step(m, Some(id), input).2 == DragAction::Mirror(id, p),
        drag_step(m, Some(id), input).1 == Some(id),
        drag_step(m, Some(id), input).0.has_key(id),
        drag_step(m, Some(id), input).0.value_of(id).x() == p.x,
        drag_step(m, Some(id), input).0.value_of(id).y() == p.y,
        drag_step(m, Some(id), input).0.value_of(id).notes() == m.value_of(id).notes(),
        drag_step(m, Some(id), input).0.entries.len() == m.entries.len(),
{
    let i = m.key_index(id);
    assert(0 <= i < m.entries.len() && m.entries[i].0 == id);
    let m2 = drag_step(m, Some(id), input).0;
    assert(m2 == moved_entry(m, id, p));
    assert(m2.entries[i].0 == id);
    assert(m2.has_key(id));
    assert(m2.wf()) by {
        assert(forall|k: int|
            0 <= k < m2.entries.len() && k != i ==> m2.entries[k] == m.entries[k]);
    }
    crate::store::lemma_key_unique(m2, m2.key_index(id), i);
    assert(m2.value_of(id) == m.value_of(id).with_pos(p.x, p.y));
}

} // verus!

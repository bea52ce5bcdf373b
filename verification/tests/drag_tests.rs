use peg_sandbox::drag::{drag_peg, CurrentDraggedPegId, DragAction, DragInput};
use peg_sandbox::router::{spawn_object, SpawnObject};
use peg_sandbox::store::{Object, SceneObjects, WorldPos};

fn idle_input() -> DragInput {
    DragInput {
        delete_pressed: false,
        grab_pressed: false,
        held: false,
        pointer_captured: false,
        pointer: None,
        hit: None,
    }
}

fn at(x: f32, y: f32) -> Option<WorldPos> {
    Some(WorldPos { x: x.to_bits(), y: y.to_bits() })
}

fn store_with_peg(x: f32, y: f32, notes: Vec<u32>) -> (SceneObjects, u32) {
    let mut s = SceneObjects::new();
    let cmd = spawn_object(&mut s, SpawnObject(Object::Peg(x.to_bits(), y.to_bits(), notes), None));
    (s, cmd.id.unwrap())
}

#[test]
fn dragging_mirrors_the_pointer_into_the_store() {
    let (mut s, id) = store_with_peg(10.0, 10.0, vec![3]);
    let mut drag = CurrentDraggedPegId(None);

    let action = drag_peg(&mut s, &mut drag,
        DragInput { grab_pressed: true, pointer: at(10.0, 10.0), hit: Some(id), ..idle_input() });
    assert_eq!(action, DragAction::Nothing);
    assert_eq!(drag.0, Some(id));

    let p = WorldPos { x: 50.0f32.to_bits(), y: 80.0f32.to_bits() };
    let action = drag_peg(&mut s, &mut drag,
        DragInput { held: true, pointer: Some(p), ..idle_input() });
    assert_eq!(action, DragAction::Mirror(id, p));
    match s.get(id) {
        Some(Object::Peg(x, y, notes)) => {
            assert_eq!(f32::from_bits(*x), 50.0);
            assert_eq!(f32::from_bits(*y), 80.0);
            assert_eq!(notes, &vec![3]);
        }
        _ => panic!("expected the dragged peg"),
    }
    assert_eq!(drag.0, Some(id));
}

#[test]
fn releasing_the_button_returns_to_idle() {
    let (mut s, id) = store_with_peg(0.0, 0.0, vec![0]);
    let mut drag = CurrentDraggedPegId(Some(id));
    let action = drag_peg(&mut s, &mut drag, idle_input());
    assert_eq!(action, DragAction::Nothing);
    assert_eq!(drag.0, None);
}

#[test]
fn delete_gesture_removes_the_entry_and_destroys_the_instance() {
    let (mut s, id) = store_with_peg(1.0, 1.0, vec![1]);
    let mut drag = CurrentDraggedPegId(None);
    let action = drag_peg(&mut s, &mut drag,
        DragInput { delete_pressed: true, pointer: at(1.0, 1.0), hit: Some(id), ..idle_input() });
    assert_eq!(action, DragAction::Destroy(id));
    assert_eq!(s.len(), 0);
}

#[test]
fn delete_gesture_without_a_hit_does_nothing() {
    let (mut s, _) = store_with_peg(1.0, 1.0, vec![1]);
    let mut drag = CurrentDraggedPegId(None);
    let action = drag_peg(&mut s, &mut drag,
        DragInput { delete_pressed: true, pointer: at(9.0, 9.0), hit: None, ..idle_input() });
    assert_eq!(action, DragAction::Nothing);
    assert_eq!(s.len(), 1);
}

#[test]
fn dragging_a_vanished_entry_abandons_the_drag() {
    let (mut s, id) = store_with_peg(2.0, 2.0, vec![2]);
    let mut drag = CurrentDraggedPegId(Some(id));
    s.remove(id);
    let action = drag_peg(&mut s, &mut drag,
        DragInput { held: true, pointer: at(3.0, 3.0), ..idle_input() });
    assert_eq!(action, DragAction::Nothing);
    assert_eq!(drag.0, None);
}

#[test]
fn a_captured_pointer_blocks_grab_and_delete() {
    let (mut s, id) = store_with_peg(4.0, 4.0, vec![4]);
    let mut drag = CurrentDraggedPegId(None);
    let action = drag_peg(&mut s, &mut drag,
        DragInput {
            grab_pressed: true,
            pointer_captured: true,
            pointer: at(4.0, 4.0),
            hit: Some(id),
            ..idle_input()
        });
    assert_eq!(action, DragAction::Nothing);
    assert_eq!(drag.0, None);
    let action = drag_peg(&mut s, &mut drag,
        DragInput {
            delete_pressed: true,
            pointer_captured: true,
            pointer: at(4.0, 4.0),
            hit: Some(id),
            ..idle_input()
        });
    assert_eq!(action, DragAction::Nothing);
    assert_eq!(s.len(), 1);
}

#[test]
fn held_without_a_pointer_keeps_the_drag_latched() {
    let (mut s, id) = store_with_peg(5.0, 5.0, vec![5]);
    let mut drag = CurrentDraggedPegId(Some(id));
    let action = drag_peg(&mut s, &mut drag,
        DragInput { held: true, pointer: None, ..idle_input() });
    assert_eq!(action, DragAction::Nothing);
    assert_eq!(drag.0, Some(id));
}

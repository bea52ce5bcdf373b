use peg_sandbox::store::{Object, SceneObjects};

fn peg(x: f32, y: f32, notes: Vec<u32>) -> Object {
    Object::Peg(x.to_bits(), y.to_bits(), notes)
}

fn spawner(x: f32, y: f32) -> Object {
    Object::BallSpawner(x.to_bits(), y.to_bits())
}

#[test]
fn new_store_is_empty_and_counts_from_zero() {
    let s = SceneObjects::new();
    assert_eq!(s.len(), 0);
    assert_eq!(s.next_id(), 0);
}

#[test]
fn insert_new_allocates_strictly_increasing_ids() {
    let mut s = SceneObjects::new();
    let a = s.insert_new(peg(1.0, 2.0, vec![0]));
    let b = s.insert_new(spawner(3.0, 4.0));
    let c = s.insert_new(peg(5.0, 6.0, vec![7, 11]));
    assert_eq!(a, 0);
    assert_eq!(b, 1);
    assert_eq!(c, 2);
    assert!(a < b && b < c);
    assert_eq!(s.len(), 3);
    assert_eq!(s.next_id(), 3);
}

#[test]
fn get_finds_the_inserted_object() {
    let mut s = SceneObjects::new();
    let id = s.insert_new(peg(9.5, -2.0, vec![4, 7]));
    match s.get(id) {
        Some(Object::Peg(x, y, notes)) => {
            assert_eq!(f32::from_bits(*x), 9.5);
            assert_eq!(f32::from_bits(*y), -2.0);
            assert_eq!(notes, &vec![4, 7]);
        }
        _ => panic!("expected the peg back"),
    }
    assert!(s.get(id + 1).is_none());
}

#[test]
fn remove_deletes_exactly_one_entry() {
    let mut s = SceneObjects::new();
    let a = s.insert_new(peg(0.0, 0.0, vec![1]));
    let b = s.insert_new(spawner(1.0, 1.0));
    s.remove(a);
    assert_eq!(s.len(), 1);
    assert!(s.get(a).is_none());
    assert!(s.get(b).is_some());
    s.remove(a);
    assert_eq!(s.len(), 1);
}

#[test]
fn clear_empties_and_resets_the_counter() {
    let mut s = SceneObjects::new();
    s.insert_new(peg(0.0, 0.0, vec![0]));
    s.insert_new(spawner(1.0, 1.0));
    s.clear();
    assert_eq!(s.len(), 0);
    assert_eq!(s.next_id(), 0);
    let id = s.insert_new(peg(2.0, 2.0, vec![2]));
    assert_eq!(id, 0);
}

#[test]
fn set_position_moves_an_entry_and_keeps_its_notes() {
    let mut s = SceneObjects::new();
    let id = s.insert_new(peg(10.0, 10.0, vec![0, 4, 7]));
    assert!(s.set_position(id, 50.0f32.to_bits(), 80.0f32.to_bits()));
    match s.get(id) {
        Some(Object::Peg(x, y, notes)) => {
            assert_eq!(f32::from_bits(*x), 50.0);
            assert_eq!(f32::from_bits(*y), 80.0);
            assert_eq!(notes, &vec![0, 4, 7]);
        }
        _ => panic!("expected the peg back"),
    }
}

#[test]
fn set_position_on_a_missing_id_reports_failure() {
    let mut s = SceneObjects::new();
    assert!(!s.set_position(3, 0, 0));
    assert_eq!(s.len(), 0);
}

#[test]
fn insert_at_replaces_only_present_entries() {
    let mut s = SceneObjects::new();
    let id = s.insert_new(peg(1.0, 1.0, vec![3]));
    s.insert_at(id, peg(2.0, 2.0, vec![5]));
    match s.get(id) {
        Some(Object::Peg(_, _, notes)) => assert_eq!(notes, &vec![5]),
        _ => panic!("expected the replacement"),
    }
    s.insert_at(77, peg(9.0, 9.0, vec![9]));
    assert_eq!(s.len(), 1);
    assert!(s.get(77).is_none());
}

#[test]
fn from_entries_accepts_a_sorted_valid_snapshot() {
    let entries = vec![
        (0u32, peg(1.0, 2.0, vec![0, 24])),
        (2u32, spawner(3.0, 4.0)),
    ];
    let s = SceneObjects::from_entries(entries, 5).expect("well-formed parts");
    assert_eq!(s.len(), 2);
    assert_eq!(s.next_id(), 5);
}

#[test]
fn from_entries_rejects_unsorted_keys() {
    let entries = vec![(2u32, spawner(0.0, 0.0)), (1u32, spawner(1.0, 1.0))];
    assert!(SceneObjects::from_entries(entries, 9).is_none());
}

#[test]
fn from_entries_rejects_a_key_at_or_past_the_counter() {
    let entries = vec![(4u32, spawner(0.0, 0.0))];
    assert!(SceneObjects::from_entries(entries, 4).is_none());
}

#[test]
fn from_entries_rejects_a_ball_entry() {
    let entries = vec![(0u32, Object::Ball(0, 0))];
    assert!(SceneObjects::from_entries(entries, 1).is_none());
}

#[test]
fn from_entries_rejects_an_empty_or_out_of_range_note_list() {
    let no_notes = vec![(0u32, Object::Peg(0, 0, vec![]))];
    assert!(SceneObjects::from_entries(no_notes, 1).is_none());
    let high_note = vec![(0u32, Object::Peg(0, 0, vec![25]))];
    assert!(SceneObjects::from_entries(high_note, 1).is_none());
}

#[test]
fn the_counter_can_hand_out_the_last_identifier() {
    let mut s = SceneObjects::from_entries(Vec::new(), u32::MAX - 1).expect("an empty snapshot");
    let id = s.insert_new(spawner(0.0, 0.0));
    assert_eq!(id, u32::MAX - 1);
    assert_eq!(s.next_id(), u32::MAX);
}

#[test]
fn store_equality_is_deep() {
    let mut a = SceneObjects::new();
    a.insert_new(peg(1.0, 2.0, vec![0, 4]));
    let b = a.clone();
    assert!(a == b);
    let mut c = a.clone();
    c.insert_new(spawner(0.0, 0.0));
    assert!(a != c);
}

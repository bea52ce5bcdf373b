use peg_sandbox::codec::{deserialize, load_store, serialize};
use peg_sandbox::router::{drain_spawn_queue, spawn_object, SpawnObject};
use peg_sandbox::store::{Object, SceneObjects};

fn peg(x: f32, y: f32, notes: Vec<u32>) -> Object {
    Object::Peg(x.to_bits(), y.to_bits(), notes)
}

fn mixed_store() -> SceneObjects {
    let mut s = SceneObjects::new();
    spawn_object(&mut s, SpawnObject(peg(1.5, -2.25, vec![0]), None));
    spawn_object(&mut s, SpawnObject(Object::BallSpawner(3.0f32.to_bits(), 4.0f32.to_bits()), None));
    spawn_object(&mut s, SpawnObject(peg(-7.125, 0.5, vec![4, 7, 11, 24]), None));
    spawn_object(&mut s, SpawnObject(peg(100.0, 200.0, vec![12, 16]), None));
    s
}

fn word(v: u32) -> Vec<u8> {
    v.to_le_bytes().to_vec()
}

fn blob(parts: Vec<Vec<u8>>) -> Vec<u8> {
    let mut out = Vec::new();
    for p in parts {
        out.extend(p);
    }
    out
}

#[test]
fn round_trip_preserves_a_mixed_store() {
    let s = mixed_store();
    let bytes = serialize(&s);
    let back = deserialize(&bytes).expect("own blob must load");
    assert!(back == s);
}

#[test]
fn round_trip_preserves_an_empty_store() {
    let mut s = SceneObjects::new();
    spawn_object(&mut s, SpawnObject(peg(0.0, 0.0, vec![0]), None));
    peg_sandbox::router::delete_all_objects(&mut s);
    let bytes = serialize(&s);
    let back = deserialize(&bytes).expect("own blob must load");
    assert!(back == s);
    assert_eq!(back.len(), 0);
}

#[test]
fn a_truncated_blob_is_rejected() {
    let s = mixed_store();
    let mut bytes = serialize(&s);
    bytes.pop();
    assert!(deserialize(&bytes).is_err());
    assert!(deserialize(&Vec::new()).is_err());
    assert!(deserialize(&vec![1, 2, 3]).is_err());
}

#[test]
fn trailing_bytes_are_rejected() {
    let s = mixed_store();
    let mut bytes = serialize(&s);
    bytes.push(0);
    assert!(deserialize(&bytes).is_err());
}

#[test]
fn a_stray_tag_is_rejected() {
    // next_id 1, one entry: key 0, tag 7.
    let bytes = blob(vec![word(1), word(1), word(0), vec![7], word(0), word(0)]);
    assert!(deserialize(&bytes).is_err());
}

#[test]
fn a_ball_entry_is_rejected() {
    let bytes = blob(vec![word(1), word(1), word(0), vec![2], word(0), word(0)]);
    assert!(deserialize(&bytes).is_err());
}

#[test]
fn an_empty_note_list_is_rejected() {
    // Peg with a zero note count.
    let bytes = blob(vec![word(1), word(1), word(0), vec![1], word(0), word(0), word(0)]);
    assert!(deserialize(&bytes).is_err());
}

#[test]
fn an_out_of_range_note_is_rejected() {
    let bytes = blob(vec![
        word(1),
        word(1),
        word(0),
        vec![1],
        word(0),
        word(0),
        word(1),
        word(25),
    ]);
    assert!(deserialize(&bytes).is_err());
}

#[test]
fn unsorted_keys_are_rejected() {
    let spawner_at = |key: u32| blob(vec![word(key), vec![3], word(0), word(0)]);
    let bytes = blob(vec![word(9), word(2), spawner_at(5), spawner_at(3)]);
    assert!(deserialize(&bytes).is_err());
}

#[test]
fn a_key_at_or_past_the_counter_is_rejected() {
    let bytes = blob(vec![word(2), word(1), word(2), vec![3], word(0), word(0)]);
    assert!(deserialize(&bytes).is_err());
}

#[test]
fn a_valid_handwritten_blob_decodes() {
    let bytes = blob(vec![
        word(7),
        word(2),
        word(1),
        vec![1],
        word(10),
        word(20),
        word(2),
        word(0),
        word(24),
        word(5),
        vec![3],
        word(30),
        word(40),
    ]);
    let s = deserialize(&bytes).expect("well-formed blob");
    assert_eq!(s.len(), 2);
    assert_eq!(s.next_id(), 7);
    match s.get(1) {
        Some(Object::Peg(x, y, notes)) => {
            assert_eq!((*x, *y), (10, 20));
            assert_eq!(notes, &vec![0, 24]);
        }
        _ => panic!("expected the peg"),
    }
    match s.get(5) {
        Some(Object::BallSpawner(x, y)) => assert_eq!((*x, *y), (30, 40)),
        _ => panic!("expected the spawner"),
    }
}

#[test]
fn load_replaces_the_store_and_replays_without_inserting() {
    let saved = mixed_store();
    let bytes = serialize(&saved);
    let mut live = SceneObjects::new();
    spawn_object(&mut live, SpawnObject(peg(9.0, 9.0, vec![9]), None));
    let evs = load_store(&mut live, &bytes).expect("own blob must load");
    assert!(live == saved);
    assert_eq!(evs.len(), saved.len());
    for ev in &evs {
        assert!(ev.1.is_some());
    }
    let len_before = live.len();
    let next_before = live.next_id();
    let cmds = drain_spawn_queue(&mut live, &evs);
    assert_eq!(cmds.len(), len_before);
    assert_eq!(live.len(), len_before);
    assert_eq!(live.next_id(), next_before);
}

#[test]
fn a_failed_load_leaves_the_store_as_it_was() {
    let mut live = SceneObjects::new();
    spawn_object(&mut live, SpawnObject(peg(9.0, 9.0, vec![9]), None));
    let reference = live.clone();
    let bad = vec![1, 2, 3, 4, 5];
    assert!(load_store(&mut live, &bad).is_err());
    assert!(live == reference);
}

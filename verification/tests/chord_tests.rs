use peg_sandbox::chord::{place_peg, ChordInput, KeyFrame, Octave};
use peg_sandbox::store::{Object, WorldPos};

fn silent() -> KeyFrame {
    KeyFrame {
        commit: false,
        octave_low: false,
        octave_high: false,
        key_c: false,
        key_d: false,
        key_e: false,
        key_f: false,
        key_g: false,
        key_a: false,
        key_b: false,
        sharp: false,
        flat: false,
    }
}

fn at(x: f32, y: f32) -> Option<WorldPos> {
    Some(WorldPos { x: x.to_bits(), y: y.to_bits() })
}

#[test]
fn chord_commit_yields_one_triad_peg_at_the_commit_pointer() {
    let mut chord = ChordInput::new();
    let mut octave = Octave(3);
    let enter = KeyFrame { commit: true, ..silent() };

    let evs = place_peg(&mut chord, &mut octave, enter, at(1.0, 1.0));
    assert!(evs.is_empty());

    let evs = place_peg(&mut chord, &mut octave, KeyFrame { key_c: true, ..silent() }, at(2.0, 2.0));
    assert!(evs.is_empty());
    let evs = place_peg(&mut chord, &mut octave, KeyFrame { key_e: true, ..silent() }, None);
    assert!(evs.is_empty());
    let evs = place_peg(&mut chord, &mut octave, KeyFrame { key_g: true, ..silent() }, at(3.0, 3.0));
    assert!(evs.is_empty());

    let evs = place_peg(&mut chord, &mut octave, enter, at(40.0, 50.0));
    assert_eq!(evs.len(), 1);
    match &evs[0].0 {
        Object::Peg(x, y, notes) => {
            assert_eq!(f32::from_bits(*x), 40.0);
            assert_eq!(f32::from_bits(*y), 50.0);
            assert_eq!(notes, &vec![0, 4, 7]);
        }
        _ => panic!("expected a peg intent"),
    }
    assert!(evs[0].1.is_none());
    assert!(!chord.input_active);
    assert!(chord.input_notes.is_empty());
}

#[test]
fn idle_note_key_spawns_immediately_at_the_press_pointer() {
    let mut chord = ChordInput::new();
    let mut octave = Octave(3);
    let evs = place_peg(&mut chord, &mut octave, KeyFrame { key_d: true, ..silent() }, at(5.0, 6.0));
    assert_eq!(evs.len(), 1);
    match &evs[0].0 {
        Object::Peg(x, y, notes) => {
            assert_eq!(f32::from_bits(*x), 5.0);
            assert_eq!(f32::from_bits(*y), 6.0);
            assert_eq!(notes, &vec![2]);
        }
        _ => panic!("expected a peg intent"),
    }
}

#[test]
fn idle_note_key_without_a_pointer_spawns_nothing() {
    let mut chord = ChordInput::new();
    let mut octave = Octave(3);
    let evs = place_peg(&mut chord, &mut octave, KeyFrame { key_d: true, ..silent() }, None);
    assert!(evs.is_empty());
}

#[test]
fn octave_select_moves_the_root_up_an_octave() {
    let mut chord = ChordInput::new();
    let mut octave = Octave(3);
    let keys = KeyFrame { octave_high: true, key_c: true, ..silent() };
    let evs = place_peg(&mut chord, &mut octave, keys, at(0.0, 0.0));
    assert_eq!(octave.0, 4);
    match &evs[0].0 {
        Object::Peg(_, _, notes) => assert_eq!(notes, &vec![12]),
        _ => panic!("expected a peg intent"),
    }
}

#[test]
fn sharp_tops_out_at_the_end_of_the_range() {
    let mut chord = ChordInput::new();
    let mut octave = Octave(4);
    let keys = KeyFrame { key_b: true, sharp: true, ..silent() };
    let evs = place_peg(&mut chord, &mut octave, keys, at(0.0, 0.0));
    match &evs[0].0 {
        Object::Peg(_, _, notes) => assert_eq!(notes, &vec![24]),
        _ => panic!("expected a peg intent"),
    }
}

#[test]
fn flat_bottoms_out_at_the_start_of_the_range() {
    let mut chord = ChordInput::new();
    let mut octave = Octave(3);
    let keys = KeyFrame { key_c: true, flat: true, ..silent() };
    let evs = place_peg(&mut chord, &mut octave, keys, at(0.0, 0.0));
    match &evs[0].0 {
        Object::Peg(_, _, notes) => assert_eq!(notes, &vec![0]),
        _ => panic!("expected a peg intent"),
    }
}

#[test]
fn sharp_and_flat_together_cancel() {
    let mut chord = ChordInput::new();
    let mut octave = Octave(3);
    let keys = KeyFrame { key_g: true, sharp: true, flat: true, ..silent() };
    let evs = place_peg(&mut chord, &mut octave, keys, at(0.0, 0.0));
    match &evs[0].0 {
        Object::Peg(_, _, notes) => assert_eq!(notes, &vec![7]),
        _ => panic!("expected a peg intent"),
    }
}

#[test]
fn committing_an_empty_chord_spawns_nothing() {
    let mut chord = ChordInput::new();
    let mut octave = Octave(3);
    let enter = KeyFrame { commit: true, ..silent() };
    place_peg(&mut chord, &mut octave, enter, at(0.0, 0.0));
    let evs = place_peg(&mut chord, &mut octave, enter, at(9.0, 9.0));
    assert!(evs.is_empty());
    assert!(!chord.input_active);
}

#[test]
fn committing_without_a_pointer_discards_the_pending_chord() {
    let mut chord = ChordInput::new();
    let mut octave = Octave(3);
    let enter = KeyFrame { commit: true, ..silent() };
    place_peg(&mut chord, &mut octave, enter, None);
    place_peg(&mut chord, &mut octave, KeyFrame { key_a: true, ..silent() }, None);
    let evs = place_peg(&mut chord, &mut octave, enter, None);
    assert!(evs.is_empty());
    assert!(chord.input_notes.is_empty());
    assert!(!chord.input_active);
}

#[test]
fn chord_entries_honour_the_octave_and_modifiers() {
    let mut chord = ChordInput::new();
    let mut octave = Octave(3);
    let enter = KeyFrame { commit: true, ..silent() };
    place_peg(&mut chord, &mut octave, enter, None);
    place_peg(&mut chord, &mut octave, KeyFrame { key_c: true, sharp: true, ..silent() }, None);
    place_peg(&mut chord, &mut octave,
        KeyFrame { octave_high: true, key_e: true, ..silent() }, None);
    let evs = place_peg(&mut chord, &mut octave, enter, at(1.0, 2.0));
    assert_eq!(evs.len(), 1);
    match &evs[0].0 {
        Object::Peg(_, _, notes) => assert_eq!(notes, &vec![1, 16]),
        _ => panic!("expected a peg intent"),
    }
}

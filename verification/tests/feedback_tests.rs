use peg_sandbox::feedback::{collision_sounds, convert_index_to_note, notes_list_of_indices, Notes,
    NotesList};

#[test]
fn note_paths_name_their_sound_assets() {
    assert_eq!(Notes::C3.to_file_path(), "sounds/c3.ogg");
    assert_eq!(Notes::CS3.to_file_path(), "sounds/cs3.ogg");
    assert_eq!(Notes::B4.to_file_path(), "sounds/b4.ogg");
    assert_eq!(Notes::C5.to_file_path(), "sounds/c5.ogg");
}

#[test]
fn every_index_resolves_and_high_indices_fall_back() {
    assert_eq!(convert_index_to_note(0), Notes::C3);
    assert_eq!(convert_index_to_note(4), Notes::E3);
    assert_eq!(convert_index_to_note(7), Notes::G3);
    assert_eq!(convert_index_to_note(12), Notes::C4);
    assert_eq!(convert_index_to_note(24), Notes::C5);
    assert_eq!(convert_index_to_note(25), Notes::C3);
    assert_eq!(convert_index_to_note(1000), Notes::C3);
}

#[test]
fn a_note_list_follows_its_indices_in_order() {
    let l = notes_list_of_indices(&vec![0, 4, 7]);
    assert_eq!(l.0, vec![Notes::C3, Notes::E3, Notes::G3]);
}

#[test]
fn the_first_participant_with_notes_sounds() {
    let chord = NotesList(vec![Notes::C3, Notes::E3, Notes::G3]);
    let other = NotesList(vec![Notes::C5]);
    let paths = collision_sounds(Some(&chord), Some(&other));
    assert_eq!(paths, vec!["sounds/c3.ogg", "sounds/e3.ogg", "sounds/g3.ogg"]);
}

#[test]
fn the_second_participant_sounds_when_the_first_has_no_notes() {
    let other = NotesList(vec![Notes::A4]);
    let paths = collision_sounds(None, Some(&other));
    assert_eq!(paths, vec!["sounds/a4.ogg"]);
}

#[test]
fn a_collision_with_no_notes_is_silent() {
    let paths = collision_sounds(None, None);
    assert!(paths.is_empty());
}

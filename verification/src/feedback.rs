//! The note table and the collision-to-audio mapping.
//!
//! A note index in the 25-note chromatic range maps to one named note and
//! from there to the sound asset played on a collision.  When the physics
//! collaborator reports a collision between two participants, whichever of
//! the two carries a note list wins (the other is presumed a ball), and
//! every note of that list sounds concurrently; a collision with no
//! note-bearing participant is silently ignored.

use vstd::prelude::*;

verus! {

/// The 25 playable notes, spanning two octaves chromatically.
#[derive(Debug, PartialEq, Eq, Structural, Clone, Copy)]
pub enum Notes {
    C3,
    CS3,
    D3,
    DS3,
    E3,
    F3,
    FS3,
    G3,
    GS3,
    A3,
    AS3,
    B3,
    C4,
    CS4,
    D4,
    DS4,
    E4,
    F4,
    FS4,
    G4,
    GS4,
    A4,
    AS4,
    B4,
    C5,
}

/// The sound asset path of a note.
pub open spec fn note_path(n: Notes) -> Seq<char> {
    match n {
        Notes::C3 => "sounds/c3.ogg"@,
        Notes::CS3 => "sounds/cs3.ogg"@,
        Notes::D3 => "sounds/d3.ogg"@,
        Notes::DS3 => "sounds/ds3.ogg"@,
        Notes::E3 => "sounds/e3.ogg"@,
        Notes::F3 => "sounds/f3.ogg"@,
        Notes::FS3 => "sounds/fs3.ogg"@,
        Notes::G3 => "sounds/g3.ogg"@,
        Notes::GS3 => "sounds/gs3.ogg"@,
        Notes::A3 => "sounds/a3.ogg"@,
        Notes::AS3 => "sounds/as3.ogg"@,
        Notes::B3 => "sounds/b3.ogg"@,
        Notes::C4 => "sounds/c4.ogg"@,
        Notes::CS4 => "sounds/cs4.ogg"@,
        Notes::D4 => "sounds/d4.ogg"@,
        Notes::DS4 => "sounds/ds4.ogg"@,
        Notes::E4 => "sounds/e4.ogg"@,
        Notes::F4 => "sounds/f4.ogg"@,
        Notes::FS4 => "sounds/fs4.ogg"@,
        Notes::G4 => "sounds/g4.ogg"@,
        Notes::GS4 => "sounds/gs4.ogg"@,
        Notes::A4 => "sounds/a4.ogg"@,
        Notes::AS4 => "sounds/as4.ogg"@,
        Notes::B4 => "sounds/b4.ogg"@,
        Notes::C5 => "sounds/c5.ogg"@,
    }
}

impl Notes {
    /// The path of the sound asset that plays this note.
    pub fn to_file_path(&self) -> (r: String)
        ensures
            r@ == note_path(*self),
    {
        match self {
            Notes::C3 => "sounds/c3.ogg".to_owned(),
            Notes::CS3 => "sounds/cs3.ogg".to_owned(),
            Notes::D3 => "sounds/d3.ogg".to_owned(),
            Notes::DS3 => "sounds/ds3.ogg".to_owned(),
            Notes::E3 => "sounds/e3.ogg".to_owned(),
            Notes::F3 => "sounds/f3.ogg".to_owned(),
            Notes::FS3 => "sounds/fs3.ogg".to_owned(),
            Notes::G3 => "sounds/g3.ogg".to_owned(),
            Notes::GS3 => "sounds/gs3.ogg".to_owned(),
            Notes::A3 => "sounds/a3.ogg".to_owned(),
            Notes::AS3 => "sounds/as3.ogg".to_owned(),
            Notes::B3 => "sounds/b3.ogg".to_owned(),
            Notes::C4 => "sounds/c4.ogg".to_owned(),
            Notes::CS4 => "sounds/cs4.ogg".to_owned(),
            Notes::D4 => "sounds/d4.ogg".to_owned(),
            Notes::DS4 => "sounds/ds4.ogg".to_owned(),
            Notes::E4 => "sounds/e4.ogg".to_owned(),
            Notes::F4 => "sounds/f4.ogg".to_owned(),
            Notes::FS4 => "sounds/fs4.ogg".to_owned(),
            Notes::G4 => "sounds/g4.ogg".to_owned(),
            Notes::GS4 => "sounds/gs4.ogg".to_owned(),
            Notes::A4 => "sounds/a4.ogg".to_owned(),
            Notes::AS4 => "sounds/as4.ogg".to_owned(),
            Notes::B4 => "sounds/b4.ogg".to_owned(),
            Notes::C5 => "sounds/c5.ogg".to_owned(),
        }
    }
}

/// The note named by an index of the chromatic range; an index beyond the
/// range falls back to the lowest note.
pub open spec fn index_note(i: u32) -> Notes {
    match i {
        0u32 => Notes::C3,
        1u32 => Notes::CS3,
        2u32 => Notes::D3,
        3u32 => Notes::DS3,
        4u32 => Notes::E3,
        5u32 => Notes::F3,
        6u32 => Notes::FS3,
        7u32 => Notes::G3,
        8u32 => Notes::GS3,
        9u32 => Notes::A3,
        10u32 => Notes::AS3,
        11u32 => Notes::B3,
        12u32 => Notes::C4,
        13u32 => Notes::CS4,
        14u32 => Notes::D4,
        15u32 => Notes::DS4,
        16u32 => Notes::E4,
        17u32 => Notes::F4,
        18u32 => Notes::FS4,
        19u32 => Notes::G4,
        20u32 => Notes::GS4,
        21u32 => Notes::A4,
        22u32 => Notes::AS4,
        23u32 => Notes::B4,
        24u32 => Notes::C5,
        _ => Notes::C3,
    }
}

/// Resolves a note index to its named note.
pub fn convert_index_to_note(i: u32) -> (n: Notes)
    ensures
        n == index_note(i),
{
    match i {
        0 => Notes::C3,
        1 => Notes::CS3,
        2 => Notes::D3,
        3 => Notes::DS3,
        4 => Notes::E3,
        5 => Notes::F3,
        6 => Notes::FS3,
        7 => Notes::G3,
        8 => Notes::GS3,
        9 => Notes::A3,
        10 => Notes::AS3,
        11 => Notes::B3,
        12 => Notes::C4,
        13 => Notes::CS4,
        14 => Notes::D4,
        15 => Notes::DS4,
        16 => Notes::E4,
        17 => Notes::F4,
        18 => Notes::FS4,
        19 => Notes::G4,
        20 => Notes::GS4,
        21 => Notes::A4,
        22 => Notes::AS4,
        23 => Notes::B4,
        24 => Notes::C5,
        _ => Notes::C3,
    }
}

/// The ordered note list a live peg instance carries.
pub struct NotesList(pub Vec<Notes>);

/// Converts a peg's note indices into the note list its live instance
/// carries, in order.
pub fn notes_list_of_indices(indices: &Vec<u32>) -> (l: NotesList)
    ensures
        l.0@.len() == indices@.len(),
        forall|i: int| 0 <= i < indices@.len() ==> l.0@[i] == index_note(indices@[i]),
{
    let mut out: Vec<Notes> = Vec::new();
    let n = indices.len();
    let mut i: usize = 0;
    while i < n
        invariant
            n == indices@.len(),
            i <= n,
            out@.len() == i,
            forall|k: int| 0 <= k < i ==> out@[k] == index_note(indices@[k]),
        decreases n - i,
    {
        out.push(convert_index_to_note(indices[i]));
        i = i + 1;
    }
    NotesList(out)
}

/// The note list a collision sounds: the first participant's if it carries
/// one, else the second's, else none.
pub open spec fn chosen_notes(a: Option<&NotesList>, b: Option<&NotesList>) -> Seq<Notes> {
    match a {
        Some(l) => l.0@,
        None => match b {
            Some(l) => l.0@,
            None => Seq::empty(),
        },
    }
}

/// Resolves one collision notification to the sound assets to play
/// concurrently: one path per note of the note-bearing participant, in
/// list order, and none when neither participant carries notes.
pub fn collision_sounds(a: Option<&NotesList>, b: Option<&NotesList>) -> (paths: Vec<String>)
    ensures
        paths@.len() == chosen_notes(a, b).len(),
        forall|i: int|
            0 <= i < paths@.len() ==> (#[trigger] paths@[i])@ == note_path(chosen_notes(a, b)[i]),
{
    let chosen: &NotesList = match a {
        Some(l) => l,
        None => match b {
            Some(l) => l,
            None => {
                return Vec::new();
            }
        },
    };
    let n = chosen.0.len();
    let mut paths: Vec<String> = Vec::new();
    let mut i: usize = 0;
    while i < n
        invariant
            n == chosen.0@.len(),
            i <= n,
            paths@.len() == i,
            forall|k: int|
                0 <= k < i ==> (#[trigger] paths@[k])@ == note_path(chosen.0@[k]),
        decreases n - i,
    {
        let note = chosen.0[i];
        paths.push(note.to_file_path());
        i = i + 1;
    }
    paths
}

} // verus!

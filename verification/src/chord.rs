//! The dual-mode keyboard translator for placing pegs.
//!
//! While idle, each recognized note-name key spawns one single-note peg at
//! the pointer position sampled at press time.  A press of the commit key
//! enters chord mode: note keys then only append to a pending list, and the
//! next commit emits one chord peg carrying the whole list, at the pointer
//! position sampled at commit time.
//!
//! Note indices come from seven letter keys (semitone offsets 0, 2, 4, 5, 7,
//! 9 and 11 from the octave root), an octave toggle between the two octave
//! roots 0 and 12, and two modifier keys that move the result one semitone
//! up or down, clamped to the 25-note range.

use vstd::prelude::*;

use crate::router::IntentView;
use crate::router::SpawnObject;
use crate::store::Object;
use crate::store::ObjectView;
use crate::store::WorldPos;

verus! {

/// The octave root selector: 3 selects the lower octave root, anything else
/// the upper one.
pub struct Octave(pub u32);

/// The chord translator's state: whether chord mode is active, and the
/// pending note list collected so far.
pub struct ChordInput {
    pub input_active: bool,
    pub input_notes: Vec<u32>,
}

/// Mathematical image of the chord translator's state.
#[verifier::ext_equal]
pub struct ChordModel {
    pub active: bool,
    pub pending: Seq<u32>,
}

impl View for ChordInput {
    type V = ChordModel;

    open spec fn view(&self) -> ChordModel {
        ChordModel { active: self.input_active, pending: self.input_notes@ }
    }
}

impl ChordInput {
    /// The translator in its idle state, with nothing pending.
    pub fn new() -> (c: ChordInput)
        ensures
            c@.active == false,
            c@.pending =~= Seq::<u32>::empty(),
    {
        ChordInput { input_active: false, input_notes: Vec::new() }
    }
}

/// Every pending note lies in the 25-note range.
pub open spec fn pending_wf(pending: Seq<u32>) -> bool {
    forall|i: int| 0 <= i < pending.len() ==> pending[i] <= 24
}

/// One tick's worth of keyboard state, as the translator reads it: the
/// note-name and selector keys on their just-pressed edge, the two semitone
/// modifiers as held.
#[derive(Clone, Copy)]
pub struct KeyFrame {
    pub commit: bool,
    pub octave_low: bool,
    pub octave_high: bool,
    pub key_c: bool,
    pub key_d: bool,
    pub key_e: bool,
    pub key_f: bool,
    pub key_g: bool,
    pub key_a: bool,
    pub key_b: bool,
    pub sharp: bool,
    pub flat: bool,
}

/// The octave selector after a tick: the high select key wins over the low
/// one, and with neither pressed the selector keeps its value.
pub open spec fn next_octave(octave: u32, keys: KeyFrame) -> u32 {
    if keys.octave_high {
        4
    } else if keys.octave_low {
        3
    } else {
        octave
    }
}

/// The semitone root of the selected octave.
pub open spec fn octave_base(octave: u32) -> u32 {
    if octave == 3 {
        0
    } else {
        12
    }
}

/// A raw note index with the two semitone modifiers applied: raised by one
/// unless already at the top of the range, then lowered by one unless at
/// the bottom.
pub open spec fn modified_index(raw: u32, sharp: bool, flat: bool) -> u32 {
    let raised: u32 = if sharp && raw != 24 {
        (raw + 1) as u32
    } else {
        raw
    };
    if flat && raised != 0 {
        (raised - 1) as u32
    } else {
        raised
    }
}

/// A singleton of the modified index when the key is pressed, else nothing.
pub open spec fn maybe_entry(pressed: bool, raw: u32, sharp: bool, flat: bool) -> Seq<u32> {
    if pressed {
        seq![modified_index(raw, sharp, flat)]
    } else {
        Seq::empty()
    }
}

/// The seven note-name keys of one frame, each with its semitone offset
/// from the octave root, in the fixed letter order.
pub open spec fn key_offsets(keys: KeyFrame) -> Seq<(bool, u32)> {
    seq![
        (keys.key_c, 0u32),
        (keys.key_d, 2u32),
        (keys.key_e, 4u32),
        (keys.key_f, 5u32),
        (keys.key_g, 7u32),
        (keys.key_a, 9u32),
        (keys.key_b, 11u32),
    ]
}

/// The indices the pressed keys of a run of (pressed, offset) pairs enter,
/// in order.
pub open spec fn entered_of(pairs: Seq<(bool, u32)>, base: u32, sharp: bool, flat: bool) -> Seq<
    u32,
>
    decreases pairs.len(),
{
    if pairs.len() == 0 {
        Seq::empty()
    } else {
        maybe_entry(pairs[0].0, (base + pairs[0].1) as u32, sharp, flat) + entered_of(
            pairs.skip(1),
            base,
            sharp,
            flat,
        )
    }
}

/// The note indices entered this tick, one per pressed note-name key, in
/// the fixed letter order.
pub open spec fn pressed_indexes(keys: KeyFrame, octave: u32) -> Seq<u32> {
    entered_of(key_offsets(keys), octave_base(octave), keys.sharp, keys.flat)
}

/// A single-note peg intent at a position.
pub open spec fn single_note_intent(p: WorldPos, note: u32) -> IntentView {
    IntentView { object: ObjectView::Peg { x: p.x, y: p.y, notes: seq![note] }, explicit_id: None }
}

/// The immediate spawn intents of an idle-mode tick: one single-note peg
/// per entered index, at the pointer position sampled this tick — none
/// when the pointer is off the canvas.
pub open spec fn immediate_intents(keys: KeyFrame, octave: u32, pointer: Option<WorldPos>) -> Seq<
    IntentView,
> {
    match pointer {
        Some(p) => pressed_indexes(keys, octave).map_values(|note: u32| single_note_intent(p, note)),
        None => Seq::empty(),
    }
}

/// What one tick does to the chord translator: the state and octave
/// selector after, and the spawn intents emitted.
pub open spec fn place_peg_spec(
    chord: ChordModel,
    octave: u32,
    keys: KeyFrame,
    pointer: Option<WorldPos>,
) -> (ChordModel, u32, Seq<IntentView>) {
    if chord.active {
        if keys.commit {
            let intents: Seq<IntentView> = if chord.pending.len() > 0 && pointer is Some {
                seq![
                    IntentView {
                        object: ObjectView::Peg {
                            x: pointer->0.x,
                            y: pointer->0.y,
                            notes: chord.pending,
                        },
                        explicit_id: None,
                    },
                ]
            } else {
                Seq::empty()
            };
            (ChordModel { active: false, pending: Seq::empty() }, octave, intents)
        } else {
            let oct = next_octave(octave, keys);
            (
                ChordModel { active: true, pending: chord.pending + pressed_indexes(keys, oct) },
                oct,
                Seq::empty(),
            )
        }
    } else {
        if keys.commit {
            (ChordModel { active: true, pending: chord.pending }, octave, Seq::empty())
        } else {
            let oct = next_octave(octave, keys);
            (chord, oct, immediate_intents(keys, oct, pointer))
        }
    }
}

/// Collects the note indices the pressed note-name keys enter this tick.
#[verifier::rlimit(50)]
fn enter_notes(keys: KeyFrame, base: u32) -> (entered: Vec<u32>)
    requires
        base == 0 || base == 12,
    ensures
        entered@ =~= pressed_indexes(keys, if base == 0 { 3u32 } else { 4u32 }),
        forall|i: int| 0 <= i < entered@.len() ==> entered@[i] <= 24,
{
    let ghost oct: u32 = if base == 0 { 3u32 } else { 4u32 };
    let mut pairs: Vec<(bool, u32)> = Vec::new();
    pairs.push((keys.key_c, 0));
    pairs.push((keys.key_d, 2));
    pairs.push((keys.key_e, 4));
    pairs.push((keys.key_f, 5));
    pairs.push((keys.key_g, 7));
    pairs.push((keys.key_a, 9));
    pairs.push((keys.key_b, 11));
    proof {
        assert(pairs@ =~= key_offsets(keys));
        assert(pairs@.skip(0) =~= pairs@);
    }
    let mut entered: Vec<u32> = Vec::new();
    let n = pairs.len();
    let mut j: usize = 0;
    while j < n
        invariant
            n == pairs@.len(),
            pairs@ == key_offsets(keys),
            base == 0 || base == 12,
            j <= n,
            forall|i: int| 0 <= i < entered@.len() ==> entered@[i] <= 24,
            entered_of(pairs@, base, keys.sharp, keys.flat) =~= entered@ + entered_of(
                pairs@.skip(j as int),
                base,
                keys.sharp,
                keys.flat,
            ),
        decreases n - j,
    {
        proof {
            assert(pairs@.skip(j as int)[0] == pairs@[j as int]);
            assert(pairs@.skip(j as int).skip(1) =~= pairs@.skip(j as int + 1));
            assert(pairs@[j as int].1 <= 11);
        }
        let (pressed, off) = pairs[j];
        let ghost before = entered@;
        if pressed {
            let idx = apply_modifiers(base + off, keys.sharp, keys.flat);
            entered.push(idx);
        }
        proof {
            let rest = entered_of(pairs@.skip(j as int + 1), base, keys.sharp, keys.flat);
            assert(entered_of(pairs@.skip(j as int), base, keys.sharp, keys.flat) =~= maybe_entry(
                pressed,
                (base + off) as u32,
                keys.sharp,
                keys.flat,
            ) + rest);
            assert(entered@ + rest =~= before + (maybe_entry(
                pressed,
                (base + off) as u32,
                keys.sharp,
                keys.flat,
            ) + rest));
            assert(entered_of(pairs@, base, keys.sharp, keys.flat) =~= entered@ + rest);
        }
        j = j + 1;
    }
    proof {
        assert(pairs@.skip(n as int) =~= Seq::<(bool, u32)>::empty());
        assert(entered_of(Seq::<(bool, u32)>::empty(), base, keys.sharp, keys.flat)
            =~= Seq::<u32>::empty());
        assert(entered@ + Seq::<u32>::empty() =~= entered@);
        assert(entered@ =~= pressed_indexes(keys, oct));
    }
    entered
}

/// Applies the two semitone modifiers to a raw note index.
fn apply_modifiers(raw: u32, sharp: bool, flat: bool) -> (idx: u32)
    requires
        raw <= 23,
    ensures
        idx == modified_index(raw, sharp, flat),
        idx <= 24,
{
    let mut idx = raw;
    if sharp && idx != 24 {
        idx = idx + 1;
    }
    if flat && idx != 0 {
        idx = idx - 1;
    }
    idx
}

/// Runs one tick of the chord translator over the keyboard frame and the
/// pointer position, updating the chord state and the octave selector and
/// returning the spawn intents to route this tick.
pub fn place_peg(
    chord: &mut ChordInput,
    octave: &mut Octave,
    keys: KeyFrame,
    pointer: Option<WorldPos>,
) -> (evs: Vec<SpawnObject>)
    requires
        pending_wf(old(chord)@.pending),
    ensures
        final(chord)@ =~= place_peg_spec(old(chord)@, old(octave).0, keys, pointer).0,
        final(octave).0 == place_peg_spec(old(chord)@, old(octave).0, keys, pointer).1,
        crate::router::intents_view(evs@) =~= place_peg_spec(
            old(chord)@,
            old(octave).0,
            keys,
            pointer,
        ).2,
        pending_wf(final(chord)@.pending),
        forall|i: int| 0 <= i < evs@.len() ==> (#[trigger] evs@[i])@.object.wf(),
{
    let ghost spec_out = place_peg_spec(old(chord)@, old(octave).0, keys, pointer);
    if chord.input_active {
        if keys.commit {
            chord.input_active = false;
            let mut evs: Vec<SpawnObject> = Vec::new();
            let mut pending: Vec<u32> = Vec::new();
            core::mem::swap(&mut pending, &mut chord.input_notes);
            if pending.len() > 0 {
                match pointer {
                    Some(p) => {
                        evs.push(SpawnObject(Object::Peg(p.x, p.y, pending), None));
                    }
                    None => {}
                }
            }
            proof {
                assert(crate::router::intents_view(evs@) =~= spec_out.2);
            }
            evs
        } else {
            if keys.octave_low {
                octave.0 = 3;
            }
            if keys.octave_high {
                octave.0 = 4;
            }
            let base: u32 = if octave.0 == 3 {
                0
            } else {
                12
            };
            let entered = enter_notes(keys, base);
            let ghost before = chord.input_notes@;
            let mut j: usize = 0;
            while j < entered.len()
                invariant
                    j <= entered@.len(),
                    chord.input_notes@ =~= before + entered@.take(j as int),
                    chord.input_active,
                decreases entered@.len() - j,
            {
                let note = entered[j];
                chord.input_notes.push(note);
                proof {
                    assert(before + entered@.take(j as int + 1) =~= (before + entered@.take(
                        j as int,
                    )).push(entered@[j as int]));
                }
                j = j + 1;
            }
            proof {
                assert(entered@.take(entered@.len() as int) =~= entered@);
                assert(chord@.pending =~= before + entered@);
            }
            Vec::new()
        }
    } else {
        if keys.commit {
            chord.input_active = true;
            Vec::new()
        } else {
            if keys.octave_low {
                octave.0 = 3;
            }
            if keys.octave_high {
                octave.0 = 4;
            }
            let base: u32 = if octave.0 == 3 {
                0
            } else {
                12
            };
            let entered = enter_notes(keys, base);
            let mut evs: Vec<SpawnObject> = Vec::new();
            match pointer {
                Some(p) => {
                    let mut j: usize = 0;
                    while j < entered.len()
                        invariant
                            j <= entered@.len(),
                            forall|i: int| 0 <= i < entered@.len() ==> entered@[i] <= 24,
                            evs@.len() == j,
                            forall|k: int|
                                0 <= k < j ==> (#[trigger] evs@[k])@ == single_note_intent(
                                    p,
                                    entered@[k],
                                ),
                        decreases entered@.len() - j,
                    {
                        let note = entered[j];
                        let notes = vec![note];
                        proof {
                            assert(notes@ =~= seq![entered@[j as int]]);
                        }
                        evs.push(SpawnObject(Object::Peg(p.x, p.y, notes), None));
                        j = j + 1;
                    }
                    proof {
                        assert forall|k: int|
                            0 <= k < evs@.len() implies crate::router::intents_view(evs@)[k]
                            == spec_out.2[k] by {
                            assert(crate::router::intents_view(evs@)[k] == evs@[k]@);
                            assert(spec_out.2[k] == single_note_intent(
                                p,
                                pressed_indexes(keys, octave.0)[k],
                            ));
                        }
                        assert(crate::router::intents_view(evs@) =~= spec_out.2);
                    }
                }
                None => {}
            }
            evs
        }
    }
}

/// Chord commit law: from the idle state, entering chord mode, entering the
/// three notes of a major triad on three separate ticks, and committing on
/// a fifth tick yields exactly one spawn intent — a peg carrying the three
/// notes in entry order, positioned where the pointer stood at commit time,
/// whatever the pointer did on the entry ticks.
pub proof fn lemma_chord_commit(
    p_commit: WorldPos,
    p1: Option<WorldPos>,
    p2: Option<WorldPos>,
    p3: Option<WorldPos>,
    p4: Option<WorldPos>,
)
    ensures
        ({
            let idle = ChordModel { active: false, pending: Seq::empty() };
            let none_pressed = KeyFrame {
                commit: false,
                octave_low: false,
                octave_high: false,
                key_c: false,
                key_d: false,
                key_e: false,
                key_f: false,
                key_g: false,
                key_a: false,
                key_b: false,
                sharp: false,
                flat: false,
            };
            let s1 = place_peg_spec(idle, 3, KeyFrame { commit: true, ..none_pressed }, p1);
            let s2 = place_peg_spec(s1.0, s1.1, KeyFrame { key_c: true, ..none_pressed }, p2);
            let s3 = place_peg_spec(s2.0, s2.1, KeyFrame { key_e: true, ..none_pressed }, p3);
            let s4 = place_peg_spec(s3.0, s3.1, KeyFrame { key_g: true, ..none_pressed }, p4);
            let s5 = place_peg_spec(
                s4.0,
                s4.1,
                KeyFrame { commit: true, ..none_pressed },
                Some(p_commit),
            );
            s1.2.len() == 0 && s2.2.len() == 0 && s3.2.len() == 0 && s4.2.len() == 0 && s5.2
                =~= seq![
                IntentView {
                    object: ObjectView::Peg {
                        x: p_commit.x,
                        y: p_commit.y,
                        notes: seq![0u32, 4u32, 7u32],
                    },
                    explicit_id: None,
                },
            ] && s5.0.active == false && s5.0.pending.len() == 0
        }),
{
    let idle = ChordModel { active: false, pending: Seq::empty() };
    let none_pressed = KeyFrame {
        commit: false,
        octave_low: false,
        octave_high: false,
        key_c: false,
        key_d: false,
        key_e: false,
        key_f: false,
        key_g: false,
        key_a: false,
        key_b: false,
        sharp: false,
        flat: false,
    };
    reveal_with_fuel(entered_of, 9);
    let s1 = place_peg_spec(idle, 3, KeyFrame { commit: true, ..none_pressed }, p1);
    let s2 = place_peg_spec(s1.0, s1.1, KeyFrame { key_c: true, ..none_pressed }, p2);
    let s3 = place_peg_spec(s2.0, s2.1, KeyFrame { key_e: true, ..none_pressed }, p3);
    let s4 = place_peg_spec(s3.0, s3.1, KeyFrame { key_g: true, ..none_pressed }, p4);
    assert(s2.0.pending =~= seq![0u32]);
    assert(s3.0.pending =~= seq![0u32, 4u32]);
    assert(s4.0.pending =~= seq![0u32, 4u32, 7u32]);
}

} // verus!

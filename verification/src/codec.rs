//! The persistence codec: the store as a single binary blob, and back.
//!
//! The blob is the allocation counter, then the entry count, then the
//! entries in key order, every number a little-endian 32-bit word.  A peg
//! entry carries a tag byte, its position words, its note count and its
//! notes; a spawner entry carries its tag byte and position words.  Decoding
//! accepts exactly the blobs this encoding produces from a well-formed
//! store — anything else, a truncated blob, a stray tag, an out-of-range
//! note, unsorted keys, a key at or past the counter, or trailing bytes, is
//! rejected as malformed without touching any store.

use vstd::prelude::*;

use crate::store::Object;
use crate::store::ObjectView;
use crate::store::SceneObjects;
use crate::store::StoreModel;

verus! {

/// Tag byte of a peg entry.
pub const TAG_PEG: u8 = 1;

/// Tag byte of a ball; never produced from a well-formed store and never
/// accepted by the decoder, since balls are not held authoritatively.
pub const TAG_BALL: u8 = 2;

/// Tag byte of a ball-spawner entry.
pub const TAG_SPAWNER: u8 = 3;

/// A malformed blob.  The load aborts; no store is touched.
#[derive(Debug, PartialEq, Eq, Structural, Clone, Copy)]
pub struct DecodeError;

/// A 32-bit word as its four little-endian bytes.
pub open spec fn enc_u32(v: u32) -> Seq<u8> {
    seq![
        (v & 0xff) as u8,
        ((v >> 8) & 0xff) as u8,
        ((v >> 16) & 0xff) as u8,
        ((v >> 24) & 0xff) as u8,
    ]
}

/// Four little-endian bytes as their 32-bit word.
pub open spec fn dec_u32(b0: u8, b1: u8, b2: u8, b3: u8) -> u32 {
    (b0 as u32) | ((b1 as u32) << 8) | ((b2 as u32) << 16) | ((b3 as u32) << 24)
}

/// A note list, one word per note.
pub open spec fn enc_notes(notes: Seq<u32>) -> Seq<u8>
    decreases notes.len(),
{
    if notes.len() == 0 {
        Seq::empty()
    } else {
        enc_u32(notes[0]) + enc_notes(notes.skip(1))
    }
}

/// One object: its tag byte, its position, and for a peg its counted note
/// list.
pub open spec fn enc_object(o: ObjectView) -> Seq<u8> {
    match o {
        ObjectView::Peg { x, y, notes } => seq![TAG_PEG] + enc_u32(x) + enc_u32(y) + enc_u32(
            notes.len() as u32,
        ) + enc_notes(notes),
        ObjectView::Ball { x, y } => seq![TAG_BALL] + enc_u32(x) + enc_u32(y),
        ObjectView::BallSpawner { x, y } => seq![TAG_SPAWNER] + enc_u32(x) + enc_u32(y),
    }
}

/// A run of entries, each its key word then its object.
pub open spec fn enc_entries(entries: Seq<(u32, ObjectView)>) -> Seq<u8>
    decreases entries.len(),
{
    if entries.len() == 0 {
        Seq::empty()
    } else {
        enc_u32(entries[0].0) + enc_object(entries[0].1) + enc_entries(entries.skip(1))
    }
}

/// The whole blob of a store.
pub open spec fn spec_serialize(m: StoreModel) -> Seq<u8> {
    enc_u32(m.next_id) + enc_u32(m.entries.len() as u32) + enc_entries(m.entries)
}

/// Reads one little-endian word, yielding it and the rest of the input.
pub open spec fn parse_u32(s: Seq<u8>) -> Option<(u32, Seq<u8>)> {
    if s.len() >= 4 {
        Some((dec_u32(s[0], s[1], s[2], s[3]), s.skip(4)))
    } else {
        None
    }
}

/// Reads a counted note list, demanding every note in range.
pub open spec fn parse_notes(s: Seq<u8>, n: nat) -> Option<(Seq<u32>, Seq<u8>)>
    decreases n,
{
    if n == 0 {
        Some((Seq::empty(), s))
    } else {
        match parse_u32(s) {
            Some((v, r)) => if v <= 24 {
                match parse_notes(r, (n - 1) as nat) {
                    Some((vs, r2)) => Some((seq![v] + vs, r2)),
                    None => None,
                }
            } else {
                None
            },
            None => None,
        }
    }
}

/// Reads one object: a peg with at least one note, or a spawner.  A ball
/// tag is malformed, since balls are never held authoritatively.
pub open spec fn parse_object(s: Seq<u8>) -> Option<(ObjectView, Seq<u8>)> {
    if s.len() < 1 {
        None
    } else {
        let tag = s[0];
        let r0 = s.skip(1);
        if tag == TAG_PEG {
            match parse_u32(r0) {
                Some((x, r1)) => match parse_u32(r1) {
                    Some((y, r2)) => match parse_u32(r2) {
                        Some((cnt, r3)) => if cnt >= 1 {
                            match parse_notes(r3, cnt as nat) {
                                Some((notes, r4)) => Some((ObjectView::Peg { x, y, notes }, r4)),
                                None => None,
                            }
                        } else {
                            None
                        },
                        None => None,
                    },
                    None => None,
                },
                None => None,
            }
        } else if tag == TAG_SPAWNER {
            match parse_u32(r0) {
                Some((x, r1)) => match parse_u32(r1) {
                    Some((y, r2)) => Some((ObjectView::BallSpawner { x, y }, r2)),
                    None => None,
                },
                None => None,
            }
        } else {
            None
        }
    }
}

/// Reads a counted run of entries, each a key word then an object.
pub open spec fn parse_entries(s: Seq<u8>, n: nat) -> Option<(Seq<(u32, ObjectView)>, Seq<u8>)>
    decreases n,
{
    if n == 0 {
        Some((Seq::empty(), s))
    } else {
        match parse_u32(s) {
            Some((key, r1)) => match parse_object(r1) {
                Some((obj, r2)) => match parse_entries(r2, (n - 1) as nat) {
                    Some((es, r3)) => Some((seq![(key, obj)] + es, r3)),
                    None => None,
                },
                None => None,
            },
            None => None,
        }
    }
}

/// The store a blob decodes to: the counter, the counted entries, nothing
/// left over, and the whole a well-formed store — or nothing.
pub open spec fn spec_deserialize(s: Seq<u8>) -> Option<StoreModel> {
    match parse_u32(s) {
        Some((next_id, r1)) => match parse_u32(r1) {
            Some((count, r2)) => match parse_entries(r2, count as nat) {
                Some((entries, r3)) => {
                    let m = StoreModel { entries, next_id };
                    if r3.len() == 0 && m.wf() {
                        Some(m)
                    } else {
                        None
                    }
                },
                None => None,
            },
            None => None,
        },
        None => None,
    }
}

/// Encoding a concatenation of note lists concatenates the encodings.
proof fn lemma_enc_notes_append(a: Seq<u32>, b: Seq<u32>)
    ensures
        enc_notes(a + b) =~= enc_notes(a) + enc_notes(b),
    decreases a.len(),
{
    if a.len() == 0 {
        assert(a + b =~= b);
        assert(enc_notes(a) + enc_notes(b) =~= enc_notes(b));
    } else {
        assert((a + b).skip(1) =~= a.skip(1) + b);
        assert((a + b)[0] == a[0]);
        lemma_enc_notes_append(a.skip(1), b);
        assert(enc_notes(a + b) =~= enc_u32(a[0]) + (enc_notes(a.skip(1)) + enc_notes(b)));
        assert(enc_u32(a[0]) + (enc_notes(a.skip(1)) + enc_notes(b)) =~= (enc_u32(a[0])
            + enc_notes(a.skip(1))) + enc_notes(b));
    }
}

/// Encoding a concatenation of entry runs concatenates the encodings.
proof fn lemma_enc_entries_append(a: Seq<(u32, ObjectView)>, b: Seq<(u32, ObjectView)>)
    ensures
        enc_entries(a + b) =~= enc_entries(a) + enc_entries(b),
    decreases a.len(),
{
    if a.len() == 0 {
        assert(a + b =~= b);
        assert(enc_entries(a) + enc_entries(b) =~= enc_entries(b));
    } else {
        assert((a + b).skip(1) =~= a.skip(1) + b);
        assert((a + b)[0] == a[0]);
        lemma_enc_entries_append(a.skip(1), b);
        assert(enc_entries(a + b) =~= enc_u32(a[0].0) + enc_object(a[0].1) + (enc_entries(
            a.skip(1),
        ) + enc_entries(b)));
        assert(enc_u32(a[0].0) + enc_object(a[0].1) + (enc_entries(a.skip(1)) + enc_entries(b))
            =~= (enc_u32(a[0].0) + enc_object(a[0].1) + enc_entries(a.skip(1))) + enc_entries(b));
    }
}

/// In a well-formed store each key is at least its position, because keys
/// strictly increase.
proof fn lemma_key_at_least_index(m: StoreModel, i: int)
    requires
        m.wf(),
        0 <= i < m.entries.len(),
    ensures
        m.entries[i].0 >= i,
    decreases i,
{
    if i > 0 {
        lemma_key_at_least_index(m, i - 1);
        assert(m.entries[i - 1].0 < m.entries[i].0);
    }
}

/// A well-formed store holds no more entries than the counter can count.
pub proof fn lemma_entry_count_bound(m: StoreModel)
    requires
        m.wf(),
    ensures
        m.entries.len() <= u32::MAX,
{
    if m.entries.len() > 0 {
        let last = m.entries.len() - 1;
        lemma_key_at_least_index(m, last);
        assert(m.entries[last].0 < m.next_id);
    }
}

/// Appends the four little-endian bytes of a word.
fn push_u32(out: &mut Vec<u8>, v: u32)
    ensures
        final(out)@ =~= old(out)@ + enc_u32(v),
{
    proof {
        assert((v & 0xff) < 256 && ((v >> 8) & 0xff) < 256 && ((v >> 16) & 0xff) < 256 && ((v
            >> 24) & 0xff) < 256) by (bit_vector);
    }
    out.push((v & 0xff) as u8);
    out.push(((v >> 8) & 0xff) as u8);
    out.push(((v >> 16) & 0xff) as u8);
    out.push(((v >> 24) & 0xff) as u8);
}

/// Appends the encoding of one object.
fn push_object(out: &mut Vec<u8>, obj: &Object)
    requires
        obj@.wf(),
        !(obj@ is Ball),
        obj@.notes().len() <= u32::MAX,
    ensures
        final(out)@ =~= old(out)@ + enc_object(obj@),
{
    match obj {
        Object::Peg(x, y, notes) => {
            out.push(TAG_PEG);
            push_u32(out, *x);
            push_u32(out, *y);
            push_u32(out, notes.len() as u32);
            let ghost base = out@;
            let n = notes.len();
            let mut j: usize = 0;
            proof {
                assert(notes@.take(0) =~= Seq::<u32>::empty());
                assert(base + enc_notes(notes@.take(0)) =~= base);
            }
            while j < n
                invariant
                    n == notes@.len(),
                    j <= n,
                    out@ =~= base + enc_notes(notes@.take(j as int)),
                decreases n - j,
            {
                push_u32(out, notes[j]);
                proof {
                    assert(notes@.take(j as int + 1) =~= notes@.take(j as int) + seq![
                        notes@[j as int],
                    ]);
                    lemma_enc_notes_append(notes@.take(j as int), seq![notes@[j as int]]);
                    assert(seq![notes@[j as int]].skip(1) =~= Seq::<u32>::empty());
                    assert(enc_notes(Seq::<u32>::empty()) =~= Seq::<u8>::empty());
                    assert(enc_u32(notes@[j as int]) + Seq::<u8>::empty() =~= enc_u32(
                        notes@[j as int],
                    ));
                    assert(enc_notes(seq![notes@[j as int]]) =~= enc_u32(notes@[j as int]));
                    assert(base + (enc_notes(notes@.take(j as int)) + enc_u32(notes@[j as int]))
                        =~= (base + enc_notes(notes@.take(j as int))) + enc_u32(notes@[j as int]));
                }
                j = j + 1;
            }
            proof {
                assert(notes@.take(n as int) =~= notes@);
                assert(out@ =~= old(out)@ + enc_object(obj@));
            }
        }
        Object::Ball(_, _) => {
            proof {
                assert(false);
            }
        }
        Object::BallSpawner(x, y) => {
            out.push(TAG_SPAWNER);
            push_u32(out, *x);
            push_u32(out, *y);
            proof {
                assert(out@ =~= old(out)@ + enc_object(obj@));
            }
        }
    }
}

/// Serializes a store into its blob.
pub fn serialize(scene_objects: &SceneObjects) -> (out: Vec<u8>)
    requires
        scene_objects@.wf(),
        forall|i: int|
            0 <= i < scene_objects@.entries.len() ==> (#[trigger] scene_objects@.entries[
                i
            ].1).notes().len() <= u32::MAX,
    ensures
        out@ =~= spec_serialize(scene_objects@),
{
    let ghost m = scene_objects@;
    let mut out: Vec<u8> = Vec::new();
    proof {
        assert(Seq::<u8>::empty() + enc_u32(m.next_id) =~= enc_u32(m.next_id));
        lemma_entry_count_bound(m);
    }
    push_u32(&mut out, scene_objects.next_id());
    let n = scene_objects.len();
    push_u32(&mut out, n as u32);
    let ghost base = out@;
    let mut i: usize = 0;
    proof {
        assert(m.entries.take(0) =~= Seq::<(u32, ObjectView)>::empty());
        assert(base + enc_entries(m.entries.take(0)) =~= base);
    }
    while i < n
        invariant
            n == m.entries.len(),
            m == scene_objects@,
            m.wf(),
            forall|k: int|
                0 <= k < m.entries.len() ==> (#[trigger] m.entries[k].1).notes().len()
                    <= u32::MAX,
            i <= n,
            out@ =~= base + enc_entries(m.entries.take(i as int)),
        decreases n - i,
    {
        let (id, obj) = scene_objects.entry_at(i);
        push_u32(&mut out, id);
        push_object(&mut out, obj);
        proof {
            let e = m.entries[i as int];
            assert(m.entries.take(i as int + 1) =~= m.entries.take(i as int) + seq![e]);
            lemma_enc_entries_append(m.entries.take(i as int), seq![e]);
            assert(enc_entries(seq![e]) =~= enc_u32(e.0) + enc_object(e.1)) by {
                assert(seq![e].skip(1) =~= Seq::<(u32, ObjectView)>::empty());
                assert(enc_entries(Seq::<(u32, ObjectView)>::empty()) =~= Seq::<u8>::empty());
                assert(enc_u32(e.0) + enc_object(e.1) + Seq::<u8>::empty() =~= enc_u32(e.0)
                    + enc_object(e.1));
            }
            assert(base + (enc_entries(m.entries.take(i as int)) + enc_entries(seq![e])) =~= (base
                + enc_entries(m.entries.take(i as int))) + enc_entries(seq![e]));
        }
        i = i + 1;
    }
    proof {
        assert(m.entries.take(n as int) =~= m.entries);
        assert(out@ =~= spec_serialize(m));
    }
    out
}

/// Reads one little-endian word at a byte position.
fn read_u32(data: &Vec<u8>, pos: usize) -> (r: Option<(u32, usize)>)
    requires
        pos <= data@.len(),
    ensures
        (match r {
            Some((v, j)) => j == pos + 4 && pos + 4 <= data@.len() && parse_u32(
                data@.skip(pos as int),
            ) == Some((v, data@.skip(j as int))),
            None => parse_u32(data@.skip(pos as int)) is None,
        }),
{
    let n = data.len();
    if n - pos >= 4 {
        let b0 = data[pos];
        let b1 = data[pos + 1];
        let b2 = data[pos + 2];
        let b3 = data[pos + 3];
        let v = (b0 as u32) | ((b1 as u32) << 8) | ((b2 as u32) << 16) | ((b3 as u32) << 24);
        proof {
            let s = data@.skip(pos as int);
            assert(s.len() >= 4);
            assert(s[0] == b0 && s[1] == b1 && s[2] == b2 && s[3] == b3);
            assert(s.skip(4) =~= data@.skip(pos as int + 4));
            assert(v == dec_u32(b0, b1, b2, b3));
        }
        Some((v, pos + 4))
    } else {
        proof {
            assert(data@.skip(pos as int).len() < 4);
        }
        None
    }
}

/// Reads one object at a byte position.
fn read_object(data: &Vec<u8>, pos: usize) -> (r: Option<(Object, usize)>)
    requires
        pos <= data@.len(),
    ensures
        (match r {
            Some((obj, j)) => j <= data@.len() && parse_object(data@.skip(pos as int)) == Some(
                (obj@, data@.skip(j as int)),
            ),
            None => parse_object(data@.skip(pos as int)) is None,
        }),
{
    let n = data.len();
    if pos >= n {
        proof {
            assert(data@.skip(pos as int).len() < 1);
        }
        return None;
    }
    let tag = data[pos];
    let p1 = pos + 1;
    proof {
        assert(data@.skip(pos as int)[0] == tag);
        assert(data@.skip(pos as int).skip(1) =~= data@.skip(p1 as int));
    }
    if tag == TAG_PEG {
        let (x, p2) = match read_u32(data, p1) {
            Some(t) => t,
            None => {
                return None;
            }
        };
        let (y, p3) = match read_u32(data, p2) {
            Some(t) => t,
            None => {
                return None;
            }
        };
        let (cnt, p4) = match read_u32(data, p3) {
            Some(t) => t,
            None => {
                return None;
            }
        };
        if cnt == 0 {
            return None;
        }
        let mut notes: Vec<u32> = Vec::new();
        let mut cur = p4;
        let mut k: u32 = 0;
        while k < cnt
            invariant
                pos < data@.len(),
                data@.skip(pos as int)[0] == TAG_PEG,
                data@.skip(pos as int).skip(1) == data@.skip(p1 as int),
                p1 <= data@.len(),
                parse_u32(data@.skip(p1 as int)) == Some((x, data@.skip(p2 as int))),
                parse_u32(data@.skip(p2 as int)) == Some((y, data@.skip(p3 as int))),
                parse_u32(data@.skip(p3 as int)) == Some((cnt, data@.skip(p4 as int))),
                cnt >= 1,
                cur <= data@.len(),
                k <= cnt,
                notes@.len() == k,
                forall|t: int| 0 <= t < notes@.len() ==> notes@[t] <= 24,
                parse_notes(data@.skip(p4 as int), cnt as nat) == (match parse_notes(
                    data@.skip(cur as int),
                    (cnt - k) as nat,
                ) {
                    Some((vs, rest)) => Some((notes@ + vs, rest)),
                    None => None,
                }),
            decreases cnt - k,
        {
            let r = read_u32(data, cur);
            proof {
                if r is None {
                    assert(parse_notes(data@.skip(cur as int), (cnt - k) as nat) is None);
                    assert(parse_notes(data@.skip(p4 as int), cnt as nat) is None);
                    assert(parse_object(data@.skip(pos as int)) is None);
                }
            }
            let (v, next) = match r {
                Some(t) => t,
                None => {
                    return None;
                }
            };
            proof {
                if v > 24 {
                    assert(parse_notes(data@.skip(cur as int), (cnt - k) as nat) is None);
                    assert(parse_notes(data@.skip(p4 as int), cnt as nat) is None);
                    assert(parse_object(data@.skip(pos as int)) is None);
                }
            }
            if v > 24 {
                return None;
            }
            let ghost notes_before = notes@;
            notes.push(v);
            proof {
                let tail = parse_notes(data@.skip(next as int), (cnt - k - 1) as nat);
                assert(parse_notes(data@.skip(cur as int), (cnt - k) as nat) == (match tail {
                    Some((vs, rest)) => Some((seq![v] + vs, rest)),
                    None => None,
                }));
                if tail is Some {
                    let pair = tail->0;
                    let vs = pair.0;
                    assert(notes_before + (seq![v] + vs) =~= notes@ + vs);
                } else {
                    assert(parse_notes(data@.skip(p4 as int), cnt as nat) is None);
                }
            }
            cur = next;
            k = k + 1;
        }
        proof {
            assert(parse_notes(data@.skip(cur as int), 0nat) == Some(
                (Seq::<u32>::empty(), data@.skip(cur as int)),
            ));
            assert(notes@ + Seq::<u32>::empty() =~= notes@);
            assert(parse_notes(data@.skip(p4 as int), cnt as nat) == Some(
                (notes@, data@.skip(cur as int)),
            ));
            assert(parse_object(data@.skip(pos as int)) == Some(
                (ObjectView::Peg { x, y, notes: notes@ }, data@.skip(cur as int)),
            ));
        }
        Some((Object::Peg(x, y, notes), cur))
    } else if tag == TAG_SPAWNER {
        let (x, p2) = match read_u32(data, p1) {
            Some(t) => t,
            None => {
                return None;
            }
        };
        let (y, p3) = match read_u32(data, p2) {
            Some(t) => t,
            None => {
                return None;
            }
        };
        Some((Object::BallSpawner(x, y), p3))
    } else {
        None
    }
}

/// Deserializes a blob into a fresh store: success exactly on the blobs
/// that decode to a well-formed store, and no store is touched on failure.
pub fn deserialize(data: &Vec<u8>) -> (r: Result<SceneObjects, DecodeError>)
    ensures
        (match r {
            Ok(s) => spec_deserialize(data@) == Some(s@) && s@.wf(),
            Err(_) => spec_deserialize(data@) is None,
        }),
{
    proof {
        assert(data@.skip(0) =~= data@);
    }
    let (next_id, p1) = match read_u32(data, 0) {
        Some(t) => t,
        None => {
            return Err(DecodeError);
        }
    };
    let (count, p2) = match read_u32(data, p1) {
        Some(t) => t,
        None => {
            return Err(DecodeError);
        }
    };
    let mut objects: Vec<(u32, Object)> = Vec::new();
    let mut pos = p2;
    let mut k: u32 = 0;
    while k < count
        invariant
            pos <= data@.len(),
            k <= count,
            objects@.len() == k,
            parse_u32(data@) == Some((next_id, data@.skip(p1 as int))),
            parse_u32(data@.skip(p1 as int)) == Some((count, data@.skip(p2 as int))),
            p1 <= data@.len(),
            p2 <= data@.len(),
            parse_entries(data@.skip(p2 as int), count as nat) == (match parse_entries(
                data@.skip(pos as int),
                (count - k) as nat,
            ) {
                Some((es, rest)) => Some((crate::store::pairs_model(objects@) + es, rest)),
                None => None,
            }),
        decreases count - k,
    {
        let (key, q1) = match read_u32(data, pos) {
            Some(t) => t,
            None => {
                return Err(DecodeError);
            }
        };
        let (obj, q2) = match read_object(data, q1) {
            Some(t) => t,
            None => {
                return Err(DecodeError);
            }
        };
        let ghost pairs_before = crate::store::pairs_model(objects@);
        let ghost ov = obj@;
        objects.push((key, obj));
        proof {
            assert(crate::store::pairs_model(objects@) =~= pairs_before.push((key, ov)));
            assert forall|es: Seq<(u32, ObjectView)>| true implies pairs_before + (seq![(key, ov)]
                + es) =~= crate::store::pairs_model(objects@) + es by {
                assert(pairs_before + (seq![(key, ov)] + es) =~= pairs_before.push((key, ov)) + es);
            }
        }
        pos = q2;
        k = k + 1;
    }
    proof {
        assert(parse_entries(data@.skip(pos as int), 0nat) == Some(
            (Seq::<(u32, ObjectView)>::empty(), data@.skip(pos as int)),
        ));
        assert(crate::store::pairs_model(objects@) + Seq::<(u32, ObjectView)>::empty()
            =~= crate::store::pairs_model(objects@));
        assert(parse_entries(data@.skip(p2 as int), count as nat) == Some(
            (crate::store::pairs_model(objects@), data@.skip(pos as int)),
        ));
    }
    if pos != data.len() {
        proof {
            assert(data@.skip(pos as int).len() != 0);
        }
        return Err(DecodeError);
    }
    proof {
        assert(data@.skip(pos as int).len() == 0);
    }
    match SceneObjects::from_entries(objects, next_id) {
        Some(s) => Ok(s),
        None => Err(DecodeError),
    }
}

/// Loads a blob: on success replaces the store wholesale and returns the
/// replay intents that rematerialize its entries, one per entry with its
/// explicit identifier; on a malformed blob leaves the store exactly as it
/// was.  The caller issues a delete-all for stale live instances before
/// routing the replay intents.
pub fn load_store(scene_objects: &mut SceneObjects, data: &Vec<u8>) -> (r: Result<
    Vec<crate::router::SpawnObject>,
    DecodeError,
>)
    ensures
        (match r {
            Ok(evs) => {
                &&& spec_deserialize(data@) == Some(final(scene_objects)@)
                &&& final(scene_objects)@.wf()
                &&& crate::router::intents_view(evs@) =~= crate::router::replay_intents(
                    final(scene_objects)@,
                )
            },
            Err(_) => {
                &&& spec_deserialize(data@) is None
                &&& final(scene_objects)@ == old(scene_objects)@
            },
        }),
{
    match deserialize(data) {
        Ok(s) => {
            let evs = crate::router::replay_commands(&s);
            *scene_objects = s;
            Ok(evs)
        }
        Err(e) => Err(e),
    }
}

/// Reading an encoded word back yields the word and the rest.
proof fn lemma_parse_u32_enc(v: u32, rest: Seq<u8>)
    ensures
        parse_u32(enc_u32(v) + rest) == Some((v, rest)),
{
    let s = enc_u32(v) + rest;
    assert(s.len() >= 4);
    assert(s[0] == (v & 0xff) as u8);
    assert(s[1] == ((v >> 8) & 0xff) as u8);
    assert(s[2] == ((v >> 16) & 0xff) as u8);
    assert(s[3] == ((v >> 24) & 0xff) as u8);
    assert(s.skip(4) =~= rest);
    let b0 = (v & 0xff) as u8;
    let b1 = ((v >> 8) & 0xff) as u8;
    let b2 = ((v >> 16) & 0xff) as u8;
    let b3 = ((v >> 24) & 0xff) as u8;
    assert((b0 as u32) | ((b1 as u32) << 8) | ((b2 as u32) << 16) | ((b3 as u32) << 24)
        == v) by (bit_vector)
        requires
            b0 == (v & 0xff) as u8,
            b1 == ((v >> 8) & 0xff) as u8,
            b2 == ((v >> 16) & 0xff) as u8,
            b3 == ((v >> 24) & 0xff) as u8,
    ;
    assert(dec_u32(s[0], s[1], s[2], s[3]) == v);
}

/// Reading an encoded note list back yields the notes and the rest.
proof fn lemma_parse_notes_enc(notes: Seq<u32>, rest: Seq<u8>)
    requires
        forall|i: int| 0 <= i < notes.len() ==> notes[i] <= 24,
    ensures
        parse_notes(enc_notes(notes) + rest, notes.len()) == Some((notes, rest)),
    decreases notes.len(),
{
    if notes.len() == 0 {
        assert(enc_notes(notes) + rest =~= rest);
        assert(Seq::<u32>::empty() =~= notes);
    } else {
        assert(enc_notes(notes) + rest =~= enc_u32(notes[0]) + (enc_notes(notes.skip(1)) + rest));
        lemma_parse_u32_enc(notes[0], enc_notes(notes.skip(1)) + rest);
        lemma_parse_notes_enc(notes.skip(1), rest);
        assert(seq![notes[0]] + notes.skip(1) =~= notes);
    }
}

/// Reading an encoded object back yields the object and the rest.
proof fn lemma_parse_object_enc(o: ObjectView, rest: Seq<u8>)
    requires
        o.wf(),
        !(o is Ball),
        o.notes().len() <= u32::MAX,
    ensures
        parse_object(enc_object(o) + rest) == Some((o, rest)),
{
    let s = enc_object(o) + rest;
    match o {
        ObjectView::Peg { x, y, notes } => {
            let cnt: u32 = notes.len() as u32;
            let tail1 = enc_u32(y) + (enc_u32(cnt) + (enc_notes(notes) + rest));
            assert(s[0] == TAG_PEG);
            assert(s.skip(1) =~= enc_u32(x) + tail1);
            lemma_parse_u32_enc(x, tail1);
            lemma_parse_u32_enc(y, enc_u32(cnt) + (enc_notes(notes) + rest));
            lemma_parse_u32_enc(cnt, enc_notes(notes) + rest);
            assert(cnt as nat == notes.len());
            assert(cnt >= 1);
            lemma_parse_notes_enc(notes, rest);
        }
        ObjectView::Ball { .. } => {
            assert(false);
        }
        ObjectView::BallSpawner { x, y } => {
            assert(s[0] == TAG_SPAWNER);
            assert(s.skip(1) =~= enc_u32(x) + (enc_u32(y) + rest));
            lemma_parse_u32_enc(x, enc_u32(y) + rest);
            lemma_parse_u32_enc(y, rest);
        }
    }
}

/// Reading an encoded entry run back yields the entries and the rest.
#[verifier::rlimit(50)]
proof fn lemma_parse_entries_enc(entries: Seq<(u32, ObjectView)>, rest: Seq<u8>)
    requires
        forall|i: int|
            0 <= i < entries.len() ==> (#[trigger] entries[i].1).wf() && !(entries[i].1 is Ball)
                && entries[i].1.notes().len() <= u32::MAX,
    ensures
        parse_entries(enc_entries(entries) + rest, entries.len()) == Some((entries, rest)),
    decreases entries.len(),
{
    if entries.len() == 0 {
        assert(enc_entries(entries) + rest =~= rest);
        assert(Seq::<(u32, ObjectView)>::empty() =~= entries);
    } else {
        let head = entries[0];
        assert(enc_entries(entries) + rest =~= enc_u32(head.0) + (enc_object(head.1)
            + (enc_entries(entries.skip(1)) + rest)));
        lemma_parse_u32_enc(head.0, enc_object(head.1) + (enc_entries(entries.skip(1)) + rest));
        lemma_parse_object_enc(head.1, enc_entries(entries.skip(1)) + rest);
        lemma_parse_entries_enc(entries.skip(1), rest);
        assert(seq![(head.0, head.1)] + entries.skip(1) =~= entries);
    }
}

/// Round trip: decoding the blob of any well-formed store yields exactly
/// that store back.
pub proof fn lemma_serialize_round_trip(m: StoreModel)
    requires
        m.wf(),
        forall|i: int|
            0 <= i < m.entries.len() ==> (#[trigger] m.entries[i].1).notes().len() <= u32::MAX,
    ensures
        spec_deserialize(spec_serialize(m)) == Some(m),
{
    lemma_entry_count_bound(m);
    let cnt: u32 = m.entries.len() as u32;
    let blob = spec_serialize(m);
    assert(blob =~= enc_u32(m.next_id) + (enc_u32(cnt) + (enc_entries(m.entries)
        + Seq::<u8>::empty())));
    lemma_parse_u32_enc(m.next_id, enc_u32(cnt) + (enc_entries(m.entries) + Seq::<u8>::empty()));
    lemma_parse_u32_enc(cnt, enc_entries(m.entries) + Seq::<u8>::empty());
    lemma_parse_entries_enc(m.entries, Seq::<u8>::empty());
    assert(cnt as nat == m.entries.len());
    assert(spec_deserialize(blob) == Some(StoreModel { entries: m.entries, next_id: m.next_id }));
    assert(StoreModel { entries: m.entries, next_id: m.next_id } =~= m);
}

} // verus!

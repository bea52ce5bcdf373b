//! The authoritative scene-object store: a mapping from stable identifiers
//! to scene objects, plus the monotonic counter that allocates fresh
//! identifiers.
//!
//! The store is kept as an association list sorted by strictly increasing
//! key; since organic allocation always hands out the counter's current
//! value and then increments it, every insertion lands at the end and the
//! order is maintained for free.  Coordinates are opaque 32-bit patterns:
//! the store copies them but never computes on them.

use vstd::prelude::*;

verus! {

/// A world position as the logic carries it: the two coordinates as opaque
/// 32-bit patterns.  The logic stores and compares them; it never computes
/// on them.
#[derive(Clone, Copy, PartialEq, Eq, Structural, Debug)]
pub struct WorldPos {
    pub x: u32,
    pub y: u32,
}

/// Mathematical image of a single scene object.  Note indices are integers
/// in `0 ..= 24`, addressing a 25-note chromatic range.
#[verifier::ext_equal]
pub enum ObjectView {
    Peg { x: u32, y: u32, notes: Seq<u32> },
    Ball { x: u32, y: u32 },
    BallSpawner { x: u32, y: u32 },
}

impl ObjectView {
    pub open spec fn x(self) -> u32 {
        match self {
            ObjectView::Peg { x, .. } => x,
            ObjectView::Ball { x, .. } => x,
            ObjectView::BallSpawner { x, .. } => x,
        }
    }

    pub open spec fn y(self) -> u32 {
        match self {
            ObjectView::Peg { y, .. } => y,
            ObjectView::Ball { y, .. } => y,
            ObjectView::BallSpawner { y, .. } => y,
        }
    }

    pub open spec fn notes(self) -> Seq<u32> {
        match self {
            ObjectView::Peg { notes, .. } => notes,
            _ => Seq::empty(),
        }
    }

    /// A peg carries at least one note, each within the 25-note range;
    /// balls and spawners carry none.
    pub open spec fn wf(self) -> bool {
        match self {
            ObjectView::Peg { notes, .. } => notes.len() >= 1 && (forall|i: int|
                0 <= i < notes.len() ==> notes[i] <= 24),
            _ => true,
        }
    }

    /// The same object moved to a new position.
    pub open spec fn with_pos(self, x: u32, y: u32) -> ObjectView {
        match self {
            ObjectView::Peg { notes, .. } => ObjectView::Peg { x, y, notes },
            ObjectView::Ball { .. } => ObjectView::Ball { x, y },
            ObjectView::BallSpawner { .. } => ObjectView::BallSpawner { x, y },
        }
    }
}

/// A scene object.  The two coordinates are opaque 32-bit patterns; a peg
/// additionally carries its ordered list of note indices.
pub enum Object {
    Peg(u32, u32, Vec<u32>),
    Ball(u32, u32),
    BallSpawner(u32, u32),
}

impl View for Object {
    type V = ObjectView;

    open spec fn view(&self) -> ObjectView {
        match self {
            Object::Peg(x, y, notes) => ObjectView::Peg { x: *x, y: *y, notes: notes@ },
            Object::Ball(x, y) => ObjectView::Ball { x: *x, y: *y },
            Object::BallSpawner(x, y) => ObjectView::BallSpawner { x: *x, y: *y },
        }
    }
}

impl Clone for Object {
    fn clone(&self) -> (res: Object)
        ensures
            res@ == self@,
    {
        match self {
            Object::Peg(x, y, notes) => {
                let notes2 = notes.clone();
                proof {
                    assert(notes2@ =~= notes@);
                }
                Object::Peg(*x, *y, notes2)
            }
            Object::Ball(x, y) => Object::Ball(*x, *y),
            Object::BallSpawner(x, y) => Object::BallSpawner(*x, *y),
        }
    }
}

/// Compares two note lists element by element.
fn eq_notes(a: &Vec<u32>, b: &Vec<u32>) -> (r: bool)
    ensures
        r == (a@ == b@),
{
    let n = a.len();
    if n != b.len() {
        proof {
            assert(a@ != b@);
        }
        return false;
    }
    let mut i: usize = 0;
    while i < n
        invariant
            n == a@.len(),
            n == b@.len(),
            i <= n,
            forall|k: int| 0 <= k < i ==> a@[k] == b@[k],
        decreases n - i,
    {
        if a[i] != b[i] {
            proof {
                assert(a@[i as int] != b@[i as int]);
            }
            return false;
        }
        i = i + 1;
    }
    proof {
        assert(a@ =~= b@);
    }
    true
}

impl PartialEq for Object {
    /// Two objects are equal when their kinds, positions and note lists
    /// coincide.
    fn eq(&self, other: &Object) -> (r: bool) {
        match (self, other) {
            (Object::Peg(x1, y1, n1), Object::Peg(x2, y2, n2)) => {
                let r = *x1 == *x2 && *y1 == *y2 && eq_notes(n1, n2);
                proof {
                    if r {
                        assert(self@ =~= other@);
                    }
                }
                r
            }
            (Object::Ball(x1, y1), Object::Ball(x2, y2)) => {
                let r = *x1 == *x2 && *y1 == *y2;
                proof {
                    if r {
                        assert(self@ =~= other@);
                    }
                }
                r
            }
            (Object::BallSpawner(x1, y1), Object::BallSpawner(x2, y2)) => {
                let r = *x1 == *x2 && *y1 == *y2;
                proof {
                    if r {
                        assert(self@ =~= other@);
                    }
                }
                r
            }
            _ => false,
        }
    }
}

impl vstd::std_specs::cmp::PartialEqSpecImpl for Object {
    open spec fn obeys_eq_spec() -> bool {
        true
    }

    open spec fn eq_spec(&self, other: &Object) -> bool {
        self@ == other@
    }
}

/// Mathematical image of the whole store: the entries in key order, and the
/// identifier the next organic spawn will receive.
#[verifier::ext_equal]
pub struct StoreModel {
    pub entries: Seq<(u32, ObjectView)>,
    pub next_id: u32,
}

impl StoreModel {
    /// Whether some entry carries the given identifier.
    pub open spec fn has_key(self, id: u32) -> bool {
        exists|i: int| 0 <= i < self.entries.len() && self.entries[i].0 == id
    }

    /// The position of the entry carrying the given identifier.
    pub open spec fn key_index(self, id: u32) -> int {
        choose|i: int| 0 <= i < self.entries.len() && self.entries[i].0 == id
    }

    /// The object stored under the given identifier.
    pub open spec fn value_of(self, id: u32) -> ObjectView {
        self.entries[self.key_index(id)].1
    }

    /// Store well-formedness: keys strictly increase, every key is below the
    /// allocation counter, and every entry is a well-formed peg or spawner —
    /// balls are ephemeral and never held authoritatively.
    pub open spec fn wf(self) -> bool {
        &&& forall|i: int, j: int|
            0 <= i < j < self.entries.len() ==> self.entries[i].0 < self.entries[j].0
        &&& forall|i: int|
            0 <= i < self.entries.len() ==> self.entries[i].0 < self.next_id
        &&& forall|i: int|
            0 <= i < self.entries.len() ==> (#[trigger] self.entries[i].1).wf()
                && !(self.entries[i].1 is Ball)
    }
}

/// In a well-formed store an identifier occurs at no more than one position.
pub proof fn lemma_key_unique(m: StoreModel, i: int, j: int)
    requires
        m.wf(),
        0 <= i < m.entries.len(),
        0 <= j < m.entries.len(),
        m.entries[i].0 == m.entries[j].0,
    ensures
        i == j,
{
    if i < j {
        assert(m.entries[i].0 < m.entries[j].0);
    } else if j < i {
        assert(m.entries[j].0 < m.entries[i].0);
    }
}

/// The mathematical image of raw entry pairs.
pub open spec fn pairs_model(pairs: Seq<(u32, Object)>) -> Seq<(u32, ObjectView)> {
    pairs.map_values(|p: (u32, Object)| (p.0, p.1@))
}

/// Keys that increase between neighbours increase between any two
/// positions.
pub proof fn lemma_adjacent_sorted(entries: Seq<(u32, ObjectView)>, i: int, j: int)
    requires
        forall|k: int| 1 <= k < entries.len() ==> (#[trigger] entries[k]).0 > entries[k - 1].0,
        0 <= i < j < entries.len(),
    ensures
        entries[i].0 < entries[j].0,
    decreases j - i,
{
    if i + 1 < j {
        lemma_adjacent_sorted(entries, i, j - 1);
    }
    assert(entries[j].0 > entries[j - 1].0);
}

/// Checks that an object may stand in the store: a peg with at least one
/// in-range note, or a spawner — never a ball.
pub fn object_wf_check(obj: &Object) -> (b: bool)
    ensures
        b == (obj@.wf() && !(obj@ is Ball)),
{
    match obj {
        Object::Peg(_, _, notes) => {
            proof {
                assert(obj@.notes() =~= notes@);
            }
            let n = notes.len();
            if n == 0 {
                return false;
            }
            let mut i: usize = 0;
            while i < n
                invariant
                    n == notes@.len(),
                    i <= n,
                    obj@ is Peg,
                    obj@.notes() == notes@,
                    forall|k: int| 0 <= k < i ==> notes@[k] <= 24,
                decreases n - i,
            {
                if notes[i] > 24 {
                    proof {
                        assert(obj@.notes()[i as int] > 24);
                    }
                    return false;
                }
                i = i + 1;
            }
            true
        }
        Object::Ball(_, _) => false,
        Object::BallSpawner(_, _) => true,
    }
}

/// The authoritative, serializable scene store: entries sorted by strictly
/// increasing identifier, plus the monotonic allocation counter.
pub struct SceneObjects {
    objects: Vec<(u32, Object)>,
    object_count: u32,
}

impl View for SceneObjects {
    type V = StoreModel;

    closed spec fn view(&self) -> StoreModel {
        StoreModel {
            entries: self.objects@.map_values(|p: (u32, Object)| (p.0, p.1@)),
            next_id: self.object_count,
        }
    }
}

impl Clone for SceneObjects {
    /// A deep copy: the clone's model equals the source's.
    fn clone(&self) -> (res: SceneObjects)
        ensures
            res@ == self@,
    {
        let n = self.objects.len();
        let mut objects: Vec<(u32, Object)> = Vec::new();
        let mut i: usize = 0;
        while i < n
            invariant
                n == self.objects@.len(),
                i <= n,
                objects@.len() == i,
                forall|k: int|
                    0 <= k < i ==> (#[trigger] objects@[k]).0 == self.objects@[k].0 && objects@[
                        k
                    ].1@ == self.objects@[k].1@,
            decreases n - i,
        {
            let p = &self.objects[i];
            objects.push((p.0, p.1.clone()));
            i = i + 1;
        }
        let res = SceneObjects { objects, object_count: self.object_count };
        proof {
            assert(res@.entries =~= self@.entries);
            assert(res@ =~= self@);
        }
        res
    }
}

impl PartialEq for SceneObjects {
    /// Two stores are equal when their counters and entry lists coincide.
    fn eq(&self, other: &SceneObjects) -> (r: bool) {
        if self.object_count != other.object_count {
            return false;
        }
        let n = self.objects.len();
        if n != other.objects.len() {
            proof {
                assert(self@.entries.len() != other@.entries.len());
            }
            return false;
        }
        let mut i: usize = 0;
        while i < n
            invariant
                n == self.objects@.len(),
                n == other.objects@.len(),
                i <= n,
                forall|k: int|
                    0 <= k < i ==> (#[trigger] self.objects@[k]).0 == other.objects@[k].0
                        && self.objects@[k].1@ == other.objects@[k].1@,
            decreases n - i,
        {
            if self.objects[i].0 != other.objects[i].0 {
                proof {
                    assert(self@.entries[i as int].0 != other@.entries[i as int].0);
                }
                return false;
            }
            if !(self.objects[i].1 == other.objects[i].1) {
                proof {
                    assert(self@.entries[i as int].1 != other@.entries[i as int].1);
                }
                return false;
            }
            i = i + 1;
        }
        proof {
            assert(self@.entries =~= other@.entries);
            assert(self@ =~= other@);
        }
        true
    }
}

impl vstd::std_specs::cmp::PartialEqSpecImpl for SceneObjects {
    open spec fn obeys_eq_spec() -> bool {
        true
    }

    open spec fn eq_spec(&self, other: &SceneObjects) -> bool {
        self@ == other@
    }
}

impl SceneObjects {
    /// An empty store whose next organic spawn receives identifier 0.
    pub fn new() -> (s: SceneObjects)
        ensures
            s@.entries =~= Seq::<(u32, ObjectView)>::empty(),
            s@.next_id == 0,
            s@.wf(),
    {
        SceneObjects { objects: Vec::new(), object_count: 0 }
    }

    /// Number of entries currently held.
    pub fn len(&self) -> (n: usize)
        ensures
            n == self@.entries.len(),
    {
        self.objects.len()
    }

    /// The identifier the next organic spawn will be allocated.
    pub fn next_id(&self) -> (id: u32)
        ensures
            id == self@.next_id,
    {
        self.object_count
    }

    /// The entry at a position, in ascending key order.
    pub fn entry_at(&self, i: usize) -> (r: (u32, &Object))
        requires
            i < self@.entries.len(),
        ensures
            r.0 == self@.entries[i as int].0,
            r.1@ == self@.entries[i as int].1,
    {
        let p = &self.objects[i];
        (p.0, &p.1)
    }

    /// Assembles a store wholesale from raw parts, as a load does.  Accepts
    /// exactly the well-formed combinations: keys strictly increasing and
    /// all below the counter, every object a valid peg or spawner.
    pub fn from_entries(objects: Vec<(u32, Object)>, next_id: u32) -> (r: Option<SceneObjects>)
        ensures
            match r {
                Some(s) => s@ == (StoreModel {
                    entries: pairs_model(objects@),
                    next_id,
                }) && s@.wf(),
                None => !(StoreModel { entries: pairs_model(objects@), next_id }).wf(),
            },
    {
        let ghost m = StoreModel { entries: pairs_model(objects@), next_id };
        let n = objects.len();
        let mut i: usize = 0;
        while i < n
            invariant
                n == objects@.len(),
                m == (StoreModel { entries: pairs_model(objects@), next_id }),
                m.entries.len() == n,
                i <= n,
                forall|k: int| 0 <= k < i ==> (#[trigger] m.entries[k]).0 < next_id,
                forall|k: int| 1 <= k < i ==> (#[trigger] m.entries[k]).0 > m.entries[k - 1].0,
                forall|k: int|
                    0 <= k < i ==> (#[trigger] m.entries[k]).1.wf() && !(m.entries[k].1 is Ball),
            decreases n - i,
        {
            let key = objects[i].0;
            proof {
                assert(m.entries[i as int].0 == key);
            }
            if key >= next_id {
                proof {
                    assert(!m.wf());
                }
                return None;
            }
            if i > 0 {
                if objects[i - 1].0 >= key {
                    proof {
                        assert(m.entries[i as int - 1].0 >= m.entries[i as int].0);
                        assert(!m.wf());
                    }
                    return None;
                }
            }
            if !object_wf_check(&objects[i].1) {
                proof {
                    assert(!(m.entries[i as int].1.wf() && !(m.entries[i as int].1 is Ball)));
                    assert(!m.wf());
                }
                return None;
            }
            i = i + 1;
        }
        proof {
            assert forall|a: int, b: int|
                0 <= a < b < m.entries.len() implies m.entries[a].0 < m.entries[b].0 by {
                lemma_adjacent_sorted(m.entries, a, b);
            }
            assert(m.wf());
        }
        Some(SceneObjects { objects, object_count: next_id })
    }

    /// Allocates the counter's current value as a fresh identifier, stores
    /// the object under it, and increments the counter.
    pub fn insert_new(&mut self, obj: Object) -> (id: u32)
        requires
            old(self)@.wf(),
            old(self)@.next_id < u32::MAX,
            obj@.wf(),
            !(obj@ is Ball),
        ensures
            id == old(self)@.next_id,
            final(self)@.entries =~= old(self)@.entries.push((id, obj@)),
            final(self)@.next_id == old(self)@.next_id + 1,
            final(self)@.wf(),
    {
        let id = self.object_count;
        self.objects.push((id, obj));
        self.object_count = self.object_count + 1;
        id
    }

    /// Replaces the object stored under an identifier that is already
    /// present; absent the identifier, leaves the store untouched.  Never
    /// allocates.
    pub fn insert_at(&mut self, id: u32, obj: Object)
        requires
            old(self)@.wf(),
            obj@.wf(),
            !(obj@ is Ball),
        ensures
            final(self)@.next_id == old(self)@.next_id,
            old(self)@.has_key(id) ==> final(self)@.entries =~= old(self)@.entries.update(
                old(self)@.key_index(id),
                (id, obj@),
            ),
            !old(self)@.has_key(id) ==> final(self)@.entries =~= old(self)@.entries,
            final(self)@.wf(),
    {
        let ghost m = self@;
        let n = self.objects.len();
        let mut i: usize = 0;
        while i < n
            invariant
                n == self.objects.len(),
                i <= n,
                self@ == m,
                m == old(self)@,
                m.wf(),
                obj@.wf(),
                !(obj@ is Ball),
                forall|k: int| 0 <= k < i ==> m.entries[k].0 != id,
            decreases n - i,
        {
            if self.objects[i].0 == id {
                self.objects[i] = (id, obj);
                proof {
                    assert(m.entries[i as int].0 == id);
                    assert(m.has_key(id));
                    lemma_key_unique(m, m.key_index(id), i as int);
                    assert(self@.entries =~= m.entries.update(i as int, (id, obj@)));
                }
                return;
            }
            i = i + 1;
        }
        proof {
            assert(!m.has_key(id));
            assert(self@.entries =~= m.entries);
        }
    }

    /// Removes the entry stored under an identifier, if there is one.
    pub fn remove(&mut self, id: u32)
        requires
            old(self)@.wf(),
        ensures
            final(self)@.next_id == old(self)@.next_id,
            old(self)@.has_key(id) ==> final(self)@.entries =~= old(self)@.entries.remove(
                old(self)@.key_index(id),
            ),
            !old(self)@.has_key(id) ==> final(self)@.entries =~= old(self)@.entries,
            final(self)@.wf(),
    {
        let ghost m = self@;
        let n = self.objects.len();
        let mut i: usize = 0;
        while i < n
            invariant
                n == self.objects.len(),
                i <= n,
                self@ == m,
                m == old(self)@,
                m.wf(),
                forall|k: int| 0 <= k < i ==> m.entries[k].0 != id,
            decreases n - i,
        {
            if self.objects[i].0 == id {
                self.objects.remove(i);
                proof {
                    assert(m.entries[i as int].0 == id);
                    assert(m.has_key(id));
                    lemma_key_unique(m, m.key_index(id), i as int);
                    assert(self@.entries =~= m.entries.remove(i as int));
                }
                return;
            }
            i = i + 1;
        }
        proof {
            assert(!m.has_key(id));
            assert(self@.entries =~= m.entries);
        }
    }

    /// Empties the store and resets the allocation counter to 0, so the next
    /// organic spawn receives identifier 0 again.
    pub fn clear(&mut self)
        ensures
            final(self)@.entries =~= Seq::<(u32, ObjectView)>::empty(),
            final(self)@.next_id == 0,
            final(self)@.wf(),
    {
        self.objects.clear();
        self.object_count = 0;
    }

    /// The object stored under an identifier, if there is one.
    pub fn get(&self, id: u32) -> (r: Option<&Object>)
        requires
            self@.wf(),
        ensures
            match r {
                Some(obj) => self@.has_key(id) && obj@ == self@.value_of(id),
                None => !self@.has_key(id),
            },
    {
        let n = self.objects.len();
        let mut i: usize = 0;
        while i < n
            invariant
                n == self.objects.len(),
                i <= n,
                self@.wf(),
                forall|k: int| 0 <= k < i ==> self@.entries[k].0 != id,
            decreases n - i,
        {
            if self.objects[i].0 == id {
                proof {
                    assert(self@.entries[i as int].0 == id);
                    assert(self@.has_key(id));
                    lemma_key_unique(self@, self@.key_index(id), i as int);
                }
                return Some(&self.objects[i].1);
            }
            i = i + 1;
        }
        None
    }

    /// Writes a new position into the entry stored under an identifier,
    /// leaving its notes untouched.  Succeeds exactly when the identifier is
    /// present; a missing entry is reported, never a fault.
    pub fn set_position(&mut self, id: u32, x: u32, y: u32) -> (updated: bool)
        requires
            old(self)@.wf(),
        ensures
            updated == old(self)@.has_key(id),
            final(self)@.next_id == old(self)@.next_id,
            updated ==> final(self)@.entries =~= old(self)@.entries.update(
                old(self)@.key_index(id),
                (id, old(self)@.value_of(id).with_pos(x, y)),
            ),
            !updated ==> final(self)@.entries =~= old(self)@.entries,
            final(self)@.wf(),
    {
        let ghost m = self@;
        let n = self.objects.len();
        let mut i: usize = 0;
        while i < n
            invariant
                n == self.objects.len(),
                i <= n,
                self@ == m,
                m == old(self)@,
                m.wf(),
                forall|k: int| 0 <= k < i ==> m.entries[k].0 != id,
            decreases n - i,
        {
            if self.objects[i].0 == id {
                proof {
                    assert(m.entries[i as int].0 == id);
                    assert(m.has_key(id));
                    lemma_key_unique(m, m.key_index(id), i as int);
                }
                let moved = match &self.objects[i].1 {
                    Object::Peg(_, _, notes) => {
                        let notes2 = notes.clone();
                        proof {
                            assert(notes2@ =~= m.entries[i as int].1.notes());
                        }
                        Object::Peg(x, y, notes2)
                    }
                    Object::Ball(_, _) => Object::Ball(x, y),
                    Object::BallSpawner(_, _) => Object::BallSpawner(x, y),
                };
                proof {
                    assert(moved@ =~= m.entries[i as int].1.with_pos(x, y));
                }
                self.objects[i] = (id, moved);
                proof {
                    assert(self@.entries =~= m.entries.update(
                        i as int,
                        (id, m.value_of(id).with_pos(x, y)),
                    ));
                }
                return true;
            }
            i = i + 1;
        }
        proof {
            assert(!m.has_key(id));
            assert(self@.entries =~= m.entries);
        }
        false
    }
}

} // verus!

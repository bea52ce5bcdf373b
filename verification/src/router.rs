//! The spawn/delete router: consumes spawn and delete-all intents, mutates
//! the store, and describes to the outside world which live instance to
//! materialize or destroy.
//!
//! An organic spawn (no explicit identifier) allocates the store's counter
//! value; a replayed spawn carries an explicit identifier and leaves the
//! store untouched, because a load has already populated it.  Balls are
//! ephemeral: they are materialized but never registered.

use vstd::prelude::*;

use crate::store::Object;
use crate::store::ObjectView;
use crate::store::SceneObjects;
use crate::store::StoreModel;

verus! {

/// Mathematical image of a spawn intent.
#[verifier::ext_equal]
pub struct IntentView {
    pub object: ObjectView,
    pub explicit_id: Option<u32>,
}

/// A request to create a scene object; the identifier is present only on
/// the load-replay path, where the store already holds the entry.
pub struct SpawnObject(pub Object, pub Option<u32>);

impl View for SpawnObject {
    type V = IntentView;

    open spec fn view(&self) -> IntentView {
        IntentView { object: self.0@, explicit_id: self.1 }
    }
}

/// A request to destroy every live instance and empty the store.
pub struct DeleteObjects;

/// Mathematical image of a materialization command.
#[verifier::ext_equal]
pub struct CommandView {
    pub id: Option<u32>,
    pub object: ObjectView,
}

/// Instruction to the render/physics collaborator: materialize a live
/// instance of the object, tagged with the resolved identifier.  Balls are
/// anonymous, so only they carry no identifier.
pub struct SpawnCommand {
    pub id: Option<u32>,
    pub object: Object,
}

impl View for SpawnCommand {
    type V = CommandView;

    open spec fn view(&self) -> CommandView {
        CommandView { id: self.id, object: self.object@ }
    }
}

/// What routing one spawn intent does: the store after, and the command
/// handed to the outside world.
pub open spec fn route_spawn_spec(m: StoreModel, intent: IntentView) -> (StoreModel, CommandView) {
    if intent.object is Ball {
        (m, CommandView { id: None, object: intent.object })
    } else {
        match intent.explicit_id {
            Some(id) => (m, CommandView { id: Some(id), object: intent.object }),
            None => (
                StoreModel {
                    entries: m.entries.push((m.next_id, intent.object)),
                    next_id: (m.next_id + 1) as u32,
                },
                CommandView { id: Some(m.next_id), object: intent.object },
            ),
        }
    }
}

/// What a delete-all does to the store: empties it and resets the counter.
pub open spec fn delete_all_spec(m: StoreModel) -> StoreModel {
    StoreModel { entries: Seq::empty(), next_id: 0 }
}

/// Routes one spawn intent: registers the object when the intent carries no
/// explicit identifier, and returns the materialization command either way.
/// The store mutation happens before the command is handed out, so a live
/// instance never refers to an identifier the store lacks (balls excepted,
/// which never enter the store).
pub fn spawn_object(scene_objects: &mut SceneObjects, ev: SpawnObject) -> (cmd: SpawnCommand)
    requires
        old(scene_objects)@.wf(),
        ev@.object.wf(),
        ev@.explicit_id is None && !(ev@.object is Ball) ==> old(
            scene_objects,
        )@.next_id < u32::MAX,
    ensures
        final(scene_objects)@ =~= route_spawn_spec(old(scene_objects)@, ev@).0,
        cmd@ =~= route_spawn_spec(old(scene_objects)@, ev@).1,
        final(scene_objects)@.wf(),
{
    let SpawnObject(obj, explicit) = ev;
    match &obj {
        Object::Ball(_, _) => SpawnCommand { id: None, object: obj },
        _ => {
            match explicit {
                Some(id) => SpawnCommand { id: Some(id), object: obj },
                None => {
                    let copy = obj.clone();
                    let id = scene_objects.insert_new(obj);
                    SpawnCommand { id: Some(id), object: copy }
                }
            }
        }
    }
}

/// Empties the store and resets the identifier counter; the caller destroys
/// every live peg, ball and spawner instance alongside.
pub fn delete_all_objects(scene_objects: &mut SceneObjects)
    ensures
        final(scene_objects)@ =~= delete_all_spec(old(scene_objects)@),
        final(scene_objects)@.entries.len() == 0,
        final(scene_objects)@.next_id == 0,
        final(scene_objects)@.wf(),
{
    scene_objects.clear();
}

/// The replay intents of a store: one spawn per entry, in key order, each
/// carrying the entry's identifier explicitly.
pub open spec fn replay_intents(m: StoreModel) -> Seq<IntentView> {
    Seq::new(
        m.entries.len(),
        |i: int| IntentView { object: m.entries[i].1, explicit_id: Some(m.entries[i].0) },
    )
}

/// The views of a queue of spawn intents.
pub open spec fn intents_view(evs: Seq<SpawnObject>) -> Seq<IntentView> {
    evs.map_values(|e: SpawnObject| e@)
}

/// The views of a queue of materialization commands.
pub open spec fn commands_view(cmds: Seq<SpawnCommand>) -> Seq<CommandView> {
    cmds.map_values(|c: SpawnCommand| c@)
}

/// Builds the spawn intents that rematerialize a loaded store: exactly one
/// per entry, each with its explicit identifier.  The store is only read.
pub fn replay_commands(scene_objects: &SceneObjects) -> (evs: Vec<SpawnObject>)
    requires
        scene_objects@.wf(),
    ensures
        intents_view(evs@) =~= replay_intents(scene_objects@),
        evs@.len() == scene_objects@.entries.len(),
{
    let n = scene_objects.len();
    let mut evs: Vec<SpawnObject> = Vec::new();
    let mut i: usize = 0;
    while i < n
        invariant
            n == scene_objects@.entries.len(),
            scene_objects@.wf(),
            i <= n,
            evs@.len() == i,
            forall|k: int|
                0 <= k < i ==> (#[trigger] evs@[k])@.object == scene_objects@.entries[k].1
                    && evs@[k]@.explicit_id == Some(scene_objects@.entries[k].0),
        decreases n - i,
    {
        let (id, obj) = scene_objects.entry_at(i);
        evs.push(SpawnObject(obj.clone(), Some(id)));
        i = i + 1;
    }
    proof {
        assert forall|k: int| 0 <= k < n implies intents_view(evs@)[k] == replay_intents(
            scene_objects@,
        )[k] by {
            assert(intents_view(evs@)[k] == evs@[k]@);
            assert(evs@[k]@ =~= replay_intents(scene_objects@)[k]);
        }
        assert(intents_view(evs@) =~= replay_intents(scene_objects@));
    }
    evs
}

/// What routing a whole queue of spawn intents does, first intent first.
pub open spec fn route_seq(m: StoreModel, intents: Seq<IntentView>) -> (StoreModel, Seq<
    CommandView,
>)
    decreases intents.len(),
{
    if intents.len() == 0 {
        (m, Seq::empty())
    } else {
        let first = route_spawn_spec(m, intents[0]);
        let rest = route_seq(first.0, intents.skip(1));
        (rest.0, seq![first.1] + rest.1)
    }
}

/// How many intents of a queue allocate an identifier organically.
pub open spec fn organic_count(intents: Seq<IntentView>) -> nat
    decreases intents.len(),
{
    if intents.len() == 0 {
        0
    } else {
        (if intents[0].explicit_id is None && !(intents[0].object is Ball) {
            1nat
        } else {
            0nat
        }) + organic_count(intents.skip(1))
    }
}

/// Drains a queue of spawn intents in order, mutating the store as each
/// demands, and returns the materialization commands in the same order.
pub fn drain_spawn_queue(scene_objects: &mut SceneObjects, intents: &Vec<SpawnObject>) -> (cmds:
    Vec<SpawnCommand>)
    requires
        old(scene_objects)@.wf(),
        forall|i: int| 0 <= i < intents@.len() ==> (#[trigger] intents@[i])@.object.wf(),
        old(scene_objects)@.next_id + organic_count(intents_view(intents@)) <= u32::MAX,
    ensures
        final(scene_objects)@ =~= route_seq(old(scene_objects)@, intents_view(intents@)).0,
        commands_view(cmds@) =~= route_seq(old(scene_objects)@, intents_view(intents@)).1,
        final(scene_objects)@.wf(),
{
    let ghost m0 = scene_objects@;
    let ghost iv = intents_view(intents@);
    let n = intents.len();
    let mut cmds: Vec<SpawnCommand> = Vec::new();
    let mut i: usize = 0;
    proof {
        assert(iv.skip(0) =~= iv);
        assert(commands_view(cmds@) =~= Seq::<CommandView>::empty());
        assert(Seq::<CommandView>::empty() + route_seq(scene_objects@, iv).1 =~= route_seq(
            scene_objects@,
            iv,
        ).1);
    }
    while i < n
        invariant
            n == intents@.len(),
            iv == intents_view(intents@),
            iv.len() == n,
            forall|k: int| 0 <= k < n ==> (#[trigger] iv[k]).object.wf(),
            i <= n,
            cmds@.len() == i,
            scene_objects@.wf(),
            scene_objects@.next_id + organic_count(iv.skip(i as int)) <= u32::MAX,
            route_seq(m0, iv).0 =~= route_seq(scene_objects@, iv.skip(i as int)).0,
            route_seq(m0, iv).1 =~= commands_view(cmds@) + route_seq(
                scene_objects@,
                iv.skip(i as int),
            ).1,
        decreases n - i,
    {
        proof {
            assert(iv[i as int] == intents@[i as int]@);
            assert(iv.skip(i as int)[0] == iv[i as int]);
            assert(iv.skip(i as int).skip(1) =~= iv.skip(i as int + 1));
        }
        let ghost m_before = scene_objects@;
        let ev = SpawnObject(intents[i].0.clone(), intents[i].1);
        let cmd = spawn_object(scene_objects, ev);
        proof {
            let step = route_spawn_spec(m_before, iv[i as int]);
            assert(scene_objects@ =~= step.0);
            assert(cmd@ =~= step.1);
            assert(route_seq(m_before, iv.skip(i as int)).0 =~= route_seq(
                scene_objects@,
                iv.skip(i as int + 1),
            ).0);
            assert(route_seq(m_before, iv.skip(i as int)).1 =~= seq![cmd@] + route_seq(
                scene_objects@,
                iv.skip(i as int + 1),
            ).1);
        }
        cmds.push(cmd);
        proof {
            assert(commands_view(cmds@) =~= commands_view(cmds@.take(i as int)).push(cmd@));
            assert(route_seq(m0, iv).1 =~= commands_view(cmds@) + route_seq(
                scene_objects@,
                iv.skip(i as int + 1),
            ).1);
        }
        i = i + 1;
    }
    proof {
        assert(iv.skip(n as int) =~= Seq::<IntentView>::empty());
        assert(route_seq(scene_objects@, iv.skip(n as int)).1 =~= Seq::<CommandView>::empty());
        assert(commands_view(cmds@) + Seq::<CommandView>::empty() =~= commands_view(cmds@));
    }
    cmds
}

/// Identifier monotonicity: a run of organic spawns between resets is
/// allocated the counter's consecutive values, so the identifiers are
/// strictly increasing and pairwise distinct.
pub proof fn lemma_spawn_ids_monotonic(m: StoreModel, intents: Seq<IntentView>)
    requires
        forall|i: int|
            0 <= i < intents.len() ==> (#[trigger] intents[i]).explicit_id is None && !(
            intents[i].object is Ball),
        m.next_id + intents.len() <= u32::MAX,
    ensures
        route_seq(m, intents).1.len() == intents.len(),
        forall|i: int|
            0 <= i < intents.len() ==> (#[trigger] route_seq(m, intents).1[i]).id == Some(
                (m.next_id + i) as u32,
            ),
        forall|i: int, j: int|
            0 <= i < j < intents.len() ==> route_seq(m, intents).1[i].id != route_seq(
                m,
                intents,
            ).1[j].id,
    decreases intents.len(),
{
    if intents.len() > 0 {
        let first = route_spawn_spec(m, intents[0]);
        lemma_spawn_ids_monotonic(first.0, intents.skip(1));
        assert forall|i: int| 0 <= i < intents.len() implies (#[trigger] route_seq(
            m,
            intents,
        ).1[i]).id == Some((m.next_id + i) as u32) by {
            if i > 0 {
                assert(route_seq(m, intents).1[i] == route_seq(first.0, intents.skip(1)).1[i - 1]);
            }
        }
    }
}

/// Replay non-duplication: routing the replay intents of a store performs
/// no insertion — the store is unchanged — and emits exactly one command
/// per entry, tagged with that entry's identifier.
pub proof fn lemma_replay_non_duplication(m: StoreModel)
    requires
        m.wf(),
    ensures
        route_seq(m, replay_intents(m)).0 == m,
        route_seq(m, replay_intents(m)).1.len() == m.entries.len(),
        forall|i: int|
            0 <= i < m.entries.len() ==> (#[trigger] route_seq(m, replay_intents(m)).1[i]).id
                == Some(m.entries[i].0),
{
    lemma_explicit_intents_no_insert(m, replay_intents(m));
}

/// Routing intents that all carry explicit identifiers (and name no ball)
/// never touches the store, and answers each intent with its own
/// identifier.
pub proof fn lemma_explicit_intents_no_insert(m: StoreModel, intents: Seq<IntentView>)
    requires
        forall|i: int|
            0 <= i < intents.len() ==> (#[trigger] intents[i]).explicit_id is Some && !(
            intents[i].object is Ball),
    ensures
        route_seq(m, intents).0 == m,
        route_seq(m, intents).1.len() == intents.len(),
        forall|i: int|
            0 <= i < intents.len() ==> (#[trigger] route_seq(m, intents).1[i]).id
                == intents[i].explicit_id,
    decreases intents.len(),
{
    if intents.len() > 0 {
        let first = route_spawn_spec(m, intents[0]);
        assert(first.0 == m);
        lemma_explicit_intents_no_insert(m, intents.skip(1));
        assert forall|i: int| 0 <= i < intents.len() implies (#[trigger] route_seq(
            m,
            intents,
        ).1[i]).id == intents[i].explicit_id by {
            if i > 0 {
                assert(route_seq(m, intents).1[i] == route_seq(m, intents.skip(1)).1[i - 1]);
                assert(intents.skip(1)[i - 1] == intents[i]);
            }
        }
    }
}

/// Reset invariant: after a delete-all the store is empty, and the next
/// organic spawn is allocated identifier 0.
pub proof fn lemma_reset_then_spawn(m: StoreModel, intent: IntentView)
    requires
        intent.explicit_id is None,
        !(intent.object is Ball),
    ensures
        delete_all_spec(m).entries.len() == 0,
        delete_all_spec(m).next_id == 0,
        route_spawn_spec(delete_all_spec(m), intent).1.id == Some(0u32),
        route_spawn_spec(delete_all_spec(m), intent).0.entries =~= seq![(0u32, intent.object)],
{
}

/// Idempotent delete-all: a second delete-all with nothing spawned between
/// changes nothing, and the store is empty both times.
pub proof fn lemma_delete_all_idempotent(m: StoreModel)
    ensures
        delete_all_spec(delete_all_spec(m)) == delete_all_spec(m),
        delete_all_spec(m).entries.len() == 0,
        delete_all_spec(m).wf(),
{
}

} // verus!


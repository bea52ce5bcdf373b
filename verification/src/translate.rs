//! Pointer-click translators and the session-level user actions that only
//! read the store.
//!
//! Each translator turns one input edge plus the projected pointer position
//! into a spawn or delete intent; none of them touches the store.  All
//! click translators are inert while the UI overlay captures the pointer.

use vstd::prelude::*;

use crate::router::DeleteObjects;
use crate::router::IntentView;
use crate::router::SpawnObject;
use crate::store::Object;
use crate::store::ObjectView;
use crate::store::SceneObjects;
use crate::store::WorldPos;

verus! {

/// Translates the secondary-click edge into a ball spawn intent at the
/// pointer position, unless the overlay holds the pointer or the pointer
/// projects nowhere.
pub fn spawn_ball(just_pressed: bool, pointer_captured: bool, pointer: Option<WorldPos>) -> (ev:
    Option<SpawnObject>)
    ensures
        match ev {
            Some(e) => just_pressed && !pointer_captured && pointer is Some && e@ == (IntentView {
                object: ObjectView::Ball { x: pointer->0.x, y: pointer->0.y },
                explicit_id: None,
            }),
            None => !(just_pressed && !pointer_captured && pointer is Some),
        },
{
    if just_pressed && !pointer_captured {
        match pointer {
            Some(p) => Some(SpawnObject(Object::Ball(p.x, p.y), None)),
            None => None,
        }
    } else {
        None
    }
}

/// Translates the tertiary-click edge into a ball-spawner spawn intent at
/// the pointer position, under the same guards as the ball translator.
pub fn spawn_ball_spawner(
    just_pressed: bool,
    pointer_captured: bool,
    pointer: Option<WorldPos>,
) -> (ev: Option<SpawnObject>)
    ensures
        match ev {
            Some(e) => just_pressed && !pointer_captured && pointer is Some && e@ == (IntentView {
                object: ObjectView::BallSpawner { x: pointer->0.x, y: pointer->0.y },
                explicit_id: None,
            }),
            None => !(just_pressed && !pointer_captured && pointer is Some),
        },
{
    if just_pressed && !pointer_captured {
        match pointer {
            Some(p) => Some(SpawnObject(Object::BallSpawner(p.x, p.y), None)),
            None => None,
        }
    } else {
        None
    }
}

/// Translates the clear-all key edge into a delete-all intent.
pub fn clear_screen(just_pressed: bool) -> (ev: Option<DeleteObjects>)
    ensures
        ev is Some <==> just_pressed,
{
    if just_pressed {
        Some(DeleteObjects)
    } else {
        None
    }
}

/// One anonymous ball intent per ball-spawner entry of a store, in key
/// order, each at its spawner's current position.
pub open spec fn spawner_ball_intents(entries: Seq<(u32, ObjectView)>) -> Seq<IntentView>
    decreases entries.len(),
{
    if entries.len() == 0 {
        Seq::empty()
    } else {
        (if entries[0].1 is BallSpawner {
            seq![
                IntentView {
                    object: ObjectView::Ball { x: entries[0].1.x(), y: entries[0].1.y() },
                    explicit_id: None,
                },
            ]
        } else {
            Seq::empty()
        }) + spawner_ball_intents(entries.skip(1))
    }
}

/// The session Start action: spawns one ball from every ball spawner, at
/// the spawner's current position.  The store is only read.
pub fn start_intents(scene_objects: &SceneObjects) -> (evs: Vec<SpawnObject>)
    requires
        scene_objects@.wf(),
    ensures
        crate::router::intents_view(evs@) =~= spawner_ball_intents(scene_objects@.entries),
{
    let ghost entries = scene_objects@.entries;
    let mut evs: Vec<SpawnObject> = Vec::new();
    let n = scene_objects.len();
    let mut i: usize = 0;
    proof {
        assert(entries.skip(0) =~= entries);
        assert(crate::router::intents_view(evs@) =~= Seq::<IntentView>::empty());
        assert(Seq::<IntentView>::empty() + spawner_ball_intents(entries) =~= spawner_ball_intents(
            entries,
        ));
    }
    while i < n
        invariant
            n == entries.len(),
            entries == scene_objects@.entries,
            scene_objects@.wf(),
            i <= n,
            spawner_ball_intents(entries) =~= crate::router::intents_view(evs@)
                + spawner_ball_intents(entries.skip(i as int)),
        decreases n - i,
    {
        proof {
            assert(entries.skip(i as int)[0] == entries[i as int]);
            assert(entries.skip(i as int).skip(1) =~= entries.skip(i as int + 1));
        }
        let ghost evs_before = evs@;
        let (_, obj) = scene_objects.entry_at(i);
        match obj {
            Object::BallSpawner(x, y) => {
                evs.push(SpawnObject(Object::Ball(*x, *y), None));
                proof {
                    assert(crate::router::intents_view(evs@) =~= crate::router::intents_view(
                        evs_before,
                    ).push(evs@[evs@.len() - 1]@));
                }
            }
            _ => {}
        }
        proof {
            let head: Seq<IntentView> = if entries[i as int].1 is BallSpawner {
                seq![
                    IntentView {
                        object: ObjectView::Ball {
                            x: entries[i as int].1.x(),
                            y: entries[i as int].1.y(),
                        },
                        explicit_id: None,
                    },
                ]
            } else {
                Seq::empty()
            };
            assert(crate::router::intents_view(evs@) =~= crate::router::intents_view(evs_before)
                + head);
            assert(spawner_ball_intents(entries.skip(i as int)) =~= head + spawner_ball_intents(
                entries.skip(i as int + 1),
            ));
            assert((crate::router::intents_view(evs_before) + head) + spawner_ball_intents(
                entries.skip(i as int + 1),
            ) =~= crate::router::intents_view(evs_before) + (head + spawner_ball_intents(
                entries.skip(i as int + 1),
            )));
        }
        i = i + 1;
    }
    proof {
        assert(entries.skip(n as int) =~= Seq::<(u32, ObjectView)>::empty());
        assert(spawner_ball_intents(entries.skip(n as int)) =~= Seq::<IntentView>::empty());
        assert(crate::router::intents_view(evs@) + Seq::<IntentView>::empty()
            =~= crate::router::intents_view(evs@));
    }
    evs
}

} // verus!

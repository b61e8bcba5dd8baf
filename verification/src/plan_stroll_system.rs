//! The stroll planner: autonomous random-walk behavior for entities marked
//! `Strolling`. It only decides; the movement system performs (or rejects)
//! the moves it asks for.
//!
//! Per strolling entity and tick: while waiting and not moving, the
//! remaining wait shrinks by the frame time, and when it runs out the entity
//! asks to move one step in a uniformly random direction and stops waiting.
//! With neither a wait nor a transit in progress (just spawned, or a move
//! just finished) a fresh wait is drawn from `[0, max_pause_micros)`. While
//! mid-transit the movement system owns the entity and the planner leaves it
//! alone.

use crate::components::Direction;
use crate::components::WaitingState;
use crate::events::Event;
use crate::events::EventQueue;
use crate::rng::gen_range_u32;
use crate::world::World;
use crate::world::WorldView;
use vstd::prelude::*;

verus! {

pub struct PlanStrollSystem;

/// Entity `j` finishes its wait this tick and emits a move intent.
pub open spec fn stroll_emits(w: WorldView, j: int, dt: u32) -> bool {
    &&& w.strollings[j] is Some
    &&& w.waitings[j] is Some
    &&& w.movings[j] is None
    &&& w.waitings[j]->Some_0.remaining_wait_micros <= dt
}

/// What this tick does to entity `j`'s `WaitingState`, given the direction
/// draws are fixed: everything except the freshly drawn wait is determined
/// by the entity's own state.
pub open spec fn stroll_entity_ok(pre: WorldView, post: WorldView, j: int, dt: u32) -> bool {
    if pre.strollings[j] is Some {
        if pre.waitings[j] is Some && pre.movings[j] is None {
            if pre.waitings[j]->Some_0.remaining_wait_micros <= dt {
                post.waitings[j] is None
            } else {
                post.waitings[j] == Some(
                    WaitingState {
                        remaining_wait_micros: (pre.waitings[j]->Some_0.remaining_wait_micros
                            - dt) as u32,
                    },
                )
            }
        } else if pre.waitings[j] is None && pre.movings[j] is None {
            exists|r: u32|
                {
                    &&& post.waitings[j] == Some(WaitingState { remaining_wait_micros: r })
                    &&& (pre.strollings[j]->Some_0.max_pause_micros > 0 ==> r
                        < pre.strollings[j]->Some_0.max_pause_micros)
                    &&& (pre.strollings[j]->Some_0.max_pause_micros == 0 ==> r == 0)
                }
        } else {
            post.waitings[j] == pre.waitings[j]
        }
    } else {
        post.waitings[j] == pre.waitings[j]
    }
}

/// The move intents the planner emits for the entities below `j`, in entity
/// order, given `dirs` fixes each entity's random draw.
pub open spec fn emission_upto(pre: WorldView, dirs: Seq<Direction>, dt: u32, j: int) -> Seq<Event>
    decreases j,
{
    if j <= 0 {
        Seq::empty()
    } else {
        emission_upto(pre, dirs, dt, j - 1) + (if stroll_emits(pre, j - 1, dt) {
            seq![Event::EntityTriesMove((j - 1) as usize, dirs[j - 1])]
        } else {
            Seq::<Event>::empty()
        })
    }
}

/// The emission only reads the draws of entities below `j`.
proof fn lemma_emission_push(pre: WorldView, dirs: Seq<Direction>, d: Direction, dt: u32, j: int)
    requires
        0 <= j <= dirs.len(),
    ensures
        emission_upto(pre, dirs.push(d), dt, j) == emission_upto(pre, dirs, dt, j),
    decreases j,
{
    if j > 0 {
        lemma_emission_push(pre, dirs, d, dt, j - 1);
        assert(dirs.push(d)[j - 1] == dirs[j - 1]);
    }
}

impl PlanStrollSystem {
    /// Runs the planner for one tick of `delta_time_micros` microseconds.
    /// Only `WaitingState` components change, each as `stroll_entity_ok`
    /// describes, and the emitted intents land in the current tick's events,
    /// one per strolling entity whose wait ran out, in entity order, each
    /// with some direction.
    pub fn run(world: &mut World, event_queue: &mut EventQueue, delta_time_micros: u32)
        requires
            old(world)@.storages_aligned(),
        ensures
            final(world)@ == (WorldView { waitings: final(world)@.waitings, ..old(world)@ }),
            final(world)@.waitings.len() == old(world)@.waitings.len(),
            forall|j: int|
                0 <= j < old(world)@.len() ==> stroll_entity_ok(
                    old(world)@,
                    final(world)@,
                    j,
                    delta_time_micros,
                ),
            final(event_queue).new_events@ == old(event_queue).new_events@,
            exists|dirs: Seq<Direction>|
                dirs.len() == old(world)@.len() && final(event_queue).events@ == old(
                    event_queue,
                ).events@ + emission_upto(
                    old(world)@,
                    dirs,
                    delta_time_micros,
                    old(world)@.len() as int,
                ),
    {
        let ghost w0 = old(world)@;
        let ghost pre_events = event_queue.events@;
        let mut dirs: Ghost<Seq<Direction>> = Ghost(Seq::empty());
        let n = world.num_entities();
        let mut j: usize = 0;
        while j < n
            invariant
                0 <= j <= n == w0.len(),
                world@.storages_aligned(),
                world@.len() == w0.len(),
                world@ == (WorldView { waitings: world@.waitings, ..w0 }),
                forall|k: int| 0 <= k < j ==> stroll_entity_ok(w0, world@, k, delta_time_micros),
                forall|k: int| j <= k < w0.len() ==> world@.waitings[k] == w0.waitings[k],
                event_queue.new_events@ == old(event_queue).new_events@,
                dirs@.len() == j,
                event_queue.events@ == pre_events + emission_upto(
                    w0,
                    dirs@,
                    delta_time_micros,
                    j as int,
                ),
            decreases n - j,
        {
            let ghost w_before = world@;
            let mut drew: Direction = Direction::Up;
            match world.strollings[j] {
                Some(strolling) => {
                    let waiting = world.waitings[j];
                    let moving_present = world.movings[j].is_some();
                    match waiting {
                        Some(waiting_state) => {
                            if !moving_present {
                                if waiting_state.remaining_wait_micros <= delta_time_micros {
                                    // the wait ran out: pick a direction and
                                    // ask the movement system for one step
                                    let roll = gen_range_u32(4);
                                    let direction = if roll == 0 {
                                        Direction::Up
                                    } else if roll == 1 {
                                        Direction::Down
                                    } else if roll == 2 {
                                        Direction::Left
                                    } else {
                                        Direction::Right
                                    };
                                    drew = direction;
                                    event_queue.events.push(
                                        Event::EntityTriesMove(j, direction),
                                    );
                                    world.waitings[j] = None;
                                } else {
                                    world.waitings[j] = Some(
                                        WaitingState {
                                            remaining_wait_micros: waiting_state.remaining_wait_micros
                                                - delta_time_micros,
                                        },
                                    );
                                }
                            }
                        },
                        None => {
                            if !moving_present {
                                // a move just finished (or the entity just
                                // spawned): draw a fresh pause
                                let fresh: u32 = if strolling.max_pause_micros == 0 {
                                    0
                                } else {
                                    gen_range_u32(strolling.max_pause_micros)
                                };
                                world.waitings[j] = Some(
                                    WaitingState { remaining_wait_micros: fresh },
                                );
                            }
                        },
                    }
                },
                None => {},
            }
            proof {
                lemma_emission_push(w0, dirs@, drew, delta_time_micros, j as int);
            }
            dirs = Ghost(dirs@.push(drew));
            proof {
                assert(world@ =~= (WorldView { waitings: world@.waitings, ..w0 }));
                assert(stroll_entity_ok(w0, world@, j as int, delta_time_micros));
                assert forall|k: int|
                    0 <= k < j + 1 implies stroll_entity_ok(w0, world@, k, delta_time_micros) by {
                    if k < j {
                        assert(stroll_entity_ok(w0, w_before, k, delta_time_micros));
                    }
                }
                if stroll_emits(w0, j as int, delta_time_micros) {
                    assert(event_queue.events@ =~= pre_events + emission_upto(
                        w0,
                        dirs@,
                        delta_time_micros,
                        j + 1,
                    ));
                } else {
                    assert(emission_upto(w0, dirs@, delta_time_micros, j + 1) =~= emission_upto(
                        w0,
                        dirs@,
                        delta_time_micros,
                        j as int,
                    ) + Seq::<Event>::empty());
                    assert(event_queue.events@ =~= pre_events + emission_upto(
                        w0,
                        dirs@,
                        delta_time_micros,
                        j + 1,
                    ));
                }
            }
            j = j + 1;
        }
    }
}

} // verus!

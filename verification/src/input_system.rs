//! The input resolver: turns one frame's key state into move and use intents
//! for the player — but only when the player is ready to accept a command
//! and no modal UI has engaged input.

use crate::components::Direction;
use crate::components::PlayerEntity;
use crate::events::Event;
use crate::events::EventQueue;
use crate::ui::UiState;
use crate::world::World;
use crate::world::WorldView;
use vstd::prelude::*;

verus! {

/// One frame's raw key state, as the host reads it: whether each directional
/// key is held and whether the use key was just pressed.
#[derive(Clone, Copy, PartialEq, Eq, Structural, Debug)]
pub struct InputSnapshot {
    pub left: bool,
    pub right: bool,
    pub up: bool,
    pub down: bool,
    pub use_pressed: bool,
}

pub struct InputSystem;

/// The direction a frame's key state maps to. When several directional keys
/// are held at once, down wins over up, up over right, right over left.
pub open spec fn chosen_direction(input: InputSnapshot) -> Option<Direction> {
    if input.down {
        Some(Direction::Down)
    } else if input.up {
        Some(Direction::Up)
    } else if input.right {
        Some(Direction::Right)
    } else if input.left {
        Some(Direction::Left)
    } else {
        None
    }
}

/// The intents one frame of input produces: nothing while the UI is engaged
/// or while the player is not awaiting input; otherwise a move intent for
/// the chosen direction, if any, then a use intent if the use key was
/// pressed.
pub open spec fn input_events(
    w: WorldView,
    player: int,
    ui_engaged: bool,
    input: InputSnapshot,
) -> Seq<Event> {
    if ui_engaged || !(0 <= player < w.len()) || w.awaitings[player] is None {
        Seq::empty()
    } else {
        (match chosen_direction(input) {
            Some(d) => seq![Event::EntityTriesMove(player as usize, d)],
            None => Seq::<Event>::empty(),
        }) + (if input.use_pressed {
            seq![Event::PlayerTriesUse]
        } else {
            Seq::<Event>::empty()
        })
    }
}

impl InputSystem {
    /// Resolves one frame of raw input into intents for the current tick's
    /// events. The world and the UI are only read.
    pub fn run(
        world: &World,
        event_queue: &mut EventQueue,
        player: &PlayerEntity,
        ui: &UiState,
        input: InputSnapshot,
    )
        requires
            world@.storages_aligned(),
        ensures
            final(event_queue).events@ == old(event_queue).events@ + input_events(
                world@,
                player.entity as int,
                ui@.dialog_box is Some,
                input,
            ),
            final(event_queue).new_events@ == old(event_queue).new_events@,
    {
        let ghost pre = event_queue.events@;
        if ui.is_engaged() {
            proof {
                assert(pre + Seq::<Event>::empty() =~= pre);
            }
            return ;
        }
        let n = world.num_entities();
        let awaiting = player.entity < n && world.awaitings[player.entity].is_some();
        if !awaiting {
            proof {
                assert(pre + Seq::<Event>::empty() =~= pre);
            }
            return ;
        }
        let mut direction: Option<Direction> = None;
        if input.left {
            direction = Some(Direction::Left);
        }
        if input.right {
            direction = Some(Direction::Right);
        }
        if input.up {
            direction = Some(Direction::Up);
        }
        if input.down {
            direction = Some(Direction::Down);
        }
        match direction {
            Some(d) => event_queue.events.push(Event::EntityTriesMove(player.entity, d)),
            None => {},
        }
        if input.use_pressed {
            event_queue.events.push(Event::PlayerTriesUse);
        }
        proof {
            assert(event_queue.events@ =~= pre + input_events(
                world@,
                player.entity as int,
                ui@.dialog_box is Some,
                input,
            ));
        }
    }
}

} // verus!

//! Discrete game events and the double-buffered queue they travel through.

use crate::components::Direction;
use crate::components::GridPosition;
use vstd::prelude::*;

verus! {

/// A discrete game event. Intents (`EntityTriesMove`, `PlayerTriesUse`) are
/// produced by the input resolver and the stroll planner into the current
/// tick's buffer; positional events (`PlayerExit`, `PlayerEntered`) are
/// produced by the movement system into the next tick's buffer.
#[derive(Clone, Copy, PartialEq, Eq, Structural, Debug)]
pub enum Event {
    /// The entity with this id tries to move one cell in the direction.
    EntityTriesMove(usize, Direction),
    /// The player presses the use key.
    PlayerTriesUse,
    /// The player successfully left this position.
    PlayerExit(GridPosition),
    /// The player successfully settled into this position.
    PlayerEntered(GridPosition),
}

/// Double-buffered event queue. Within a tick every system reads only
/// `events` and appends only to `new_events` (except that intents for the
/// same tick go straight into `events`); at the tick boundary the buffers
/// rotate. The one-tick delay gives every system a stable snapshot of the
/// tick's events.
pub struct EventQueue {
    pub events: Vec<Event>,
    pub new_events: Vec<Event>,
}

impl EventQueue {
    pub fn new() -> (q: EventQueue)
        ensures
            q.events@ == Seq::<Event>::empty(),
            q.new_events@ == Seq::<Event>::empty(),
    {
        EventQueue { events: Vec::new(), new_events: Vec::new() }
    }

    /// End-of-tick rotation: what was written for the next tick becomes
    /// readable, and the write buffer starts empty.
    pub fn rotate(&mut self)
        ensures
            final(self).events@ == old(self).new_events@,
            final(self).new_events@ == Seq::<Event>::empty(),
    {
        let mut drained: Vec<Event> = Vec::new();
        core::mem::swap(&mut drained, &mut self.new_events);
        self.events = drained;
    }
}

} // verus!

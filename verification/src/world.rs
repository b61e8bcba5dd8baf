//! The entity/component store: entity handles index into one dense storage
//! per component type. Lookup, insert and remove of one component are O(1);
//! systems iterate over the storages and work on the entities that carry the
//! components they need.

use crate::actions::Action;
use crate::constants::CELL_SUBUNITS;
use crate::constants::MAX_COORD;
use crate::components::AwaitingInputState;
use crate::components::BlocksMovement;
use crate::components::Direction;
use crate::components::EntityMovingState;
use crate::components::FacingDirection;
use crate::components::GridPosition;
use crate::components::Player;
use crate::components::SpriteDrawable;
use crate::components::Strolling;
use crate::components::WaitingState;
use vstd::prelude::*;

verus! {

/// A spatial trigger fired when the player enters the cell this entity
/// occupies.
#[derive(Clone, Debug)]
pub struct TriggerActionOnEnter {
    pub action: Action,
}

/// A spatial trigger fired when the player leaves the cell this entity
/// occupies.
#[derive(Clone, Debug)]
pub struct TriggerActionOnExit {
    pub action: Action,
}

/// A spatial trigger fired when the player uses the cell this entity
/// occupies.
#[derive(Clone, Debug)]
pub struct TriggerActionOnUse {
    pub action: Action,
}

/// All entities and their components. An entity is an index; each storage
/// holds, for every entity, that entity's component of one type, if it
/// carries one.
pub struct World {
    pub players: Vec<Option<Player>>,
    pub blocks: Vec<Option<BlocksMovement>>,
    pub positions: Vec<Option<GridPosition>>,
    pub sprites: Vec<Option<SpriteDrawable>>,
    pub facings: Vec<Option<FacingDirection>>,
    pub awaitings: Vec<Option<AwaitingInputState>>,
    pub movings: Vec<Option<EntityMovingState>>,
    pub waitings: Vec<Option<WaitingState>>,
    pub strollings: Vec<Option<Strolling>>,
    pub on_enters: Vec<Option<TriggerActionOnEnter>>,
    pub on_exits: Vec<Option<TriggerActionOnExit>>,
    pub on_uses: Vec<Option<TriggerActionOnUse>>,
}

/// The abstract contents of a `World`: one sequence per component storage,
/// all of the same length.
#[verifier::ext_equal]
pub struct WorldView {
    pub players: Seq<Option<Player>>,
    pub blocks: Seq<Option<BlocksMovement>>,
    pub positions: Seq<Option<GridPosition>>,
    pub sprites: Seq<Option<SpriteDrawable>>,
    pub facings: Seq<Option<FacingDirection>>,
    pub awaitings: Seq<Option<AwaitingInputState>>,
    pub movings: Seq<Option<EntityMovingState>>,
    pub waitings: Seq<Option<WaitingState>>,
    pub strollings: Seq<Option<Strolling>>,
    pub on_enters: Seq<Option<TriggerActionOnEnter>>,
    pub on_exits: Seq<Option<TriggerActionOnExit>>,
    pub on_uses: Seq<Option<TriggerActionOnUse>>,
}

impl View for World {
    type V = WorldView;

    open spec fn view(&self) -> WorldView {
        WorldView {
            players: self.players@,
            blocks: self.blocks@,
            positions: self.positions@,
            sprites: self.sprites@,
            facings: self.facings@,
            awaitings: self.awaitings@,
            movings: self.movings@,
            waitings: self.waitings@,
            strollings: self.strollings@,
            on_enters: self.on_enters@,
            on_exits: self.on_exits@,
            on_uses: self.on_uses@,
        }
    }
}

impl WorldView {
    /// Number of entities.
    pub open spec fn len(self) -> nat {
        self.positions.len()
    }

    /// Every storage covers the same entities.
    pub open spec fn storages_aligned(self) -> bool {
        &&& self.players.len() == self.len()
        &&& self.blocks.len() == self.len()
        &&& self.sprites.len() == self.len()
        &&& self.facings.len() == self.len()
        &&& self.awaitings.len() == self.len()
        &&& self.movings.len() == self.len()
        &&& self.waitings.len() == self.len()
        &&& self.strollings.len() == self.len()
        &&& self.on_enters.len() == self.len()
        &&& self.on_exits.len() == self.len()
        &&& self.on_uses.len() == self.len()
    }

    /// The position/transit invariants of entity `i`:
    /// - its position, if any, is within the coordinate bound;
    /// - while it is not mid-transit, its position lies exactly on a cell;
    /// - while it is mid-transit, it has a position and a sprite, the
    ///   remaining delta is well-formed, and the destination (position plus
    ///   remaining delta) stays a cell's width inside the coordinate bound,
    ///   so that rounding it to the nearest cell on arrival stays in bounds.
    pub open spec fn entity_wf(self, i: int) -> bool {
        &&& match self.positions[i] {
            Some(p) => p.wf(),
            None => true,
        }
        &&& match self.movings[i] {
            Some(m) => {
                &&& m.wf()
                &&& self.positions[i] is Some
                &&& self.sprites[i] is Some
                &&& -(MAX_COORD - CELL_SUBUNITS) <= self.dest_x(i) <= MAX_COORD - CELL_SUBUNITS
                &&& -(MAX_COORD - CELL_SUBUNITS) <= self.dest_y(i) <= MAX_COORD - CELL_SUBUNITS
            },
            None => match self.positions[i] {
                Some(p) => p.is_integral(),
                None => true,
            },
        }
        &&& match self.on_enters[i] {
            Some(t) => t.action.wf(),
            None => true,
        }
        &&& match self.on_exits[i] {
            Some(t) => t.action.wf(),
            None => true,
        }
        &&& match self.on_uses[i] {
            Some(t) => t.action.wf(),
            None => true,
        }
    }

    /// Destination x coordinate of a mid-transit entity: its position plus
    /// the remaining delta.
    pub open spec fn dest_x(self, i: int) -> int {
        self.positions[i]->Some_0.x + self.movings[i]->Some_0.delta_x
    }

    /// Destination y coordinate of a mid-transit entity.
    pub open spec fn dest_y(self, i: int) -> int {
        self.positions[i]->Some_0.y + self.movings[i]->Some_0.delta_y
    }

    /// Well-formedness of the whole store.
    pub open spec fn wf(self) -> bool {
        &&& self.storages_aligned()
        &&& forall|i: int| 0 <= i < self.len() ==> self.entity_wf(i)
    }
}

/// Whether `x` is a whole multiple of `CELL_SUBUNITS`.
fn coord_is_integral(x: i64) -> (b: bool)
    requires
        -MAX_COORD <= x <= MAX_COORD,
    ensures
        b == (x as int % (CELL_SUBUNITS as int) == 0),
{
    let r: i64 = if x >= 0 {
        x % CELL_SUBUNITS
    } else {
        (-x) % CELL_SUBUNITS
    };
    proof {
        if x < 0 {
            assert(((0 - x) % (CELL_SUBUNITS as int) == 0) == (x as int % (CELL_SUBUNITS as int)
                == 0)) by (nonlinear_arith)
                requires
                    -MAX_COORD <= x < 0,
            ;
        }
    }
    r == 0
}

/// Whether a trigger action satisfies `Action::wf`.
fn action_is_wf(a: &Action) -> (b: bool)
    ensures
        b == a.wf(),
{
    match a {
        Action::Teleport(p) => {
            let limit = MAX_COORD - 2 * CELL_SUBUNITS;
            if -limit <= p.x && p.x <= limit && -limit <= p.y && p.y <= limit {
                coord_is_integral(p.x) && coord_is_integral(p.y)
            } else {
                false
            }
        },
        Action::ShowDialog(_) => true,
        Action::PrintMessage(_) => true,
    }
}

impl World {
    /// Whether entity `i` satisfies its position/transit invariants.
    fn entity_is_wf(&self, i: usize) -> (b: bool)
        requires
            self@.storages_aligned(),
            i < self@.len(),
        ensures
            b == self@.entity_wf(i as int),
    {
        match self.positions[i] {
            Some(p) => {
                if !(-MAX_COORD <= p.x && p.x <= MAX_COORD && -MAX_COORD <= p.y && p.y
                    <= MAX_COORD) {
                    return false;
                }
            },
            None => {},
        }
        match self.movings[i] {
            Some(m) => {
                let moving_shape_ok = match m.direction {
                    Direction::Up => m.delta_x == 0 && -CELL_SUBUNITS <= m.delta_y && m.delta_y
                        < 0,
                    Direction::Down => m.delta_x == 0 && 0 < m.delta_y && m.delta_y
                        <= CELL_SUBUNITS,
                    Direction::Left => m.delta_y == 0 && -CELL_SUBUNITS <= m.delta_x && m.delta_x
                        < 0,
                    Direction::Right => m.delta_y == 0 && 0 < m.delta_x && m.delta_x
                        <= CELL_SUBUNITS,
                };
                if !moving_shape_ok {
                    return false;
                }
                match (self.positions[i], self.sprites[i]) {
                    (Some(p), Some(_)) => {
                        let limit = MAX_COORD - CELL_SUBUNITS;
                        if !(-limit <= p.x + m.delta_x && p.x + m.delta_x <= limit && -limit <= p.y
                            + m.delta_y && p.y + m.delta_y <= limit) {
                            return false;
                        }
                    },
                    _ => {
                        return false;
                    },
                }
            },
            None => {
                match self.positions[i] {
                    Some(p) => {
                        if !coord_is_integral(p.x) || !coord_is_integral(p.y) {
                            return false;
                        }
                    },
                    None => {},
                }
            },
        }
        match &self.on_enters[i] {
            Some(t) => {
                if !action_is_wf(&t.action) {
                    return false;
                }
            },
            None => {},
        }
        match &self.on_exits[i] {
            Some(t) => {
                if !action_is_wf(&t.action) {
                    return false;
                }
            },
            None => {},
        }
        match &self.on_uses[i] {
            Some(t) => {
                if !action_is_wf(&t.action) {
                    return false;
                }
            },
            None => {},
        }
        true
    }

    /// Whether the whole store satisfies its well-formedness invariant, so
    /// a host can check a hand-built world before running the systems on
    /// it.
    pub fn is_well_formed(&self) -> (b: bool)
        ensures
            b == self@.wf(),
    {
        let n = self.positions.len();
        if self.players.len() != n || self.blocks.len() != n || self.sprites.len() != n
            || self.facings.len() != n || self.awaitings.len() != n || self.movings.len() != n
            || self.waitings.len() != n || self.strollings.len() != n || self.on_enters.len() != n
            || self.on_exits.len() != n || self.on_uses.len() != n {
            return false;
        }
        let mut i: usize = 0;
        while i < n
            invariant
                0 <= i <= n == self@.len(),
                self@.storages_aligned(),
                forall|k: int| 0 <= k < i ==> self@.entity_wf(k),
            decreases n - i,
        {
            if !self.entity_is_wf(i) {
                return false;
            }
            i = i + 1;
        }
        true
    }

    /// An empty world.
    pub fn new() -> (w: World)
        ensures
            w@.wf(),
            w@.len() == 0,
    {
        World {
            players: Vec::new(),
            blocks: Vec::new(),
            positions: Vec::new(),
            sprites: Vec::new(),
            facings: Vec::new(),
            awaitings: Vec::new(),
            movings: Vec::new(),
            waitings: Vec::new(),
            strollings: Vec::new(),
            on_enters: Vec::new(),
            on_exits: Vec::new(),
            on_uses: Vec::new(),
        }
    }

    pub fn num_entities(&self) -> (n: usize)
        ensures
            n == self@.len(),
    {
        self.positions.len()
    }

    /// Creates a fresh entity with no components and returns its id.
    pub fn spawn(&mut self) -> (id: usize)
        ensures
            id == old(self)@.len(),
            final(self)@ == (WorldView {
                players: old(self)@.players.push(None),
                blocks: old(self)@.blocks.push(None),
                positions: old(self)@.positions.push(None),
                sprites: old(self)@.sprites.push(None),
                facings: old(self)@.facings.push(None),
                awaitings: old(self)@.awaitings.push(None),
                movings: old(self)@.movings.push(None),
                waitings: old(self)@.waitings.push(None),
                strollings: old(self)@.strollings.push(None),
                on_enters: old(self)@.on_enters.push(None),
                on_exits: old(self)@.on_exits.push(None),
                on_uses: old(self)@.on_uses.push(None),
            }),
            old(self)@.wf() ==> final(self)@.wf(),
    {
        let id = self.positions.len();
        self.players.push(None);
        self.blocks.push(None);
        self.positions.push(None);
        self.sprites.push(None);
        self.facings.push(None);
        self.awaitings.push(None);
        self.movings.push(None);
        self.waitings.push(None);
        self.strollings.push(None);
        self.on_enters.push(None);
        self.on_exits.push(None);
        self.on_uses.push(None);
        proof {
            assert(self@ =~= (WorldView {
                players: old(self)@.players.push(None),
                blocks: old(self)@.blocks.push(None),
                positions: old(self)@.positions.push(None),
                sprites: old(self)@.sprites.push(None),
                facings: old(self)@.facings.push(None),
                awaitings: old(self)@.awaitings.push(None),
                movings: old(self)@.movings.push(None),
                waitings: old(self)@.waitings.push(None),
                strollings: old(self)@.strollings.push(None),
                on_enters: old(self)@.on_enters.push(None),
                on_exits: old(self)@.on_exits.push(None),
                on_uses: old(self)@.on_uses.push(None),
            }));
            if old(self)@.wf() {
                assert forall|i: int| 0 <= i < self@.len() implies self@.entity_wf(i) by {
                    if i < old(self)@.len() {
                        assert(old(self)@.entity_wf(i));
                    }
                }
            }
        }
        id
    }
}

} // verus!

//! The movement system: the sole authority that turns a move intent into
//! grid-state change, animates the transit, and emits positional events.
//!
//! Per tick it first resolves every `EntityTriesMove` event (validating the
//! destination against map bounds, the collision layer, standing blockers and
//! the destinations of entities already mid-transit), then advances the tween
//! of every mid-transit entity by the frame time. A move always reorients the
//! entity, even when it is rejected.

use crate::components::AwaitingInputState;
use crate::components::Direction;
use crate::components::EntityMovingState;
use crate::components::FacingDirection;
use crate::components::GridPosition;
use crate::components::PlayerEntity;
use crate::components::SpriteDrawable;
use crate::constants::CELL_SUBUNITS;
use crate::constants::MAX_COORD;
use crate::constants::MOVE_ANIMATION_FRAMES;
use crate::events::Event;
use crate::events::EventQueue;
use crate::map::GameMap;
use crate::world::World;
use crate::world::WorldView;
use vstd::prelude::*;

verus! {

pub struct CharacterMovingSystem;

/// Entity `id` can be the subject of a move intent: it exists and has a
/// sprite and a position.
pub open spec fn eligible(w: WorldView, id: int) -> bool {
    &&& 0 <= id < w.len()
    &&& w.sprites[id] is Some
    &&& w.positions[id] is Some
}

/// X coordinate of the cell one step in direction `d` from entity `id`.
pub open spec fn candidate_x(w: WorldView, id: int, d: Direction) -> int {
    w.positions[id]->Some_0.x + d.delta_x_spec() * (CELL_SUBUNITS as int)
}

/// Y coordinate of the cell one step in direction `d` from entity `id`.
pub open spec fn candidate_y(w: WorldView, id: int, d: Direction) -> int {
    w.positions[id]->Some_0.y + d.delta_y_spec() * (CELL_SUBUNITS as int)
}

/// The position `(x, y)` lies inside the map.
pub open spec fn in_bounds(map: GameMap, x: int, y: int) -> bool {
    &&& 0 <= x < map.width as int * (CELL_SUBUNITS as int)
    &&& 0 <= y < map.height as int * (CELL_SUBUNITS as int)
}

/// Some entity up to (excluding) `n` carries `BlocksMovement` and stands
/// exactly at `(x, y)`. A mid-transit blocker's position is between cells,
/// so it never matches a whole-cell candidate.
pub open spec fn occupied_upto(w: WorldView, x: int, y: int, n: int) -> bool {
    exists|j: int|
        0 <= j < n && #[trigger] w.blocks[j] is Some && w.positions[j] is Some
            && w.positions[j]->Some_0.x == x && w.positions[j]->Some_0.y == y
}

/// Some entity carrying `BlocksMovement` stands exactly at `(x, y)`.
pub open spec fn occupied_by_blocker(w: WorldView, x: int, y: int) -> bool {
    occupied_upto(w, x, y, w.len() as int)
}

/// `x` rounded to the nearest whole cell, ties away from zero — the integer
/// counterpart of rounding a float coordinate measured in cells.
pub open spec fn round_cell(x: int) -> int {
    let c = CELL_SUBUNITS as int;
    if x >= 0 {
        ((x + c / 2) / c) * c
    } else {
        let q = ((0 - x) + c / 2) / c;
        0 - q * c
    }
}

/// Rounding lands on a whole cell, at most half a cell away.
pub proof fn lemma_round_cell_bounds(x: int)
    ensures
        round_cell(x) % (CELL_SUBUNITS as int) == 0,
        x - CELL_SUBUNITS / 2 <= round_cell(x) <= x + CELL_SUBUNITS / 2,
{
    let c = CELL_SUBUNITS as int;
    let h = c / 2;
    if x >= 0 {
        let q = (x + h) / c;
        assert(q * c % c == 0 && x - h <= q * c <= x + h) by (nonlinear_arith)
            requires
                q == (x + h) / c,
                x >= 0,
                c == 400_000,
                h == 200_000,
        ;
    } else {
        let q = ((0 - x) + h) / c;
        assert((0 - q * c) % c == 0 && x - h <= 0 - q * c <= x + h) by (nonlinear_arith)
            requires
                q == ((0 - x) + h) / c,
                x < 0,
                c == 400_000,
                h == 200_000,
        ;
    }
}

/// A coordinate already on a whole cell rounds to itself.
pub proof fn lemma_round_cell_exact(x: int)
    requires
        x % (CELL_SUBUNITS as int) == 0,
    ensures
        round_cell(x) == x,
{
    let c = CELL_SUBUNITS as int;
    let h = c / 2;
    if x >= 0 {
        assert(((x + h) / c) * c == x) by (nonlinear_arith)
            requires
                x % c == 0,
                x >= 0,
                c == 400_000,
                h == 200_000,
        ;
    } else {
        assert(0 - (((0 - x) + h) / c) * c == x) by (nonlinear_arith)
            requires
                x % c == 0,
                x < 0,
                c == 400_000,
                h == 200_000,
        ;
    }
}

/// Rounds a sub-cell coordinate to the nearest whole cell.
fn round_cell_exec(x: i64) -> (r: i64)
    requires
        -(MAX_COORD as int) - 2 * (CELL_SUBUNITS as int) <= x as int <= MAX_COORD as int + 2 * (
        CELL_SUBUNITS as int),
    ensures
        r == round_cell(x as int),
{
    proof {
        lemma_round_cell_bounds(x as int);
    }
    let half = CELL_SUBUNITS / 2;
    if x >= 0 {
        ((x + half) / CELL_SUBUNITS) * CELL_SUBUNITS
    } else {
        let q = ((0 - x) + half) / CELL_SUBUNITS;
        0 - q * CELL_SUBUNITS
    }
}

/// Some entity up to (excluding) `n` is mid-transit with a destination that
/// rounds to `(x, y)`.
pub open spec fn transit_upto(w: WorldView, x: int, y: int, n: int) -> bool {
    exists|j: int|
        0 <= j < n && #[trigger] w.movings[j] is Some && w.positions[j] is Some && round_cell(
            w.dest_x(j),
        ) == x && round_cell(w.dest_y(j)) == y
}

/// Some entity is mid-transit with a destination that rounds to `(x, y)`.
pub open spec fn transit_headed_to(w: WorldView, x: int, y: int) -> bool {
    transit_upto(w, x, y, w.len() as int)
}

/// The four validation rules of a move intent, in order: the candidate cell
/// is inside the map, not flagged by the collision layer, not occupied by a
/// standing blocker, and not the destination of any entity mid-transit.
pub open spec fn move_valid(w: WorldView, map: GameMap, id: int, d: Direction) -> bool {
    let x = candidate_x(w, id, d);
    let y = candidate_y(w, id, d);
    &&& in_bounds(map, x, y)
    &&& !map.blocked_at(x / (CELL_SUBUNITS as int), y / (CELL_SUBUNITS as int))
    &&& !occupied_by_blocker(w, x, y)
    &&& !transit_headed_to(w, x, y)
}

/// Effect of one `EntityTriesMove(id, d)` event: whatever the validation
/// outcome, an eligible entity's facing direction and sprite frame turn to
/// `d`; if the entity is not already mid-transit and the move is valid, it
/// acquires a full-cell `EntityMovingState`, the player loses
/// `AwaitingInputState`, and a `PlayerExit` event for the old position is
/// produced.
pub open spec fn try_move_step(w: WorldView, map: GameMap, player: int, id: int, d: Direction) -> (
    WorldView,
    Seq<Event>,
) {
    if !eligible(w, id) {
        (w, Seq::empty())
    } else {
        let faced = WorldView {
            facings: if w.facings[id] is Some {
                w.facings.update(id, Some(FacingDirection { direction: d }))
            } else {
                w.facings
            },
            sprites: w.sprites.update(
                id,
                Some(
                    SpriteDrawable {
                        current_frame: d.facing_frame_spec(),
                        ..w.sprites[id]->Some_0
                    },
                ),
            ),
            ..w
        };
        if w.movings[id] is None && move_valid(w, map, id, d) {
            let granted = WorldView {
                movings: faced.movings.update(
                    id,
                    Some(
                        EntityMovingState {
                            delta_x: (d.delta_x_spec() * (CELL_SUBUNITS as int)) as i64,
                            delta_y: (d.delta_y_spec() * (CELL_SUBUNITS as int)) as i64,
                            direction: d,
                        },
                    ),
                ),
                awaitings: if id == player {
                    faced.awaitings.update(id, None)
                } else {
                    faced.awaitings
                },
                ..faced
            };
            (granted, seq![Event::PlayerExit(w.positions[id]->Some_0)])
        } else {
            (faced, Seq::empty())
        }
    }
}

/// Folds `try_move_step` over the `EntityTriesMove` events of `events` from
/// index `i` on, collecting the produced events in order.
pub open spec fn process_intents_from(
    w: WorldView,
    map: GameMap,
    player: int,
    events: Seq<Event>,
    i: int,
) -> (WorldView, Seq<Event>)
    decreases events.len() - i,
{
    if i < 0 || i >= events.len() {
        (w, Seq::empty())
    } else {
        match events[i] {
            Event::EntityTriesMove(e, d) => {
                let (w1, ev1) = try_move_step(w, map, player, e as int, d);
                let (w2, ev2) = process_intents_from(w1, map, player, events, i + 1);
                (w2, ev1 + ev2)
            },
            _ => process_intents_from(w, map, player, events, i + 1),
        }
    }
}

/// A signed remaining delta shrunk toward zero by `a`.
pub open spec fn shrink(d: int, a: int) -> int {
    if d > 0 {
        d - a
    } else if d < 0 {
        d + a
    } else {
        0
    }
}

/// Effect of one frame of `dt` microseconds on entity `id`'s transit, if it
/// is mid-transit: the position advances one sub-cell unit per microsecond
/// toward the destination and the remaining delta shrinks by the same
/// amount. While the transit continues, the sprite shows the animation frame
/// of the elapsed fraction, quantized into `MOVE_ANIMATION_FRAMES` steps.
/// When the remaining delta reaches zero it is clamped there: the position
/// becomes exactly the destination cell, the sprite returns to the resting
/// frame, `EntityMovingState` is removed, and, for the player,
/// `AwaitingInputState` comes back and a `PlayerEntered` event for the new
/// position is produced.
pub open spec fn advance_entity(w: WorldView, id: int, dt: u32, player: int) -> (
    WorldView,
    Seq<Event>,
) {
    if 0 <= id < w.len() && w.movings[id] is Some && w.positions[id] is Some && w.sprites[id]
        is Some {
        let m = w.movings[id]->Some_0;
        let p = w.positions[id]->Some_0;
        let sprite = w.sprites[id]->Some_0;
        let rem = m.remaining();
        let a = if dt as int <= rem {
            dt as int
        } else {
            rem
        };
        if a == rem {
            let dest = GridPosition {
                x: round_cell(p.x + m.delta_x) as i64,
                y: round_cell(p.y + m.delta_y) as i64,
            };
            let arrived = WorldView {
                positions: w.positions.update(id, Some(dest)),
                sprites: w.sprites.update(
                    id,
                    Some(
                        SpriteDrawable {
                            current_frame: m.direction.facing_frame_spec(),
                            ..sprite
                        },
                    ),
                ),
                movings: w.movings.update(id, None),
                awaitings: if id == player {
                    w.awaitings.update(id, Some(AwaitingInputState))
                } else {
                    w.awaitings
                },
                ..w
            };
            (
                arrived,
                if id == player {
                    seq![Event::PlayerEntered(dest)]
                } else {
                    Seq::empty()
                },
            )
        } else {
            let ndx = shrink(m.delta_x as int, a);
            let ndy = shrink(m.delta_y as int, a);
            let npos = GridPosition {
                x: (p.x + m.delta_x - ndx) as i64,
                y: (p.y + m.delta_y - ndy) as i64,
            };
            let elapsed = CELL_SUBUNITS as int - (rem - a);
            let frame = m.direction.facing_frame_spec() + (elapsed * (MOVE_ANIMATION_FRAMES as int))
                / (CELL_SUBUNITS as int);
            let stepped = WorldView {
                positions: w.positions.update(id, Some(npos)),
                sprites: w.sprites.update(
                    id,
                    Some(SpriteDrawable { current_frame: frame as u32, ..sprite }),
                ),
                movings: w.movings.update(
                    id,
                    Some(
                        EntityMovingState {
                            delta_x: ndx as i64,
                            delta_y: ndy as i64,
                            direction: m.direction,
                        },
                    ),
                ),
                ..w
            };
            (stepped, Seq::empty())
        }
    } else {
        (w, Seq::empty())
    }
}

/// Folds `advance_entity` over the entities from index `i` up to `n`,
/// collecting the produced events in entity order.
pub open spec fn advance_from(w: WorldView, dt: u32, player: int, i: int, n: int) -> (
    WorldView,
    Seq<Event>,
)
    decreases n - i,
{
    if i < 0 || i >= n {
        (w, Seq::empty())
    } else {
        let (w1, ev1) = advance_entity(w, i, dt, player);
        let (w2, ev2) = advance_from(w1, dt, player, i + 1, n);
        (w2, ev1 + ev2)
    }
}

/// One whole tick of the movement system: all move intents of the tick's
/// events are resolved first, then every transit (including one granted this
/// very tick) advances by the frame time. The produced `PlayerExit` and
/// `PlayerEntered` events are destined for the next tick, in order of
/// production.
pub open spec fn run_spec(
    w: WorldView,
    events: Seq<Event>,
    map: GameMap,
    player: int,
    dt: u32,
) -> (WorldView, Seq<Event>) {
    let (w1, ev1) = process_intents_from(w, map, player, events, 0);
    let (w2, ev2) = advance_from(w1, dt, player, 0, w1.len() as int);
    (w2, ev1 + ev2)
}

/// Whether a standing blocker occupies `(x, y)` exactly.
fn check_occupied(world: &World, x: i64, y: i64) -> (b: bool)
    requires
        world@.storages_aligned(),
    ensures
        b == occupied_by_blocker(world@, x as int, y as int),
{
    let n = world.num_entities();
    let mut j: usize = 0;
    let mut found = false;
    while j < n
        invariant
            0 <= j <= n == world@.len(),
            world@.blocks.len() == world@.len(),
            world@.positions.len() == world@.len(),
            found == occupied_upto(world@, x as int, y as int, j as int),
        decreases n - j,
    {
        if world.blocks[j].is_some() {
            match world.positions[j] {
                Some(p) => {
                    if p.x == x && p.y == y {
                        found = true;
                    }
                },
                None => {},
            }
        }
        proof {
            assert(occupied_upto(world@, x as int, y as int, j + 1) == (occupied_upto(
                world@,
                x as int,
                y as int,
                j as int,
            ) || (world@.blocks[j as int] is Some && world@.positions[j as int] is Some
                && world@.positions[j as int]->Some_0.x == x
                && world@.positions[j as int]->Some_0.y == y))) by {
                if occupied_upto(world@, x as int, y as int, j + 1) {
                    let witness = choose|k: int|
                        0 <= k < j + 1 && #[trigger] world@.blocks[k] is Some && world@.positions[k]
                            is Some && world@.positions[k]->Some_0.x == x
                            && world@.positions[k]->Some_0.y == y;
                    if witness < j {
                        assert(occupied_upto(world@, x as int, y as int, j as int));
                    }
                }
            }
        }
        j = j + 1;
    }
    proof {
        assert(world@.blocks.len() == world@.len());
    }
    found
}

/// Whether some mid-transit entity is headed exactly to `(x, y)`.
fn check_transit(world: &World, x: i64, y: i64) -> (b: bool)
    requires
        world@.wf(),
    ensures
        b == transit_headed_to(world@, x as int, y as int),
{
    let n = world.num_entities();
    let mut j: usize = 0;
    let mut found = false;
    while j < n
        invariant
            0 <= j <= n == world@.len(),
            world@.wf(),
            found == transit_upto(world@, x as int, y as int, j as int),
        decreases n - j,
    {
        match world.movings[j] {
            Some(m) => {
                match world.positions[j] {
                    Some(p) => {
                        proof {
                            assert(world@.entity_wf(j as int));
                        }
                        let rx = round_cell_exec(p.x + m.delta_x);
                        let ry = round_cell_exec(p.y + m.delta_y);
                        if rx == x && ry == y {
                            found = true;
                        }
                    },
                    None => {},
                }
            },
            None => {},
        }
        proof {
            assert(transit_upto(world@, x as int, y as int, j + 1) == (transit_upto(
                world@,
                x as int,
                y as int,
                j as int,
            ) || (world@.movings[j as int] is Some && world@.positions[j as int] is Some
                && round_cell(world@.dest_x(j as int)) == x && round_cell(world@.dest_y(j as int))
                == y))) by {
                if transit_upto(world@, x as int, y as int, j + 1) {
                    let witness = choose|k: int|
                        0 <= k < j + 1 && #[trigger] world@.movings[k] is Some && world@.positions[k]
                            is Some && round_cell(world@.dest_x(k)) == x && round_cell(
                            world@.dest_y(k),
                        ) == y;
                    if witness < j {
                        assert(transit_upto(world@, x as int, y as int, j as int));
                    }
                }
            }
        }
        j = j + 1;
    }
    found
}

/// Resolves one `EntityTriesMove(id, d)` event against the world, exactly as
/// `try_move_step` describes, and returns the produced event, if any.
fn handle_try_move(world: &mut World, map: &GameMap, player: usize, id: usize, d: Direction) -> (ev:
    Option<Event>)
    requires
        old(world)@.wf(),
        map.wf(),
    ensures
        final(world)@.wf(),
        final(world)@.len() == old(world)@.len(),
        final(world)@ == try_move_step(old(world)@, *map, player as int, id as int, d).0,
        match ev {
            Some(e) => try_move_step(old(world)@, *map, player as int, id as int, d).1 == seq![e],
            None => try_move_step(old(world)@, *map, player as int, id as int, d).1
                == Seq::<Event>::empty(),
        },
{
    let n = world.num_entities();
    if id >= n {
        return None;
    }
    let sprite_opt = world.sprites[id];
    let pos_opt = world.positions[id];
    if sprite_opt.is_none() || pos_opt.is_none() {
        return None;
    }
    let sprite = sprite_opt.unwrap();
    let pos = pos_opt.unwrap();
    proof {
        assert(old(world)@.entity_wf(id as int));
    }
    let dx = d.get_delta_x();
    let dy = d.get_delta_y();
    let cx = pos.x + dx * CELL_SUBUNITS;
    let cy = pos.y + dy * CELL_SUBUNITS;
    let mut moving = false;
    // the candidate must not leave the map
    if cx >= 0 && cx < map.width * CELL_SUBUNITS && cy >= 0 && cy < map.height * CELL_SUBUNITS {
        moving = true;
    }
    // the candidate cell must not be flagged by the collision layer
    if moving {
        proof {
            let c = CELL_SUBUNITS as int;
            assert((0 <= cx as int / c < map.width as int) && (0 <= cy as int / c
                < map.height as int)) by (nonlinear_arith)
                requires
                    0 <= cx as int && (cx as int) < map.width as int * c,
                    0 <= cy as int && (cy as int) < map.height as int * c,
                    c == CELL_SUBUNITS as int,
            ;
        }
        if map.is_blocked(cx / CELL_SUBUNITS, cy / CELL_SUBUNITS) {
            moving = false;
        }
    }
    // no standing blocker may occupy the candidate cell
    if moving && check_occupied(world, cx, cy) {
        moving = false;
    }
    // no mid-transit entity may be headed to the candidate cell
    if moving && check_transit(world, cx, cy) {
        moving = false;
    }
    proof {
        assert(moving == move_valid(old(world)@, *map, id as int, d));
    }
    // the attempt reorients the entity whether or not it moves
    if world.facings[id].is_some() {
        world.facings[id] = Some(FacingDirection { direction: d });
    }
    world.sprites[id] = Some(
        SpriteDrawable { row: sprite.row, current_frame: d.get_character_facing_frame() },
    );
    let already_moving = world.movings[id].is_some();
    if moving && !already_moving {
        if id == player {
            world.awaitings[id] = None;
        }
        world.movings[id] = Some(
            EntityMovingState {
                delta_x: dx * CELL_SUBUNITS,
                delta_y: dy * CELL_SUBUNITS,
                direction: d,
            },
        );
        proof {
            let w0 = old(world)@;
            let w1 = try_move_step(w0, *map, player as int, id as int, d).0;
            assert(world@ =~= w1);
            lemma_try_move_wf(w0, *map, player as int, id as int, d);
        }
        Some(Event::PlayerExit(pos))
    } else {
        proof {
            let w0 = old(world)@;
            let w1 = try_move_step(w0, *map, player as int, id as int, d).0;
            assert(world@ =~= w1);
            lemma_try_move_wf(w0, *map, player as int, id as int, d);
        }
        None
    }
}

/// `try_move_step` preserves well-formedness.
proof fn lemma_try_move_wf(w: WorldView, map: GameMap, player: int, id: int, d: Direction)
    requires
        w.wf(),
        map.wf(),
    ensures
        try_move_step(w, map, player, id, d).0.wf(),
        try_move_step(w, map, player, id, d).0.len() == w.len(),
{
    let w1 = try_move_step(w, map, player, id, d).0;
    if eligible(w, id) {
        assert(w.entity_wf(id));
        if w.movings[id] is None && move_valid(w, map, id, d) {
            let c = CELL_SUBUNITS as int;
            let p = w.positions[id]->Some_0;
            let x = candidate_x(w, id, d);
            let y = candidate_y(w, id, d);
            assert(w1.dest_x(id) == x && w1.dest_y(id) == y);
            assert(0 <= x < map.width as int * c);
            assert(map.width as int * c <= crate::constants::MAX_CELL_COORD as int * c)
                by (nonlinear_arith)
                requires
                    map.width as int <= crate::constants::MAX_CELL_COORD as int,
                    c == CELL_SUBUNITS as int,
            ;
            assert(map.height as int * c <= crate::constants::MAX_CELL_COORD as int * c)
                by (nonlinear_arith)
                requires
                    map.height as int <= crate::constants::MAX_CELL_COORD as int,
                    c == CELL_SUBUNITS as int,
            ;
            assert(w1.entity_wf(id));
            assert forall|i: int| 0 <= i < w1.len() implies w1.entity_wf(i) by {
                assert(w.entity_wf(i));
            }
        } else {
            assert forall|i: int| 0 <= i < w1.len() implies w1.entity_wf(i) by {
                assert(w.entity_wf(i));
            }
        }
    }
}

/// Advances entity `id`'s transit by `dt` microseconds, exactly as
/// `advance_entity` describes, and returns the produced event, if any.
fn advance_one(world: &mut World, id: usize, dt: u32, player: usize) -> (ev: Option<Event>)
    requires
        old(world)@.wf(),
        id < old(world)@.len(),
    ensures
        final(world)@.wf(),
        final(world)@.len() == old(world)@.len(),
        final(world)@ == advance_entity(old(world)@, id as int, dt, player as int).0,
        match ev {
            Some(e) => advance_entity(old(world)@, id as int, dt, player as int).1 == seq![e],
            None => advance_entity(old(world)@, id as int, dt, player as int).1
                == Seq::<Event>::empty(),
        },
{
    let moving_opt = world.movings[id];
    if moving_opt.is_none() {
        return None;
    }
    let m = moving_opt.unwrap();
    proof {
        assert(old(world)@.entity_wf(id as int));
    }
    let p = world.positions[id].unwrap();
    let sprite = world.sprites[id].unwrap();
    let rem: i64 = if m.delta_x != 0 {
        if m.delta_x < 0 {
            -m.delta_x
        } else {
            m.delta_x
        }
    } else {
        if m.delta_y < 0 {
            -m.delta_y
        } else {
            m.delta_y
        }
    };
    let a: i64 = if (dt as i64) <= rem {
        dt as i64
    } else {
        rem
    };
    if a == rem {
        // the remaining delta reaches zero: clamp, settle on the nearest
        // whole cell, and end the transit
        let dest = GridPosition {
            x: round_cell_exec(p.x + m.delta_x),
            y: round_cell_exec(p.y + m.delta_y),
        };
        world.positions[id] = Some(dest);
        world.sprites[id] = Some(
            SpriteDrawable {
                row: sprite.row,
                current_frame: m.direction.get_character_facing_frame(),
            },
        );
        world.movings[id] = None;
        let ghost w1 = advance_entity(old(world)@, id as int, dt, player as int).0;
        if id == player {
            world.awaitings[id] = Some(AwaitingInputState);
            proof {
                assert(world@ =~= w1);
                lemma_advance_wf(old(world)@, id as int, dt, player as int);
            }
            Some(Event::PlayerEntered(dest))
        } else {
            proof {
                assert(world@ =~= w1);
                lemma_advance_wf(old(world)@, id as int, dt, player as int);
            }
            None
        }
    } else {
        let ndx: i64 = if m.delta_x > 0 {
            m.delta_x - a
        } else if m.delta_x < 0 {
            m.delta_x + a
        } else {
            0
        };
        let ndy: i64 = if m.delta_y > 0 {
            m.delta_y - a
        } else if m.delta_y < 0 {
            m.delta_y + a
        } else {
            0
        };
        let npos = GridPosition { x: p.x + m.delta_x - ndx, y: p.y + m.delta_y - ndy };
        let elapsed: i64 = CELL_SUBUNITS - (rem - a);
        let frame_offset: i64 = elapsed * (MOVE_ANIMATION_FRAMES as i64) / CELL_SUBUNITS;
        world.positions[id] = Some(npos);
        world.sprites[id] = Some(
            SpriteDrawable {
                row: sprite.row,
                current_frame: m.direction.get_character_facing_frame() + frame_offset as u32,
            },
        );
        world.movings[id] = Some(
            EntityMovingState { delta_x: ndx, delta_y: ndy, direction: m.direction },
        );
        proof {
            let w1 = advance_entity(old(world)@, id as int, dt, player as int).0;
            assert(world@ =~= w1);
            lemma_advance_wf(old(world)@, id as int, dt, player as int);
        }
        None
    }
}

/// `advance_entity` preserves well-formedness.
proof fn lemma_advance_wf(w: WorldView, id: int, dt: u32, player: int)
    requires
        w.wf(),
    ensures
        advance_entity(w, id, dt, player).0.wf(),
        advance_entity(w, id, dt, player).0.len() == w.len(),
{
    let w1 = advance_entity(w, id, dt, player).0;
    if 0 <= id < w.len() && w.movings[id] is Some && w.positions[id] is Some && w.sprites[id]
        is Some {
        assert(w.entity_wf(id));
        let m = w.movings[id]->Some_0;
        let p = w.positions[id]->Some_0;
        let rem = m.remaining();
        let a = if dt as int <= rem {
            dt as int
        } else {
            rem
        };
        assert(m.wf());
        assert(0 <= a <= rem);
        if a == rem {
            lemma_round_cell_bounds(w.dest_x(id));
            lemma_round_cell_bounds(w.dest_y(id));
            let dest = GridPosition {
                x: round_cell(p.x + m.delta_x) as i64,
                y: round_cell(p.y + m.delta_y) as i64,
            };
            assert(dest.wf() && dest.is_integral());
            assert(w1.entity_wf(id));
        } else {
            let ndx = shrink(m.delta_x as int, a);
            let ndy = shrink(m.delta_y as int, a);
            let m1 = EntityMovingState { delta_x: ndx as i64, delta_y: ndy as i64, direction: m.direction };
            match m.direction {
                Direction::Up => {
                    assert(m.delta_x == 0 && m.delta_y == -rem);
                    assert(ndx == 0 && ndy == -(rem - a));
                    assert(m1.remaining() == rem - a);
                },
                Direction::Down => {
                    assert(m.delta_x == 0 && m.delta_y == rem);
                    assert(ndx == 0 && ndy == rem - a);
                    assert(m1.remaining() == rem - a);
                },
                Direction::Left => {
                    assert(m.delta_x == -rem && m.delta_y == 0);
                    assert(ndx == -(rem - a) && ndy == 0);
                    assert(m1.remaining() == rem - a);
                },
                Direction::Right => {
                    assert(m.delta_x == rem && m.delta_y == 0);
                    assert(ndx == rem - a && ndy == 0);
                    assert(m1.remaining() == rem - a);
                },
            }
            assert(m1.wf());
            let npos = GridPosition {
                x: (p.x + m.delta_x - ndx) as i64,
                y: (p.y + m.delta_y - ndy) as i64,
            };
            assert(npos.x + ndx == w.dest_x(id) && npos.y + ndy == w.dest_y(id));
            assert(npos.wf());
            assert(w1.entity_wf(id));
        }
        assert forall|i: int| 0 <= i < w1.len() implies w1.entity_wf(i) by {
            assert(w.entity_wf(i));
        }
    }
}

/// Law: a move intent whose destination cell is in-bounds, unblocked and
/// unoccupied is granted. The entity acquires an `EntityMovingState` whose
/// remaining delta has magnitude one full cell on exactly the axis of `d`
/// and zero on the other; its position is untouched; the player loses
/// `AwaitingInputState`; and a `PlayerExit` event for the old position is
/// produced.
pub proof fn lemma_valid_move_grants(
    w: WorldView,
    map: GameMap,
    player: int,
    id: int,
    d: Direction,
)
    requires
        w.wf(),
        map.wf(),
        eligible(w, id),
        w.movings[id] is None,
        move_valid(w, map, id, d),
    ensures
        ({
            let (w1, ev) = try_move_step(w, map, player, id, d);
            &&& w1.movings[id] == Some(
                EntityMovingState {
                    delta_x: (d.delta_x_spec() * (CELL_SUBUNITS as int)) as i64,
                    delta_y: (d.delta_y_spec() * (CELL_SUBUNITS as int)) as i64,
                    direction: d,
                },
            )
            &&& w1.movings[id]->Some_0.remaining() == CELL_SUBUNITS as int
            &&& w1.movings[id]->Some_0.wf()
            &&& w1.positions[id] == w.positions[id]
            &&& (id == player ==> w1.awaitings[id] is None)
            &&& ev == seq![Event::PlayerExit(w.positions[id]->Some_0)]
        }),
{
    let m = EntityMovingState {
        delta_x: (d.delta_x_spec() * (CELL_SUBUNITS as int)) as i64,
        delta_y: (d.delta_y_spec() * (CELL_SUBUNITS as int)) as i64,
        direction: d,
    };
    match d {
        Direction::Up => assert(m.remaining() == CELL_SUBUNITS as int),
        Direction::Down => assert(m.remaining() == CELL_SUBUNITS as int),
        Direction::Left => assert(m.remaining() == CELL_SUBUNITS as int),
        Direction::Right => assert(m.remaining() == CELL_SUBUNITS as int),
    }
}

/// Total frame time of a sequence of frames, in microseconds.
pub open spec fn sum_micros(dts: Seq<u32>) -> int
    decreases dts.len(),
{
    if dts.len() == 0 {
        0
    } else {
        dts[0] + sum_micros(dts.skip(1))
    }
}

/// Entity `id`'s transit advanced over a whole sequence of frames, with the
/// produced events collected in order.
pub open spec fn advance_entity_times(w: WorldView, id: int, dts: Seq<u32>, player: int) -> (
    WorldView,
    Seq<Event>,
)
    decreases dts.len(),
{
    if dts.len() == 0 {
        (w, Seq::empty())
    } else {
        let (w1, ev1) = advance_entity(w, id, dts[0], player);
        let (w2, ev2) = advance_entity_times(w1, id, dts.skip(1), player);
        (w2, ev1 + ev2)
    }
}

/// Advancing an entity that is not mid-transit changes nothing.
proof fn lemma_advance_times_noop(w: WorldView, id: int, dts: Seq<u32>, player: int)
    requires
        !(0 <= id < w.len() && w.movings[id] is Some && w.positions[id] is Some && w.sprites[id]
            is Some),
    ensures
        advance_entity_times(w, id, dts, player) == (w, Seq::<Event>::empty()),
    decreases dts.len(),
{
    if dts.len() > 0 {
        lemma_advance_times_noop(w, id, dts.skip(1), player);
        assert(Seq::<Event>::empty() + Seq::<Event>::empty() =~= Seq::<Event>::empty());
    }
}

/// Law: a mid-transit entity whose frame times sum to exactly the remaining
/// transit time (for a fresh transit, `MOVE_DURATION_MICROS`) ends on the
/// destination cell: its position is integral and equals the old position
/// plus the remaining delta, `EntityMovingState` is gone, and, for the
/// player, `AwaitingInputState` is back and exactly one `PlayerEntered`
/// event for the new position was produced (destined, via the queue, for the
/// next tick's events).
pub proof fn lemma_transit_completes(w: WorldView, id: int, dts: Seq<u32>, player: int)
    requires
        w.wf(),
        0 <= id < w.len(),
        w.movings[id] is Some,
        w.dest_x(id) % (CELL_SUBUNITS as int) == 0,
        w.dest_y(id) % (CELL_SUBUNITS as int) == 0,
        sum_micros(dts) == w.movings[id]->Some_0.remaining(),
    ensures
        ({
            let (w1, ev) = advance_entity_times(w, id, dts, player);
            &&& w1.wf()
            &&& w1.movings[id] is None
            &&& w1.positions[id] is Some
            &&& w1.positions[id]->Some_0.x == w.dest_x(id)
            &&& w1.positions[id]->Some_0.y == w.dest_y(id)
            &&& w1.positions[id]->Some_0.is_integral()
            &&& (id == player ==> w1.awaitings[id] is Some)
            &&& (id == player ==> ev == seq![Event::PlayerEntered(w1.positions[id]->Some_0)])
            &&& (id != player ==> ev == Seq::<Event>::empty())
        }),
    decreases dts.len(),
{
    assert(w.entity_wf(id));
    let m = w.movings[id]->Some_0;
    let rem = m.remaining();
    assert(m.wf());
    lemma_sum_micros_nonneg(dts);
    assert(dts.len() > 0);
    lemma_sum_micros_nonneg(dts.skip(1));
    let dt = dts[0];
    let (w1, ev1) = advance_entity(w, id, dt, player);
    lemma_advance_wf(w, id, dt, player);
    if dt as int == rem {
        assert(sum_micros(dts.skip(1)) == 0);
        lemma_round_cell_exact(w.dest_x(id));
        lemma_round_cell_exact(w.dest_y(id));
        lemma_advance_times_noop(w1, id, dts.skip(1), player);
        if id == player {
            assert(ev1 + Seq::<Event>::empty() =~= ev1);
        } else {
            assert(ev1 + Seq::<Event>::empty() =~= Seq::<Event>::empty());
        }
    } else {
        assert((dt as int) < rem);
        let m1 = w1.movings[id]->Some_0;
        match m.direction {
            Direction::Up => assert(m1.remaining() == rem - dt),
            Direction::Down => assert(m1.remaining() == rem - dt),
            Direction::Left => assert(m1.remaining() == rem - dt),
            Direction::Right => assert(m1.remaining() == rem - dt),
        }
        assert(w1.dest_x(id) == w.dest_x(id) && w1.dest_y(id) == w.dest_y(id));
        lemma_transit_completes(w1, id, dts.skip(1), player);
        let (w2, ev2) = advance_entity_times(w1, id, dts.skip(1), player);
        if id == player {
            assert(Seq::<Event>::empty() + ev2 =~= ev2);
        } else {
            assert(Seq::<Event>::empty() + ev2 =~= Seq::<Event>::empty());
        }
    }
}

/// The sum of frame times is nonnegative, and zero only for all-zero frames.
proof fn lemma_sum_micros_nonneg(dts: Seq<u32>)
    ensures
        sum_micros(dts) >= 0,
    decreases dts.len(),
{
    if dts.len() > 0 {
        lemma_sum_micros_nonneg(dts.skip(1));
    }
}

/// Entity `j` carries `BlocksMovement` and has a position.
pub open spec fn is_blocker(w: WorldView, j: int) -> bool {
    &&& 0 <= j < w.len()
    &&& w.blocks[j] is Some
    &&& w.positions[j] is Some
}

/// The x coordinate of the cell a blocker claims: its destination while
/// mid-transit, its standing position otherwise.
pub open spec fn claim_x(w: WorldView, j: int) -> int {
    if w.movings[j] is Some {
        round_cell(w.dest_x(j))
    } else {
        w.positions[j]->Some_0.x as int
    }
}

/// The y coordinate of the cell a blocker claims.
pub open spec fn claim_y(w: WorldView, j: int) -> int {
    if w.movings[j] is Some {
        round_cell(w.dest_y(j))
    } else {
        w.positions[j]->Some_0.y as int
    }
}

/// No two blockers claim the same cell: each standing blocker's cell and
/// each mid-transit blocker's destination are pairwise distinct.
pub open spec fn blockers_separated(w: WorldView) -> bool {
    forall|i: int, j: int|
        #![trigger is_blocker(w, i), is_blocker(w, j)]
        is_blocker(w, i) && is_blocker(w, j) && i != j ==> !(claim_x(w, i) == claim_x(w, j)
            && claim_y(w, i) == claim_y(w, j))
}

/// Resolving one move intent keeps the blockers' claims pairwise distinct:
/// a granted move was validated against both the standing blockers and the
/// destinations of everything mid-transit.
proof fn lemma_try_move_separated(w: WorldView, map: GameMap, player: int, id: int, d: Direction)
    requires
        w.wf(),
        map.wf(),
        blockers_separated(w),
    ensures
        blockers_separated(try_move_step(w, map, player, id, d).0),
{
    let w1 = try_move_step(w, map, player, id, d).0;
    if eligible(w, id) && w.movings[id] is None && move_valid(w, map, id, d) {
        let x = candidate_x(w, id, d);
        let y = candidate_y(w, id, d);
        assert forall|i: int, j: int|
            is_blocker(w1, i) && is_blocker(w1, j) && i != j implies !(claim_x(w1, i) == claim_x(
            w1,
            j,
        ) && claim_y(w1, i) == claim_y(w1, j)) by {
            assert(is_blocker(w, i) && is_blocker(w, j));
            if i != id && j != id {
                assert(claim_x(w1, i) == claim_x(w, i) && claim_y(w1, i) == claim_y(w, i));
                assert(claim_x(w1, j) == claim_x(w, j) && claim_y(w1, j) == claim_y(w, j));
            } else {
                let other = if i == id {
                    j
                } else {
                    i
                };
                let c = CELL_SUBUNITS as int;
                let p = w.positions[id]->Some_0;
                assert(w.entity_wf(id));
                assert(x % c == 0 && y % c == 0) by (nonlinear_arith)
                    requires
                        p.x as int % c == 0,
                        p.y as int % c == 0,
                        c == CELL_SUBUNITS as int,
                        x == p.x as int + d.delta_x_spec() * c,
                        y == p.y as int + d.delta_y_spec() * c,
                        -1 <= d.delta_x_spec() <= 1,
                        -1 <= d.delta_y_spec() <= 1,
                ;
                lemma_round_cell_exact(x);
                lemma_round_cell_exact(y);
                assert(claim_x(w1, id) == x && claim_y(w1, id) == y);
                assert(claim_x(w1, other) == claim_x(w, other) && claim_y(w1, other) == claim_y(
                    w,
                    other,
                ));
                if w.movings[other] is Some {
                    if w.dest_x(other) == x && w.dest_y(other) == y {
                        assert(transit_headed_to(w, x, y));
                    }
                } else {
                    if w.positions[other]->Some_0.x == x && w.positions[other]->Some_0.y == y {
                        assert(occupied_by_blocker(w, x, y));
                    }
                }
            }
        }
    } else {
        assert forall|i: int, j: int|
            is_blocker(w1, i) && is_blocker(w1, j) && i != j implies !(claim_x(w1, i) == claim_x(
            w1,
            j,
        ) && claim_y(w1, i) == claim_y(w1, j)) by {
            assert(is_blocker(w, i) && is_blocker(w, j));
            assert(claim_x(w1, i) == claim_x(w, i) && claim_y(w1, i) == claim_y(w, i));
            assert(claim_x(w1, j) == claim_x(w, j) && claim_y(w1, j) == claim_y(w, j));
        }
    }
}

/// Advancing a transit never changes which cell any blocker claims: the
/// tween moves the position toward the destination while the claim stays
/// the destination, and arrival lands exactly on it.
proof fn lemma_advance_claims(w: WorldView, id: int, dt: u32, player: int)
    requires
        w.wf(),
    ensures
        ({
            let w1 = advance_entity(w, id, dt, player).0;
            &&& w1.len() == w.len()
            &&& forall|k: int| 0 <= k < w.len() ==> is_blocker(w1, k) == is_blocker(w, k)
            &&& forall|k: int|
                is_blocker(w, k) ==> claim_x(w1, k) == claim_x(w, k) && claim_y(w1, k) == claim_y(
                    w,
                    k,
                )
        }),
{
    let w1 = advance_entity(w, id, dt, player).0;
    if 0 <= id < w.len() && w.movings[id] is Some && w.positions[id] is Some && w.sprites[id]
        is Some {
        assert(w.entity_wf(id));
    }
}

/// The intent-resolution fold keeps the world well-formed and the blockers'
/// claims pairwise distinct.
proof fn lemma_intents_fold(w: WorldView, map: GameMap, player: int, events: Seq<Event>, i: int)
    requires
        w.wf(),
        map.wf(),
        blockers_separated(w),
    ensures
        ({
            let w1 = process_intents_from(w, map, player, events, i).0;
            &&& w1.wf()
            &&& w1.len() == w.len()
            &&& blockers_separated(w1)
        }),
    decreases events.len() - i,
{
    if 0 <= i < events.len() {
        match events[i] {
            Event::EntityTriesMove(e, d) => {
                lemma_try_move_wf(w, map, player, e as int, d);
                lemma_try_move_separated(w, map, player, e as int, d);
                lemma_intents_fold(
                    try_move_step(w, map, player, e as int, d).0,
                    map,
                    player,
                    events,
                    i + 1,
                );
            },
            _ => {
                lemma_intents_fold(w, map, player, events, i + 1);
            },
        }
    }
}

/// The tween-advancing fold keeps the world well-formed and the blockers'
/// claims pairwise distinct.
proof fn lemma_advance_fold(w: WorldView, dt: u32, player: int, i: int, n: int)
    requires
        w.wf(),
        blockers_separated(w),
        n == w.len(),
    ensures
        ({
            let w1 = advance_from(w, dt, player, i, n).0;
            &&& w1.wf()
            &&& w1.len() == w.len()
            &&& blockers_separated(w1)
        }),
    decreases n - i,
{
    if 0 <= i < n {
        let w1 = advance_entity(w, i, dt, player).0;
        lemma_advance_wf(w, i, dt, player);
        lemma_advance_claims(w, i, dt, player);
        assert forall|a: int, b: int|
            is_blocker(w1, a) && is_blocker(w1, b) && a != b implies !(claim_x(w1, a) == claim_x(
            w1,
            b,
        ) && claim_y(w1, a) == claim_y(w1, b)) by {
            assert(is_blocker(w, a) && is_blocker(w, b));
        }
        lemma_advance_fold(w1, dt, player, i + 1, n);
    }
}

/// Law: no two `BlocksMovement`-carrying entities ever occupy or target the
/// same cell. If the blockers' claimed cells (standing position, or
/// destination while mid-transit) are pairwise distinct going into a
/// movement tick, they are pairwise distinct coming out of it, whatever
/// intents the tick's events carry.
pub proof fn lemma_movement_keeps_blockers_separated(
    w: WorldView,
    events: Seq<Event>,
    map: GameMap,
    player: int,
    dt: u32,
)
    requires
        w.wf(),
        map.wf(),
        blockers_separated(w),
    ensures
        run_spec(w, events, map, player, dt).0.wf(),
        blockers_separated(run_spec(w, events, map, player, dt).0),
{
    lemma_intents_fold(w, map, player, events, 0);
    let w1 = process_intents_from(w, map, player, events, 0).0;
    lemma_advance_fold(w1, dt, player, 0, w1.len() as int);
}

/// `AwaitingInputState` sits on no entity but `player`, as the data model
/// prescribes.
pub open spec fn awaiting_only_on(w: WorldView, player: int) -> bool {
    forall|i: int| 0 <= i < w.len() && #[trigger] w.awaitings[i] is Some ==> i == player
}

/// No entity carries `EntityMovingState` and `AwaitingInputState` at once.
pub open spec fn moving_excludes_awaiting(w: WorldView) -> bool {
    forall|i: int| 0 <= i < w.len() && #[trigger] w.movings[i] is Some ==> w.awaitings[i] is None
}

/// Resolving one move intent keeps the two marker invariants: a granted
/// player move takes `AwaitingInputState` away in the same stroke that
/// `EntityMovingState` appears.
proof fn lemma_try_move_markers(w: WorldView, map: GameMap, player: int, id: int, d: Direction)
    requires
        w.storages_aligned(),
        awaiting_only_on(w, player),
        moving_excludes_awaiting(w),
    ensures
        ({
            let w1 = try_move_step(w, map, player, id, d).0;
            w1.storages_aligned() && awaiting_only_on(w1, player) && moving_excludes_awaiting(w1)
        }),
{
    let w1 = try_move_step(w, map, player, id, d).0;
    assert forall|i: int|
        0 <= i < w1.len() && #[trigger] w1.awaitings[i] is Some implies i == player by {
        assert(w.awaitings[i] is Some);
    }
    assert forall|i: int|
        0 <= i < w1.len() && #[trigger] w1.movings[i] is Some implies w1.awaitings[i] is None by {
        if eligible(w, id) && w.movings[id] is None && move_valid(w, map, id, d) && i == id {
            if id != player {
                assert(w.awaitings[id] is Some ==> id == player);
            }
        } else {
            assert(w.movings[i] is Some);
        }
    }
}

/// Advancing a transit keeps the two marker invariants: the player gets
/// `AwaitingInputState` back only in the same stroke that its
/// `EntityMovingState` goes away.
proof fn lemma_advance_markers(w: WorldView, id: int, dt: u32, player: int)
    requires
        w.storages_aligned(),
        awaiting_only_on(w, player),
        moving_excludes_awaiting(w),
    ensures
        ({
            let w1 = advance_entity(w, id, dt, player).0;
            w1.storages_aligned() && awaiting_only_on(w1, player) && moving_excludes_awaiting(w1)
        }),
{
    let w1 = advance_entity(w, id, dt, player).0;
    assert forall|i: int|
        0 <= i < w1.len() && #[trigger] w1.awaitings[i] is Some implies i == player by {
        if i != id || w.awaitings[i] is Some {
            assert(w.awaitings[i] is Some ==> i == player);
        }
    }
    assert forall|i: int|
        0 <= i < w1.len() && #[trigger] w1.movings[i] is Some implies w1.awaitings[i] is None by {
        if i != id {
            assert(w.movings[i] is Some);
        } else {
            assert(w.movings[id] is Some);
        }
    }
}

/// The intent fold keeps the marker invariants.
proof fn lemma_intents_markers(w: WorldView, map: GameMap, player: int, events: Seq<Event>, i: int)
    requires
        w.storages_aligned(),
        awaiting_only_on(w, player),
        moving_excludes_awaiting(w),
    ensures
        ({
            let w1 = process_intents_from(w, map, player, events, i).0;
            w1.storages_aligned() && awaiting_only_on(w1, player) && moving_excludes_awaiting(w1)
        }),
    decreases events.len() - i,
{
    if 0 <= i < events.len() {
        match events[i] {
            Event::EntityTriesMove(e, d) => {
                lemma_try_move_markers(w, map, player, e as int, d);
                lemma_intents_markers(
                    try_move_step(w, map, player, e as int, d).0,
                    map,
                    player,
                    events,
                    i + 1,
                );
            },
            _ => {
                lemma_intents_markers(w, map, player, events, i + 1);
            },
        }
    }
}

/// The tween fold keeps the marker invariants.
proof fn lemma_advance_markers_fold(w: WorldView, dt: u32, player: int, i: int, n: int)
    requires
        w.storages_aligned(),
        awaiting_only_on(w, player),
        moving_excludes_awaiting(w),
    ensures
        ({
            let w1 = advance_from(w, dt, player, i, n).0;
            w1.storages_aligned() && awaiting_only_on(w1, player) && moving_excludes_awaiting(w1)
        }),
    decreases n - i,
{
    if 0 <= i < n {
        lemma_advance_markers(w, i, dt, player);
        lemma_advance_markers_fold(advance_entity(w, i, dt, player).0, dt, player, i + 1, n);
    }
}

/// Law: `EntityMovingState` and `AwaitingInputState` stay mutually
/// exclusive. If, going into a movement tick, the awaiting marker sits on
/// no entity but the player and no mid-transit entity carries it, the same
/// holds coming out: the marker leaves in the same stroke a transit starts
/// and returns in the same stroke one ends.
pub proof fn lemma_movement_keeps_marker_exclusivity(
    w: WorldView,
    events: Seq<Event>,
    map: GameMap,
    player: int,
    dt: u32,
)
    requires
        w.storages_aligned(),
        awaiting_only_on(w, player),
        moving_excludes_awaiting(w),
    ensures
        awaiting_only_on(run_spec(w, events, map, player, dt).0, player),
        moving_excludes_awaiting(run_spec(w, events, map, player, dt).0),
{
    lemma_intents_markers(w, map, player, events, 0);
    let w1 = process_intents_from(w, map, player, events, 0).0;
    lemma_advance_markers_fold(w1, dt, player, 0, w1.len() as int);
}

impl CharacterMovingSystem {
    /// Runs the movement system for one tick of `delta_time_micros`
    /// microseconds of frame time: resolves this tick's move intents, then
    /// advances every transit. `events` is only read; the produced
    /// `PlayerExit`/`PlayerEntered` events are appended to `new_events` for
    /// the next tick.
    pub fn run(
        world: &mut World,
        event_queue: &mut EventQueue,
        map: &GameMap,
        player: &PlayerEntity,
        delta_time_micros: u32,
    )
        requires
            old(world)@.wf(),
            map.wf(),
        ensures
            final(world)@.wf(),
            final(world)@.len() == old(world)@.len(),
            final(event_queue).events@ == old(event_queue).events@,
            final(world)@ == run_spec(
                old(world)@,
                old(event_queue).events@,
                *map,
                player.entity as int,
                delta_time_micros,
            ).0,
            final(event_queue).new_events@ == old(event_queue).new_events@ + run_spec(
                old(world)@,
                old(event_queue).events@,
                *map,
                player.entity as int,
                delta_time_micros,
            ).1,
    {
        let ghost w0 = old(world)@;
        let ghost evs = old(event_queue).events@;
        let ghost pl = player.entity as int;
        let mut produced: Vec<Event> = Vec::new();
        let n_events = event_queue.events.len();
        let mut idx: usize = 0;
        while idx < n_events
            invariant
                0 <= idx <= n_events == evs.len(),
                world@.wf(),
                map.wf(),
                world@.len() == w0.len(),
                event_queue.events@ == evs,
                event_queue.new_events@ == old(event_queue).new_events@,
                pl == player.entity as int,
                process_intents_from(w0, *map, pl, evs, 0) == {
                    let (wr, er) = process_intents_from(world@, *map, pl, evs, idx as int);
                    (wr, produced@ + er)
                },
            decreases n_events - idx,
        {
            let event = event_queue.events[idx];
            let ghost w_before = world@;
            let ghost produced_before = produced@;
            match event {
                Event::EntityTriesMove(e, dir) => {
                    let ev = handle_try_move(world, map, player.entity, e, dir);
                    match ev {
                        Some(e2) => produced.push(e2),
                        None => {},
                    }
                    proof {
                        let step1 = try_move_step(w_before, *map, pl, e as int, dir).1;
                        let er_next = process_intents_from(world@, *map, pl, evs, idx + 1).1;
                        assert(produced@ =~= produced_before + step1);
                        assert(produced_before + (step1 + er_next) =~= produced@ + er_next);
                    }
                },
                _ => {},
            }
            idx = idx + 1;
        }
        proof {
            assert(process_intents_from(world@, *map, pl, evs, idx as int).1
                =~= Seq::<Event>::empty());
            assert(produced@ + Seq::<Event>::empty() =~= produced@);
        }
        let ghost w_mid = world@;
        let ghost ev1 = produced@;
        let n = world.num_entities();
        let mut i: usize = 0;
        while i < n
            invariant
                0 <= i <= n,
                world@.wf(),
                world@.len() == n,
                event_queue.events@ == evs,
                event_queue.new_events@ == old(event_queue).new_events@,
                pl == player.entity as int,
                advance_from(w_mid, delta_time_micros, pl, 0, n as int) == {
                    let (wr, er) = advance_from(world@, delta_time_micros, pl, i as int, n as int);
                    (wr, produced@.skip(ev1.len() as int) + er)
                },
                produced@.take(ev1.len() as int) == ev1,
                ev1.len() <= produced@.len(),
            decreases n - i,
        {
            let ghost produced_before = produced@;
            let ghost w_before = world@;
            let ev = advance_one(world, i, delta_time_micros, player.entity);
            match ev {
                Some(e2) => produced.push(e2),
                None => {},
            }
            proof {
                let e1 = advance_entity(w_before, i as int, delta_time_micros, pl).1;
                let er_next = advance_from(world@, delta_time_micros, pl, i + 1, n as int).1;
                assert(produced@ =~= produced_before + e1);
                assert(produced@.take(ev1.len() as int) =~= produced_before.take(ev1.len() as int));
                assert(produced@.skip(ev1.len() as int) =~= produced_before.skip(ev1.len() as int)
                    + e1);
                assert(produced_before.skip(ev1.len() as int) + (e1 + er_next) =~= produced@.skip(
                    ev1.len() as int,
                ) + er_next);
            }
            i = i + 1;
        }
        proof {
            assert(advance_from(world@, delta_time_micros, pl, i as int, n as int).1 =~= Seq::<
                Event,
            >::empty());
            assert(produced@.skip(ev1.len() as int) + Seq::<Event>::empty() =~= produced@.skip(
                ev1.len() as int,
            ));
            assert(produced@ =~= ev1 + produced@.skip(ev1.len() as int));
        }
        event_queue.new_events.append(&mut produced);
        proof {
            assert(final(event_queue).new_events@ =~= old(event_queue).new_events@ + run_spec(
                w0,
                evs,
                *map,
                pl,
                delta_time_micros,
            ).1);
        }
    }
}

} // verus!

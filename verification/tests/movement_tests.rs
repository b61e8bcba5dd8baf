//! The movement system: granting, rejecting and animating grid moves.

use rpg_explore::character_moving_system::CharacterMovingSystem;
use rpg_explore::components::{
    AwaitingInputState, BlocksMovement, Direction, EntityMovingState, FacingDirection,
    GridPosition, Player, PlayerEntity, SpriteDrawable,
};
use rpg_explore::constants::{
    CELL_SUBUNITS, CHARACTER_DOWN_FACING_FRAME, CHARACTER_LEFT_FACING_FRAME,
    CHARACTER_UP_FACING_FRAME, MOVE_DURATION_MICROS,
};
use rpg_explore::events::{Event, EventQueue};
use rpg_explore::map::GameMap;
use rpg_explore::plan_stroll_system::PlanStrollSystem;
use rpg_explore::world::World;

fn open_map(width: i64, height: i64) -> GameMap {
    GameMap::from_grid(width, height, vec![false; (width * height) as usize])
}

fn spawn_character(world: &mut World, cx: i64, cy: i64) -> usize {
    let id = world.spawn();
    world.positions[id] = Some(GridPosition::from_cell(cx, cy));
    world.sprites[id] = Some(SpriteDrawable { row: 0, current_frame: CHARACTER_DOWN_FACING_FRAME });
    world.facings[id] = Some(FacingDirection { direction: Direction::Down });
    world.blocks[id] = Some(BlocksMovement);
    id
}

fn spawn_player(world: &mut World, cx: i64, cy: i64) -> PlayerEntity {
    let id = spawn_character(world, cx, cy);
    world.players[id] = Some(Player);
    world.awaitings[id] = Some(AwaitingInputState);
    PlayerEntity { entity: id }
}

#[test]
fn valid_move_starts_transit_and_removes_awaiting() {
    let map = open_map(14, 14);
    let mut world = World::new();
    let player = spawn_player(&mut world, 2, 4);
    let mut queue = EventQueue::new();
    queue.events.push(Event::EntityTriesMove(player.entity, Direction::Up));

    CharacterMovingSystem::run(&mut world, &mut queue, &map, &player, 0);

    let moving = world.movings[player.entity].expect("move should be granted");
    assert_eq!(moving.delta_x, 0);
    assert_eq!(moving.delta_y, -CELL_SUBUNITS);
    assert_eq!(moving.direction, Direction::Up);
    assert!(world.awaitings[player.entity].is_none());
    assert_eq!(
        world.facings[player.entity],
        Some(FacingDirection { direction: Direction::Up })
    );
    assert_eq!(
        world.sprites[player.entity].unwrap().current_frame,
        CHARACTER_UP_FACING_FRAME
    );
    // the exit event for the old position is destined for the next tick
    assert_eq!(queue.new_events, vec![Event::PlayerExit(GridPosition::from_cell(2, 4))]);
    // the position itself has not changed yet (the frame time was zero)
    assert_eq!(world.positions[player.entity], Some(GridPosition::from_cell(2, 4)));
}

#[test]
fn transit_completes_after_move_duration() {
    let map = open_map(14, 14);
    let mut world = World::new();
    let player = spawn_player(&mut world, 2, 4);
    let mut queue = EventQueue::new();
    queue.events.push(Event::EntityTriesMove(player.entity, Direction::Down));

    // four frames of a quarter of the move duration each
    let dt = MOVE_DURATION_MICROS / 4;
    CharacterMovingSystem::run(&mut world, &mut queue, &map, &player, dt);
    queue.rotate();
    for _ in 0..2 {
        assert!(world.movings[player.entity].is_some());
        assert!(world.awaitings[player.entity].is_none());
        CharacterMovingSystem::run(&mut world, &mut queue, &map, &player, dt);
        queue.rotate();
    }
    // mid-transit the position is strictly between the two cells
    let mid = world.positions[player.entity].unwrap();
    assert_eq!(mid.x, 2 * CELL_SUBUNITS);
    assert!(4 * CELL_SUBUNITS < mid.y && mid.y < 5 * CELL_SUBUNITS);

    CharacterMovingSystem::run(&mut world, &mut queue, &map, &player, dt);
    // exactly MOVE_DURATION_MICROS of summed frame time: the transit is over
    assert!(world.movings[player.entity].is_none());
    assert_eq!(world.positions[player.entity], Some(GridPosition::from_cell(2, 5)));
    assert!(world.awaitings[player.entity].is_some());
    // the enter event appears in the next tick's events
    assert_eq!(queue.new_events, vec![Event::PlayerEntered(GridPosition::from_cell(2, 5))]);
    queue.rotate();
    assert_eq!(queue.events, vec![Event::PlayerEntered(GridPosition::from_cell(2, 5))]);
}

#[test]
fn rejected_move_still_turns_the_entity() {
    let map = open_map(14, 14);
    let mut world = World::new();
    let player = spawn_player(&mut world, 0, 0);
    let mut queue = EventQueue::new();
    queue.events.push(Event::EntityTriesMove(player.entity, Direction::Left));

    CharacterMovingSystem::run(&mut world, &mut queue, &map, &player, 16_000);

    // out of bounds: no transit, no exit event, but the facing changed
    assert!(world.movings[player.entity].is_none());
    assert!(queue.new_events.is_empty());
    assert!(world.awaitings[player.entity].is_some());
    assert_eq!(
        world.facings[player.entity],
        Some(FacingDirection { direction: Direction::Left })
    );
    assert_eq!(
        world.sprites[player.entity].unwrap().current_frame,
        CHARACTER_LEFT_FACING_FRAME
    );
    assert_eq!(world.positions[player.entity], Some(GridPosition::from_cell(0, 0)));
}

#[test]
fn move_into_collision_layer_is_rejected() {
    let mut blocked = vec![false; 14 * 14];
    blocked[3 * 14 + 2] = true; // cell (2, 3)
    let map = GameMap::from_grid(14, 14, blocked);
    assert!(map.is_blocked(2, 3));
    assert!(!map.is_blocked(2, 4));

    let mut world = World::new();
    let player = spawn_player(&mut world, 2, 4);
    let mut queue = EventQueue::new();
    queue.events.push(Event::EntityTriesMove(player.entity, Direction::Up));

    CharacterMovingSystem::run(&mut world, &mut queue, &map, &player, 16_000);

    assert!(world.movings[player.entity].is_none());
    assert!(queue.new_events.is_empty());
}

#[test]
fn move_onto_blocking_entity_is_rejected() {
    let map = open_map(14, 14);
    let mut world = World::new();
    let player = spawn_player(&mut world, 2, 4);
    spawn_character(&mut world, 3, 4); // a standing blocker to the right
    let mut queue = EventQueue::new();
    queue.events.push(Event::EntityTriesMove(player.entity, Direction::Right));

    CharacterMovingSystem::run(&mut world, &mut queue, &map, &player, 16_000);

    assert!(world.movings[player.entity].is_none());
    assert_eq!(
        world.facings[player.entity],
        Some(FacingDirection { direction: Direction::Right })
    );
}

#[test]
fn move_toward_anothers_destination_is_rejected() {
    let map = open_map(14, 14);
    let mut world = World::new();
    let player = spawn_player(&mut world, 5, 5);
    let npc = spawn_character(&mut world, 7, 5);
    // the NPC is already mid-transit toward (6, 5)
    world.movings[npc] = Some(EntityMovingState {
        delta_x: -CELL_SUBUNITS,
        delta_y: 0,
        direction: Direction::Left,
    });
    let mut queue = EventQueue::new();
    queue.events.push(Event::EntityTriesMove(player.entity, Direction::Right));

    CharacterMovingSystem::run(&mut world, &mut queue, &map, &player, 0);

    assert!(world.movings[player.entity].is_none());
    assert!(world.movings[npc].is_some());
}

#[test]
fn two_strollers_racing_for_one_cell_one_wins() {
    // two strolling entities whose waits run out the same tick; when their
    // random directions point at the same cell, exactly one is granted the
    // transit and the other only turns
    let map = open_map(14, 14);
    let mut found_collision = false;
    for seed in 0..5000u64 {
        quad_rand::srand(seed);
        let mut world = World::new();
        let a = spawn_character(&mut world, 5, 5);
        let b = spawn_character(&mut world, 7, 5);
        for id in [a, b] {
            world.strollings[id] = Some(rpg_explore::components::Strolling {
                max_pause_micros: 3_000_000,
            });
            world.waitings[id] = Some(rpg_explore::components::WaitingState {
                remaining_wait_micros: 0,
            });
        }
        let mut queue = EventQueue::new();
        PlanStrollSystem::run(&mut world, &mut queue, 16_000);
        assert_eq!(queue.events.len(), 2);
        let dir_of = |ev: &Event| match ev {
            Event::EntityTriesMove(_, d) => *d,
            _ => panic!("planner emitted a non-move event"),
        };
        let da = dir_of(&queue.events[0]);
        let db = dir_of(&queue.events[1]);
        let dest = |cx: i64, d: Direction| match d {
            Direction::Up => (cx, 4),
            Direction::Down => (cx, 6),
            Direction::Left => (cx - 1, 5),
            Direction::Right => (cx + 1, 5),
        };
        if dest(5, da) != dest(7, db) {
            continue;
        }
        found_collision = true;
        let player = PlayerEntity { entity: usize::MAX };
        CharacterMovingSystem::run(&mut world, &mut queue, &map, &player, 0);
        let a_moves = world.movings[a].is_some();
        let b_moves = world.movings[b].is_some();
        assert!(a_moves != b_moves, "exactly one of the two may win the cell");
        assert!(a_moves, "the first intent in queue order wins");
        // the loser still turned toward where it wanted to go
        assert_eq!(world.facings[b], Some(FacingDirection { direction: db }));
        break;
    }
    assert!(found_collision, "no seed produced a collision");
}

#[test]
fn blockers_never_share_a_cell_over_a_scripted_run() {
    // a player and two strolling blockers walk around a small map for many
    // ticks; at every tick each blocker's standing cell or transit
    // destination is pairwise distinct
    let map = open_map(6, 6);
    quad_rand::srand(7);
    let mut world = World::new();
    let player = spawn_player(&mut world, 1, 1);
    for (cx, cy) in [(3, 1), (1, 3), (4, 4)] {
        let id = spawn_character(&mut world, cx, cy);
        world.strollings[id] = Some(rpg_explore::components::Strolling {
            max_pause_micros: 50_000,
        });
    }
    let mut queue = EventQueue::new();
    let player_dirs = [
        Direction::Right,
        Direction::Right,
        Direction::Down,
        Direction::Down,
        Direction::Left,
        Direction::Up,
    ];
    for tick in 0..400usize {
        if world.awaitings[player.entity].is_some() {
            queue
                .events
                .push(Event::EntityTriesMove(player.entity, player_dirs[tick % 6]));
        }
        PlanStrollSystem::run(&mut world, &mut queue, 16_000);
        CharacterMovingSystem::run(&mut world, &mut queue, &map, &player, 16_000);
        queue.rotate();
        assert!(world.is_well_formed());

        // collect each blocker's claimed cell
        let mut claims: Vec<(i64, i64)> = Vec::new();
        for id in 0..world.num_entities() {
            if world.blocks[id].is_none() {
                continue;
            }
            let p = world.positions[id].unwrap();
            let claim = match world.movings[id] {
                Some(m) => {
                    let round = |v: i64| (v + CELL_SUBUNITS / 2).div_euclid(CELL_SUBUNITS);
                    (round(p.x + m.delta_x), round(p.y + m.delta_y))
                }
                None => (p.x / CELL_SUBUNITS, p.y / CELL_SUBUNITS),
            };
            assert!(!claims.contains(&claim), "two blockers claim {claim:?}");
            claims.push(claim);
        }
    }
}

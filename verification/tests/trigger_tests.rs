//! The trigger/action resolver: spatial matching and action execution.

use rpg_explore::action_system::ActionSystem;
use rpg_explore::actions::Action;
use rpg_explore::character_moving_system::CharacterMovingSystem;
use rpg_explore::components::{
    AwaitingInputState, BlocksMovement, Direction, FacingDirection, GridPosition, Player,
    PlayerEntity, SpriteDrawable,
};
use rpg_explore::constants::{CHARACTER_DOWN_FACING_FRAME, MOVE_DURATION_MICROS};
use rpg_explore::events::{Event, EventQueue};
use rpg_explore::input_system::{InputSnapshot, InputSystem};
use rpg_explore::map::GameMap;
use rpg_explore::text::CharWidths;
use rpg_explore::ui::UiState;
use rpg_explore::world::{
    TriggerActionOnEnter, TriggerActionOnExit, TriggerActionOnUse, World,
};

fn open_map(width: i64, height: i64) -> GameMap {
    GameMap::from_grid(width, height, vec![false; (width * height) as usize])
}

fn plain_ui() -> UiState {
    UiState { char_widths: CharWidths { entries: Vec::new() }, wrap_width: 760, dialog_box: None }
}

fn spawn_player(world: &mut World, cx: i64, cy: i64, facing: Direction) -> PlayerEntity {
    let id = world.spawn();
    world.players[id] = Some(Player);
    world.blocks[id] = Some(BlocksMovement);
    world.positions[id] = Some(GridPosition::from_cell(cx, cy));
    world.sprites[id] = Some(SpriteDrawable { row: 0, current_frame: CHARACTER_DOWN_FACING_FRAME });
    world.facings[id] = Some(FacingDirection { direction: facing });
    world.awaitings[id] = Some(AwaitingInputState);
    PlayerEntity { entity: id }
}

#[test]
fn empty_events_resolve_to_nothing() {
    let mut world = World::new();
    let player = spawn_player(&mut world, 2, 2, Direction::Down);
    let queue = EventQueue::new();
    let mut ui = plain_ui();
    let pos_before = world.positions[player.entity];

    let log = ActionSystem::run(&mut world, &queue, &player, &mut ui);

    assert!(log.is_empty());
    assert_eq!(world.positions[player.entity], pos_before);
    assert!(ui.dialog_box.is_none());
}

#[test]
fn teleport_moves_player_without_animation() {
    let mut world = World::new();
    let player = spawn_player(&mut world, 11, 3, Direction::Up);
    let door = world.spawn();
    world.positions[door] = Some(GridPosition::from_cell(11, 2));
    world.on_enters[door] = Some(TriggerActionOnEnter {
        action: Action::Teleport(GridPosition::from_cell(10, 11)),
    });
    let mut queue = EventQueue::new();
    queue.events.push(Event::PlayerEntered(GridPosition::from_cell(11, 2)));
    let mut ui = plain_ui();

    let log = ActionSystem::run(&mut world, &queue, &player, &mut ui);

    assert!(log.is_empty());
    assert_eq!(world.positions[player.entity], Some(GridPosition::from_cell(10, 11)));
    // an instantaneous cut: no transit state was created
    assert!(world.movings[player.entity].is_none());
    assert!(ui.dialog_box.is_none());
}

#[test]
fn exit_trigger_prints_message() {
    let mut world = World::new();
    let player = spawn_player(&mut world, 9, 3, Direction::Down);
    let marker = world.spawn();
    world.positions[marker] = Some(GridPosition::from_cell(9, 3));
    world.on_exits[marker] = Some(TriggerActionOnExit {
        action: Action::PrintMessage(String::from("left start position")),
    });
    let mut queue = EventQueue::new();
    queue.events.push(Event::PlayerExit(GridPosition::from_cell(9, 3)));
    let mut ui = plain_ui();

    let log = ActionSystem::run(&mut world, &queue, &player, &mut ui);

    assert_eq!(log, vec![String::from("left start position")]);
    assert_eq!(world.positions[player.entity], Some(GridPosition::from_cell(9, 3)));
}

#[test]
fn use_trigger_opens_dialog_and_engages_input() {
    // the player at (9,3) faces down; an urn with a use-trigger sits at (9,4)
    let mut world = World::new();
    let player = spawn_player(&mut world, 9, 3, Direction::Down);
    let urn = world.spawn();
    world.positions[urn] = Some(GridPosition::from_cell(9, 4));
    world.blocks[urn] = Some(BlocksMovement);
    world.on_uses[urn] = Some(TriggerActionOnUse {
        action: Action::ShowDialog(rpg_explore::ui::DialogBoxConf {
            message: String::from("the urn is full of snakes!"),
            title: None,
            portrait: None,
            choices: Vec::new(),
        }),
    });
    let mut queue = EventQueue::new();
    let mut ui = plain_ui();

    // the player presses the use key
    InputSystem::run(
        &world,
        &mut queue,
        &player,
        &ui,
        InputSnapshot { left: false, right: false, up: false, down: false, use_pressed: true },
    );
    assert_eq!(queue.events, vec![Event::PlayerTriesUse]);

    let log = ActionSystem::run(&mut world, &queue, &player, &mut ui);
    assert!(log.is_empty());

    // the dialog box carries exactly the urn's message
    let dialog = ui.dialog_box.as_ref().expect("the use-trigger should open a dialog");
    assert_eq!(dialog.text_pages, vec![String::from("the urn is full of snakes!")]);
    assert_eq!(dialog.current_page, 0);
    assert!(ui.is_engaged());

    // with the UI engaged, further input produces no intents
    queue.rotate();
    queue.rotate();
    InputSystem::run(
        &world,
        &mut queue,
        &player,
        &ui,
        InputSnapshot { left: true, right: false, up: false, down: false, use_pressed: true },
    );
    assert!(queue.events.is_empty());
}

#[test]
fn door_teleports_after_walking_onto_it() {
    // entity at (11,2) teleports whoever enters to (10,11); the player walks
    // one step up from (11,3); the enter event fires on the next tick and
    // the resolver teleports the player with no animation
    let map = open_map(14, 14);
    let mut world = World::new();
    let player = spawn_player(&mut world, 11, 3, Direction::Down);
    let door = world.spawn();
    world.positions[door] = Some(GridPosition::from_cell(11, 2));
    world.on_enters[door] = Some(TriggerActionOnEnter {
        action: Action::Teleport(GridPosition::from_cell(10, 11)),
    });
    let mut queue = EventQueue::new();
    let mut ui = plain_ui();
    let dt = MOVE_DURATION_MICROS / 4;

    queue.events.push(Event::EntityTriesMove(player.entity, Direction::Up));
    let mut teleported_at_tick = None;
    for tick in 0..8 {
        CharacterMovingSystem::run(&mut world, &mut queue, &map, &player, dt);
        ActionSystem::run(&mut world, &queue, &player, &mut ui);
        if world.positions[player.entity] == Some(GridPosition::from_cell(10, 11)) {
            teleported_at_tick = Some(tick);
            break;
        }
        queue.rotate();
    }

    // ticks 0..3 animate the step; the enter event is queued at tick 3 and
    // resolved one tick later
    assert_eq!(teleported_at_tick, Some(4));
    assert!(world.movings[player.entity].is_none());
    assert!(world.awaitings[player.entity].is_some());
}

#[test]
fn teleport_mid_transit_still_settles_on_a_cell() {
    // a player teleported while a transit is running keeps the remaining
    // delta; the transit finishes from the teleport target and arrival
    // rounds to the nearest whole cell
    let map = open_map(14, 14);
    let mut world = World::new();
    let player = spawn_player(&mut world, 11, 3, Direction::Down);
    let marker = world.spawn();
    world.positions[marker] = Some(GridPosition::from_cell(11, 3));
    world.on_enters[marker] = Some(TriggerActionOnEnter {
        action: Action::Teleport(GridPosition::from_cell(10, 11)),
    });
    let mut queue = EventQueue::new();
    let mut ui = plain_ui();
    let dt = MOVE_DURATION_MICROS / 4;

    // one quarter of the move up is done; three quarters remain
    queue.events.push(Event::EntityTriesMove(player.entity, Direction::Up));
    CharacterMovingSystem::run(&mut world, &mut queue, &map, &player, dt);
    assert!(world.movings[player.entity].is_some());

    // the enter-trigger for the cell the player left fires now
    queue.rotate();
    queue.events.push(Event::PlayerEntered(GridPosition::from_cell(11, 3)));
    ActionSystem::run(&mut world, &queue, &player, &mut ui);
    assert_eq!(world.positions[player.entity], Some(GridPosition::from_cell(10, 11)));
    assert!(world.movings[player.entity].is_some());
    assert!(world.is_well_formed());

    // the remaining three quarters of the transit run out from the target;
    // rounding settles the player one cell up from it
    queue.rotate();
    for _ in 0..3 {
        CharacterMovingSystem::run(&mut world, &mut queue, &map, &player, dt);
    }
    assert!(world.movings[player.entity].is_none());
    assert_eq!(world.positions[player.entity], Some(GridPosition::from_cell(10, 10)));
    assert!(world.is_well_formed());
}

#[test]
fn all_matching_triggers_fire_in_order() {
    let mut world = World::new();
    let player = spawn_player(&mut world, 3, 3, Direction::Down);
    for msg in ["first", "second"] {
        let t = world.spawn();
        world.positions[t] = Some(GridPosition::from_cell(3, 3));
        world.on_enters[t] = Some(TriggerActionOnEnter {
            action: Action::PrintMessage(String::from(msg)),
        });
    }
    let mut queue = EventQueue::new();
    queue.events.push(Event::PlayerEntered(GridPosition::from_cell(3, 3)));
    let mut ui = plain_ui();

    let log = ActionSystem::run(&mut world, &queue, &player, &mut ui);
    assert_eq!(log, vec![String::from("first"), String::from("second")]);
}

//! Dialog paging, input resolution, the event queue discipline, and the
//! stroll planner's wait bookkeeping.

use rpg_explore::components::{
    AwaitingInputState, Direction, GridPosition, Player, PlayerEntity, SpriteDrawable, Strolling,
    WaitingState,
};
use rpg_explore::events::{Event, EventQueue};
use rpg_explore::input_system::{InputSnapshot, InputSystem};
use rpg_explore::plan_stroll_system::PlanStrollSystem;
use rpg_explore::text::CharWidths;
use rpg_explore::ui::{DialogBoxConf, UiState};
use rpg_explore::ui_system::UiSystem;
use rpg_explore::world::World;

fn uniform_font(char_w: u32) -> CharWidths {
    let mut entries: Vec<(char, u32)> = Vec::new();
    for c in ' '..='~' {
        entries.push((c, char_w));
    }
    CharWidths { entries }
}

#[test]
fn dialog_pages_and_closes() {
    // each character 10 units wide, wrap at 25: every word gets its own
    // line; four lines make two pages of three and one
    let mut ui = UiState { char_widths: uniform_font(10), wrap_width: 25, dialog_box: None };
    ui.create_dialog_box(&DialogBoxConf {
        message: String::from("aa bb cc dd"),
        title: None,
        portrait: None,
        choices: Vec::new(),
    });
    {
        let dialog = ui.dialog_box.as_ref().unwrap();
        assert_eq!(dialog.text_pages, vec![String::from("aa\nbb\ncc"), String::from("dd")]);
        assert_eq!(dialog.current_page, 0);
    }
    // advancing turns the page, advancing past the last page closes the box
    UiSystem::run(&mut ui, true);
    assert_eq!(ui.dialog_box.as_ref().unwrap().current_page, 1);
    UiSystem::run(&mut ui, false);
    assert_eq!(ui.dialog_box.as_ref().unwrap().current_page, 1);
    UiSystem::run(&mut ui, true);
    assert!(ui.dialog_box.is_none());
    assert!(!ui.is_engaged());
}

#[test]
fn dialog_with_title_gets_two_lines_per_page() {
    let mut ui = UiState { char_widths: uniform_font(10), wrap_width: 25, dialog_box: None };
    ui.create_dialog_box(&DialogBoxConf {
        message: String::from("aa bb cc dd"),
        title: Some(String::from("Innkeeper")),
        portrait: None,
        choices: Vec::new(),
    });
    let dialog = ui.dialog_box.as_ref().unwrap();
    assert_eq!(dialog.text_pages, vec![String::from("aa\nbb"), String::from("cc\ndd")]);
    assert_eq!(dialog.title, Some(String::from("Innkeeper")));
}

#[test]
fn event_queue_rotates_buffers() {
    let mut queue = EventQueue::new();
    queue.events.push(Event::PlayerTriesUse);
    queue.new_events.push(Event::PlayerEntered(GridPosition::from_cell(1, 2)));
    queue.rotate();
    assert_eq!(queue.events, vec![Event::PlayerEntered(GridPosition::from_cell(1, 2))]);
    assert!(queue.new_events.is_empty());
    queue.rotate();
    assert!(queue.events.is_empty());
}

fn ready_player(world: &mut World) -> PlayerEntity {
    let id = world.spawn();
    world.players[id] = Some(Player);
    world.positions[id] = Some(GridPosition::from_cell(1, 1));
    world.sprites[id] = Some(SpriteDrawable { row: 0, current_frame: 8 });
    world.awaitings[id] = Some(AwaitingInputState);
    PlayerEntity { entity: id }
}

fn no_ui() -> UiState {
    UiState { char_widths: CharWidths { entries: Vec::new() }, wrap_width: 760, dialog_box: None }
}

#[test]
fn input_maps_keys_to_intents() {
    let mut world = World::new();
    let player = ready_player(&mut world);
    let mut queue = EventQueue::new();
    InputSystem::run(
        &world,
        &mut queue,
        &player,
        &no_ui(),
        InputSnapshot { left: true, right: false, up: false, down: false, use_pressed: false },
    );
    assert_eq!(queue.events, vec![Event::EntityTriesMove(player.entity, Direction::Left)]);
}

#[test]
fn input_prefers_down_over_other_held_keys() {
    let mut world = World::new();
    let player = ready_player(&mut world);
    let mut queue = EventQueue::new();
    InputSystem::run(
        &world,
        &mut queue,
        &player,
        &no_ui(),
        InputSnapshot { left: true, right: true, up: true, down: true, use_pressed: true },
    );
    assert_eq!(
        queue.events,
        vec![
            Event::EntityTriesMove(player.entity, Direction::Down),
            Event::PlayerTriesUse,
        ]
    );
}

#[test]
fn input_ignored_while_not_awaiting() {
    let mut world = World::new();
    let player = ready_player(&mut world);
    world.awaitings[player.entity] = None;
    let mut queue = EventQueue::new();
    InputSystem::run(
        &world,
        &mut queue,
        &player,
        &no_ui(),
        InputSnapshot { left: false, right: false, up: true, down: false, use_pressed: true },
    );
    assert!(queue.events.is_empty());
}

#[test]
fn waiting_stroller_counts_down_then_moves() {
    let mut world = World::new();
    let id = world.spawn();
    world.positions[id] = Some(GridPosition::from_cell(6, 8));
    world.sprites[id] = Some(SpriteDrawable { row: 4, current_frame: 8 });
    world.strollings[id] = Some(Strolling { max_pause_micros: 3_000_000 });
    world.waitings[id] = Some(WaitingState { remaining_wait_micros: 40_000 });
    let mut queue = EventQueue::new();

    // the wait shrinks by the frame time
    PlanStrollSystem::run(&mut world, &mut queue, 16_000);
    assert_eq!(world.waitings[id], Some(WaitingState { remaining_wait_micros: 24_000 }));
    assert!(queue.events.is_empty());

    // when it runs out, the planner emits one move intent and stops waiting
    PlanStrollSystem::run(&mut world, &mut queue, 30_000);
    assert!(world.waitings[id].is_none());
    assert_eq!(queue.events.len(), 1);
    assert!(matches!(queue.events[0], Event::EntityTriesMove(e, _) if e == id));
}

#[test]
fn idle_stroller_draws_a_fresh_wait() {
    quad_rand::srand(11);
    let mut world = World::new();
    let id = world.spawn();
    world.positions[id] = Some(GridPosition::from_cell(6, 8));
    world.sprites[id] = Some(SpriteDrawable { row: 4, current_frame: 8 });
    world.strollings[id] = Some(Strolling { max_pause_micros: 3_000_000 });
    let mut queue = EventQueue::new();

    PlanStrollSystem::run(&mut world, &mut queue, 16_000);
    let wait = world.waitings[id].expect("an idle stroller draws a wait");
    assert!(wait.remaining_wait_micros < 3_000_000);
    assert!(queue.events.is_empty());

    // a zero maximum pause draws a zero wait
    let mut world2 = World::new();
    let id2 = world2.spawn();
    world2.strollings[id2] = Some(Strolling { max_pause_micros: 0 });
    PlanStrollSystem::run(&mut world2, &mut queue, 16_000);
    assert_eq!(world2.waitings[id2], Some(WaitingState { remaining_wait_micros: 0 }));
}

#[test]
fn mid_transit_stroller_is_left_alone() {
    let mut world = World::new();
    let id = world.spawn();
    world.positions[id] = Some(GridPosition::from_cell(6, 8));
    world.sprites[id] = Some(SpriteDrawable { row: 4, current_frame: 8 });
    world.strollings[id] = Some(Strolling { max_pause_micros: 3_000_000 });
    world.movings[id] = Some(rpg_explore::components::EntityMovingState {
        delta_x: 0,
        delta_y: rpg_explore::constants::CELL_SUBUNITS,
        direction: Direction::Down,
    });
    let mut queue = EventQueue::new();
    PlanStrollSystem::run(&mut world, &mut queue, 16_000);
    assert!(world.waitings[id].is_none());
    assert!(queue.events.is_empty());
}

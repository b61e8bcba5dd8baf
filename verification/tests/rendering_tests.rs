//! The painter's draw order: back to front by y, ties in entity order.

use rpg_explore::components::{GridPosition, SpriteDrawable};
use rpg_explore::rendering::draw_order;
use rpg_explore::world::World;

#[test]
fn draw_order_sorts_by_y_then_entity() {
    let mut world = World::new();
    let ys = [5, 3, 5, 1];
    for y in ys {
        let id = world.spawn();
        world.positions[id] = Some(GridPosition::from_cell(2, y));
        world.sprites[id] = Some(SpriteDrawable { row: 0, current_frame: 8 });
    }
    // an entity without a sprite is not drawn
    let bare = world.spawn();
    world.positions[bare] = Some(GridPosition::from_cell(0, 0));

    assert_eq!(draw_order(&world), vec![3, 1, 0, 2]);
}

#[test]
fn draw_order_of_empty_world_is_empty() {
    let world = World::new();
    assert!(draw_order(&world).is_empty());
}

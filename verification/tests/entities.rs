use rogue::color::{red, Color};
use rogue::entity::{is_blocked, move_by, DrawGlyph, Object, PLAYER};
use rogue::grid::{create_room, wall_map, TileMap};
use rogue::room::RectRoom;

fn entity(x: i32, y: i32, blocks: bool) -> Object {
    Object::new(x, y, 'e', Color { r: 1, g: 2, b: 3 }, "entity".to_string(), blocks)
}

// walls all around, floor at x = 1..=4 and y = 1..=4
fn arena() -> TileMap {
    let mut map = wall_map(6, 6);
    create_room(RectRoom::new(0, 0, 5, 5), &mut map);
    map
}

#[test]
fn new_entity_keeps_its_fields_and_is_not_alive() {
    let o = Object::new(3, 4, '@', red(), "Player".to_string(), true);
    assert_eq!(o.x, 3);
    assert_eq!(o.y, 4);
    assert_eq!(o.glyph, '@');
    assert_eq!(o.color, Color { r: 255, g: 0, b: 0 });
    assert_eq!(o.name, "Player");
    assert!(o.blocks);
    assert!(!o.alive);
}

#[test]
fn pos_and_set_pos() {
    let mut o = entity(1, 2, false);
    assert_eq!(o.pos(), (1, 2));
    let before = o.clone();
    o.set_pos(-7, 9);
    assert_eq!(o.pos(), (-7, 9));
    assert_eq!(o, Object { x: -7, y: 9, ..before });
}

#[test]
fn draw_gives_glyph_colour_and_place() {
    let o = Object::new(5, 6, 'T', Color { r: 0, g: 127, b: 0 }, "Troll".to_string(), true);
    assert_eq!(
        o.draw(),
        DrawGlyph { x: 5, y: 6, glyph: 'T', color: Color { r: 0, g: 127, b: 0 } }
    );
}

#[test]
fn player_is_entity_zero() {
    assert_eq!(PLAYER, 0);
}

#[test]
fn blocked_tiles_are_blocked() {
    let map = arena();
    let nobody: Vec<Object> = Vec::new();
    for x in 0..6 {
        for y in 0..6 {
            let wall = map[x as usize][y as usize].blocked;
            assert_eq!(is_blocked(x, y, &map, &nobody), wall);
        }
    }
    assert!(is_blocked(0, 0, &map, &nobody));
    assert!(!is_blocked(1, 1, &map, &nobody));
}

#[test]
fn tile_that_blocks_movement_but_not_sight_is_blocked() {
    let mut map = arena();
    map[2][2].blocked = true;
    map[2][2].block_sight = false;
    assert!(is_blocked(2, 2, &map, &[]));
    map[3][3].blocked = false;
    map[3][3].block_sight = true;
    assert!(!is_blocked(3, 3, &map, &[]));
}

#[test]
fn blocking_entity_blocks_its_tile() {
    let map = arena();
    let objects = vec![entity(1, 1, true), entity(3, 2, true)];
    assert!(is_blocked(1, 1, &map, &objects));
    assert!(is_blocked(3, 2, &map, &objects));
    assert!(!is_blocked(2, 3, &map, &objects));
    assert!(!is_blocked(2, 2, &map, &objects));
}

#[test]
fn entity_that_does_not_block_leaves_its_tile_free() {
    let map = arena();
    let objects = vec![entity(2, 2, false)];
    assert!(!is_blocked(2, 2, &map, &objects));
}

#[test]
fn move_onto_free_floor_moves_exactly_by_the_delta() {
    let map = arena();
    let mut objects = vec![entity(2, 2, true), entity(4, 4, true)];
    let before = objects.clone();
    move_by(0, 1, 0, &map, &mut objects);
    assert_eq!(objects[0], Object { x: 3, y: 2, ..before[0].clone() });
    assert_eq!(objects[1], before[1]);
    move_by(0, -2, 1, &map, &mut objects);
    assert_eq!(objects[0].pos(), (1, 3));
    move_by(1, 0, -3, &map, &mut objects);
    assert_eq!(objects[1].pos(), (4, 1));
    assert_eq!(objects[0].pos(), (1, 3));
}

#[test]
fn move_into_wall_changes_nothing() {
    let map = arena();
    let mut objects = vec![entity(1, 1, true), entity(3, 3, false)];
    let before = objects.clone();
    move_by(0, -1, 0, &map, &mut objects);
    assert_eq!(objects, before);
    move_by(0, 0, -1, &map, &mut objects);
    assert_eq!(objects, before);
}

#[test]
fn move_by_nothing_is_blocked_by_oneself() {
    let map = arena();
    let mut blocker = vec![entity(2, 2, true)];
    move_by(0, 0, 0, &map, &mut blocker);
    assert_eq!(blocker[0].pos(), (2, 2));
    let mut ghost = vec![entity(2, 2, false)];
    move_by(0, 0, 0, &map, &mut ghost);
    assert_eq!(ghost[0].pos(), (2, 2));
}

#[test]
fn blocking_entity_cannot_step_onto_blocking_entity() {
    let map = arena();
    let mut objects = vec![entity(2, 2, true), entity(3, 2, true)];
    let before = objects.clone();
    move_by(0, 1, 0, &map, &mut objects);
    assert_eq!(objects, before);
    move_by(1, -1, 0, &map, &mut objects);
    assert_eq!(objects, before);
}

#[test]
fn entities_may_share_a_tile_with_one_that_does_not_block() {
    let map = arena();
    // a blocking entity steps onto one that does not block
    let mut objects = vec![entity(2, 2, true), entity(3, 2, false)];
    move_by(0, 1, 0, &map, &mut objects);
    assert_eq!(objects[0].pos(), (3, 2));
    assert_eq!(objects[1].pos(), (3, 2));
    // one that does not block steps onto another that does not block
    let mut ghosts = vec![entity(1, 1, false), entity(1, 2, false)];
    move_by(0, 0, 1, &map, &mut ghosts);
    assert_eq!(ghosts[0].pos(), (1, 2));
    assert_eq!(ghosts[1].pos(), (1, 2));
}

#[test]
fn entity_that_does_not_block_is_still_stopped_by_a_blocker() {
    let map = arena();
    let mut objects = vec![entity(2, 2, false), entity(3, 2, true)];
    move_by(0, 1, 0, &map, &mut objects);
    assert_eq!(objects[0].pos(), (2, 2));
}

use rogue::color::Color;
use rogue::entity::{DrawGlyph, Object};
use rogue::generator::Game;
use rogue::grid::{create_room, wall_map};
use rogue::render::{is_in_sight, render_all, shade};
use rogue::room::RectRoom;
use rogue::tile::Tile;

const DARK_WALL: Color = Color { r: 0, g: 0, b: 100 };
const LIGHT_WALL: Color = Color { r: 130, g: 110, b: 50 };
const DARK_GROUND: Color = Color { r: 50, g: 50, b: 150 };
const LIGHT_GROUND: Color = Color { r: 200, g: 180, b: 50 };

fn entity(x: i32, y: i32, glyph: char) -> Object {
    Object::new(x, y, glyph, Color { r: 7, g: 8, b: 9 }, "entity".to_string(), true)
}

// 4 by 3, floor at (1, 1) and (2, 1)
fn little_game() -> Game {
    let mut map = wall_map(4, 3);
    create_room(RectRoom::new(0, 0, 3, 2), &mut map);
    Game { map }
}

fn sight(cells: &[(usize, usize)]) -> Vec<Vec<bool>> {
    let mut visible = vec![vec![false; 3]; 4];
    for &(x, y) in cells {
        visible[x][y] = true;
    }
    visible
}

#[test]
fn four_colour_classes() {
    assert_eq!(shade(false, true), DARK_WALL);
    assert_eq!(shade(false, false), DARK_GROUND);
    assert_eq!(shade(true, true), LIGHT_WALL);
    assert_eq!(shade(true, false), LIGHT_GROUND);
}

#[test]
fn cells_off_the_grid_are_out_of_sight() {
    let visible = sight(&[(1, 1), (3, 2)]);
    assert!(is_in_sight(&visible, 1, 1));
    assert!(is_in_sight(&visible, 3, 2));
    assert!(!is_in_sight(&visible, 0, 0));
    assert!(!is_in_sight(&visible, -1, 1));
    assert!(!is_in_sight(&visible, 1, -1));
    assert!(!is_in_sight(&visible, 4, 1));
    assert!(!is_in_sight(&visible, 1, 3));
    assert!(!is_in_sight(&visible, i32::MAX, i32::MAX));
    assert!(!is_in_sight(&visible, i32::MIN, i32::MIN));
}

#[test]
fn nothing_in_sight_and_nothing_explored_draws_nothing() {
    let mut game = little_game();
    let before = game.map.clone();
    let objects = vec![entity(1, 1, '@')];
    let frame = render_all(&mut game, &objects, &sight(&[]));
    assert_eq!(frame.backgrounds, vec![vec![None; 3]; 4]);
    assert!(frame.glyphs.is_empty());
    assert_eq!(game.map, before);
}

#[test]
fn tiles_in_sight_are_lit_and_become_explored() {
    let mut game = little_game();
    let objects: Vec<Object> = Vec::new();
    let frame = render_all(&mut game, &objects, &sight(&[(1, 1), (1, 0), (3, 2)]));
    let mut expected = vec![vec![None; 3]; 4];
    expected[1][1] = Some(LIGHT_GROUND);
    expected[1][0] = Some(LIGHT_WALL);
    expected[3][2] = Some(LIGHT_WALL);
    assert_eq!(frame.backgrounds, expected);
    for x in 0..4 {
        for y in 0..3 {
            let seen = (x, y) == (1, 1) || (x, y) == (1, 0) || (x, y) == (3, 2);
            assert_eq!(game.map[x][y].explored, seen);
        }
    }
    assert_eq!(game.map[1][1], Tile { blocked: false, explored: true, block_sight: false });
    assert_eq!(game.map[1][0], Tile { blocked: true, explored: true, block_sight: true });
}

#[test]
fn explored_tiles_out_of_sight_are_drawn_dark() {
    let mut game = little_game();
    let objects: Vec<Object> = Vec::new();
    render_all(&mut game, &objects, &sight(&[(1, 1), (1, 0)]));
    let frame = render_all(&mut game, &objects, &sight(&[(2, 1)]));
    let mut expected = vec![vec![None; 3]; 4];
    expected[1][1] = Some(DARK_GROUND);
    expected[1][0] = Some(DARK_WALL);
    expected[2][1] = Some(LIGHT_GROUND);
    assert_eq!(frame.backgrounds, expected);
    assert!(game.map[1][1].explored);
    assert!(game.map[1][0].explored);
    assert!(game.map[2][1].explored);
    assert!(!game.map[0][0].explored);
}

#[test]
fn colour_goes_by_sight_blocking_not_by_movement_blocking() {
    let mut game = little_game();
    game.map[1][1].block_sight = true; // floor that stops the view
    game.map[0][0].block_sight = false; // wall that can be seen through
    let frame = render_all(&mut game, &Vec::new(), &sight(&[(1, 1), (0, 0)]));
    assert_eq!(frame.backgrounds[1][1], Some(LIGHT_WALL));
    assert_eq!(frame.backgrounds[0][0], Some(LIGHT_GROUND));
}

#[test]
fn entities_in_sight_are_drawn_in_their_order() {
    let mut game = little_game();
    let objects = vec![
        entity(1, 1, '@'),
        entity(2, 1, 'O'),
        entity(3, 2, 'T'),
        entity(1, 1, 'x'),
    ];
    let frame = render_all(&mut game, &objects, &sight(&[(1, 1), (3, 2)]));
    let color = Color { r: 7, g: 8, b: 9 };
    assert_eq!(
        frame.glyphs,
        vec![
            DrawGlyph { x: 1, y: 1, glyph: '@', color },
            DrawGlyph { x: 3, y: 2, glyph: 'T', color },
            DrawGlyph { x: 1, y: 1, glyph: 'x', color },
        ]
    );
}

#[test]
fn entities_off_the_map_are_not_drawn() {
    let mut game = little_game();
    let objects = vec![entity(-1, 0, 'a'), entity(4, 1, 'b'), entity(1, 3, 'c'), entity(0, 0, 'd')];
    let all: Vec<(usize, usize)> =
        (0..4).flat_map(|x| (0..3).map(move |y| (x, y))).collect();
    let frame = render_all(&mut game, &objects, &sight(&all));
    assert_eq!(frame.glyphs.len(), 1);
    assert_eq!(frame.glyphs[0].glyph, 'd');
}

#[test]
fn explored_never_goes_back() {
    let mut game = little_game();
    let objects = vec![entity(1, 1, '@')];
    let sights = [
        sight(&[(1, 1), (0, 1)]),
        sight(&[]),
        sight(&[(2, 1), (3, 1)]),
        sight(&[(1, 1)]),
        sight(&[]),
        sight(&[(0, 0), (3, 2)]),
    ];
    let mut ever_seen = vec![vec![false; 3]; 4];
    for visible in &sights {
        let before = game.map.clone();
        let frame = render_all(&mut game, &objects, visible);
        for x in 0..4 {
            for y in 0..3 {
                ever_seen[x][y] = ever_seen[x][y] || visible[x][y];
                assert_eq!(game.map[x][y].explored, ever_seen[x][y]);
                if before[x][y].explored {
                    assert!(game.map[x][y].explored);
                }
                assert_eq!(game.map[x][y].blocked, before[x][y].blocked);
                assert_eq!(game.map[x][y].block_sight, before[x][y].block_sight);
                assert_eq!(frame.backgrounds[x][y].is_some(), ever_seen[x][y]);
            }
        }
    }
}

#[test]
fn frame_of_an_empty_map() {
    let mut game = Game { map: Vec::new() };
    let frame = render_all(&mut game, &vec![entity(0, 0, '@')], &Vec::new());
    assert!(frame.backgrounds.is_empty());
    assert!(frame.glyphs.is_empty());
}

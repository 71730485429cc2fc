use rogue::color::Color;
use rogue::entity::Object;
use rogue::generator::{build_dungeon, build_map, overlaps_any, Dungeon, Game, MapConfig};
use rogue::grid::TileMap;
use rogue::room::RectRoom;
use rogue::tile::Tile;

fn player() -> Object {
    let mut player =
        Object::new(0, 0, '@', Color { r: 255, g: 0, b: 0 }, "Player".to_string(), true);
    player.alive = true;
    player
}

fn small(max_rooms: i32, max_room_monsters: i32) -> MapConfig {
    MapConfig {
        width: 40,
        height: 30,
        max_rooms,
        room_min_size: 4,
        room_max_size: 8,
        max_room_monsters,
    }
}

fn floor_cells(map: &TileMap) -> Vec<(usize, usize)> {
    let mut cells = Vec::new();
    for x in 0..map.len() {
        for y in 0..map[x].len() {
            if !map[x][y].blocked {
                cells.push((x, y));
            }
        }
    }
    cells
}

// the floor cells that a walk over floor reaches from `start`
fn reached_from(map: &TileMap, start: (usize, usize)) -> Vec<(usize, usize)> {
    let mut seen = vec![vec![false; map[0].len()]; map.len()];
    let mut reached = Vec::new();
    let mut stack = Vec::new();
    if !map[start.0][start.1].blocked {
        seen[start.0][start.1] = true;
        stack.push(start);
    }
    while let Some((x, y)) = stack.pop() {
        reached.push((x, y));
        let mut next = Vec::new();
        if x > 0 {
            next.push((x - 1, y));
        }
        if y > 0 {
            next.push((x, y - 1));
        }
        if x + 1 < map.len() {
            next.push((x + 1, y));
        }
        if y + 1 < map[x].len() {
            next.push((x, y + 1));
        }
        for (nx, ny) in next {
            if !seen[nx][ny] && !map[nx][ny].blocked {
                seen[nx][ny] = true;
                stack.push((nx, ny));
            }
        }
    }
    reached.sort();
    reached
}

fn check_level(config: &MapConfig, level: &Dungeon, objects: &[Object]) {
    let map = &level.map;
    let rooms = &level.rooms;
    // shape
    assert_eq!(map.len(), config.width as usize);
    for column in map {
        assert_eq!(column.len(), config.height as usize);
    }
    // every tile is unexplored wall or unexplored floor
    for column in map {
        for tile in column {
            assert!(*tile == Tile::wall() || *tile == Tile::empty());
        }
    }
    // the rooms fit and keep apart
    assert!(rooms.len() <= config.max_rooms.max(0) as usize);
    for room in rooms {
        assert!(0 <= room.x1 && room.x2 <= config.width - 1);
        assert!(0 <= room.y1 && room.y2 <= config.height - 1);
        let w = room.x2 - room.x1;
        let h = room.y2 - room.y1;
        assert!(config.room_min_size <= w && w <= config.room_max_size);
        assert!(config.room_min_size <= h && h <= config.room_max_size);
    }
    for i in 0..rooms.len() {
        for j in 0..rooms.len() {
            if i != j {
                assert!(!rooms[i].intersects_with(&rooms[j]));
            }
        }
    }
    // the inside of every room is floor
    for room in rooms {
        for x in (room.x1 + 1)..room.x2 {
            for y in (room.y1 + 1)..room.y2 {
                assert!(!map[x as usize][y as usize].blocked);
            }
        }
    }
    // every floor cell belongs to a room or to a corridor between two
    // rooms that follow one another
    for (x, y) in floor_cells(map) {
        let (x, y) = (x as i32, y as i32);
        let in_room = rooms.iter().any(|r| r.x1 < x && x < r.x2 && r.y1 < y && y < r.y2);
        let on_corridor = (1..rooms.len()).any(|i| {
            let a = rooms[i - 1].center();
            let b = rooms[i].center();
            let in_x = a.0.min(b.0) <= x && x <= a.0.max(b.0);
            let in_y = a.1.min(b.1) <= y && y <= a.1.max(b.1);
            (in_x && (y == a.1 || y == b.1)) || (in_y && (x == a.0 || x == b.0))
        });
        assert!(in_room || on_corridor);
    }
    // the player stands in the first room, and all floor is reached from there
    if rooms.is_empty() {
        assert_eq!(objects[0], player());
        assert!(floor_cells(map).is_empty());
    } else {
        assert_eq!(objects[0].pos(), rooms[0].center());
        assert_eq!(objects[0], Object { x: objects[0].x, y: objects[0].y, ..player() });
        let start = (objects[0].x as usize, objects[0].y as usize);
        assert_eq!(reached_from(map, start), floor_cells(map));
    }
    // the monsters
    assert!(objects.len() - 1 <= rooms.len() * config.max_room_monsters as usize);
    for k in 1..objects.len() {
        let m = &objects[k];
        assert!(m.glyph == 'O' || m.glyph == 'T');
        assert!(m.blocks && m.alive);
        assert!(rooms.iter().any(|r| r.x1 < m.x && m.x < r.x2 && r.y1 < m.y && m.y < r.y2));
        assert!(!map[m.x as usize][m.y as usize].blocked);
        for j in 0..k {
            assert_ne!(objects[j].pos(), m.pos());
        }
    }
}

#[test]
fn standard_config_is_the_standard_level() {
    let config = MapConfig::standard();
    assert_eq!(
        config,
        MapConfig {
            width: 80,
            height: 45,
            max_rooms: 30,
            room_min_size: 6,
            room_max_size: 10,
            max_room_monsters: 5,
        }
    );
    assert!(config.is_valid());
}

#[test]
fn config_validity() {
    assert!(small(3, 0).is_valid());
    assert!(small(-1, 0).is_valid());
    assert!(!MapConfig { width: -1, ..small(3, 0) }.is_valid());
    assert!(!MapConfig { height: -1, ..small(3, 0) }.is_valid());
    assert!(!MapConfig { room_min_size: -1, ..small(3, 0) }.is_valid());
    assert!(!MapConfig { room_min_size: 9, ..small(3, 0) }.is_valid());
    assert!(!small(3, -1).is_valid());
    assert!(MapConfig { room_min_size: 8, ..small(3, 0) }.is_valid());
    assert!(MapConfig { width: 0, height: 0, ..small(3, 0) }.is_valid());
}

#[test]
fn overlaps_any_looks_at_every_room() {
    let rooms = vec![RectRoom::new(0, 0, 5, 5), RectRoom::new(10, 10, 5, 5)];
    assert!(!overlaps_any(&RectRoom::new(0, 0, 5, 5), &Vec::new()));
    assert!(overlaps_any(&RectRoom::new(3, 3, 5, 5), &rooms));
    assert!(overlaps_any(&RectRoom::new(12, 4, 6, 6), &rooms));
    assert!(overlaps_any(&RectRoom::new(5, 5, 2, 2), &rooms));
    assert!(!overlaps_any(&RectRoom::new(6, 0, 3, 9), &rooms));
    assert!(!overlaps_any(&RectRoom::new(20, 20, 5, 5), &rooms));
}

#[test]
fn standard_levels_hold_what_is_promised() {
    let config = MapConfig::standard();
    for _ in 0..40 {
        let mut objects = vec![player()];
        let level = build_dungeon(&config, &mut objects);
        assert!(!level.rooms.is_empty());
        check_level(&config, &level, &objects);
    }
}

#[test]
fn small_levels_hold_what_is_promised() {
    let config = small(12, 3);
    for _ in 0..60 {
        let mut objects = vec![player()];
        let level = build_dungeon(&config, &mut objects);
        assert!(!level.rooms.is_empty());
        check_level(&config, &level, &objects);
    }
}

#[test]
fn levels_with_tiny_rooms_hold_what_is_promised() {
    let config = MapConfig {
        width: 12,
        height: 9,
        max_rooms: 10,
        room_min_size: 0,
        room_max_size: 3,
        max_room_monsters: 2,
    };
    for _ in 0..200 {
        let mut objects = vec![player()];
        let level = build_dungeon(&config, &mut objects);
        assert!(!level.rooms.is_empty());
        let map = &level.map;
        let rooms = &level.rooms;
        for i in 0..rooms.len() {
            for j in 0..rooms.len() {
                if i != j {
                    assert!(!rooms[i].intersects_with(&rooms[j]));
                }
            }
        }
        assert_eq!(objects[0].pos(), rooms[0].center());
        let cells = floor_cells(map);
        if !cells.is_empty() {
            let start = (objects[0].x as usize, objects[0].y as usize);
            assert_eq!(reached_from(map, start), cells);
        }
        for i in 1..rooms.len() {
            let c = rooms[i].center();
            assert!(!map[c.0 as usize][c.1 as usize].blocked);
        }
    }
}

#[test]
fn single_room_level_has_player_at_center_and_no_corridor() {
    let config = small(1, 0);
    for _ in 0..100 {
        let mut objects = vec![player()];
        let level = build_dungeon(&config, &mut objects);
        assert_eq!(level.rooms.len(), 1);
        let room = level.rooms[0];
        assert_eq!(objects.len(), 1);
        assert_eq!(objects[0].pos(), room.center());
        assert_eq!(
            objects[0].pos(),
            ((room.x1 + room.x2) / 2, (room.y1 + room.y2) / 2)
        );
        // the floor is the inside of the room and nothing more
        let mut inside = Vec::new();
        for x in (room.x1 + 1)..room.x2 {
            for y in (room.y1 + 1)..room.y2 {
                inside.push((x as usize, y as usize));
            }
        }
        assert_eq!(floor_cells(&level.map), inside);
        check_level(&config, &level, &objects);
    }
}

#[test]
fn no_rooms_tried_leaves_solid_wall_and_the_player_in_place() {
    for max_rooms in [0, -3] {
        let config = small(max_rooms, 5);
        let mut objects = vec![player(), player()];
        objects[1].set_pos(7, 7);
        let before = objects.clone();
        let level = build_dungeon(&config, &mut objects);
        assert!(level.rooms.is_empty());
        assert_eq!(objects, before);
        assert!(floor_cells(&level.map).is_empty());
        assert_eq!(level.map.len(), 40);
        assert!(level.map.iter().all(|c| c.len() == 30));
    }
}

#[test]
fn map_too_small_for_any_room_stays_empty() {
    let config = MapConfig {
        width: 6,
        height: 6,
        max_rooms: 10,
        room_min_size: 6,
        room_max_size: 10,
        max_room_monsters: 5,
    };
    for _ in 0..20 {
        let mut objects = vec![player()];
        let level = build_dungeon(&config, &mut objects);
        assert!(level.rooms.is_empty());
        assert_eq!(objects, vec![player()]);
        assert!(floor_cells(&level.map).is_empty());
    }
}

#[test]
fn map_of_no_tiles_can_be_generated() {
    let config = MapConfig { width: 0, height: 0, ..small(5, 5) };
    let mut objects = vec![player()];
    let level = build_dungeon(&config, &mut objects);
    assert!(level.map.is_empty());
    assert!(level.rooms.is_empty());
    assert_eq!(objects, vec![player()]);
}

#[test]
fn room_that_only_just_fits_is_placed_at_the_origin() {
    // the only room that can be drawn fills the map up to the last column and row
    let config = MapConfig {
        width: 7,
        height: 7,
        max_rooms: 4,
        room_min_size: 6,
        room_max_size: 6,
        max_room_monsters: 0,
    };
    let mut objects = vec![player()];
    let level = build_dungeon(&config, &mut objects);
    assert_eq!(level.rooms, vec![RectRoom { x1: 0, y1: 0, x2: 6, y2: 6 }]);
    assert_eq!(objects[0].pos(), (3, 3));
    check_level(&config, &level, &objects);
}

#[test]
fn entities_that_were_there_are_kept() {
    let config = small(8, 2);
    let mut bystander =
        Object::new(1, 1, 'b', Color { r: 9, g: 9, b: 9 }, "bystander".to_string(), false);
    bystander.alive = true;
    let mut objects = vec![player(), bystander.clone()];
    let level = build_dungeon(&config, &mut objects);
    assert_eq!(objects[0].pos(), level.rooms[0].center());
    assert_eq!(objects[1], bystander);
    for m in &objects[2..] {
        assert!(m.glyph == 'O' || m.glyph == 'T');
    }
}

#[test]
fn no_monsters_on_a_level_without_them() {
    let config = small(10, 0);
    for _ in 0..30 {
        let mut objects = vec![player()];
        build_dungeon(&config, &mut objects);
        assert_eq!(objects.len(), 1);
    }
}

#[test]
fn rooms_differ_from_level_to_level() {
    // the draws are not stuck at one end of their range: levels have more
    // than one room, and rooms of more than one size and place
    let config = MapConfig::standard();
    let mut widths = std::collections::BTreeSet::new();
    let mut lefts = std::collections::BTreeSet::new();
    let mut most_rooms = 0;
    let mut bends = std::collections::BTreeSet::new();
    for _ in 0..30 {
        let mut objects = vec![player()];
        let level = build_dungeon(&config, &mut objects);
        most_rooms = most_rooms.max(level.rooms.len());
        for room in &level.rooms {
            widths.insert(room.x2 - room.x1);
            lefts.insert(room.x1);
        }
        for i in 1..level.rooms.len() {
            let a = level.rooms[i - 1].center();
            let b = level.rooms[i].center();
            if a.0 != b.0 && a.1 != b.1 {
                // the bend of a corridor that turns is floor; the other
                // corner of the rectangle tells which way it went
                let first = !level.map[b.0 as usize][a.1 as usize].blocked;
                let second = !level.map[a.0 as usize][b.1 as usize].blocked;
                assert!(first || second);
                if first && !second {
                    bends.insert(true);
                }
                if second && !first {
                    bends.insert(false);
                }
            }
        }
    }
    assert!(most_rooms >= 2);
    assert!(widths.len() >= 2);
    assert!(lefts.len() >= 2);
    assert_eq!(bends.len(), 2);
}

#[test]
fn build_map_gives_a_level() {
    let config = small(10, 2);
    for _ in 0..20 {
        let mut objects = vec![player()];
        let map = build_map(&config, &mut objects);
        assert_eq!(map.len(), 40);
        assert!(map.iter().all(|c| c.len() == 30));
        let start = (objects[0].x as usize, objects[0].y as usize);
        assert!(!map[start.0][start.1].blocked);
        assert_eq!(reached_from(&map, start), floor_cells(&map));
        for m in &objects[1..] {
            assert!(!map[m.x as usize][m.y as usize].blocked);
        }
    }
}

#[test]
fn new_game_has_a_standard_level() {
    for _ in 0..10 {
        let mut objects = vec![player()];
        let game = Game::new(&mut objects);
        assert_eq!(game.map.len(), 80);
        assert!(game.map.iter().all(|c| c.len() == 45));
        let start = (objects[0].x as usize, objects[0].y as usize);
        assert!(!game.map[start.0][start.1].blocked);
        assert_eq!(reached_from(&game.map, start), floor_cells(&game.map));
        // with rooms of six tiles and more, the rim of the map is wall
        for x in 0..80 {
            assert!(game.map[x][0].blocked && game.map[x][44].blocked);
        }
        for y in 0..45 {
            assert!(game.map[0][y].blocked && game.map[79][y].blocked);
        }
    }
}

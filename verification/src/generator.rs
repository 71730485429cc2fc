//! Level generation: rooms are drawn at random, those that touch none of
//! the rooms already there are carved, joined to the room before, and
//! stocked with monsters.

use crate::entity::{blocked_at, Object, PLAYER};
use crate::grid::{
    create_corridor, create_room, grid, is_floor, is_grid, lemma_carve, on_map,
    wall_map, TileMap,
};
use crate::layout::{
    add_room, lay_out, lemma_add_room, lemma_layout_connected, lemma_layout_one_piece,
    lemma_layout_rooms_are_floor, lemma_layout_shape, room_on_map, rooms_on_map,
};
use crate::population::{is_monster, is_population, place_objects};
use crate::random::{random_bool, random_in_range};
use crate::reach::{connected, floor_cells};
use crate::room::RectRoom;
use crate::tile::Tile;
use vstd::prelude::*;

verus! {

/// The numbers that shape a level.
#[derive(Clone, Copy, Debug, PartialEq, Eq, Structural)]
pub struct MapConfig {
    /// Width of the map in tiles.
    pub width: i32,
    /// Height of the map in tiles.
    pub height: i32,
    /// How many rooms are tried. A room that touches an earlier one is
    /// dropped, so fewer may come out.
    pub max_rooms: i32,
    /// Smallest width and height of a room.
    pub room_min_size: i32,
    /// Largest width and height of a room.
    pub room_max_size: i32,
    /// Most monsters that one room is stocked with.
    pub max_room_monsters: i32,
}

impl MapConfig {
    /// Whether a level can be generated from these numbers: no size is
    /// negative and the room sizes make a range.
    pub open spec fn valid(self) -> bool {
        &&& 0 <= self.width
        &&& 0 <= self.height
        &&& 0 <= self.room_min_size <= self.room_max_size
        &&& 0 <= self.max_room_monsters
    }

    /// The numbers of the standard level, as a value of specifications.
    pub open spec fn standard_spec() -> MapConfig {
        MapConfig {
            width: 80,
            height: 45,
            max_rooms: 30,
            room_min_size: 6,
            room_max_size: 10,
            max_room_monsters: 5,
        }
    }

    /// The numbers of the standard level: 80 by 45 tiles, up to 30 rooms of 6
    /// to 10 tiles a side, up to 5 monsters in each.
    #[verifier::when_used_as_spec(standard_spec)]
    pub fn standard() -> (config: MapConfig)
        ensures
            config == MapConfig::standard_spec(),
            config.valid(),
    {
        MapConfig {
            width: 80,
            height: 45,
            max_rooms: 30,
            room_min_size: 6,
            room_max_size: 10,
            max_room_monsters: 5,
        }
    }

    /// Whether a level can be generated from these numbers.
    pub fn is_valid(&self) -> (ok: bool)
        ensures
            ok == self.valid(),
    {
        0 <= self.width && 0 <= self.height && 0 <= self.room_min_size && self.room_min_size
            <= self.room_max_size && 0 <= self.max_room_monsters
    }
}

/// A generated level: the map and the rooms that were carved into it, in
/// the order in which they were accepted.
#[derive(Debug)]
pub struct Dungeon {
    pub map: TileMap,
    pub rooms: Vec<RectRoom>,
}

/// Whether `room` could have been drawn under `config`: its sides have an
/// allowed length and it keeps inside the map, its wall ring included.
pub open spec fn room_fits(room: RectRoom, config: MapConfig) -> bool {
    &&& 0 <= room.x1
    &&& 0 <= room.y1
    &&& room.x2 <= config.width - 1
    &&& room.y2 <= config.height - 1
    &&& config.room_min_size <= room.x2 - room.x1 <= config.room_max_size
    &&& config.room_min_size <= room.y2 - room.y1 <= config.room_max_size
}

/// Whether no two rooms of `rooms` touch or overlap.
pub open spec fn rooms_apart(rooms: Seq<RectRoom>) -> bool {
    forall|i: int, j: int|
        0 <= i < j < rooms.len() ==> !(#[trigger] rooms[i]).intersects_spec(#[trigger] rooms[j])
}

/// Whether `after` is what generation makes of the entities `before` on the
/// level `g` with `rooms`.
///
/// The player, entity 0, stands at the centre of the first room, or where it
/// stood if there is no room. The other entities that were there are
/// untouched. Behind them come the monsters, at most `max_monsters` for each
/// room; each is inside a room, on a tile that does not block, and on a spot
/// where no entity before it in the list blocks.
pub open spec fn is_stocked(
    g: Seq<Seq<Tile>>,
    rooms: Seq<RectRoom>,
    max_monsters: int,
    before: Seq<Object>,
    after: Seq<Object>,
) -> bool {
    &&& 0 < before.len() <= after.len() <= before.len() + rooms.len() * max_monsters
    &&& after[0] == if rooms.len() > 0 {
        before[0].moved_to(rooms[0].center_spec().0 as i32, rooms[0].center_spec().1 as i32)
    } else {
        before[0]
    }
    &&& forall|i: int| 1 <= i < before.len() ==> #[trigger] after[i] == before[i]
    &&& forall|k: int|
        before.len() <= k < after.len() ==> {
            &&& is_monster(#[trigger] after[k])
            &&& exists|r: int|
                0 <= r < rooms.len() && (#[trigger] rooms[r]).has_inside(
                    after[k].x as int,
                    after[k].y as int,
                )
            &&& !blocked_at(g, after.subrange(0, k), after[k].x as int, after[k].y as int)
        }
}

/// Whether `g`, `rooms` and `after` are a level generated under `config`
/// from the entities `before`.
///
/// There are no more rooms than were tried, and at least one if one was
/// tried and the largest room has space on the map. Every room fits, no two
/// touch, the map is exactly what carving them in order gives, and the
/// entities are stocked.
pub open spec fn is_dungeon(
    config: MapConfig,
    g: Seq<Seq<Tile>>,
    rooms: Seq<RectRoom>,
    before: Seq<Object>,
    after: Seq<Object>,
) -> bool {
    &&& rooms.len() <= config.max_rooms || rooms.len() == 0
    &&& config.max_rooms >= 1 && config.width > config.room_max_size && config.height
        > config.room_max_size ==> rooms.len() >= 1
    &&& forall|i: int| 0 <= i < rooms.len() ==> room_fits(#[trigger] rooms[i], config)
    &&& rooms_apart(rooms)
    &&& exists|turns: Seq<bool>|
        turns.len() == rooms.len() && g == #[trigger] lay_out(
            config.width as int,
            config.height as int,
            rooms,
            turns,
        )
    &&& is_stocked(g, rooms, config.max_room_monsters as int, before, after)
}

/// Whether `g` and `after` are a level generated under `config` from the
/// entities `before`, whatever its rooms are.
pub open spec fn is_level(
    config: MapConfig,
    g: Seq<Seq<Tile>>,
    before: Seq<Object>,
    after: Seq<Object>,
) -> bool {
    exists|rooms: Seq<RectRoom>| #[trigger] is_dungeon(config, g, rooms, before, after)
}

/// Whether `room` touches or overlaps one of `rooms`.
pub fn overlaps_any(room: &RectRoom, rooms: &Vec<RectRoom>) -> (hit: bool)
    ensures
        hit == exists|i: int| 0 <= i < rooms.len() && room.intersects_spec(#[trigger] rooms[i]),
{
    let mut i: usize = 0;
    while i < rooms.len()
        invariant
            i <= rooms.len(),
            forall|j: int| 0 <= j < i ==> !room.intersects_spec(#[trigger] rooms[j]),
        decreases rooms.len() - i,
    {
        if room.intersects_with(&rooms[i]) {
            return true;
        }
        i += 1;
    }
    false
}

/// Stocking one more room keeps the entities stocked.
///
/// `current` are the entities before the room was accepted, `placed` the
/// entities once the player has been put into the first room, and `after`
/// the entities once the room has got its monsters. `g2` is the map with
/// the new room; it has all the floor of `g`.
proof fn lemma_stocked_step(
    g: Seq<Seq<Tile>>,
    g2: Seq<Seq<Tile>>,
    width: int,
    height: int,
    rooms: Seq<RectRoom>,
    room: RectRoom,
    max_monsters: int,
    before: Seq<Object>,
    current: Seq<Object>,
    placed: Seq<Object>,
    after: Seq<Object>,
)
    requires
        0 <= max_monsters,
        is_grid(g, width, height),
        rooms_on_map(rooms, width, height),
        forall|x: int, y: int| on_map(g2, x, y) == on_map(g, x, y),
        forall|x: int, y: int| is_floor(g, x, y) ==> is_floor(g2, x, y),
        is_stocked(g, rooms, max_monsters, before, current),
        placed == if rooms.len() == 0 {
            current.update(
                0,
                current[0].moved_to(room.center_spec().0 as i32, room.center_spec().1 as i32),
            )
        } else {
            current
        },
        is_population(g2, room, max_monsters, placed, after),
    ensures
        is_stocked(g2, rooms.push(room), max_monsters, before, after),
{
    let rooms2 = rooms.push(room);
    assert((rooms.len() + 1) * max_monsters == rooms.len() * max_monsters + max_monsters)
        by (nonlinear_arith);
    assert(rooms.len() == 0 ==> rooms.len() * max_monsters == 0) by (nonlinear_arith);
    assert(after.subrange(0, placed.len() as int) == placed);
    assert forall|i: int| 0 <= i < placed.len() implies after[i] == placed[i] by {
        assert(after.subrange(0, placed.len() as int)[i] == after[i]);
    }
    assert(rooms2[0] == if rooms.len() == 0 {
        room
    } else {
        rooms[0]
    });
    assert forall|k: int| before.len() <= k < after.len() implies {
        &&& is_monster(#[trigger] after[k])
        &&& exists|r: int|
            0 <= r < rooms2.len() && (#[trigger] rooms2[r]).has_inside(
                after[k].x as int,
                after[k].y as int,
            )
        &&& !blocked_at(g2, after.subrange(0, k), after[k].x as int, after[k].y as int)
    } by {
        let x = after[k].x as int;
        let y = after[k].y as int;
        if k < placed.len() {
            // a monster of an earlier room
            assert(rooms.len() > 0);
            assert(after[k] == current[k]);
            let r = choose|r: int| 0 <= r < rooms.len() && (#[trigger] rooms[r]).has_inside(x, y);
            assert(rooms2[r] == rooms[r]);
            assert(room_on_map(rooms[r], width, height));
            assert(on_map(g, x, y));
            assert(is_floor(g, x, y));
            assert(is_floor(g2, x, y));
            assert(after.subrange(0, k) =~= current.subrange(0, k));
        } else {
            // a monster of the new room
            assert(rooms2[rooms2.len() - 1] == room);
        }
    }
}

/// Generates a level under `config`, puts the player, entity 0 of
/// `objects`, at the centre of the first room and appends the monsters of
/// every room.
///
/// Up to `max_rooms` times a room is drawn: its width and height from the
/// allowed sizes, its top-left corner so that the room, wall ring included,
/// keeps inside the map. A room too large for the map, or one that touches an
/// earlier room, is dropped and not drawn again. Every other room is carved,
/// joined by a corridor to the room accepted before it, and stocked.
pub fn build_dungeon(config: &MapConfig, objects: &mut Vec<Object>) -> (level: Dungeon)
    requires
        config.valid(),
        old(objects).len() > 0,
    ensures
        is_dungeon(*config, grid(level.map), level.rooms@, old(objects)@, final(objects)@),
        is_grid(grid(level.map), config.width as int, config.height as int),
        // no two rooms touch
        forall|i: int, j: int|
            0 <= i < level.rooms.len() && 0 <= j < level.rooms.len() && i != j ==> !(
            #[trigger] level.rooms[i]).intersects_spec(#[trigger] level.rooms[j]),
        // the inside of every room is floor
        forall|i: int, x: int, y: int|
            0 <= i < level.rooms.len() && (#[trigger] level.rooms[i]).has_inside(x, y)
                ==> #[trigger] is_floor(grid(level.map), x, y),
        // the floor is one piece
        forall|a: (int, int), b: (int, int)|
            is_floor(grid(level.map), a.0, a.1) && is_floor(grid(level.map), b.0, b.1)
                ==> #[trigger] connected(floor_cells(grid(level.map)), a, b),
        // and all of it is reached from where the player starts
        level.rooms.len() > 0 ==> forall|x: int, y: int|
            is_floor(grid(level.map), x, y) ==> #[trigger] connected(
                floor_cells(grid(level.map)),
                final(objects)[0].pos_spec(),
                (x, y),
            ),
        // where the player stands on floor, if the first room has an inside
        level.rooms.len() > 0 && config.room_min_size >= 2 ==> is_floor(
            grid(level.map),
            final(objects)[0].x as int,
            final(objects)[0].y as int,
        ),
{
    let mut map = wall_map(config.width, config.height);
    let mut rooms: Vec<RectRoom> = Vec::new();
    let ghost mut turns: Seq<bool> = Seq::empty();
    let ghost width = config.width as int;
    let ghost height = config.height as int;
    proof {
        assert(objects@.subrange(0, 0) =~= Seq::<Object>::empty());
        assert(0 * (config.max_room_monsters as int) == 0);
    }
    let mut attempt: i32 = 0;
    while attempt < config.max_rooms
        invariant
            config.valid(),
            width == config.width,
            height == config.height,
            0 <= attempt,
            attempt <= config.max_rooms || attempt == 0,
            rooms.len() <= attempt,
            attempt >= 1 && config.width > config.room_max_size && config.height
                > config.room_max_size ==> rooms.len() >= 1,
            turns.len() == rooms.len(),
            grid(map) == lay_out(width, height, rooms@, turns),
            forall|i: int| 0 <= i < rooms.len() ==> room_fits(#[trigger] rooms[i], *config),
            rooms_apart(rooms@),
            is_stocked(
                grid(map),
                rooms@,
                config.max_room_monsters as int,
                old(objects)@,
                objects@,
            ),
        decreases config.max_rooms - attempt,
    {
        attempt += 1;
        let w = random_in_range(config.room_min_size, config.room_max_size);
        let h = random_in_range(config.room_min_size, config.room_max_size);
        if w < config.width && h < config.height {
            let x = random_in_range(0, config.width - w - 1);
            let y = random_in_range(0, config.height - h - 1);
            let new_room = RectRoom::new(x, y, w, h);
            if !overlaps_any(&new_room, &rooms) {
                let ghost g = grid(map);
                let ghost current = objects@;
                proof {
                    lemma_layout_shape(width, height, rooms@, turns);
                    assert(rooms_on_map(rooms@, width, height)) by {
                        assert forall|i: int| 0 <= i < rooms.len() implies room_on_map(
                            #[trigger] rooms@[i],
                            width,
                            height,
                        ) by {
                            assert(room_fits(rooms[i], *config));
                        }
                    }
                    lemma_carve(g, |px: int, py: int| new_room.has_inside(px, py));
                }
                create_room(new_room, &mut map);
                let (new_x, new_y) = new_room.center();
                let mut horizontal_first = false;
                if rooms.len() == 0 {
                    objects[PLAYER].set_pos(new_x, new_y);
                } else {
                    let (prev_x, prev_y) = rooms[rooms.len() - 1].center();
                    horizontal_first = random_bool();
                    proof {
                        assert(room_fits(rooms[rooms.len() - 1], *config));
                    }
                    create_corridor((prev_x, prev_y), (new_x, new_y), horizontal_first, &mut map);
                }
                proof {
                    assert(grid(map) == add_room(g, rooms@, new_room, horizontal_first));
                    lemma_add_room(g, rooms@, new_room, horizontal_first);
                }
                let ghost placed = objects@;
                place_objects(new_room, &map, objects, config.max_room_monsters);
                proof {
                    lemma_stocked_step(
                        g,
                        grid(map),
                        width,
                        height,
                        rooms@,
                        new_room,
                        config.max_room_monsters as int,
                        old(objects)@,
                        current,
                        placed,
                        objects@,
                    );
                    assert(rooms@.push(new_room).drop_last() =~= rooms@);
                    assert(turns.push(horizontal_first).drop_last() =~= turns);
                    turns = turns.push(horizontal_first);
                }
                rooms.push(new_room);
            }
        }
    }
    proof {
        assert(rooms_on_map(rooms@, width, height)) by {
            assert forall|i: int| 0 <= i < rooms.len() implies room_on_map(
                #[trigger] rooms@[i],
                width,
                height,
            ) by {
                assert(room_fits(rooms[i], *config));
            }
        }
        lemma_layout_shape(width, height, rooms@, turns);
        lemma_layout_rooms_are_floor(width, height, rooms@, turns);
        lemma_layout_one_piece(width, height, rooms@, turns);
        if rooms.len() > 0 {
            lemma_layout_connected(width, height, rooms@, turns);
            assert(room_fits(rooms[0], *config));
            if config.room_min_size >= 2 {
                let start = rooms[0].center_spec();
                assert(rooms[0].has_inside(start.0, start.1));
            }
        }
    }
    Dungeon { map, rooms }
}

/// Generates a level as [`build_dungeon`] does and keeps the map only.
pub fn build_map(config: &MapConfig, objects: &mut Vec<Object>) -> (map: TileMap)
    requires
        config.valid(),
        old(objects).len() > 0,
    ensures
        is_level(*config, grid(map), old(objects)@, final(objects)@),
        is_grid(grid(map), config.width as int, config.height as int),
        forall|a: (int, int), b: (int, int)|
            is_floor(grid(map), a.0, a.1) && is_floor(grid(map), b.0, b.1) ==> #[trigger] connected(
                floor_cells(grid(map)),
                a,
                b,
            ),
        config.max_rooms >= 1 && config.width > config.room_max_size && config.height
            > config.room_max_size && config.room_min_size >= 2 ==> is_floor(
            grid(map),
            final(objects)[0].x as int,
            final(objects)[0].y as int,
        ),
{
    let level = build_dungeon(config, objects);
    level.map
}

/// What a session of play owns besides its entities: the map.
#[derive(Debug)]
pub struct Game {
    pub map: TileMap,
}

impl Game {
    /// A game on a freshly generated standard level. The player, entity 0 of
    /// `objects`, is put into the first room, and the monsters are appended.
    pub fn new(objects: &mut Vec<Object>) -> (game: Game)
        requires
            old(objects).len() > 0,
        ensures
            is_level(MapConfig::standard(), grid(game.map), old(objects)@, final(objects)@),
            is_grid(grid(game.map), 80, 45),
            forall|a: (int, int), b: (int, int)|
                is_floor(grid(game.map), a.0, a.1) && is_floor(grid(game.map), b.0, b.1)
                    ==> #[trigger] connected(floor_cells(grid(game.map)), a, b),
            is_floor(grid(game.map), final(objects)[0].x as int, final(objects)[0].y as int),
    {
        let config = MapConfig::standard();
        Game { map: build_map(&config, objects) }
    }
}

} // verus!

//! Monsters: which kinds there are and how a room is stocked with them.

use crate::color::{darker_green, desaturated_green};
use crate::entity::{blocked_at, is_blocked, Object};
use crate::grid::{grid, on_map, TileMap};
use crate::random::random_in_range;
use crate::room::RectRoom;
use crate::tile::Tile;
use vstd::prelude::*;

verus! {

/// Out of a hundred monsters, this many are of the weaker kind.
pub const WEAK_PERCENT: i32 = 80;

/// Whether `o` is an orc, the weaker kind, alive at `(x, y)`.
pub open spec fn is_orc(o: Object, x: int, y: int) -> bool {
    &&& o.pos_spec() == (x, y)
    &&& o.glyph == 'O'
    &&& o.color == desaturated_green()
    &&& o.name@ == "Orc"@
    &&& o.blocks
    &&& o.alive
}

/// Whether `o` is a troll, the stronger kind, alive at `(x, y)`.
pub open spec fn is_troll(o: Object, x: int, y: int) -> bool {
    &&& o.pos_spec() == (x, y)
    &&& o.glyph == 'T'
    &&& o.color == darker_green()
    &&& o.name@ == "Troll"@
    &&& o.blocks
    &&& o.alive
}

/// Whether `o` is a monster of either kind.
pub open spec fn is_monster(o: Object) -> bool {
    is_orc(o, o.x as int, o.y as int) || is_troll(o, o.x as int, o.y as int)
}

/// Whether `after` is `before` with one room's worth of monsters behind it.
///
/// The entities that were there are untouched. At most `max_monsters` were
/// added; each is a monster inside `room`, on a tile that does not block,
/// and on a spot where no entity before it in the list blocks.
pub open spec fn is_population(
    g: Seq<Seq<Tile>>,
    room: RectRoom,
    max_monsters: int,
    before: Seq<Object>,
    after: Seq<Object>,
) -> bool {
    &&& before.len() <= after.len() <= before.len() + max_monsters
    &&& after.subrange(0, before.len() as int) == before
    &&& forall|k: int|
        before.len() <= k < after.len() ==> {
            &&& is_monster(#[trigger] after[k])
            &&& room.has_inside(after[k].x as int, after[k].y as int)
            &&& !blocked_at(g, after.subrange(0, k), after[k].x as int, after[k].y as int)
        }
}

/// A monster at `(x, y)`: an orc if `weak`, a troll if not.
pub fn spawn_monster(x: i32, y: i32, weak: bool) -> (monster: Object)
    ensures
        weak ==> is_orc(monster, x as int, y as int),
        !weak ==> is_troll(monster, x as int, y as int),
{
    let mut monster = if weak {
        Object::new(x, y, 'O', desaturated_green(), "Orc".to_string(), true)
    } else {
        Object::new(x, y, 'T', darker_green(), "Troll".to_string(), true)
    };
    monster.alive = true;
    monster
}

/// Puts a monster at `(x, y)` unless terrain or a blocking entity is in the
/// way, and says whether it did.
pub fn place_monster(x: i32, y: i32, weak: bool, map: &TileMap, objects: &mut Vec<Object>) -> (placed:
    bool)
    requires
        on_map(grid(*map), x as int, y as int),
    ensures
        placed == !blocked_at(grid(*map), old(objects)@, x as int, y as int),
        !placed ==> final(objects)@ == old(objects)@,
        placed ==> final(objects)@.len() == old(objects)@.len() + 1,
        placed ==> final(objects)@.drop_last() == old(objects)@,
        placed && weak ==> is_orc(final(objects)@.last(), x as int, y as int),
        placed && !weak ==> is_troll(final(objects)@.last(), x as int, y as int),
{
    if is_blocked(x, y, map, objects) {
        return false;
    }
    let monster = spawn_monster(x, y, weak);
    objects.push(monster);
    true
}

/// Stocks `room` with monsters: draws how many, from none to
/// `max_monsters`, and for each a spot inside the room and its kind. A draw
/// that lands on a blocked spot is dropped, not repeated. A room without
/// interior gets none.
pub fn place_objects(room: RectRoom, map: &TileMap, objects: &mut Vec<Object>, max_monsters: i32)
    requires
        0 <= max_monsters,
        forall|x: int, y: int| room.has_inside(x, y) ==> on_map(grid(*map), x, y),
    ensures
        is_population(grid(*map), room, max_monsters as int, old(objects)@, final(objects)@),
{
    let num_monsters = random_in_range(0, max_monsters);
    if room.x1 as i64 + 1 > room.x2 as i64 - 1 || room.y1 as i64 + 1 > room.y2 as i64 - 1 {
        assert(objects@.subrange(0, old(objects)@.len() as int) =~= old(objects)@);
        return ;
    }
    assert(objects@.subrange(0, old(objects)@.len() as int) =~= old(objects)@);
    let mut drawn: i32 = 0;
    while drawn < num_monsters
        invariant
            0 <= drawn <= num_monsters <= max_monsters,
            room.x1 + 1 <= room.x2 - 1,
            room.y1 + 1 <= room.y2 - 1,
            forall|x: int, y: int| room.has_inside(x, y) ==> on_map(grid(*map), x, y),
            is_population(grid(*map), room, drawn as int, old(objects)@, objects@),
        decreases num_monsters - drawn,
    {
        let x = random_in_range(room.x1 + 1, room.x2 - 1);
        let y = random_in_range(room.y1 + 1, room.y2 - 1);
        let weak = random_in_range(1, 100) <= WEAK_PERCENT;
        assert(room.has_inside(x as int, y as int));
        let ghost before = objects@;
        let placed = place_monster(x, y, weak, map, objects);
        proof {
            if placed {
                assert(objects@.subrange(0, old(objects)@.len() as int) =~= before.subrange(
                    0,
                    old(objects)@.len() as int,
                ));
                assert forall|k: int| old(objects)@.len() <= k < objects@.len() implies {
                    &&& is_monster(#[trigger] objects@[k])
                    &&& room.has_inside(objects@[k].x as int, objects@[k].y as int)
                    &&& !blocked_at(
                        grid(*map),
                        objects@.subrange(0, k),
                        objects@[k].x as int,
                        objects@[k].y as int,
                    )
                } by {
                    if k < before.len() {
                        assert(objects@[k] == before[k]);
                        assert(objects@.subrange(0, k) =~= before.subrange(0, k));
                    }
                }
            }
        }
        drawn += 1;
    }
}

} // verus!

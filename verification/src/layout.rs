//! The level as a function of its rooms: what the map looks like once the
//! rooms have been carved one after the other, each joined to the one before
//! by a corridor, and what holds of every such map.

use crate::grid::{
    carve, carve_corridor, carve_room, in_column, in_row, is_floor, is_grid, lemma_carve,
    on_corridor, on_map, walls,
};
use crate::reach::{
    connected, floor_cells, lemma_column_connected, lemma_connected_back, lemma_connected_chain,
    lemma_connected_grows, lemma_connected_self, lemma_row_connected,
};
use crate::room::RectRoom;
use crate::tile::Tile;
use vstd::math::{max, min};
use vstd::prelude::*;

verus! {

/// `g` after one more room: its interior is carved, and if there are
/// `earlier` rooms, a corridor is carved from the centre of the last of them
/// to the centre of the new one, bending as `horizontal_first` says.
pub open spec fn add_room(
    g: Seq<Seq<Tile>>,
    earlier: Seq<RectRoom>,
    room: RectRoom,
    horizontal_first: bool,
) -> Seq<Seq<Tile>> {
    let with_room = carve_room(g, room);
    if earlier.len() == 0 {
        with_room
    } else {
        carve_corridor(with_room, earlier.last().center_spec(), room.center_spec(), horizontal_first)
    }
}

/// The map of `width` by `height` tiles that holds `rooms`, carved in this
/// order out of solid wall. `turns[i]` is the bend of the corridor that leads
/// to `rooms[i]`; `turns[0]` means nothing.
pub open spec fn lay_out(width: int, height: int, rooms: Seq<RectRoom>, turns: Seq<bool>) -> Seq<
    Seq<Tile>,
>
    decreases rooms.len(),
{
    if rooms.len() == 0 {
        walls(width, height)
    } else {
        add_room(
            lay_out(width, height, rooms.drop_last(), turns.drop_last()),
            rooms.drop_last(),
            rooms.last(),
            turns.last(),
        )
    }
}

/// Whether `room` lies on a map of `width` by `height` tiles, corners
/// included, with its corners in order.
pub open spec fn room_on_map(room: RectRoom, width: int, height: int) -> bool {
    0 <= room.x1 <= room.x2 < width && 0 <= room.y1 <= room.y2 < height
}

/// Whether every room of `rooms` lies on the map.
pub open spec fn rooms_on_map(rooms: Seq<RectRoom>, width: int, height: int) -> bool {
    forall|i: int| 0 <= i < rooms.len() ==> room_on_map(#[trigger] rooms[i], width, height)
}

/// What one more room does to the floor: a cell is floor afterwards exactly
/// if it was floor before, lies inside the room, or lies on the corridor.
/// The shape of the map and what has been explored stay.
pub proof fn lemma_add_room(
    g: Seq<Seq<Tile>>,
    earlier: Seq<RectRoom>,
    room: RectRoom,
    horizontal_first: bool,
)
    ensures
        add_room(g, earlier, room, horizontal_first).len() == g.len(),
        forall|x: int|
            0 <= x < g.len() ==> (#[trigger] add_room(g, earlier, room, horizontal_first)[x]).len()
                == g[x].len(),
        forall|x: int, y: int| #[trigger]
            on_map(add_room(g, earlier, room, horizontal_first), x, y) == on_map(g, x, y),
        forall|x: int, y: int| #[trigger]
            is_floor(add_room(g, earlier, room, horizontal_first), x, y) == (on_map(g, x, y) && (
            is_floor(g, x, y) || room.has_inside(x, y) || (earlier.len() > 0 && on_corridor(
                earlier.last().center_spec(),
                room.center_spec(),
                horizontal_first,
                x,
                y,
            )))),
        forall|x: int, y: int|
            on_map(g, x, y) ==> (#[trigger] add_room(g, earlier, room, horizontal_first)[x][y]).explored
                == g[x][y].explored,
{
    let g1 = carve_room(g, room);
    lemma_carve(g, |x: int, y: int| room.has_inside(x, y));
    if earlier.len() > 0 {
        let a = earlier.last().center_spec();
        let b = room.center_spec();
        if horizontal_first {
            let g2 = carve(g1, |px: int, py: int| in_row(a.0, b.0, a.1, px, py));
            lemma_carve(g1, |px: int, py: int| in_row(a.0, b.0, a.1, px, py));
            lemma_carve(g2, |px: int, py: int| in_column(a.1, b.1, b.0, px, py));
        } else {
            let g2 = carve(g1, |px: int, py: int| in_column(a.1, b.1, a.0, px, py));
            lemma_carve(g1, |px: int, py: int| in_column(a.1, b.1, a.0, px, py));
            lemma_carve(g2, |px: int, py: int| in_row(a.0, b.0, b.1, px, py));
        }
    }
}

/// A laid-out map is a full rectangle, and nothing on it has been explored.
pub proof fn lemma_layout_shape(width: int, height: int, rooms: Seq<RectRoom>, turns: Seq<bool>)
    requires
        0 <= width,
        0 <= height,
    ensures
        is_grid(lay_out(width, height, rooms, turns), width, height),
        forall|x: int, y: int|
            on_map(lay_out(width, height, rooms, turns), x, y) ==> !(#[trigger] lay_out(
                width,
                height,
                rooms,
                turns,
            )[x][y]).explored,
    decreases rooms.len(),
{
    if rooms.len() > 0 {
        let g = lay_out(width, height, rooms.drop_last(), turns.drop_last());
        lemma_layout_shape(width, height, rooms.drop_last(), turns.drop_last());
        lemma_add_room(g, rooms.drop_last(), rooms.last(), turns.last());
    }
}

/// Whether room `i` accounts for floor at `(x, y)`: the cell lies inside it,
/// or on the corridor that leads to it from the room before.
pub open spec fn built_by(rooms: Seq<RectRoom>, turns: Seq<bool>, i: int, x: int, y: int) -> bool {
    rooms[i].has_inside(x, y) || (i >= 1 && on_corridor(
        rooms[i - 1].center_spec(),
        rooms[i].center_spec(),
        turns[i],
        x,
        y,
    ))
}

/// Whether one of the rooms accounts for floor at `(x, y)`.
pub open spec fn built_at(rooms: Seq<RectRoom>, turns: Seq<bool>, x: int, y: int) -> bool {
    exists|i: int| 0 <= i < rooms.len() && #[trigger] built_by(rooms, turns, i, x, y)
}

/// The floor of a laid-out map is what the rooms and corridors account for,
/// as far as it lies on the map, and nothing else.
pub proof fn lemma_layout_floor(width: int, height: int, rooms: Seq<RectRoom>, turns: Seq<bool>)
    requires
        0 <= width,
        0 <= height,
        turns.len() == rooms.len(),
    ensures
        forall|x: int, y: int| #[trigger]
            is_floor(lay_out(width, height, rooms, turns), x, y) == (0 <= x < width && 0 <= y
                < height && built_at(rooms, turns, x, y)),
    decreases rooms.len(),
{
    let g2 = lay_out(width, height, rooms, turns);
    lemma_layout_shape(width, height, rooms, turns);
    if rooms.len() > 0 {
        let earlier = rooms.drop_last();
        let before = turns.drop_last();
        let g = lay_out(width, height, earlier, before);
        let last = rooms.len() - 1;
        lemma_layout_floor(width, height, earlier, before);
        lemma_layout_shape(width, height, earlier, before);
        lemma_add_room(g, earlier, rooms.last(), turns.last());
        assert forall|x: int, y: int| #[trigger]
            is_floor(g2, x, y) == (0 <= x < width && 0 <= y < height && built_at(
                rooms,
                turns,
                x,
                y,
            )) by {
            // what an earlier room accounts for, it accounts for among all rooms
            if built_at(earlier, before, x, y) {
                let i = choose|i: int|
                    0 <= i < earlier.len() && #[trigger] built_by(earlier, before, i, x, y);
                assert(built_by(rooms, turns, i, x, y));
            }
            // and the other way round, but for the last room
            if built_at(rooms, turns, x, y) {
                let i = choose|i: int|
                    0 <= i < rooms.len() && #[trigger] built_by(rooms, turns, i, x, y);
                if i < last {
                    assert(built_by(earlier, before, i, x, y));
                }
            }
            // the last room accounts for what was added to the map with it
            assert(built_by(rooms, turns, last, x, y) == (rooms.last().has_inside(x, y) || (
            earlier.len() > 0 && on_corridor(
                earlier.last().center_spec(),
                rooms.last().center_spec(),
                turns.last(),
                x,
                y,
            ))));
        }
    }
}

/// On a laid-out map the inside of every room is floor.
pub proof fn lemma_layout_rooms_are_floor(
    width: int,
    height: int,
    rooms: Seq<RectRoom>,
    turns: Seq<bool>,
)
    requires
        0 <= width,
        0 <= height,
        turns.len() == rooms.len(),
        rooms_on_map(rooms, width, height),
    ensures
        forall|i: int, x: int, y: int|
            0 <= i < rooms.len() && (#[trigger] rooms[i]).has_inside(x, y) ==> #[trigger] is_floor(
                lay_out(width, height, rooms, turns),
                x,
                y,
            ),
{
    lemma_layout_floor(width, height, rooms, turns);
    assert forall|i: int, x: int, y: int|
        0 <= i < rooms.len() && (#[trigger] rooms[i]).has_inside(x, y) implies #[trigger] is_floor(
        lay_out(width, height, rooms, turns),
        x,
        y,
    ) by {
        assert(room_on_map(rooms[i], width, height));
        assert(built_by(rooms, turns, i, x, y));
    }
}

/// Inside a rectangle of floor every cell is reached from every other.
pub proof fn lemma_room_connected(
    floor: Set<(int, int)>,
    room: RectRoom,
    a: (int, int),
    b: (int, int),
)
    requires
        forall|x: int, y: int| room.has_inside(x, y) ==> #[trigger] floor.contains((x, y)),
        room.has_inside(a.0, a.1),
        room.has_inside(b.0, b.1),
    ensures
        connected(floor, a, b),
{
    let corner = (b.0, a.1);
    assert forall|x: int| min(a.0, b.0) <= x <= max(a.0, b.0) implies #[trigger] floor.contains(
        (x, a.1),
    ) by {
        assert(room.has_inside(x, a.1));
    }
    lemma_row_connected(floor, a.1, min(a.0, b.0), max(a.0, b.0));
    assert forall|y: int| min(a.1, b.1) <= y <= max(a.1, b.1) implies #[trigger] floor.contains(
        (b.0, y),
    ) by {
        assert(room.has_inside(b.0, y));
    }
    lemma_column_connected(floor, b.0, min(a.1, b.1), max(a.1, b.1));
    lemma_connected_chain(floor, a, corner, b);
}

/// Every cell of a corridor of floor is reached from the corridor's start.
pub proof fn lemma_corridor_connected(
    floor: Set<(int, int)>,
    from: (int, int),
    to: (int, int),
    horizontal_first: bool,
    c: (int, int),
)
    requires
        forall|x: int, y: int|
            on_corridor(from, to, horizontal_first, x, y) ==> #[trigger] floor.contains((x, y)),
        on_corridor(from, to, horizontal_first, c.0, c.1),
    ensures
        connected(floor, from, c),
{
    if horizontal_first {
        // the bend lies in the row of `from` and the column of `to`
        let bend = (to.0, from.1);
        let along = if in_row(from.0, to.0, from.1, c.0, c.1) {
            c
        } else {
            bend
        };
        assert forall|x: int| min(from.0, along.0) <= x <= max(from.0, along.0) implies #[trigger]
            floor.contains((x, from.1)) by {
            assert(on_corridor(from, to, horizontal_first, x, from.1));
        }
        lemma_row_connected(floor, from.1, min(from.0, along.0), max(from.0, along.0));
        if !in_row(from.0, to.0, from.1, c.0, c.1) {
            assert forall|y: int| min(from.1, c.1) <= y <= max(from.1, c.1) implies #[trigger]
                floor.contains((to.0, y)) by {
                assert(on_corridor(from, to, horizontal_first, to.0, y));
            }
            lemma_column_connected(floor, to.0, min(from.1, c.1), max(from.1, c.1));
            lemma_connected_chain(floor, from, bend, c);
        }
    } else {
        // the bend lies in the column of `from` and the row of `to`
        let bend = (from.0, to.1);
        let along = if in_column(from.1, to.1, from.0, c.0, c.1) {
            c
        } else {
            bend
        };
        assert forall|y: int| min(from.1, along.1) <= y <= max(from.1, along.1) implies #[trigger]
            floor.contains((from.0, y)) by {
            assert(on_corridor(from, to, horizontal_first, from.0, y));
        }
        lemma_column_connected(floor, from.0, min(from.1, along.1), max(from.1, along.1));
        if !in_column(from.1, to.1, from.0, c.0, c.1) {
            assert forall|x: int| min(from.0, c.0) <= x <= max(from.0, c.0) implies #[trigger]
                floor.contains((x, to.1)) by {
                assert(on_corridor(from, to, horizontal_first, x, to.1));
            }
            lemma_row_connected(floor, to.1, min(from.0, c.0), max(from.0, c.0));
            lemma_connected_chain(floor, from, bend, c);
        }
    }
}

/// One more room keeps the floor in one piece: if every floor cell is
/// reached from `start` before, every floor cell is reached from it after.
///
/// `start` is the centre of the first room. The centre of the room before
/// the new one has to be floor already, unless that room is the first.
pub proof fn lemma_add_room_connected(
    g: Seq<Seq<Tile>>,
    width: int,
    height: int,
    earlier: Seq<RectRoom>,
    room: RectRoom,
    horizontal_first: bool,
    start: (int, int),
)
    requires
        is_grid(g, width, height),
        room_on_map(room, width, height),
        earlier.len() > 0 ==> room_on_map(earlier.last(), width, height),
        forall|x: int, y: int| is_floor(g, x, y) ==> connected(floor_cells(g), start, (x, y)),
        earlier.len() == 0 ==> start == room.center_spec() && forall|x: int, y: int|
            !is_floor(g, x, y),
        earlier.len() == 1 ==> start == earlier[0].center_spec(),
        earlier.len() >= 2 ==> is_floor(
            g,
            earlier.last().center_spec().0,
            earlier.last().center_spec().1,
        ),
    ensures
        forall|x: int, y: int|
            is_floor(add_room(g, earlier, room, horizontal_first), x, y) ==> connected(
                floor_cells(add_room(g, earlier, room, horizontal_first)),
                start,
                (x, y),
            ),
        earlier.len() >= 1 ==> is_floor(
            add_room(g, earlier, room, horizontal_first),
            room.center_spec().0,
            room.center_spec().1,
        ),
{
    let g2 = add_room(g, earlier, room, horizontal_first);
    let f1 = floor_cells(g);
    let f2 = floor_cells(g2);
    let new = room.center_spec();
    lemma_add_room(g, earlier, room, horizontal_first);
    assert(f1.subset_of(f2));
    assert forall|x: int, y: int| room.has_inside(x, y) implies #[trigger] f2.contains((x, y)) by {
        assert(on_map(g, x, y));
    }
    if earlier.len() > 0 {
        let prev = earlier.last().center_spec();
        assert forall|x: int, y: int|
            on_corridor(prev, new, horizontal_first, x, y) implies #[trigger] f2.contains(
            (x, y),
        ) by {
            assert(on_map(g, x, y));
        }
        assert(connected(f2, start, prev)) by {
            if earlier.len() == 1 {
                lemma_connected_self(f2, prev);
            } else {
                lemma_connected_grows(f1, f2, start, prev);
            }
        }
        lemma_corridor_connected(f2, prev, new, horizontal_first, new);
        lemma_connected_chain(f2, start, prev, new);
        assert forall|x: int, y: int| is_floor(g2, x, y) implies connected(f2, start, (x, y)) by {
            if is_floor(g, x, y) {
                lemma_connected_grows(f1, f2, start, (x, y));
            } else if room.has_inside(x, y) {
                lemma_room_connected(f2, room, new, (x, y));
                lemma_connected_chain(f2, start, new, (x, y));
            } else {
                lemma_corridor_connected(f2, prev, new, horizontal_first, (x, y));
                lemma_connected_chain(f2, start, prev, (x, y));
            }
        }
    } else {
        assert forall|x: int, y: int| is_floor(g2, x, y) implies connected(f2, start, (x, y)) by {
            lemma_room_connected(f2, room, new, (x, y));
        }
    }
}

/// On a laid-out map every floor cell is reached from the centre of the
/// first room, and the centre of every later room is floor.
pub proof fn lemma_layout_connected(
    width: int,
    height: int,
    rooms: Seq<RectRoom>,
    turns: Seq<bool>,
)
    requires
        0 <= width,
        0 <= height,
        rooms.len() > 0,
        rooms_on_map(rooms, width, height),
    ensures
        forall|x: int, y: int|
            is_floor(lay_out(width, height, rooms, turns), x, y) ==> connected(
                floor_cells(lay_out(width, height, rooms, turns)),
                rooms[0].center_spec(),
                (x, y),
            ),
        rooms.len() >= 2 ==> is_floor(
            lay_out(width, height, rooms, turns),
            rooms.last().center_spec().0,
            rooms.last().center_spec().1,
        ),
    decreases rooms.len(),
{
    let earlier = rooms.drop_last();
    let g = lay_out(width, height, earlier, turns.drop_last());
    lemma_layout_shape(width, height, earlier, turns.drop_last());
    assert(rooms_on_map(earlier, width, height)) by {
        assert forall|i: int| 0 <= i < earlier.len() implies room_on_map(
            #[trigger] earlier[i],
            width,
            height,
        ) by {
            assert(earlier[i] == rooms[i]);
        }
    }
    if earlier.len() > 0 {
        lemma_layout_connected(width, height, earlier, turns.drop_last());
    }
    lemma_add_room_connected(
        g,
        width,
        height,
        earlier,
        rooms.last(),
        turns.last(),
        rooms[0].center_spec(),
    );
}

/// The floor of a laid-out map is one piece: every floor cell is reached
/// from every other.
pub proof fn lemma_layout_one_piece(
    width: int,
    height: int,
    rooms: Seq<RectRoom>,
    turns: Seq<bool>,
)
    requires
        0 <= width,
        0 <= height,
        rooms_on_map(rooms, width, height),
    ensures
        forall|a: (int, int), b: (int, int)|
            is_floor(lay_out(width, height, rooms, turns), a.0, a.1) && is_floor(
                lay_out(width, height, rooms, turns),
                b.0,
                b.1,
            ) ==> #[trigger] connected(floor_cells(lay_out(width, height, rooms, turns)), a, b),
{
    let g = lay_out(width, height, rooms, turns);
    if rooms.len() > 0 {
        lemma_layout_connected(width, height, rooms, turns);
        let start = rooms[0].center_spec();
        assert forall|a: (int, int), b: (int, int)|
            is_floor(g, a.0, a.1) && is_floor(g, b.0, b.1) implies #[trigger] connected(
            floor_cells(g),
            a,
            b,
        ) by {
            lemma_connected_back(floor_cells(g), start, a);
            lemma_connected_chain(floor_cells(g), a, start, b);
        }
    }
}

} // verus!

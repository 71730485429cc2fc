//! The tile map and the three ways of carving floor into it.
//!
//! A map is stored column by column: `map[x][y]` is the tile at `(x, y)`.
//! Contracts speak of its mathematical picture, [`grid`], a sequence of
//! columns of tiles.

use crate::room::RectRoom;
use crate::tile::Tile;
use vstd::math::{max, min};
use vstd::prelude::*;

verus! {

/// A map of tiles, indexed `[x][y]`.
pub type TileMap = Vec<Vec<Tile>>;

/// A vector of columns as a sequence of columns: the picture of a map, and
/// of anything else that is laid out like one.
pub open spec fn grid<T>(map: Vec<Vec<T>>) -> Seq<Seq<T>> {
    Seq::new(map.len() as nat, |x: int| map[x]@)
}

/// Whether `(x, y)` names a cell of `g`.
pub open spec fn on_map<T>(g: Seq<Seq<T>>, x: int, y: int) -> bool {
    0 <= x < g.len() && 0 <= y < g[x].len()
}

/// Whether `g` is a full rectangle of `width` columns of `height` tiles.
pub open spec fn is_grid(g: Seq<Seq<Tile>>, width: int, height: int) -> bool {
    g.len() == width && forall|x: int| 0 <= x < g.len() ==> (#[trigger] g[x]).len() == height
}

/// Whether `(x, y)` is a tile of `g` that can be walked on.
pub open spec fn is_floor(g: Seq<Seq<Tile>>, x: int, y: int) -> bool {
    on_map(g, x, y) && !g[x][y].blocked
}

/// The grid of `width` by `height` unexplored walls.
pub open spec fn walls(width: int, height: int) -> Seq<Seq<Tile>> {
    Seq::new(width as nat, |x: int| Seq::new(height as nat, |y: int| Tile::wall()))
}

/// `g` with every tile inside `region` carved to floor and every other tile
/// untouched.
pub open spec fn carve(g: Seq<Seq<Tile>>, region: spec_fn(int, int) -> bool) -> Seq<Seq<Tile>> {
    Seq::new(
        g.len(),
        |x: int|
            Seq::new(
                g[x].len(),
                |y: int|
                    if region(x, y) {
                        g[x][y].carved()
                    } else {
                        g[x][y]
                    },
            ),
    )
}

/// Whether `(x, y)` lies on the horizontal run between `x1` and `x2`, both
/// included and in either order, at height `row`.
pub open spec fn in_row(x1: int, x2: int, row: int, x: int, y: int) -> bool {
    y == row && min(x1, x2) <= x <= max(x1, x2)
}

/// Whether `(x, y)` lies on the vertical run between `y1` and `y2`, both
/// included and in either order, in column `column`.
pub open spec fn in_column(y1: int, y2: int, column: int, x: int, y: int) -> bool {
    x == column && min(y1, y2) <= y <= max(y1, y2)
}

/// `g` after the interior of `room` has been carved.
pub open spec fn carve_room(g: Seq<Seq<Tile>>, room: RectRoom) -> Seq<Seq<Tile>> {
    carve(g, |x: int, y: int| room.has_inside(x, y))
}

/// `g` after the horizontal run from `x1` to `x2` at height `y` has been
/// carved.
pub open spec fn carve_row(g: Seq<Seq<Tile>>, x1: int, x2: int, y: int) -> Seq<Seq<Tile>> {
    carve(g, |px: int, py: int| in_row(x1, x2, y, px, py))
}

/// `g` after the vertical run from `y1` to `y2` in column `x` has been carved.
pub open spec fn carve_column(g: Seq<Seq<Tile>>, y1: int, y2: int, x: int) -> Seq<Seq<Tile>> {
    carve(g, |px: int, py: int| in_column(y1, y2, x, px, py))
}

/// Whether `(x, y)` lies on the corridor that leads from `from` to `to`
/// with one bend: along the row of `from` and then the column of `to` if
/// `horizontal_first`, along the column of `from` and then the row of `to` if
/// not.
pub open spec fn on_corridor(
    from: (int, int),
    to: (int, int),
    horizontal_first: bool,
    x: int,
    y: int,
) -> bool {
    if horizontal_first {
        in_row(from.0, to.0, from.1, x, y) || in_column(from.1, to.1, to.0, x, y)
    } else {
        in_column(from.1, to.1, from.0, x, y) || in_row(from.0, to.0, to.1, x, y)
    }
}

/// `g` after the corridor from `from` to `to` has been carved.
pub open spec fn carve_corridor(
    g: Seq<Seq<Tile>>,
    from: (int, int),
    to: (int, int),
    horizontal_first: bool,
) -> Seq<Seq<Tile>> {
    if horizontal_first {
        carve_column(carve_row(g, from.0, to.0, from.1), from.1, to.1, to.0)
    } else {
        carve_row(carve_column(g, from.1, to.1, from.0), from.0, to.0, to.1)
    }
}

/// Carving changes no tile outside the region and keeps the shape of the
/// map; inside the region every tile becomes floor.
pub proof fn lemma_carve(g: Seq<Seq<Tile>>, region: spec_fn(int, int) -> bool)
    ensures
        carve(g, region).len() == g.len(),
        forall|x: int| 0 <= x < g.len() ==> (#[trigger] carve(g, region)[x]).len() == g[x].len(),
        forall|x: int, y: int| #[trigger] on_map(carve(g, region), x, y) == on_map(g, x, y),
        forall|x: int, y: int| #[trigger]
            is_floor(carve(g, region), x, y) == (on_map(g, x, y) && (region(x, y) || is_floor(
                g,
                x,
                y,
            ))),
        forall|x: int, y: int|
            on_map(g, x, y) ==> (#[trigger] carve(g, region)[x][y]).explored == g[x][y].explored,
{
}

/// A map of `width` by `height` unexplored walls.
pub fn wall_map(width: i32, height: i32) -> (map: TileMap)
    requires
        0 <= width,
        0 <= height,
    ensures
        grid(map) == walls(width as int, height as int),
{
    let mut map: TileMap = Vec::new();
    let mut x: i32 = 0;
    while x < width
        invariant
            0 <= x <= width,
            0 <= height,
            map.len() == x,
            forall|px: int| 0 <= px < x ==> (#[trigger] map[px]).len() == height,
            forall|px: int, py: int|
                0 <= px < x && 0 <= py < height ==> #[trigger] map[px][py] == Tile::wall(),
        decreases width - x,
    {
        let mut column: Vec<Tile> = Vec::new();
        let mut y: i32 = 0;
        while y < height
            invariant
                0 <= y <= height,
                column.len() == y,
                forall|py: int| 0 <= py < y ==> column[py] == Tile::wall(),
            decreases height - y,
        {
            column.push(Tile::wall());
            y += 1;
        }
        map.push(column);
        x += 1;
    }
    assert(grid(map) =~~= walls(width as int, height as int));
    map
}

/// Carves the interior of `room`, the cells strictly inside its bounding
/// box, to floor.
pub fn create_room(room: RectRoom, map: &mut TileMap)
    requires
        forall|x: int, y: int| room.has_inside(x, y) ==> on_map(grid(*old(map)), x, y),
    ensures
        grid(*final(map)) == carve_room(grid(*old(map)), room),
{
    if room.x1 >= room.x2 || room.y1 >= room.y2 {
        assert(grid(*map) =~~= carve_room(grid(*old(map)), room));
        return ;
    }
    let mut x: i32 = room.x1 + 1;
    while x < room.x2
        invariant
            room.x1 < x <= room.x2,
            room.y1 < room.y2,
            forall|px: int, py: int| room.has_inside(px, py) ==> on_map(grid(*old(map)), px, py),
            map.len() == old(map).len(),
            forall|px: int| 0 <= px < map.len() ==> (#[trigger] map[px]).len() == old(map)[px].len(),
            forall|px: int, py: int|
                on_map(grid(*old(map)), px, py) ==> #[trigger] map[px][py] == if room.has_inside(
                    px,
                    py,
                ) && px < x {
                    old(map)[px][py].carved()
                } else {
                    old(map)[px][py]
                },
        decreases room.x2 - x,
    {
        let mut y: i32 = room.y1 + 1;
        while y < room.y2
            invariant
                room.x1 < x < room.x2,
                room.y1 < y <= room.y2,
                forall|px: int, py: int|
                    room.has_inside(px, py) ==> on_map(grid(*old(map)), px, py),
                map.len() == old(map).len(),
                forall|px: int|
                    0 <= px < map.len() ==> (#[trigger] map[px]).len() == old(map)[px].len(),
                forall|px: int, py: int|
                    on_map(grid(*old(map)), px, py) ==> #[trigger] map[px][py]
                        == if room.has_inside(px, py) && (px < x || (px == x && py < y)) {
                        old(map)[px][py].carved()
                    } else {
                        old(map)[px][py]
                    },
            decreases room.y2 - y,
        {
            assert(room.has_inside(x as int, y as int));
            map[x as usize][y as usize].blocked = false;
            map[x as usize][y as usize].block_sight = false;
            y += 1;
        }
        x += 1;
    }
    assert(grid(*map) =~~= carve_room(grid(*old(map)), room));
}

/// Carves the horizontal run between `x1` and `x2`, both included and in
/// either order, at height `y`.
pub fn create_horizontal_tunnel(x1: i32, x2: i32, y: i32, map: &mut TileMap)
    requires
        forall|px: int, py: int|
            in_row(x1 as int, x2 as int, y as int, px, py) ==> on_map(grid(*old(map)), px, py),
    ensures
        grid(*final(map)) == carve_row(grid(*old(map)), x1 as int, x2 as int, y as int),
{
    let first: i32 = if x1 <= x2 { x1 } else { x2 };
    let last: i32 = if x1 <= x2 { x2 } else { x1 };
    assert(in_row(x1 as int, x2 as int, y as int, first as int, y as int));
    let row: usize = y as usize;
    let end: usize = last as usize;
    let mut x: usize = first as usize;
    while x <= end
        invariant
            first == min(x1 as int, x2 as int),
            last == max(x1 as int, x2 as int),
            row == y,
            end == last,
            first <= x <= end + 1,
            end < usize::MAX,
            forall|px: int, py: int|
                in_row(x1 as int, x2 as int, y as int, px, py) ==> on_map(grid(*old(map)), px, py),
            map.len() == old(map).len(),
            forall|px: int| 0 <= px < map.len() ==> (#[trigger] map[px]).len() == old(map)[px].len(),
            forall|px: int, py: int|
                on_map(grid(*old(map)), px, py) ==> #[trigger] map[px][py] == if in_row(
                    x1 as int,
                    x2 as int,
                    y as int,
                    px,
                    py,
                ) && px < x {
                    old(map)[px][py].carved()
                } else {
                    old(map)[px][py]
                },
        decreases end + 1 - x,
    {
        assert(on_map(grid(*old(map)), x as int, y as int));
        map[x][row].blocked = false;
        map[x][row].block_sight = false;
        x += 1;
    }
    assert(grid(*map) =~~= carve_row(grid(*old(map)), x1 as int, x2 as int, y as int));
}

/// Carves the vertical run between `y1` and `y2`, both included and in
/// either order, in column `x`.
pub fn create_vertical_tunnel(y1: i32, y2: i32, x: i32, map: &mut TileMap)
    requires
        forall|px: int, py: int|
            in_column(y1 as int, y2 as int, x as int, px, py) ==> on_map(grid(*old(map)), px, py),
    ensures
        grid(*final(map)) == carve_column(grid(*old(map)), y1 as int, y2 as int, x as int),
{
    let first: i32 = if y1 <= y2 { y1 } else { y2 };
    let last: i32 = if y1 <= y2 { y2 } else { y1 };
    assert(in_column(y1 as int, y2 as int, x as int, x as int, first as int));
    let column: usize = x as usize;
    let end: usize = last as usize;
    let mut y: usize = first as usize;
    while y <= end
        invariant
            first == min(y1 as int, y2 as int),
            last == max(y1 as int, y2 as int),
            column == x,
            end == last,
            first <= y <= end + 1,
            end < usize::MAX,
            forall|px: int, py: int|
                in_column(y1 as int, y2 as int, x as int, px, py) ==> on_map(
                    grid(*old(map)),
                    px,
                    py,
                ),
            map.len() == old(map).len(),
            forall|px: int| 0 <= px < map.len() ==> (#[trigger] map[px]).len() == old(map)[px].len(),
            forall|px: int, py: int|
                on_map(grid(*old(map)), px, py) ==> #[trigger] map[px][py] == if in_column(
                    y1 as int,
                    y2 as int,
                    x as int,
                    px,
                    py,
                ) && py < y {
                    old(map)[px][py].carved()
                } else {
                    old(map)[px][py]
                },
        decreases end + 1 - y,
    {
        assert(on_map(grid(*old(map)), x as int, y as int));
        map[column][y].blocked = false;
        map[column][y].block_sight = false;
        y += 1;
    }
    assert(grid(*map) =~~= carve_column(grid(*old(map)), y1 as int, y2 as int, x as int));
}

/// Carves the corridor from `from` to `to`, which has one bend: first the
/// row of `from` and then the column of `to` if `horizontal_first`, first the
/// column of `from` and then the row of `to` if not.
pub fn create_corridor(from: (i32, i32), to: (i32, i32), horizontal_first: bool, map: &mut TileMap)
    requires
        forall|x: int, y: int|
            on_corridor(
                (from.0 as int, from.1 as int),
                (to.0 as int, to.1 as int),
                horizontal_first,
                x,
                y,
            ) ==> on_map(grid(*old(map)), x, y),
    ensures
        grid(*final(map)) == carve_corridor(
            grid(*old(map)),
            (from.0 as int, from.1 as int),
            (to.0 as int, to.1 as int),
            horizontal_first,
        ),
{
    let ghost a = (from.0 as int, from.1 as int);
    let ghost b = (to.0 as int, to.1 as int);
    if horizontal_first {
        assert forall|x: int, y: int| in_row(a.0, b.0, a.1, x, y) implies on_map(
            grid(*map),
            x,
            y,
        ) by {
            assert(on_corridor(a, b, horizontal_first, x, y));
        }
        create_horizontal_tunnel(from.0, to.0, from.1, map);
        proof {
            lemma_carve(grid(*old(map)), |px: int, py: int| in_row(a.0, b.0, a.1, px, py));
        }
        assert forall|x: int, y: int| in_column(a.1, b.1, b.0, x, y) implies on_map(
            grid(*map),
            x,
            y,
        ) by {
            assert(on_corridor(a, b, horizontal_first, x, y));
        }
        create_vertical_tunnel(from.1, to.1, to.0, map);
    } else {
        assert forall|x: int, y: int| in_column(a.1, b.1, a.0, x, y) implies on_map(
            grid(*map),
            x,
            y,
        ) by {
            assert(on_corridor(a, b, horizontal_first, x, y));
        }
        create_vertical_tunnel(from.1, to.1, from.0, map);
        proof {
            lemma_carve(grid(*old(map)), |px: int, py: int| in_column(a.1, b.1, a.0, px, py));
        }
        assert forall|x: int, y: int| in_row(a.0, b.0, b.1, x, y) implies on_map(
            grid(*map),
            x,
            y,
        ) by {
            assert(on_corridor(a, b, horizontal_first, x, y));
        }
        create_horizontal_tunnel(from.0, to.0, to.1, map);
    }
}

} // verus!

//! What a frame shows: the tiles that have been explored, shaded by whether
//! they are in view, and the entities in view.
//!
//! What is in view is decided elsewhere; it comes in as a grid of booleans
//! laid out like the map.

use crate::color::{dark_ground, dark_wall, light_ground, light_wall, Color};
use crate::entity::{DrawGlyph, Object};
use crate::generator::Game;
use crate::grid::{grid, on_map};
use crate::tile::Tile;
use vstd::prelude::*;

verus! {

/// One frame, as a list of orders to the renderer.
#[derive(Debug)]
pub struct Frame {
    /// For every tile, stored like the map, the background colour to set, or
    /// `None` for a tile that is not drawn.
    pub backgrounds: Vec<Vec<Option<Color>>>,
    /// The glyphs to draw over the backgrounds, in this order.
    pub glyphs: Vec<DrawGlyph>,
}

/// The colour of a tile that is drawn: one of four, by whether the tile is
/// in view and whether it stops the line of sight.
pub open spec fn tile_color(visible: bool, wall: bool) -> Color {
    if visible {
        if wall {
            light_wall()
        } else {
            light_ground()
        }
    } else {
        if wall {
            dark_wall()
        } else {
            dark_ground()
        }
    }
}

/// The background that a frame gives to `tile`: its colour if the tile is in
/// view or was explored before, nothing if it was never seen.
pub open spec fn background(tile: Tile, visible: bool) -> Option<Color> {
    if tile.explored || visible {
        Some(tile_color(visible, tile.block_sight))
    } else {
        None
    }
}

/// Whether `g` and `sight` have the same columns of the same lengths.
pub open spec fn same_shape(g: Seq<Seq<Tile>>, sight: Seq<Seq<bool>>) -> bool {
    g.len() == sight.len() && forall|x: int| 0 <= x < g.len() ==> (#[trigger] g[x]).len()
        == sight[x].len()
}

/// Whether `(x, y)` is a cell in view. A cell off the grid is never in view.
pub open spec fn in_sight(sight: Seq<Seq<bool>>, x: int, y: int) -> bool {
    on_map(sight, x, y) && sight[x][y]
}

/// The map after a look at it: every tile in view is explored, nothing else
/// has changed.
pub open spec fn look(g: Seq<Seq<Tile>>, sight: Seq<Seq<bool>>) -> Seq<Seq<Tile>> {
    Seq::new(g.len(), |x: int| Seq::new(g[x].len(), |y: int| g[x][y].seen(sight[x][y])))
}

/// The backgrounds of the frame that shows `g` under `sight`.
pub open spec fn backgrounds_of(g: Seq<Seq<Tile>>, sight: Seq<Seq<bool>>) -> Seq<
    Seq<Option<Color>>,
> {
    Seq::new(g.len(), |x: int| Seq::new(g[x].len(), |y: int| background(g[x][y], sight[x][y])))
}

/// The glyph of `o` if it stands in view.
pub open spec fn glyph_in_sight(sight: Seq<Seq<bool>>, o: Object) -> Option<DrawGlyph> {
    if in_sight(sight, o.x as int, o.y as int) {
        Some(o.draw_spec())
    } else {
        None
    }
}

/// The glyphs of the frame that shows `objects` under `sight`: one for each
/// entity in view, in the order of the entities.
pub open spec fn glyphs_of(objects: Seq<Object>, sight: Seq<Seq<bool>>) -> Seq<DrawGlyph> {
    objects.filter_map(|o: Object| glyph_in_sight(sight, o))
}

/// The colour of a tile that is drawn.
pub fn shade(visible: bool, wall: bool) -> (c: Color)
    ensures
        c == tile_color(visible, wall),
{
    match (visible, wall) {
        (false, true) => dark_wall(),
        (false, false) => dark_ground(),
        (true, true) => light_wall(),
        (true, false) => light_ground(),
    }
}

/// Whether `(x, y)` is a cell in view.
pub fn is_in_sight(visible: &Vec<Vec<bool>>, x: i32, y: i32) -> (seen: bool)
    ensures
        seen == in_sight(grid(*visible), x as int, y as int),
{
    x >= 0 && y >= 0 && (x as usize) < visible.len() && (y as usize) < visible[x as usize].len()
        && visible[x as usize][y as usize]
}

/// Composes one frame and marks what is in view as explored.
///
/// Every tile in view becomes explored and stays so. A tile that is
/// explored by now gets its background, lit if it is in view and dark if
/// not. Every entity that stands in view gets its glyph.
pub fn render_all(game: &mut Game, objects: &[Object], visible: &Vec<Vec<bool>>) -> (frame: Frame)
    requires
        same_shape(grid(old(game).map), grid(*visible)),
    ensures
        grid(final(game).map) == look(grid(old(game).map), grid(*visible)),
        grid(frame.backgrounds) == backgrounds_of(grid(old(game).map), grid(*visible)),
        frame.glyphs@ == glyphs_of(objects@, grid(*visible)),
        // what was explored stays explored
        forall|x: int, y: int|
            on_map(grid(old(game).map), x, y) && grid(old(game).map)[x][y].explored ==> (
            #[trigger] grid(final(game).map)[x][y]).explored,
{
    let mut backgrounds: Vec<Vec<Option<Color>>> = Vec::new();
    let mut x: usize = 0;
    while x < game.map.len()
        invariant
            same_shape(grid(old(game).map), grid(*visible)),
            x <= game.map.len(),
            game.map.len() == old(game).map.len(),
            forall|px: int|
                0 <= px < game.map.len() ==> (#[trigger] game.map[px]).len() == old(
                    game,
                ).map[px].len(),
            forall|px: int, py: int|
                on_map(grid(old(game).map), px, py) ==> #[trigger] game.map[px][py] == if px < x {
                    old(game).map[px][py].seen(visible[px][py])
                } else {
                    old(game).map[px][py]
                },
            backgrounds.len() == x,
            forall|px: int|
                0 <= px < x ==> (#[trigger] backgrounds[px]).len() == old(game).map[px].len(),
            forall|px: int, py: int|
                0 <= px < x && 0 <= py < old(game).map[px].len() ==> #[trigger] backgrounds[px][py]
                    == background(old(game).map[px][py], visible[px][py]),
        decreases game.map.len() - x,
    {
        let mut column: Vec<Option<Color>> = Vec::new();
        let mut y: usize = 0;
        assert(grid(old(game).map)[x as int].len() == grid(*visible)[x as int].len());
        while y < game.map[x].len()
            invariant
                x < game.map.len(),
                game.map.len() == old(game).map.len(),
                visible.len() == game.map.len(),
                visible[x as int].len() == game.map[x as int].len(),
                y <= game.map[x as int].len(),
                forall|px: int|
                    0 <= px < game.map.len() ==> (#[trigger] game.map[px]).len() == old(
                        game,
                    ).map[px].len(),
                forall|px: int, py: int|
                    on_map(grid(old(game).map), px, py) ==> #[trigger] game.map[px][py] == if px < x
                        || (px == x && py < y) {
                        old(game).map[px][py].seen(visible[px][py])
                    } else {
                        old(game).map[px][py]
                    },
                column.len() == y,
                forall|py: int|
                    0 <= py < y ==> #[trigger] column[py] == background(
                        old(game).map[x as int][py],
                        visible[x as int][py],
                    ),
            decreases game.map[x as int].len() - y,
        {
            let in_view = visible[x][y];
            let wall = game.map[x][y].block_sight;
            if in_view {
                game.map[x][y].explored = true;
            }
            if game.map[x][y].explored {
                column.push(Some(shade(in_view, wall)));
            } else {
                column.push(None);
            }
            y += 1;
        }
        backgrounds.push(column);
        x += 1;
    }
    let mut glyphs: Vec<DrawGlyph> = Vec::new();
    let ghost choice = |o: Object| glyph_in_sight(grid(*visible), o);
    let mut i: usize = 0;
    while i < objects.len()
        invariant
            i <= objects.len(),
            choice == |o: Object| glyph_in_sight(grid(*visible), o),
            glyphs@ == objects@.take(i as int).filter_map(choice),
        decreases objects.len() - i,
    {
        proof {
            objects@.lemma_filter_map_take_succ(choice, i as int);
        }
        if is_in_sight(visible, objects[i].x, objects[i].y) {
            glyphs.push(objects[i].draw());
        }
        i += 1;
    }
    proof {
        assert(objects@.take(objects.len() as int) =~= objects@);
        assert(grid(game.map) =~~= look(grid(old(game).map), grid(*visible)));
        assert(grid(backgrounds) =~~= backgrounds_of(grid(old(game).map), grid(*visible)));
    }
    Frame { backgrounds, glyphs }
}

/// Looking never unexplores a tile, however often and under whatever sight
/// it is done: a tile that is explored in one of a run of maps, each the
/// look at the one before, is explored in all that follow.
pub proof fn lemma_explored_stays(
    maps: Seq<Seq<Seq<Tile>>>,
    sights: Seq<Seq<Seq<bool>>>,
    i: int,
    j: int,
    x: int,
    y: int,
)
    requires
        maps.len() == sights.len() + 1,
        forall|t: int| 0 <= t < sights.len() ==> #[trigger] maps[t + 1] == look(maps[t], sights[t]),
        0 <= i <= j < maps.len(),
        on_map(maps[i], x, y),
        maps[i][x][y].explored,
    ensures
        on_map(maps[j], x, y),
        maps[j][x][y].explored,
    decreases j - i,
{
    if i < j {
        lemma_explored_stays(maps, sights, i, j - 1, x, y);
        assert(maps[j - 1 + 1] == look(maps[j - 1], sights[j - 1]));
    }
}

} // verus!

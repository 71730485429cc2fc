//! Entities: the player and the monsters, and the rule that decides where
//! they may step.

use crate::color::Color;
use crate::grid::{grid, on_map, TileMap};
use crate::tile::Tile;
use vstd::prelude::*;

verus! {

/// The index under which the player is kept in every entity list.
pub const PLAYER: usize = 0;

/// Anything that stands on the map: the player or a monster.
///
/// Glyph, colour and name are not looked at here; they are handed on to
/// whatever draws the entity.
#[derive(Clone, Debug, PartialEq, Eq)]
pub struct Object {
    pub x: i32,
    pub y: i32,
    pub glyph: char,
    pub color: Color,
    pub name: String,
    pub blocks: bool,
    pub alive: bool,
}

/// An order to the renderer: put `glyph` at `(x, y)` in `color`.
#[derive(Clone, Copy, Debug, PartialEq, Eq, Structural)]
pub struct DrawGlyph {
    pub x: i32,
    pub y: i32,
    pub glyph: char,
    pub color: Color,
}

impl Object {
    /// The position as a pair of mathematical integers.
    pub open spec fn pos_spec(self) -> (int, int) {
        (self.x as int, self.y as int)
    }

    /// This entity at `(x, y)`, everything else kept.
    pub open spec fn moved_to(self, x: i32, y: i32) -> Object {
        Object { x: x, y: y, ..self }
    }

    /// The order that draws this entity where it stands.
    pub open spec fn draw_spec(self) -> DrawGlyph {
        DrawGlyph { x: self.x, y: self.y, glyph: self.glyph, color: self.color }
    }

    /// An entity at `(x, y)`. It starts out not alive.
    pub fn new(x: i32, y: i32, glyph: char, color: Color, name: String, blocks: bool) -> (o: Object)
        ensures
            o == (Object { x, y, glyph, color, name, blocks, alive: false }),
    {
        Object { x, y, glyph, color, name, blocks, alive: false }
    }

    /// The order that draws this entity where it stands.
    pub fn draw(&self) -> (order: DrawGlyph)
        ensures
            order == self.draw_spec(),
    {
        DrawGlyph { x: self.x, y: self.y, glyph: self.glyph, color: self.color }
    }

    /// Where the entity stands.
    pub fn pos(&self) -> (p: (i32, i32))
        ensures
            p == (self.x, self.y),
    {
        (self.x, self.y)
    }

    /// Puts the entity at `(x, y)`.
    pub fn set_pos(&mut self, x: i32, y: i32)
        ensures
            *final(self) == old(self).moved_to(x, y),
    {
        self.x = x;
        self.y = y;
    }
}

/// Whether some entity that blocks stands at `(x, y)`.
pub open spec fn occupied(objects: Seq<Object>, x: int, y: int) -> bool {
    exists|i: int|
        0 <= i < objects.len() && (#[trigger] objects[i]).blocks && objects[i].pos_spec() == (x, y)
}

/// Whether `(x, y)` cannot be stepped on: the terrain there is blocked, or
/// an entity that blocks stands there.
pub open spec fn blocked_at(g: Seq<Seq<Tile>>, objects: Seq<Object>, x: int, y: int) -> bool {
    g[x][y].blocked || occupied(objects, x, y)
}

/// Whether `(x, y)` cannot be stepped on.
pub fn is_blocked(x: i32, y: i32, map: &TileMap, objects: &[Object]) -> (blocked: bool)
    requires
        on_map(grid(*map), x as int, y as int),
    ensures
        blocked == blocked_at(grid(*map), objects@, x as int, y as int),
        grid(*map)[x as int][y as int].blocked ==> blocked,
        occupied(objects@, x as int, y as int) ==> blocked,
{
    if map[x as usize][y as usize].blocked {
        return true;
    }
    let mut i: usize = 0;
    while i < objects.len()
        invariant
            i <= objects.len(),
            forall|j: int|
                0 <= j < i ==> !((#[trigger] objects[j]).blocks && objects[j].pos_spec() == (
                    x as int,
                    y as int,
                )),
        decreases objects.len() - i,
    {
        if objects[i].blocks && objects[i].x == x && objects[i].y == y {
            return true;
        }
        i += 1;
    }
    false
}

/// Moves entity `id` by `(dx, dy)` if it may step there, and leaves
/// everything as it is if it may not.
pub fn move_by(id: usize, dx: i32, dy: i32, map: &TileMap, objects: &mut [Object])
    requires
        id < old(objects).len(),
        i32::MIN <= old(objects)[id as int].x + dx <= i32::MAX,
        i32::MIN <= old(objects)[id as int].y + dy <= i32::MAX,
        on_map(grid(*map), old(objects)[id as int].x + dx, old(objects)[id as int].y + dy),
    ensures
        final(objects)@ == if blocked_at(
            grid(*map),
            old(objects)@,
            old(objects)[id as int].x + dx,
            old(objects)[id as int].y + dy,
        ) {
            old(objects)@
        } else {
            old(objects)@.update(
                id as int,
                old(objects)[id as int].moved_to(
                    (old(objects)[id as int].x + dx) as i32,
                    (old(objects)[id as int].y + dy) as i32,
                ),
            )
        },
{
    let (x, y) = objects[id].pos();
    if !is_blocked(x + dx, y + dy, map, objects) {
        objects[id].set_pos(x + dx, y + dy);
    }
}

} // verus!

//! The decisions of one turn of play: whether the field of view has to be
//! computed anew, and what a key press does.

use crate::entity::{blocked_at, move_by, Object, PLAYER};
use crate::generator::Game;
use crate::grid::{grid, on_map};
use crate::tile::Tile;
use vstd::prelude::*;

verus! {

/// How far the player sees.
pub const TORCH_RADIUS: i32 = 10;

/// Whether the walls at the rim of the field of view are lit too.
pub const FOV_LIGHT_WALLS: bool = true;

/// The keys that mean something to the game; every other key is `Other`.
#[derive(Clone, Copy, Debug, PartialEq, Eq, Structural)]
pub enum KeyCode {
    Up,
    Down,
    Left,
    Right,
    Escape,
    Enter,
    Other,
}

/// A key press: the key, and whether Alt was held down with it.
#[derive(Clone, Copy, Debug, PartialEq, Eq, Structural)]
pub struct Key {
    pub code: KeyCode,
    pub alt: bool,
}

/// What a key press asks for.
#[derive(Clone, Copy, Debug, PartialEq, Eq, Structural)]
pub enum Command {
    /// Switch between window and full screen. The game itself is untouched.
    ToggleFullscreen,
    /// End the session.
    Exit,
    /// Move the player by one tile.
    Step { dx: i32, dy: i32 },
    /// The key means nothing.
    Nothing,
}

/// Whether the session goes on.
#[derive(Clone, Copy, Debug, PartialEq, Eq, Structural)]
pub enum LoopState {
    Running,
    Terminated,
}

/// An order to the field-of-view service: compute anew what is seen from
/// `(x, y)` within `radius`.
#[derive(Clone, Copy, Debug, PartialEq, Eq, Structural)]
pub struct FovRequest {
    pub x: i32,
    pub y: i32,
    pub radius: i32,
    pub light_walls: bool,
}

/// What `key` asks for: Alt and Enter together toggle full screen, Escape
/// ends the session, an arrow key steps in its direction, with `y` growing
/// downwards.
pub open spec fn command_of(key: Key) -> Command {
    match key.code {
        KeyCode::Enter => if key.alt {
            Command::ToggleFullscreen
        } else {
            Command::Nothing
        },
        KeyCode::Escape => Command::Exit,
        KeyCode::Up => Command::Step { dx: 0, dy: -1i32 },
        KeyCode::Down => Command::Step { dx: 0, dy: 1 },
        KeyCode::Left => Command::Step { dx: -1i32, dy: 0 },
        KeyCode::Right => Command::Step { dx: 1, dy: 0 },
        KeyCode::Other => Command::Nothing,
    }
}

/// Whether entity `id` may move by `(dx, dy)`: the spot it would come to is
/// a tile of the map, it can be named by a pair of `i32`, and neither
/// terrain nor a blocking entity is in the way.
pub open spec fn can_step(
    g: Seq<Seq<Tile>>,
    objects: Seq<Object>,
    id: int,
    dx: int,
    dy: int,
) -> bool {
    let x = objects[id].x + dx;
    let y = objects[id].y + dy;
    x <= i32::MAX && y <= i32::MAX && on_map(g, x, y) && !blocked_at(g, objects, x, y)
}

/// The entities after `command`: a step moves the player if it may move,
/// and nothing else changes anything.
pub open spec fn after_command(g: Seq<Seq<Tile>>, objects: Seq<Object>, command: Command) -> Seq<
    Object,
> {
    match command {
        Command::Step { dx, dy } => if can_step(g, objects, PLAYER as int, dx as int, dy as int) {
            objects.update(
                PLAYER as int,
                objects[PLAYER as int].moved_to(
                    (objects[PLAYER as int].x + dx) as i32,
                    (objects[PLAYER as int].y + dy) as i32,
                ),
            )
        } else {
            objects
        },
        _ => objects,
    }
}

impl Command {
    /// The state of the session after this command: it has ended after
    /// `Exit` and runs on after anything else.
    pub fn next_state(&self) -> (state: LoopState)
        ensures
            state == if *self == Command::Exit {
                LoopState::Terminated
            } else {
                LoopState::Running
            },
    {
        match self {
            Command::Exit => LoopState::Terminated,
            _ => LoopState::Running,
        }
    }
}

/// The order to compute the field of view anew, if the player does not
/// stand where it stood at the end of the turn before. Before the first
/// turn there is no such place, and the order is always given.
pub fn fov_request(previous: Option<(i32, i32)>, objects: &[Object]) -> (request: Option<FovRequest>)
    requires
        objects.len() > 0,
    ensures
        request == if previous == Some((objects[0].x, objects[0].y)) {
            None
        } else {
            Some(
                FovRequest {
                    x: objects[0].x,
                    y: objects[0].y,
                    radius: TORCH_RADIUS,
                    light_walls: FOV_LIGHT_WALLS,
                },
            )
        },
{
    let (x, y) = objects[PLAYER].pos();
    let moved = match previous {
        Some((px, py)) => px != x || py != y,
        None => true,
    };
    if moved {
        Some(FovRequest { x, y, radius: TORCH_RADIUS, light_walls: FOV_LIGHT_WALLS })
    } else {
        None
    }
}

/// What `key` asks for.
pub fn interpret(key: Key) -> (command: Command)
    ensures
        command == command_of(key),
{
    match key.code {
        KeyCode::Enter => if key.alt {
            Command::ToggleFullscreen
        } else {
            Command::Nothing
        },
        KeyCode::Escape => Command::Exit,
        KeyCode::Up => Command::Step { dx: 0, dy: -1 },
        KeyCode::Down => Command::Step { dx: 0, dy: 1 },
        KeyCode::Left => Command::Step { dx: -1, dy: 0 },
        KeyCode::Right => Command::Step { dx: 1, dy: 0 },
        KeyCode::Other => Command::Nothing,
    }
}

/// Applies a key press to the game and says what it asked for.
///
/// A step moves the player, entity 0, unless the tile it would come to is
/// blocked or lies off the map; then nothing moves. Toggling full screen
/// and ending the session are left to the caller.
pub fn handle_keys(key: Key, game: &Game, objects: &mut Vec<Object>) -> (command: Command)
    requires
        old(objects).len() > 0,
    ensures
        command == command_of(key),
        final(objects)@ == after_command(grid(game.map), old(objects)@, command),
{
    let command = interpret(key);
    if let Command::Step { dx, dy } = command {
        let (x, y) = objects[PLAYER].pos();
        let to_x: i64 = x as i64 + dx as i64;
        let to_y: i64 = y as i64 + dy as i64;
        if 0 <= to_x && to_x <= i32::MAX as i64 && 0 <= to_y && to_y <= i32::MAX as i64 {
            if (to_x as usize) < game.map.len() && (to_y as usize) < game.map[to_x as usize].len() {
                move_by(PLAYER, dx, dy, &game.map, objects);
            }
        }
    }
    command
}

} // verus!

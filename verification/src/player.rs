//! The camera: where the player stands, which way the player looks, and
//! how both change.

use vstd::prelude::*;
use crate::fixed::{cell_index, cell_of, floor_div, lemma_product_bound, ONE};
use crate::maze::{TileGrid, EMPTY, GOAL};

verus! {

/// Walking speed, in cells per second.
pub const MOVE_SPEED: i64 = 3;

/// How far one count of pointer movement turns the camera, in millionths
/// of a radian.
pub const ROTATION_STEP: i64 = 2000;

/// A key that is held down.
#[derive(Clone, Copy, Debug, PartialEq, Eq, Structural)]
pub enum Key {
    W,
    Up,
    S,
    Down,
    A,
    D,
    /// Any key that does not move the player.
    Other,
}

/// The camera state.
#[derive(Clone, Copy, Debug, PartialEq, Eq, Structural)]
pub struct Player {
    /// Position in cells, 16.16 fixed point.
    pub x: i32,
    pub y: i32,
    /// Facing angle in millionths of a radian. It is not reduced to one
    /// turn.
    pub dir_angle: i64,
}

/// The distance that one key press covers along an axis on which the
/// facing direction has the component `component`: the component times
/// `MOVE_SPEED` times the time step, rounded down.
pub open spec fn stride(component: i32, delta_time: i32) -> int {
    (component * (MOVE_SPEED * delta_time)) / (ONE as int)
}

/// The displacement that one held key asks for, given the facing direction
/// `(dir_x, dir_y)`: `W` and `Up` walk forward, `S` and `Down` backward, `A`
/// and `D` sideways.
pub open spec fn key_shift(key: Key, dir_x: i32, dir_y: i32, delta_time: i32) -> (int, int) {
    let ahead_x = stride(dir_x, delta_time);
    let ahead_y = stride(dir_y, delta_time);
    match key {
        Key::W | Key::Up => (ahead_x, ahead_y),
        Key::S | Key::Down => (-ahead_x, -ahead_y),
        Key::A => (ahead_y, -ahead_x),
        Key::D => (-ahead_y, ahead_x),
        Key::Other => (0, 0),
    }
}

/// The displacement that a set of held keys asks for: the sum over the keys.
pub open spec fn total_shift(keys: Seq<Key>, dir_x: i32, dir_y: i32, delta_time: i32) -> (int, int)
    decreases keys.len(),
{
    if keys.len() == 0 {
        (0, 0)
    } else {
        let rest = total_shift(keys.drop_last(), dir_x, dir_y, delta_time);
        let last = key_shift(keys.last(), dir_x, dir_y, delta_time);
        (rest.0 + last.0, rest.1 + last.1)
    }
}

/// Whether the position `(x, y)` lies in a cell that stops movement.
pub open spec fn blocked_at(grid: &TileGrid, x: int, y: int) -> bool {
    grid.blocking(cell_of(x), cell_of(y))
}

impl Player {
    /// The player after trying to move to `(to_x, to_y)`. The two axes are
    /// tried one after the other: first x, at the old y; then y, at the x
    /// that resulted. Each is taken only if the position it leads to is not
    /// blocked, so a player who runs into a wall at an angle slides along it.
    pub open spec fn moved(self, grid: &TileGrid, to_x: int, to_y: int) -> Player {
        let x = if blocked_at(grid, to_x, self.y as int) {
            self.x as int
        } else {
            to_x
        };
        let y = if blocked_at(grid, x, to_y) {
            self.y as int
        } else {
            to_y
        };
        Player { x: x as i32, y: y as i32, dir_angle: self.dir_angle }
    }

    /// Whether the player stands on the goal.
    pub open spec fn on_goal(self, grid: &TileGrid) -> bool {
        let col = cell_of(self.x as int);
        let row = cell_of(self.y as int);
        grid.in_bounds(col, row) && grid.code(col, row) == GOAL
    }

    /// The rows of the grid after the player has picked up what is in the
    /// player's cell: a goal there becomes empty, nothing else changes.
    pub open spec fn rows_after_pickup(self, grid: &TileGrid) -> Seq<Seq<u8>> {
        let col = cell_of(self.x as int);
        let row = cell_of(self.y as int);
        if self.on_goal(grid) {
            grid@.update(row, grid@[row].update(col, EMPTY))
        } else {
            grid@
        }
    }
}

/// Sliding along a wall: when a move is blocked on one axis only, the other
/// axis's displacement is taken whole and the blocked one not at all.
pub proof fn lemma_slide(player: Player, grid: &TileGrid, to_x: int, to_y: int)
    requires
        grid.wf(),
    ensures
        player.moved(grid, to_x, to_y).dir_angle == player.dir_angle,
        blocked_at(grid, to_x, player.y as int) && !blocked_at(grid, player.x as int, to_y) ==> {
            &&& player.moved(grid, to_x, to_y).x == player.x
            &&& player.moved(grid, to_x, to_y).y == to_y
        },
        !blocked_at(grid, to_x, player.y as int) && blocked_at(grid, to_x, to_y) ==> {
            &&& player.moved(grid, to_x, to_y).x == to_x
            &&& player.moved(grid, to_x, to_y).y == player.y
        },
{
    grid.lemma_shape();
}

/// A player who stands in a free cell stays in free cells: wherever a move
/// is aimed, it does not end in a wall or outside the grid.
pub proof fn lemma_never_in_a_wall(player: Player, grid: &TileGrid, to_x: int, to_y: int)
    requires
        grid.wf(),
        !blocked_at(grid, player.x as int, player.y as int),
    ensures
        !blocked_at(
            grid,
            player.moved(grid, to_x, to_y).x as int,
            player.moved(grid, to_x, to_y).y as int,
        ),
{
    grid.lemma_shape();
}

/// A goal is picked up once: after the pickup the player no longer stands
/// on a goal, and picking up again changes nothing.
pub proof fn lemma_goal_taken_once(player: Player, before: &TileGrid, after: &TileGrid)
    requires
        player.on_goal(before),
        after@ == player.rows_after_pickup(before),
    ensures
        !player.on_goal(after),
        player.rows_after_pickup(after) == after@,
        after.code(cell_of(player.x as int), cell_of(player.y as int)) == EMPTY,
{
}

/// Computes `stride`.
fn stride_of(component: i32, delta_time: i32) -> (s: i128)
    ensures
        s == stride(component, delta_time),
        -0x1_0000_0000_0000 <= s <= 0x1_0000_0000_0000,
{
    let speed: i128 = 3 * (delta_time as i128);
    proof {
        assert(speed == MOVE_SPEED * delta_time);
        lemma_product_bound(component as int, speed as int, 0x8000_0000, 0x1_8000_0000);
    }
    floor_div(component as i128 * speed, 65536)
}

/// Computes `blocked_at` for any position, also one that no coordinate can
/// express.
fn blocked(grid: &TileGrid, x: i128, y: i128) -> (b: bool)
    requires
        grid.wf(),
    ensures
        b == blocked_at(grid, x as int, y as int),
        !b ==> 0 <= x <= i32::MAX && 0 <= y <= i32::MAX,
{
    proof {
        grid.lemma_shape();
    }
    if x < 0 || y < 0 || x > 2147483647 || y > 2147483647 {
        true
    } else {
        grid.is_blocking((x / 65536) as i64, (y / 65536) as i64)
    }
}

impl Player {
    /// A player at the spawn point, the middle of cell `(1, 1)`, facing
    /// along the x axis.
    pub fn new() -> (player: Player)
        ensures
            player.x == ONE + ONE / 2,
            player.y == ONE + ONE / 2,
            player.dir_angle == 0,
    {
        Player { x: 98304, y: 98304, dir_angle: 0 }
    }

    /// Whether the position `(x, y)` lies in a wall or outside the grid.
    pub fn is_wall(&self, grid: &TileGrid, x: i32, y: i32) -> (b: bool)
        requires
            grid.wf(),
        ensures
            b == blocked_at(grid, x as int, y as int),
    {
        blocked(grid, x as i128, y as i128)
    }

    /// Moves the player as the held keys ask, for a time step of
    /// `delta_time` seconds (16.16) and a facing direction of
    /// `(dir_x, dir_y)` (16.16), as far as the grid allows.
    pub fn update_position(
        &mut self,
        grid: &TileGrid,
        keys: &[Key],
        dir_x: i32,
        dir_y: i32,
        delta_time: i32,
    )
        requires
            grid.wf(),
        ensures
            *final(self) == old(self).moved(
                grid,
                old(self).x + total_shift(keys@, dir_x, dir_y, delta_time).0,
                old(self).y + total_shift(keys@, dir_x, dir_y, delta_time).1,
            ),
    {
        let ahead_x: i128 = stride_of(dir_x, delta_time);
        let ahead_y: i128 = stride_of(dir_y, delta_time);
        let mut shift_x: i128 = 0;
        let mut shift_y: i128 = 0;
        let mut i: usize = 0;
        while i < keys.len()
            invariant
                i <= keys@.len(),
                ahead_x == stride(dir_x, delta_time),
                ahead_y == stride(dir_y, delta_time),
                -0x1_0000_0000_0000 <= ahead_x <= 0x1_0000_0000_0000,
                -0x1_0000_0000_0000 <= ahead_y <= 0x1_0000_0000_0000,
                (shift_x as int, shift_y as int) == total_shift(
                    keys@.take(i as int),
                    dir_x,
                    dir_y,
                    delta_time,
                ),
                -(i * 0x1_0000_0000_0000) <= shift_x <= i * 0x1_0000_0000_0000,
                -(i * 0x1_0000_0000_0000) <= shift_y <= i * 0x1_0000_0000_0000,
            decreases keys@.len() - i,
        {
            proof {
                assert(keys@.take(i + 1).drop_last() =~= keys@.take(i as int));
                assert(keys@.take(i + 1).last() == keys@[i as int]);
            }
            match keys[i] {
                Key::W | Key::Up => {
                    shift_x = shift_x + ahead_x;
                    shift_y = shift_y + ahead_y;
                },
                Key::S | Key::Down => {
                    shift_x = shift_x - ahead_x;
                    shift_y = shift_y - ahead_y;
                },
                Key::A => {
                    shift_x = shift_x + ahead_y;
                    shift_y = shift_y - ahead_x;
                },
                Key::D => {
                    shift_x = shift_x - ahead_y;
                    shift_y = shift_y + ahead_x;
                },
                Key::Other => {},
            }
            i += 1;
        }
        assert(keys@.take(keys@.len() as int) =~= keys@);
        let to_x: i128 = self.x as i128 + shift_x;
        let to_y: i128 = self.y as i128 + shift_y;
        if !blocked(grid, to_x, self.y as i128) {
            self.x = to_x as i32;
        }
        if !blocked(grid, self.x as i128, to_y) {
            self.y = to_y as i32;
        }
    }

    /// Turns the camera by `mouse_delta` counts of pointer movement.
    pub fn rotate(&mut self, mouse_delta: i32)
        requires
            i64::MIN <= old(self).dir_angle + ROTATION_STEP * mouse_delta <= i64::MAX,
        ensures
            *final(self) == (Player {
                dir_angle: (old(self).dir_angle + ROTATION_STEP * mouse_delta) as i64,
                ..*old(self)
            }),
    {
        self.dir_angle = self.dir_angle + ROTATION_STEP * (mouse_delta as i64);
    }

    /// Picks up the goal if the player stands on it: the cell becomes
    /// empty and the call reports `true`. Anywhere else nothing changes.
    pub fn collect_goal(&self, grid: &mut TileGrid) -> (reached: bool)
        requires
            old(grid).wf(),
        ensures
            final(grid).wf(),
            reached == self.on_goal(old(grid)),
            final(grid)@ == self.rows_after_pickup(old(grid)),
            final(grid).spec_width() == old(grid).spec_width(),
            final(grid).spec_height() == old(grid).spec_height(),
    {
        let col: i64 = cell_index(self.x) as i64;
        let row: i64 = cell_index(self.y) as i64;
        let found = grid.cell_at(col, row);
        if found == Some(GOAL) {
            grid.set_cell(col as usize, row as usize, EMPTY);
            true
        } else {
            false
        }
    }
}

} // verus!

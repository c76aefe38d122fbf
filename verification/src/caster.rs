//! The ray caster: a walk through the grid, one cell boundary at a time,
//! from the camera to the first wall.

use vstd::prelude::*;
use crate::fixed::{
    abs, cell_index, cell_of, floor_div, frac_of, lemma_product_bound, lemma_product_positive,
    lemma_quotient_bound, ONE,
};
use crate::framebuffer::TextureInfo;
use crate::maze::{is_wall_code, TileGrid, EMPTY, GOAL};
use crate::player::Player;

verus! {

/// The number of cell boundaries a ray crosses before it gives up.
pub const MAX_STEPS: usize = 100;

/// The kind of cell boundary that a ray crossed.
#[derive(Clone, Copy, Debug, PartialEq, Eq, Structural)]
pub enum Side {
    /// A vertical grid line: the ray stepped along the x axis.
    X,
    /// A horizontal grid line: the ray stepped along the y axis.
    Y,
}

/// A ray: an origin and a direction, all four in 16.16 fixed point. The
/// direction need not have unit length; distances along the ray are measured
/// in multiples of it.
#[derive(Clone, Copy, Debug)]
pub struct Ray {
    pub x: i32,
    pub y: i32,
    pub dir_x: i32,
    pub dir_y: i32,
}

/// Where a ray met a wall.
#[derive(Clone, Copy, Debug, PartialEq, Eq, Structural)]
pub struct RayHit {
    /// Distance from the origin to the wall face along the ray, in 16.16
    /// multiples of the direction, rounded down.
    pub distance: u64,
    /// The code of the cell that was struck.
    pub wall_type: u8,
    /// Where along the struck face the ray arrived: a 16.16 fraction in
    /// `[0, ONE)`.
    pub hit_x: u32,
    /// The kind of boundary through which the ray entered the struck cell.
    pub side: Side,
}

impl Ray {
    /// Column of the cell that holds the origin.
    pub open spec fn start_col(self) -> int {
        cell_of(self.x as int)
    }

    /// Row of the cell that holds the origin.
    pub open spec fn start_row(self) -> int {
        cell_of(self.y as int)
    }

    /// The column changes by this much at each vertical grid line.
    pub open spec fn step_x(self) -> int {
        if self.dir_x < 0 {
            -1
        } else {
            1
        }
    }

    /// The row changes by this much at each horizontal grid line.
    pub open spec fn step_y(self) -> int {
        if self.dir_y < 0 {
            -1
        } else {
            1
        }
    }

    /// Whether the ray has no direction at all.
    pub open spec fn degenerate(self) -> bool {
        self.dir_x == 0 && self.dir_y == 0
    }

    /// Distance along the x axis from the origin to the vertical grid line
    /// that the ray meets after it has crossed `n` of them.
    pub open spec fn travel_x(self, n: int) -> int {
        if self.dir_x < 0 {
            frac_of(self.x as int) + n * ONE
        } else {
            ONE - frac_of(self.x as int) + n * ONE
        }
    }

    /// Distance along the y axis from the origin to the horizontal grid line
    /// that the ray meets after it has crossed `n` of them.
    pub open spec fn travel_y(self, n: int) -> int {
        if self.dir_y < 0 {
            frac_of(self.y as int) + n * ONE
        } else {
            ONE - frac_of(self.y as int) + n * ONE
        }
    }

    /// Whether the ray, having crossed `nx` vertical and `ny` horizontal
    /// grid lines, reaches its next vertical line no later than its next
    /// horizontal one. The two arrival times `travel_x(nx) / |dir_x|` and
    /// `travel_y(ny) / |dir_y|` are compared exactly, by cross
    /// multiplication; an axis along which the ray does not move is never
    /// reached. A tie goes to the vertical line.
    pub open spec fn x_first(self, nx: int, ny: int) -> bool {
        self.travel_x(nx) * abs(self.dir_y as int) <= self.travel_y(ny) * abs(self.dir_x as int)
    }

    /// How many of the first `k` boundaries that the ray crosses are vertical
    /// grid lines.
    pub open spec fn x_steps(self, k: nat) -> nat
        decreases k,
    {
        if k == 0 {
            0
        } else {
            let nx = self.x_steps((k - 1) as nat);
            if self.x_first(nx as int, k - 1 - nx) {
                nx + 1
            } else {
                nx
            }
        }
    }

    /// How many of the first `k` boundaries that the ray crosses are
    /// horizontal grid lines.
    pub open spec fn y_steps(self, k: nat) -> int {
        k - self.x_steps(k)
    }

    /// Column of the cell that the ray is in after `k` boundaries.
    pub open spec fn col_after(self, k: nat) -> int {
        if self.dir_x < 0 {
            self.start_col() - self.x_steps(k)
        } else {
            self.start_col() + self.x_steps(k)
        }
    }

    /// Row of the cell that the ray is in after `k` boundaries.
    pub open spec fn row_after(self, k: nat) -> int {
        if self.dir_y < 0 {
            self.start_row() - self.y_steps(k)
        } else {
            self.start_row() + self.y_steps(k)
        }
    }

    /// The kind of the `k`-th boundary, for `k >= 1`.
    pub open spec fn side_after(self, k: nat) -> Side {
        if self.x_steps(k) > self.x_steps((k - 1) as nat) {
            Side::X
        } else {
            Side::Y
        }
    }
}

/// The first step, counting from `from`, at which the walk ends: the cell
/// reached is outside the grid or a wall. `MAX_STEPS + 1` or more if the walk
/// does not end within `MAX_STEPS` steps.
pub open spec fn stop_step(grid: &TileGrid, ray: Ray, from: nat) -> nat
    decreases MAX_STEPS + 1 - from,
{
    if from > MAX_STEPS {
        from
    } else if grid.blocking(ray.col_after(from), ray.row_after(from)) {
        from
    } else {
        stop_step(grid, ray, from + 1)
    }
}

/// What the ray reports if its `k`-th step, `k >= 1`, enters a wall cell.
///
/// The distance is that to the boundary just crossed: the travel along the
/// stepped axis divided by the direction's component on it. The face
/// coordinate is the position on the other axis at that moment, reduced to
/// its fraction.
pub open spec fn hit_at(grid: &TileGrid, ray: Ray, k: nat) -> RayHit {
    let wall_type = grid.code(ray.col_after(k), ray.row_after(k));
    match ray.side_after(k) {
        Side::X => {
            let travel = ray.travel_x(ray.x_steps(k) - 1);
            let along = abs(ray.dir_x as int);
            RayHit {
                distance: ((travel * ONE) / along) as u64,
                wall_type,
                hit_x: frac_of(ray.y + (travel * ray.dir_y) / along) as u32,
                side: Side::X,
            }
        },
        Side::Y => {
            let travel = ray.travel_y(ray.y_steps(k) - 1);
            let along = abs(ray.dir_y as int);
            RayHit {
                distance: ((travel * ONE) / along) as u64,
                wall_type,
                hit_x: frac_of(ray.x + (travel * ray.dir_x) / along) as u32,
                side: Side::Y,
            }
        },
    }
}

/// The outcome of a cast. There is a hit exactly when the ray has a
/// direction and its walk ends, within `MAX_STEPS` steps, in a wall cell of
/// the grid; a walk that leaves the grid first hits nothing.
pub open spec fn ray_result(grid: &TileGrid, ray: Ray) -> Option<RayHit> {
    let k = stop_step(grid, ray, 1);
    if ray.degenerate() || k > MAX_STEPS || !grid.in_bounds(ray.col_after(k), ray.row_after(k)) {
        None
    } else {
        Some(hit_at(grid, ray, k))
    }
}

/// `stop_step` is the first step, from `from` on, whose cell is outside the
/// grid or a wall: nothing before it ends the walk, and it does.
pub proof fn lemma_stop_step_is_first(grid: &TileGrid, ray: Ray, from: nat)
    ensures
        from <= stop_step(grid, ray, from),
        from <= MAX_STEPS + 1 ==> stop_step(grid, ray, from) <= MAX_STEPS + 1,
        stop_step(grid, ray, from) <= MAX_STEPS ==> grid.blocking(
            ray.col_after(stop_step(grid, ray, from)),
            ray.row_after(stop_step(grid, ray, from)),
        ),
        forall|j: nat|
            from <= j < stop_step(grid, ray, from) && j <= MAX_STEPS ==> !grid.blocking(
                #[trigger] ray.col_after(j),
                ray.row_after(j),
            ),
    decreases MAX_STEPS + 1 - from,
{
    if from <= MAX_STEPS && !grid.blocking(ray.col_after(from), ray.row_after(from)) {
        lemma_stop_step_is_first(grid, ray, from + 1);
    }
}

/// Each step moves the walk to a neighbouring cell, always in the direction
/// of the ray: after `k` steps the walk is exactly `k` cells from its start,
/// counted along the axes.
pub proof fn lemma_walk_distance(ray: Ray, k: nat)
    ensures
        ray.x_steps(k) <= k,
        abs(ray.col_after(k) - ray.start_col()) == ray.x_steps(k),
        abs(ray.row_after(k) - ray.start_row()) == ray.y_steps(k),
        abs(ray.col_after(k) - ray.start_col()) + abs(ray.row_after(k) - ray.start_row()) == k,
    decreases k,
{
    if k > 0 {
        lemma_walk_distance(ray, (k - 1) as nat);
    }
}

/// The walk crosses the grid lines in the order in which the ray reaches
/// them. After any number of steps, the vertical line crossed last was
/// reached no later than the next horizontal line, and the horizontal line
/// crossed last was reached strictly before the next vertical line.
pub proof fn lemma_crossings_in_order(ray: Ray, k: nat)
    ensures
        ray.x_steps(k) <= k,
        ray.x_steps(k) > 0 ==> ray.x_first(ray.x_steps(k) - 1, ray.y_steps(k)),
        ray.y_steps(k) > 0 ==> !ray.x_first(ray.x_steps(k) as int, ray.y_steps(k) - 1),
    decreases k,
{
    if k > 0 {
        let j = (k - 1) as nat;
        lemma_crossings_in_order(ray, j);
        let nx = ray.x_steps(j) as int;
        let ny = ray.y_steps(j);
        let ax = abs(ray.dir_x as int);
        let ay = abs(ray.dir_y as int);
        if ray.x_first(nx, ny) {
            if ny > 0 {
                assert(ray.travel_x(nx + 1) * ay >= ray.travel_x(nx) * ay) by (nonlinear_arith)
                    requires
                        ray.travel_x(nx + 1) >= ray.travel_x(nx),
                        ay >= 0,
                ;
            }
        } else {
            if nx > 0 {
                assert(ray.travel_y(ny + 1) * ax >= ray.travel_y(ny) * ax) by (nonlinear_arith)
                    requires
                        ray.travel_y(ny + 1) >= ray.travel_y(ny),
                        ax >= 0,
                ;
            }
        }
    }
}

/// Ties go to the x axis. Whenever the next vertical and the next
/// horizontal grid line are equally far along the ray, the walk crosses the
/// vertical one; in particular a ray aimed exactly at a cell corner takes
/// its first step along x.
pub proof fn lemma_tie_steps_along_x(ray: Ray, k: nat)
    requires
        ray.travel_x(ray.x_steps(k) as int) * abs(ray.dir_y as int) == ray.travel_y(ray.y_steps(k))
            * abs(ray.dir_x as int),
    ensures
        ray.side_after(k + 1) == Side::X,
        ray.col_after(k + 1) == ray.col_after(k) + ray.step_x(),
        ray.row_after(k + 1) == ray.row_after(k),
{
    assert(ray.x_first(ray.x_steps(k) as int, ray.y_steps(k)));
    assert(ray.x_steps(k + 1) == ray.x_steps(k) + 1);
}

/// A hit in a cell that the ray enters at a corner is a hit on a vertical
/// face: if the first vertical and the first horizontal grid line are
/// equally far and the first step already ends in a wall, the hit reports
/// `Side::X`.
pub proof fn lemma_corner_hit_is_on_x(grid: &TileGrid, ray: Ray)
    requires
        ray.travel_x(0) * abs(ray.dir_y as int) == ray.travel_y(0) * abs(ray.dir_x as int),
        stop_step(grid, ray, 1) == 1,
        ray_result(grid, ray) is Some,
    ensures
        ray_result(grid, ray)->0.side == Side::X,
{
    lemma_tie_steps_along_x(ray, 0);
}

/// A ray sees nothing in open space: if no cell of the grid within
/// `MAX_STEPS` steps of the ray's origin is a wall, the cast reports no hit.
pub proof fn lemma_open_space_no_hit(grid: &TileGrid, ray: Ray)
    requires
        forall|col: int, row: int|
            #[trigger] grid.in_bounds(col, row) && abs(col - ray.start_col()) + abs(
                row - ray.start_row(),
            ) <= MAX_STEPS ==> !is_wall_code(grid.code(col, row)),
    ensures
        ray_result(grid, ray) is None,
{
    let k = stop_step(grid, ray, 1);
    lemma_stop_step_is_first(grid, ray, 1);
    if k <= MAX_STEPS {
        lemma_walk_distance(ray, k);
        assert(grid.blocking(ray.col_after(k), ray.row_after(k)));
        if grid.in_bounds(ray.col_after(k), ray.row_after(k)) {
            assert(!is_wall_code(grid.code(ray.col_after(k), ray.row_after(k))));
        }
    }
}

/// Computes the face coordinate `frac_of(base + (travel * dir) / along)`.
fn face_fraction(base: i32, travel: i64, dir: i32, along: i64) -> (f: u32)
    requires
        0 <= travel <= 6684672,
        0 < along <= 2147483648,
    ensures
        f == frac_of(base + (travel * dir) / (along as int)),
        f < ONE,
{
    proof {
        if dir >= 0 {
            lemma_product_bound(travel as int, dir as int, 6684672, 2147483648);
        } else {
            lemma_product_bound(travel as int, -(dir as int), 6684672, 2147483648);
            assert(travel * dir == -(travel * (-(dir as int)))) by (nonlinear_arith);
        }
    }
    let product: i64 = travel * (dir as i64);
    let shift: i128 = floor_div(product as i128, along as i128);
    proof {
        if product >= 0 {
            lemma_quotient_bound(product as int, along as int);
        } else {
            // floor(p / d) lies between p and 0 for a negative p
            assert(product as int <= shift as int <= 0) by (nonlinear_arith)
                requires
                    shift as int == product as int / along as int,
                    product < 0,
                    along > 0,
            ;
        }
    }
    let wall: i128 = base as i128 + shift;
    let cell: i128 = floor_div(wall, 65536);
    (wall - cell * 65536) as u32
}

/// Casts a ray through the grid and reports the first wall it meets.
///
/// The walk starts in the cell of the origin and crosses one cell boundary
/// per step, always the one that the ray reaches next, a vertical line
/// before a horizontal one when both are equally far. Empty cells and the
/// goal are passed through. The walk ends at the first wall cell (a hit), on
/// leaving the grid (no hit), or after `MAX_STEPS` steps (no hit).
pub fn cast_ray(grid: &TileGrid, ray: Ray) -> (hit: Option<RayHit>)
    requires
        grid.wf(),
    ensures
        hit == ray_result(grid, ray),
        hit matches Some(h) ==> h.hit_x < ONE && is_wall_code(h.wall_type),
{
    if ray.dir_x == 0 && ray.dir_y == 0 {
        return None;
    }
    let start_col: i64 = cell_index(ray.x) as i64;
    let start_row: i64 = cell_index(ray.y) as i64;
    let frac_x: i64 = ray.x as i64 - start_col * 65536;
    let frac_y: i64 = ray.y as i64 - start_row * 65536;
    let step_x: i64 = if ray.dir_x < 0 { -1 } else { 1 };
    let step_y: i64 = if ray.dir_y < 0 { -1 } else { 1 };
    let reach_x: i64 = if ray.dir_x < 0 { frac_x } else { 65536 - frac_x };
    let reach_y: i64 = if ray.dir_y < 0 { frac_y } else { 65536 - frac_y };
    let along_x: i64 = if ray.dir_x < 0 { -(ray.dir_x as i64) } else { ray.dir_x as i64 };
    let along_y: i64 = if ray.dir_y < 0 { -(ray.dir_y as i64) } else { ray.dir_y as i64 };

    let mut nx: i64 = 0;
    let mut ny: i64 = 0;
    let mut col: i64 = start_col;
    let mut row: i64 = start_row;
    let mut k: usize = 0;
    while k < MAX_STEPS
        invariant
            grid.wf(),
            !ray.degenerate(),
            k <= MAX_STEPS,
            0 <= nx,
            0 <= ny,
            nx + ny == k,
            nx == ray.x_steps(k as nat),
            col == ray.col_after(k as nat),
            row == ray.row_after(k as nat),
            start_col == ray.start_col(),
            start_row == ray.start_row(),
            step_x == ray.step_x(),
            step_y == ray.step_y(),
            -32768 <= start_col < 32768,
            -32768 <= start_row < 32768,
            along_x == abs(ray.dir_x as int),
            along_y == abs(ray.dir_y as int),
            0 <= reach_x <= 65536,
            0 <= reach_y <= 65536,
            forall|n: int| reach_x + n * 65536 == #[trigger] ray.travel_x(n),
            forall|n: int| reach_y + n * 65536 == #[trigger] ray.travel_y(n),
            stop_step(grid, ray, 1) == stop_step(grid, ray, (k + 1) as nat),
        decreases MAX_STEPS - k,
    {
        let travel_x: i64 = reach_x + nx * 65536;
        let travel_y: i64 = reach_y + ny * 65536;
        proof {
            assert(travel_x == ray.travel_x(nx as int));
            assert(travel_y == ray.travel_y(ny as int));
            lemma_product_bound(travel_x as int, along_y as int, 6684672, 2147483648);
            lemma_product_bound(travel_y as int, along_x as int, 6684672, 2147483648);
        }
        let x_first: bool = travel_x * along_y <= travel_y * along_x;
        assert(x_first == ray.x_first(nx as int, ny as int));
        let side: Side;
        if x_first {
            nx += 1;
            col += step_x;
            side = Side::X;
        } else {
            ny += 1;
            row += step_y;
            side = Side::Y;
        }
        k += 1;
        assert(nx == ray.x_steps(k as nat));
        assert(side == ray.side_after(k as nat));
        assert(col == ray.col_after(k as nat));
        assert(row == ray.row_after(k as nat));
        match grid.cell_at(col, row) {
            None => {
                return None;
            },
            Some(code) => {
                if code != EMPTY && code != GOAL {
                    let hit = match side {
                        Side::X => {
                            proof {
                                if along_x == 0 {
                                    lemma_product_positive(travel_x as int, along_y as int);
                                }
                                lemma_quotient_bound(travel_x * 65536, along_x as int);
                            }
                            RayHit {
                                distance: ((travel_x * 65536) / along_x) as u64,
                                wall_type: code,
                                hit_x: face_fraction(ray.y, travel_x, ray.dir_y, along_x),
                                side: Side::X,
                            }
                        },
                        Side::Y => {
                            proof {
                                lemma_quotient_bound(travel_y * 65536, along_y as int);
                            }
                            RayHit {
                                distance: ((travel_y * 65536) / along_y) as u64,
                                wall_type: code,
                                hit_x: face_fraction(ray.x, travel_y, ray.dir_x, along_y),
                                side: Side::Y,
                            }
                        },
                    };
                    assert(hit == hit_at(grid, ray, k as nat));
                    return Some(hit);
                }
            },
        }
    }
    None
}

/// Half the field of view in millionths of a radian: a twelfth of a turn.
pub const HALF_FOV: i32 = 523599;

/// The angle between the facing direction and the ray through a screen
/// column, in millionths of a radian, rounded down. The columns of a screen
/// `width` wide spread evenly over the field of view: the position
/// `2 * column / width - 1` of the column on the view plane, which runs from
/// -1 at the left edge to 1 at the right, times `HALF_FOV`.
pub open spec fn column_offset(column: int, width: int) -> int {
    ((2 * column - width) * HALF_FOV) / width
}

/// The angles of the rays of a screen `screen_width` columns wide, relative
/// to the facing direction, from the leftmost column to the rightmost.
pub fn column_offsets(screen_width: u32) -> (offsets: Vec<i32>)
    ensures
        offsets@.len() == screen_width,
        forall|i: int|
            0 <= i < screen_width ==> #[trigger] offsets@[i] == column_offset(
                i,
                screen_width as int,
            ),
        forall|i: int| 0 <= i < screen_width ==> -HALF_FOV <= #[trigger] offsets@[i] < HALF_FOV,
{
    let mut offsets: Vec<i32> = Vec::new();
    let mut i: u32 = 0;
    while i < screen_width
        invariant
            i <= screen_width,
            offsets@.len() == i,
            forall|c: int|
                0 <= c < i ==> #[trigger] offsets@[c] == column_offset(c, screen_width as int),
            forall|c: int| 0 <= c < i ==> -HALF_FOV <= #[trigger] offsets@[c] < HALF_FOV,
        decreases screen_width - i,
    {
        let across: i128 = 2 * (i as i128) - screen_width as i128;
        let offset: i128 = floor_div(across * 523599, screen_width as i128);
        proof {
            let w = screen_width as int;
            let n = across as int * 523599;
            assert(-523599 * w <= n < 523599 * w);
            // -HALF_FOV <= n / w < HALF_FOV
            assert(-523599 <= n / w < 523599) by (nonlinear_arith)
                requires
                    w > 0,
                    -523599 * w <= n < 523599 * w,
            ;
        }
        offsets.push(offset as i32);
        i += 1;
    }
    offsets
}

/// The ray through one screen column, as the camera set it up.
#[derive(Clone, Copy, Debug)]
pub struct ColumnRay {
    /// Direction of the ray, 16.16.
    pub dir_x: i32,
    pub dir_y: i32,
    /// Cosine of the angle between the ray and the facing direction, 16.16.
    pub cos_offset: i32,
}

/// One screen column of wall: a vertical span and the texture column that
/// is stretched over it.
#[derive(Clone, Copy, Debug, PartialEq, Eq, Structural)]
pub struct WallStrip {
    /// The screen column.
    pub column: usize,
    /// First row of the span.
    pub y_start: u32,
    /// The row after the last one of the span.
    pub y_end: u32,
    /// Which wall texture to sample.
    pub texture_slot: usize,
    /// Which column of that texture.
    pub texture_column: u32,
}

/// Height in pixels of a wall at `distance`, seen in a column whose ray
/// makes an angle of cosine `cos_offset` with the facing direction: the
/// screen height divided by the corrected distance `distance * cos_offset`,
/// rounded down. Both factors are positive.
pub open spec fn wall_height(distance: u64, cos_offset: i32, screen_height: u32) -> int {
    (screen_height * ONE * ONE) / (distance * cos_offset)
}

/// The strip that a hit paints in its column, if any.
///
/// Nothing is painted for a wall at distance zero or at a corrected
/// distance that is not positive, for a wall code without a texture (the
/// texture of code `c` is number `c - 1`), or for a texture without columns.
/// Otherwise the span is as tall as the wall, centred vertically and cut
/// down to the screen, and the texture column is the one that the face
/// coordinate of the hit falls in.
pub open spec fn wall_strip(
    hit: RayHit,
    column: usize,
    cos_offset: i32,
    screen_height: u32,
    textures: Seq<TextureInfo>,
) -> Option<WallStrip> {
    if hit.distance == 0 || cos_offset <= 0 || hit.wall_type == 0 || hit.wall_type
        > textures.len() || textures[hit.wall_type - 1].width == 0 {
        None
    } else {
        let tall = wall_height(hit.distance, cos_offset, screen_height);
        let texture = textures[hit.wall_type - 1];
        Some(
            WallStrip {
                column,
                y_start: (if tall >= screen_height {
                    0
                } else {
                    (screen_height - tall) / 2
                }) as u32,
                y_end: (if tall >= screen_height {
                    screen_height as int
                } else {
                    (screen_height + tall) / 2
                }) as u32,
                texture_slot: (hit.wall_type - 1) as usize,
                texture_column: (((hit.hit_x * texture.width) / (ONE as int)) % (
                texture.width as int)) as u32,
            },
        )
    }
}

/// What a screen column shows of the walls: the strip of the hit of its
/// ray, cast from `(x, y)`.
pub open spec fn column_strip(
    grid: &TileGrid,
    x: i32,
    y: i32,
    ray: ColumnRay,
    column: usize,
    screen_height: u32,
    textures: Seq<TextureInfo>,
) -> Option<WallStrip> {
    match ray_result(grid, Ray { x, y, dir_x: ray.dir_x, dir_y: ray.dir_y }) {
        Some(hit) => wall_strip(hit, column, ray.cos_offset, screen_height, textures),
        None => None,
    }
}

/// A strip never leaves the screen, and the texture column it samples
/// exists.
pub proof fn lemma_strip_on_screen(
    hit: RayHit,
    column: usize,
    cos_offset: i32,
    screen_height: u32,
    textures: Seq<TextureInfo>,
)
    requires
        wall_strip(hit, column, cos_offset, screen_height, textures) is Some,
    ensures
        ({
            let strip = wall_strip(hit, column, cos_offset, screen_height, textures)->0;
            &&& strip.y_start <= strip.y_end <= screen_height
            &&& strip.texture_slot < textures.len()
            &&& strip.texture_column < textures[strip.texture_slot as int].width
        }),
{
    let tall = wall_height(hit.distance, cos_offset, screen_height);
    lemma_product_positive(hit.distance as int, cos_offset as int);
    lemma_quotient_bound(screen_height * ONE * ONE, hit.distance * cos_offset);
}

/// Projects a hit onto its screen column.
pub fn project_wall(
    hit: &RayHit,
    column: usize,
    cos_offset: i32,
    screen_height: u32,
    textures: &[TextureInfo],
) -> (strip: Option<WallStrip>)
    ensures
        strip == wall_strip(*hit, column, cos_offset, screen_height, textures@),
{
    if hit.distance == 0 || cos_offset <= 0 || hit.wall_type == 0 || hit.wall_type as usize
        > textures.len() {
        return None;
    }
    let slot: usize = (hit.wall_type - 1) as usize;
    let texture: TextureInfo = textures[slot];
    if texture.width == 0 {
        return None;
    }
    proof {
        lemma_product_bound(
            hit.distance as int,
            cos_offset as int,
            0xffff_ffff_ffff_ffff,
            0x7fff_ffff,
        );
        lemma_product_positive(hit.distance as int, cos_offset as int);
        lemma_product_bound(hit.hit_x as int, texture.width as int, 0xffff_ffff, 0xffff_ffff);
        lemma_quotient_bound(screen_height * ONE * ONE, hit.distance * cos_offset);
        assert(((hit.hit_x * texture.width) / (ONE as int)) % (texture.width as int)
            < texture.width);
    }
    let corrected: u128 = hit.distance as u128 * cos_offset as u128;
    let tall: u128 = (screen_height as u128 * 65536 * 65536) / corrected;
    let height: u128 = screen_height as u128;
    let y_start: u128 = if tall >= height { 0 } else { (height - tall) / 2 };
    let y_end: u128 = if tall >= height { height } else { (height + tall) / 2 };
    let texture_column: u64 = ((hit.hit_x as u64 * texture.width as u64) / 65536) % (
    texture.width as u64);
    Some(
        WallStrip {
            column,
            y_start: y_start as u32,
            y_end: y_end as u32,
            texture_slot: slot,
            texture_column: texture_column as u32,
        },
    )
}

/// The wall layer of one frame: for every screen column, in order, the
/// strip to paint there or `None`. Column `i` is seen along `rays[i]` from
/// the player's position; the walls' textures are `wall_textures`.
pub fn render_scene(
    grid: &TileGrid,
    player: &Player,
    rays: &[ColumnRay],
    wall_textures: &[TextureInfo],
    screen_height: u32,
) -> (strips: Vec<Option<WallStrip>>)
    requires
        grid.wf(),
    ensures
        strips@.len() == rays@.len(),
        forall|i: int|
            0 <= i < rays@.len() ==> #[trigger] strips@[i] == column_strip(
                grid,
                player.x,
                player.y,
                rays@[i],
                i as usize,
                screen_height,
                wall_textures@,
            ),
{
    let mut strips: Vec<Option<WallStrip>> = Vec::new();
    let mut i: usize = 0;
    while i < rays.len()
        invariant
            grid.wf(),
            i <= rays@.len(),
            strips@.len() == i,
            forall|c: int|
                0 <= c < i ==> #[trigger] strips@[c] == column_strip(
                    grid,
                    player.x,
                    player.y,
                    rays@[c],
                    c as usize,
                    screen_height,
                    wall_textures@,
                ),
        decreases rays@.len() - i,
    {
        let column: ColumnRay = rays[i];
        let ray = Ray { x: player.x, y: player.y, dir_x: column.dir_x, dir_y: column.dir_y };
        let strip = match cast_ray(grid, ray) {
            Some(hit) => project_wall(&hit, i, column.cos_offset, screen_height, wall_textures),
            None => None,
        };
        strips.push(strip);
        i += 1;
    }
    strips
}

} // verus!

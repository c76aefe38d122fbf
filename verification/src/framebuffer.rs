//! What a frame is made of besides walls and sprites: the fill of sky and
//! floor that every frame starts with, and the map overlay in the corner.

use vstd::prelude::*;
use crate::fixed::{clamp_i32, lemma_product_bound, trunc_div, truncating_div, ONE};
use crate::maze::{TileGrid, EMPTY, GOAL};
use crate::player::Player;

verus! {

/// A rectangle of pixels, given by its upper left corner and its size.
#[derive(Clone, Copy, Debug, PartialEq, Eq, Structural)]
pub struct ScreenRect {
    pub x: i32,
    pub y: i32,
    pub width: u32,
    pub height: u32,
}

/// The size of a texture in pixels.
#[derive(Clone, Copy, Debug, PartialEq, Eq, Structural)]
pub struct TextureInfo {
    pub width: u32,
    pub height: u32,
}

/// A colour, by its red, green and blue parts and its opacity.
#[derive(Clone, Copy, Debug, PartialEq, Eq, Structural)]
pub struct Color {
    pub r: u8,
    pub g: u8,
    pub b: u8,
    pub a: u8,
}

/// A rectangle and the colour to draw it in.
#[derive(Clone, Copy, Debug, PartialEq, Eq, Structural)]
pub struct Fill {
    pub rect: ScreenRect,
    pub color: Color,
}

/// Something to draw on the frame.
#[derive(Clone, Copy, Debug, PartialEq, Eq, Structural)]
pub enum Shape {
    /// A rectangle filled with a colour.
    Filled(Fill),
    /// The border of a rectangle.
    Outline(Fill),
    /// A straight line between two pixels.
    Line { x1: i32, y1: i32, x2: i32, y2: i32, color: Color },
}

/// An opaque colour.
pub open spec fn rgb(r: u8, g: u8, b: u8) -> Color {
    Color { r, g, b, a: 255 }
}

/// The sky: the upper half of a `width * height` screen, in sky blue.
pub open spec fn sky_fill(width: u32, height: u32) -> Fill {
    Fill { rect: ScreenRect { x: 0, y: 0, width, height: height / 2 }, color: rgb(135, 206, 235) }
}

/// The floor: as tall as the sky and directly below it, in brown.
pub open spec fn floor_fill(width: u32, height: u32) -> Fill {
    Fill {
        rect: ScreenRect { x: 0, y: (height / 2) as i32, width, height: height / 2 },
        color: rgb(101, 67, 33),
    }
}

/// An opaque colour.
pub fn opaque(r: u8, g: u8, b: u8) -> (color: Color)
    ensures
        color == rgb(r, g, b),
{
    Color { r, g, b, a: 255 }
}

/// The background of a frame: the sky, then the floor.
pub fn draw_background(width: u32, height: u32) -> (fills: (Fill, Fill))
    ensures
        fills.0 == sky_fill(width, height),
        fills.1 == floor_fill(width, height),
{
    let half: u32 = height / 2;
    let sky = Fill { rect: ScreenRect { x: 0, y: 0, width, height: half }, color: opaque(135, 206, 235) };
    let floor = Fill {
        rect: ScreenRect { x: 0, y: half as i32, width, height: half },
        color: opaque(101, 67, 33),
    };
    (sky, floor)
}

/// The frame rate that a time step of `delta_time` seconds (16.16) amounts
/// to: its reciprocal, rounded toward zero. A time step of zero counts as
/// the highest rate there is.
pub open spec fn frame_rate(delta_time: i32) -> int {
    if delta_time == 0 {
        i32::MAX as int
    } else if delta_time > 0 {
        (ONE as int) / (delta_time as int)
    } else {
        -((ONE as int) / (-(delta_time as int)))
    }
}

/// Computes `frame_rate`.
pub fn frames_per_second(delta_time: i32) -> (fps: i32)
    ensures
        fps == frame_rate(delta_time),
{
    if delta_time == 0 {
        i32::MAX
    } else if delta_time > 0 {
        ONE / delta_time
    } else {
        let span: i64 = -(delta_time as i64);
        proof {
            crate::fixed::lemma_quotient_bound(65536, span as int);
        }
        (-(65536 / span)) as i32
    }
}

/// Width and height of the map overlay, in pixels.
pub const MINIMAP_SIZE: u32 = 200;

/// Distance of the map overlay from the top and the right edge of the
/// screen, in pixels.
pub const MINIMAP_MARGIN: i32 = 10;

/// Column of the left edge of the map overlay.
pub open spec fn minimap_left(screen_width: u32) -> int {
    screen_width - MINIMAP_SIZE - MINIMAP_MARGIN
}

/// Width and height of one cell on the map overlay, chosen so that a row of
/// the grid fits the overlay.
pub open spec fn minimap_cell_size(grid: &TileGrid) -> int {
    if grid.spec_width() == 0 {
        0
    } else {
        MINIMAP_SIZE as int / grid.spec_width() as int
    }
}

/// The colour of a cell on the map overlay: dark for an empty cell, gold
/// for the goal, light grey for a wall.
pub open spec fn cell_color(code: u8) -> Color {
    if code == EMPTY {
        rgb(40, 40, 40)
    } else if code == GOAL {
        rgb(255, 215, 0)
    } else {
        rgb(180, 180, 180)
    }
}

/// The square of the cell `(col, row)` on the map overlay.
pub open spec fn minimap_cell_rect(grid: &TileGrid, screen_width: u32, col: int, row: int) -> ScreenRect {
    let size = minimap_cell_size(grid);
    ScreenRect {
        x: clamp_i32(minimap_left(screen_width) + col * size) as i32,
        y: (MINIMAP_MARGIN + row * size) as i32,
        width: size as u32,
        height: size as u32,
    }
}

/// What the map overlay shows of one cell: its square in its colour, and
/// for the goal an orange border on top.
pub open spec fn minimap_cell(grid: &TileGrid, screen_width: u32, col: int, row: int) -> Seq<Shape> {
    let rect = minimap_cell_rect(grid, screen_width, col, row);
    let code = grid.code(col, row);
    let square = Shape::Filled(Fill { rect, color: cell_color(code) });
    if code == GOAL {
        seq![square, Shape::Outline(Fill { rect, color: rgb(255, 100, 0) })]
    } else {
        seq![square]
    }
}

/// What the map overlay shows of the first `count` cells of the grid,
/// counted row by row.
pub open spec fn minimap_cells(grid: &TileGrid, screen_width: u32, count: nat) -> Seq<Shape>
    decreases count,
{
    if count == 0 || grid.spec_width() == 0 {
        Seq::empty()
    } else {
        let last = count - 1;
        minimap_cells(grid, screen_width, last as nat) + minimap_cell(
            grid,
            screen_width,
            last % (grid.spec_width() as int),
            last / (grid.spec_width() as int),
        )
    }
}

/// Where a position lies on the map overlay, along one axis that starts at
/// the pixel `origin`.
pub open spec fn minimap_point(grid: &TileGrid, origin: int, position: i32) -> int {
    origin + trunc_div(position * minimap_cell_size(grid), ONE as int)
}

/// The player on the map overlay: a red square of six pixels around the
/// player's position.
pub open spec fn minimap_marker(grid: &TileGrid, player: Player, screen_width: u32) -> Shape {
    Shape::Filled(
        Fill {
            rect: ScreenRect {
                x: clamp_i32(minimap_point(grid, minimap_left(screen_width), player.x) - 3) as i32,
                y: clamp_i32(minimap_point(grid, MINIMAP_MARGIN as int, player.y) - 3) as i32,
                width: 6,
                height: 6,
            },
            color: rgb(255, 0, 0),
        },
    )
}

/// The facing direction on the map overlay: a yellow line of twelve pixels
/// from the player's position along `(dir_x, dir_y)`.
pub open spec fn minimap_pointer(
    grid: &TileGrid,
    player: Player,
    dir_x: i32,
    dir_y: i32,
    screen_width: u32,
) -> Shape {
    let x = minimap_point(grid, minimap_left(screen_width), player.x);
    let y = minimap_point(grid, MINIMAP_MARGIN as int, player.y);
    Shape::Line {
        x1: clamp_i32(x) as i32,
        y1: clamp_i32(y) as i32,
        x2: clamp_i32(x + trunc_div(dir_x * 12, ONE as int)) as i32,
        y2: clamp_i32(y + trunc_div(dir_y * 12, ONE as int)) as i32,
        color: rgb(255, 255, 0),
    }
}

/// The backdrop of the map overlay: a translucent black square in the
/// upper right corner of the screen.
pub open spec fn minimap_backdrop(screen_width: u32) -> Shape {
    Shape::Filled(
        Fill {
            rect: ScreenRect {
                x: clamp_i32(minimap_left(screen_width)) as i32,
                y: MINIMAP_MARGIN,
                width: MINIMAP_SIZE,
                height: MINIMAP_SIZE,
            },
            color: Color { r: 0, g: 0, b: 0, a: 200 },
        },
    )
}

/// The whole map overlay: the backdrop, the cells row by row, the player,
/// and the facing direction.
pub open spec fn minimap(
    grid: &TileGrid,
    player: Player,
    dir_x: i32,
    dir_y: i32,
    screen_width: u32,
) -> Seq<Shape> {
    seq![minimap_backdrop(screen_width)] + minimap_cells(
        grid,
        screen_width,
        (grid.spec_width() * grid.spec_height()) as nat,
    ) + seq![
        minimap_marker(grid, player, screen_width),
        minimap_pointer(grid, player, dir_x, dir_y, screen_width),
    ]
}

/// Limits a number to the range of `i32`.
fn limit(v: i64) -> (r: i32)
    ensures
        r == clamp_i32(v as int),
{
    if v < -2147483648 {
        -2147483648
    } else if v > 2147483647 {
        2147483647
    } else {
        v as i32
    }
}

/// Computes `minimap_point`.
fn point_on_map(grid: &TileGrid, origin: i64, position: i32, size: i64) -> (p: i64)
    requires
        size == minimap_cell_size(grid),
        0 <= size <= 200,
        -0x1_0000_0000 <= origin <= 0x1_0000_0000,
    ensures
        p == minimap_point(grid, origin as int, position),
        -0x2_0000_0000 <= p <= 0x2_0000_0000,
{
    proof {
        lemma_product_bound(position as int, size as int, 0x8000_0000, 200);
    }
    let scaled: i128 = truncating_div(position as i128 * size as i128, 65536);
    origin + scaled as i64
}

/// The cell `(col, row)` is number `row * width + col` in row order.
proof fn lemma_cell_number(width: int, col: int, row: int)
    requires
        0 <= col < width,
        0 <= row,
    ensures
        (row * width + col) % width == col,
        (row * width + col) / width == row,
{
    vstd::arithmetic::div_mod::lemma_fundamental_div_mod_converse(
        row * width + col,
        width,
        row,
        col,
    );
}

/// Lays out the map overlay for a screen `screen_width` pixels wide, with
/// the player at its position and `(dir_x, dir_y)` as the facing direction.
pub fn draw_minimap(grid: &TileGrid, player: &Player, dir_x: i32, dir_y: i32, screen_width: u32) -> (shapes:
    Vec<Shape>)
    requires
        grid.wf(),
    ensures
        shapes@ == minimap(grid, *player, dir_x, dir_y, screen_width),
{
    proof {
        grid.lemma_shape();
    }
    let width: usize = grid.width();
    let height: usize = grid.height();
    let left: i64 = screen_width as i64 - 200 - 10;
    let size: i64 = if width == 0 { 0 } else { 200 / (width as i64) };
    proof {
        if width > 0 {
            crate::fixed::lemma_quotient_bound(200, width as int);
        }
    }
    let mut shapes: Vec<Shape> = Vec::new();
    shapes.push(
        Shape::Filled(
            Fill {
                rect: ScreenRect { x: limit(left), y: 10, width: 200, height: 200 },
                color: Color { r: 0, g: 0, b: 0, a: 200 },
            },
        ),
    );
    let ghost head = seq![minimap_backdrop(screen_width)];
    assert(shapes@ =~= head + minimap_cells(grid, screen_width, 0));
    let mut row: usize = 0;
    while row < height
        invariant
            grid.wf(),
            width == grid.spec_width(),
            height == grid.spec_height(),
            width <= 32768,
            height <= 32768,
            row <= height,
            left == minimap_left(screen_width),
            size == minimap_cell_size(grid),
            0 <= size <= 200,
            head == seq![minimap_backdrop(screen_width)],
            shapes@ == head + minimap_cells(grid, screen_width, (row * width) as nat),
        decreases height - row,
    {
        let mut col: usize = 0;
        while col < width
            invariant
                grid.wf(),
                width == grid.spec_width(),
                height == grid.spec_height(),
                width <= 32768,
                height <= 32768,
                row < height,
                col <= width,
                left == minimap_left(screen_width),
                size == minimap_cell_size(grid),
                0 <= size <= 200,
                head == seq![minimap_backdrop(screen_width)],
                shapes@ == head + minimap_cells(grid, screen_width, (row * width + col) as nat),
            decreases width - col,
        {
            proof {
                grid.lemma_shape();
                lemma_product_bound(row as int, width as int, 32768, 32768);
                lemma_product_bound(col as int, size as int, 32768, 200);
                lemma_product_bound(row as int, size as int, 32768, 200);
                lemma_cell_number(width as int, col as int, row as int);
            }
            let code: u8 = match grid.cell_at(col as i64, row as i64) {
                Some(code) => code,
                None => EMPTY,
            };
            let rect = ScreenRect {
                x: limit(left + col as i64 * size),
                y: (10 + row as i64 * size) as i32,
                width: size as u32,
                height: size as u32,
            };
            let color = if code == EMPTY {
                opaque(40, 40, 40)
            } else if code == GOAL {
                opaque(255, 215, 0)
            } else {
                opaque(180, 180, 180)
            };
            let ghost before = shapes@;
            let ghost number = (row * width + col) as nat;
            shapes.push(Shape::Filled(Fill { rect, color }));
            if code == GOAL {
                shapes.push(Shape::Outline(Fill { rect, color: opaque(255, 100, 0) }));
            }
            proof {
                assert(rect == minimap_cell_rect(grid, screen_width, col as int, row as int));
                assert(shapes@ =~= before + minimap_cell(
                    grid,
                    screen_width,
                    col as int,
                    row as int,
                ));
                assert(minimap_cells(grid, screen_width, number + 1) == minimap_cells(
                    grid,
                    screen_width,
                    number,
                ) + minimap_cell(grid, screen_width, col as int, row as int));
                assert(shapes@ =~= head + minimap_cells(grid, screen_width, number + 1));
            }
            col += 1;
        }
        proof {
            assert(row * width + width == (row + 1) * width) by (nonlinear_arith);
        }
        row += 1;
    }
    let x: i64 = point_on_map(grid, left, player.x, size);
    let y: i64 = point_on_map(grid, 10, player.y, size);
    shapes.push(
        Shape::Filled(
            Fill {
                rect: ScreenRect { x: limit(x - 3), y: limit(y - 3), width: 6, height: 6 },
                color: opaque(255, 0, 0),
            },
        ),
    );
    let reach_x: i128 = truncating_div(dir_x as i128 * 12, 65536);
    let reach_y: i128 = truncating_div(dir_y as i128 * 12, 65536);
    shapes.push(
        Shape::Line {
            x1: limit(x),
            y1: limit(y),
            x2: limit(x + reach_x as i64),
            y2: limit(y + reach_y as i64),
            color: opaque(255, 255, 0),
        },
    );
    proof {
        assert(shapes@ =~= minimap(grid, *player, dir_x, dir_y, screen_width));
    }
    shapes
}

} // verus!

use maze_raycaster::fixed::{HALF, ONE};
use maze_raycaster::framebuffer::{
    draw_background, draw_minimap, frames_per_second, opaque, Color, Fill, ScreenRect, Shape,
    MINIMAP_MARGIN, MINIMAP_SIZE,
};
use maze_raycaster::maze::{load_maze_from_text, TileGrid};
use maze_raycaster::player::Player;

fn rect(x: i32, y: i32, width: u32, height: u32) -> ScreenRect {
    ScreenRect { x, y, width, height }
}

fn filled(x: i32, y: i32, width: u32, height: u32, r: u8, g: u8, b: u8) -> Shape {
    Shape::Filled(Fill { rect: rect(x, y, width, height), color: Color { r, g, b, a: 255 } })
}

#[test]
fn background_is_sky_over_floor() {
    let (sky, floor) = draw_background(800, 600);
    assert_eq!(
        sky,
        Fill { rect: rect(0, 0, 800, 300), color: Color { r: 135, g: 206, b: 235, a: 255 } }
    );
    assert_eq!(
        floor,
        Fill { rect: rect(0, 300, 800, 300), color: Color { r: 101, g: 67, b: 33, a: 255 } }
    );
}

#[test]
fn background_of_odd_and_extreme_sizes() {
    let (sky, floor) = draw_background(3, 5);
    assert_eq!(sky.rect, rect(0, 0, 3, 2));
    assert_eq!(floor.rect, rect(0, 2, 3, 2));
    let (sky, floor) = draw_background(0, 0);
    assert_eq!(sky.rect, rect(0, 0, 0, 0));
    assert_eq!(floor.rect, rect(0, 0, 0, 0));
    let (sky, floor) = draw_background(u32::MAX, u32::MAX);
    assert_eq!(sky.rect, rect(0, 0, u32::MAX, 2147483647));
    assert_eq!(floor.rect, rect(0, 2147483647, u32::MAX, 2147483647));
}

#[test]
fn opaque_colours_have_full_alpha() {
    assert_eq!(opaque(1, 2, 3), Color { r: 1, g: 2, b: 3, a: 255 });
}

#[test]
fn frame_rate_is_the_reciprocal_of_the_time_step() {
    assert_eq!(frames_per_second(ONE), 1);
    assert_eq!(frames_per_second(1092), 60);
    assert_eq!(frames_per_second(6554), 9);
    assert_eq!(frames_per_second(1), 65536);
    assert_eq!(frames_per_second(65537), 0);
    assert_eq!(frames_per_second(i32::MAX), 0);
    assert_eq!(frames_per_second(0), i32::MAX);
    assert_eq!(frames_per_second(-1000), -65);
    assert_eq!(frames_per_second(-1), -65536);
    assert_eq!(frames_per_second(i32::MIN), 0);
}

#[test]
fn minimap_of_a_small_grid() {
    assert_eq!((MINIMAP_SIZE, MINIMAP_MARGIN), (200, 10));
    let grid = TileGrid::from_text("01\n50\n", 2, 2).unwrap();
    let player = Player { x: ONE + HALF, y: HALF, dir_angle: 0 };
    let shapes = draw_minimap(&grid, &player, ONE, 0, 800);
    let gold = rect(590, 110, 100, 100);
    let expected = vec![
        Shape::Filled(Fill { rect: rect(590, 10, 200, 200), color: Color { r: 0, g: 0, b: 0, a: 200 } }),
        filled(590, 10, 100, 100, 40, 40, 40),
        filled(690, 10, 100, 100, 180, 180, 180),
        Shape::Filled(Fill { rect: gold, color: Color { r: 255, g: 215, b: 0, a: 255 } }),
        Shape::Outline(Fill { rect: gold, color: Color { r: 255, g: 100, b: 0, a: 255 } }),
        filled(690, 110, 100, 100, 40, 40, 40),
        filled(737, 57, 6, 6, 255, 0, 0),
        Shape::Line { x1: 740, y1: 60, x2: 752, y2: 60, color: Color { r: 255, g: 255, b: 0, a: 255 } },
    ];
    assert_eq!(shapes, expected);
    let shapes = draw_minimap(&grid, &player, -39322, 52429, 800);
    assert_eq!(
        shapes[7],
        Shape::Line { x1: 740, y1: 60, x2: 733, y2: 69, color: Color { r: 255, g: 255, b: 0, a: 255 } }
    );
}

#[test]
fn minimap_of_the_default_grid() {
    let grid = load_maze_from_text("");
    let shapes = draw_minimap(&grid, &Player::new(), 0, ONE, 800);
    assert_eq!(shapes.len(), 1 + 256 + 2);
    assert_eq!(shapes[1], filled(590, 10, 12, 12, 40, 40, 40));
    assert_eq!(shapes[2], filled(602, 10, 12, 12, 40, 40, 40));
    assert_eq!(shapes[17], filled(590, 22, 12, 12, 40, 40, 40));
    assert_eq!(shapes[256], filled(770, 190, 12, 12, 40, 40, 40));
    assert_eq!(shapes[257], filled(605, 25, 6, 6, 255, 0, 0));
    assert_eq!(
        shapes[258],
        Shape::Line { x1: 608, y1: 28, x2: 608, y2: 40, color: Color { r: 255, g: 255, b: 0, a: 255 } }
    );
}

#[test]
fn minimap_at_the_limits() {
    let none = TileGrid::new(0, 5).unwrap();
    let player = Player { x: i32::MIN, y: i32::MAX, dir_angle: 0 };
    let shapes = draw_minimap(&none, &player, i32::MAX, i32::MIN, 0);
    assert_eq!(shapes.len(), 3);
    assert_eq!(
        shapes[0],
        Shape::Filled(Fill { rect: rect(-210, 10, 200, 200), color: Color { r: 0, g: 0, b: 0, a: 200 } })
    );
    assert_eq!(shapes[1], filled(-213, 7, 6, 6, 255, 0, 0));
    assert_eq!(
        shapes[2],
        Shape::Line { x1: -210, y1: 10, x2: 393005, y2: -393206, color: Color { r: 255, g: 255, b: 0, a: 255 } }
    );
    let wide = TileGrid::new(300, 1).unwrap();
    let shapes = draw_minimap(&wide, &player, 0, 0, u32::MAX);
    assert_eq!(shapes.len(), 303);
    assert_eq!(shapes[0], Shape::Filled(Fill { rect: rect(i32::MAX, 10, 200, 200), color: Color { r: 0, g: 0, b: 0, a: 200 } }));
    assert_eq!(shapes[300], filled(i32::MAX, 10, 0, 0, 40, 40, 40));
    let narrow = TileGrid::new(1, 2).unwrap();
    let shapes = draw_minimap(&narrow, &player, 0, 0, 210);
    assert_eq!(shapes[1], filled(0, 10, 200, 200, 40, 40, 40));
    assert_eq!(shapes[2], filled(0, 210, 200, 200, 40, 40, 40));
    // The player's position scaled by the cell size, rounded toward zero.
    assert_eq!(shapes[3], filled(-6553603, 6553606, 6, 6, 255, 0, 0));
}

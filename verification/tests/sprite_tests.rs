use maze_raycaster::fixed::{HALF, ONE};
use maze_raycaster::framebuffer::{ScreenRect, TextureInfo};
use maze_raycaster::maze::TileGrid;
use maze_raycaster::sprite::{
    is_empty_cell, project_sprite, sprite_from_samples, squared_distance, Camera, Sprite,
    SpriteBlit, SpriteRenderer, TAN_HALF_FOV,
};

fn camera() -> Camera {
    Camera::facing(2 * ONE + HALF, 2 * ONE + HALF, ONE, 0)
}

fn at(x: i32, y: i32) -> Sprite {
    Sprite { x, y, texture_index: 0 }
}

fn rect(x: i32, y: i32, width: u32, height: u32) -> Option<ScreenRect> {
    Some(ScreenRect { x, y, width, height })
}

#[test]
fn view_plane_is_the_direction_turned_and_scaled() {
    assert_eq!(TAN_HALF_FOV, 37837);
    let c = camera();
    assert_eq!((c.x, c.y, c.dir_x, c.dir_y), (163840, 163840, ONE, 0));
    assert_eq!((c.plane_x, c.plane_y), (0, 37837));
    let c = Camera::facing(5 * ONE, 5 * ONE, -39322, 52429);
    assert_eq!((c.plane_x, c.plane_y), (-30270, -22703));
    let c = Camera::facing(0, 0, i32::MIN, i32::MAX);
    assert_eq!(c.plane_x as i64, (-(i32::MAX as i64) * 37837).div_euclid(65536));
    assert_eq!(c.plane_y as i64, (i32::MIN as i64 * 37837).div_euclid(65536));
}

#[test]
fn sprite_straight_ahead_is_centred() {
    let c = camera();
    // Two cells ahead: half the screen height, in the middle.
    assert_eq!(project_sprite(&c, &at(4 * ONE + HALF, 2 * ONE + HALF), 800, 600), rect(250, 150, 300, 300));
    assert_eq!(project_sprite(&c, &at(4 * ONE + HALF, 2 * ONE + HALF), 801, 601), rect(250, 150, 300, 300));
    // Eight cells ahead.
    assert_eq!(project_sprite(&c, &at(10 * ONE + HALF, 2 * ONE + HALF), 800, 600), rect(363, 263, 74, 74));
}

#[test]
fn sprite_to_the_side_is_clipped() {
    let c = camera();
    assert_eq!(project_sprite(&c, &at(4 * ONE + HALF, 3 * ONE + HALF), 800, 600), rect(596, 150, 204, 300));
    assert_eq!(project_sprite(&c, &at(4 * ONE + HALF, ONE + HALF), 800, 600), rect(0, 150, 203, 300));
    // Very near: larger than the screen.
    assert_eq!(project_sprite(&c, &at(3 * ONE, 2 * ONE + HALF), 800, 600), rect(0, 0, 800, 600));
    assert_eq!(project_sprite(&c, &at(2 * ONE + HALF + 1000, 2 * ONE + HALF), 800, 600), rect(0, 0, 800, 600));
    // Very far.
    assert_eq!(project_sprite(&c, &at(200 * ONE, 2 * ONE + HALF + 300), 800, 600), rect(399, 299, 2, 2));
}

#[test]
fn sprite_behind_or_beside_the_camera_is_not_projected() {
    let c = camera();
    assert_eq!(project_sprite(&c, &at(ONE, 2 * ONE + HALF), 800, 600), None);
    assert_eq!(project_sprite(&c, &at(2 * ONE + HALF, 2 * ONE + HALF), 800, 600), None);
    assert_eq!(project_sprite(&c, &at(2 * ONE + HALF, 4 * ONE), 800, 600), None);
    assert_eq!(project_sprite(&c, &at(i32::MIN, i32::MAX), 800, 600), None);
}

#[test]
fn sprite_off_screen_is_not_projected() {
    let c = camera();
    assert_eq!(project_sprite(&c, &at(3 * ONE, 5 * ONE), 800, 600), None);
    assert_eq!(project_sprite(&c, &at(3 * ONE, 0), 800, 600), None);
    assert_eq!(project_sprite(&c, &at(2 * ONE + HALF + 1, 3 * ONE + HALF), 800, 600), None);
    let ahead = at(4 * ONE + HALF, 2 * ONE + HALF);
    assert_eq!(project_sprite(&c, &ahead, 0, 600), None);
    assert_eq!(project_sprite(&c, &ahead, 800, 0), None);
    assert_eq!(project_sprite(&c, &ahead, 1, 1), None);
}

#[test]
fn projection_works_at_the_limits() {
    let c = camera();
    let ahead = at(4 * ONE + HALF, 2 * ONE + HALF);
    assert_eq!(
        project_sprite(&c, &ahead, u32::MAX, u32::MAX),
        rect(1073741824, 1073741824, 2147483646, 2147483646)
    );
    let wild = Camera {
        x: i32::MIN,
        y: i32::MAX,
        dir_x: i32::MAX,
        dir_y: i32::MIN,
        plane_x: i32::MIN,
        plane_y: i32::MIN,
    };
    let _ = project_sprite(&wild, &at(i32::MAX, i32::MIN), u32::MAX, u32::MAX);
    assert_eq!(squared_distance(&wild, &at(i32::MAX, i32::MIN)), 2 * (u32::MAX as i128) * (u32::MAX as i128));
}

#[test]
fn singular_camera_sees_no_sprite() {
    let flat = Camera { x: 0, y: 0, dir_x: ONE, dir_y: 0, plane_x: ONE, plane_y: 0 };
    assert_eq!(project_sprite(&flat, &at(3 * ONE, ONE), 800, 600), None);
    let none = Camera { x: 0, y: 0, dir_x: 0, dir_y: 0, plane_x: 0, plane_y: 0 };
    assert_eq!(project_sprite(&none, &at(3 * ONE, ONE), 800, 600), None);
}

#[test]
fn slanted_camera_projects_exactly() {
    let c = Camera::facing(5 * ONE, 5 * ONE, -39322, 52429);
    assert_eq!(project_sprite(&c, &at(4 * ONE, 7 * ONE), 640, 480), rect(110, 131, 218, 218));
    assert_eq!(project_sprite(&c, &at(5 * ONE, 8 * ONE), 640, 480), rect(0, 140, 5, 200));
    assert_eq!(project_sprite(&c, &at(2 * ONE, 6 * ONE), 640, 480), rect(611, 148, 29, 184));
    assert_eq!(project_sprite(&c, &at(6 * ONE, 4 * ONE), 640, 480), None);
}

#[test]
fn squared_distance_is_exact() {
    let c = camera();
    assert_eq!(squared_distance(&c, &at(4 * ONE + HALF, 2 * ONE + HALF)), 17179869184);
    assert_eq!(squared_distance(&c, &at(4 * ONE + HALF, 3 * ONE + HALF)), 21474836480);
    assert_eq!(squared_distance(&c, &at(2 * ONE + HALF, 2 * ONE + HALF)), 0);
    assert_eq!(squared_distance(&c, &at(2 * ONE + HALF - 3, 2 * ONE + HALF + 4)), 25);
}

fn renderer(sprites: &[Sprite], textures: usize) -> SpriteRenderer {
    let mut r = SpriteRenderer::new();
    for _ in 0..textures {
        r.add_texture(TextureInfo { width: 32, height: 32 });
    }
    for s in sprites {
        r.add_sprite(*s);
    }
    r
}

#[test]
fn new_renderer_is_empty() {
    let r = SpriteRenderer::new();
    assert_eq!(r.sprite_count(), 0);
    assert_eq!(r.texture_count(), 0);
    assert_eq!(r.sprite(0), None);
    assert_eq!(r.draw_sprites(&camera(), 800, 600), vec![]);
}

#[test]
fn sprites_and_textures_are_kept_in_order() {
    let mut r = SpriteRenderer::new();
    r.add_texture(TextureInfo { width: 1, height: 2 });
    r.add_sprite(at(1, 2));
    r.add_sprite(Sprite { x: 3, y: 4, texture_index: 9 });
    r.add_texture(TextureInfo { width: 3, height: 4 });
    assert_eq!(r.sprite_count(), 2);
    assert_eq!(r.texture_count(), 2);
    assert_eq!(r.sprite(0), Some(at(1, 2)));
    assert_eq!(r.sprite(1), Some(Sprite { x: 3, y: 4, texture_index: 9 }));
    assert_eq!(r.sprite(2), None);
}

#[test]
fn far_sprites_are_painted_before_near_ones() {
    let near = at(3 * ONE, 2 * ONE + HALF);
    let far = at(10 * ONE + HALF, 2 * ONE + HALF);
    let middle = at(4 * ONE + HALF, 2 * ONE + HALF);
    let expected = vec![
        SpriteBlit { sprite: 1, texture_index: 0, rect: rect(363, 263, 74, 74).unwrap() },
        SpriteBlit { sprite: 2, texture_index: 0, rect: rect(250, 150, 300, 300).unwrap() },
        SpriteBlit { sprite: 0, texture_index: 0, rect: rect(0, 0, 800, 600).unwrap() },
    ];
    let r = renderer(&[near, far, middle], 1);
    assert_eq!(r.draw_sprites(&camera(), 800, 600), expected);
    // Whatever the order of addition, the far one comes first.
    for order in [[0, 1, 2], [0, 2, 1], [1, 0, 2], [1, 2, 0], [2, 0, 1], [2, 1, 0]] {
        let all = [near, far, middle];
        let sprites: Vec<Sprite> = order.iter().map(|&i| all[i]).collect();
        let blits = renderer(&sprites, 1).draw_sprites(&camera(), 800, 600);
        let drawn: Vec<Sprite> = blits.iter().map(|b| sprites[b.sprite]).collect();
        assert_eq!(drawn, vec![far, middle, near]);
    }
}

#[test]
fn sprites_behind_the_camera_are_never_drawn() {
    let behind = at(ONE, 2 * ONE + HALF);
    let beside = at(2 * ONE + HALF, 7 * ONE);
    let here = at(2 * ONE + HALF, 2 * ONE + HALF);
    let r = renderer(&[behind, beside, here], 1);
    assert_eq!(r.draw_sprites(&camera(), 800, 600), vec![]);
    let ahead = at(4 * ONE + HALF, 2 * ONE + HALF);
    let r = renderer(&[behind, ahead, beside, here], 1);
    let blits = r.draw_sprites(&camera(), 800, 600);
    assert_eq!(
        blits,
        vec![SpriteBlit { sprite: 1, texture_index: 0, rect: rect(250, 150, 300, 300).unwrap() }]
    );
    // Turned around, the camera sees the one that was behind it.
    let back = Camera::facing(2 * ONE + HALF, 2 * ONE + HALF, -ONE, 0);
    let blits = r.draw_sprites(&back, 800, 600);
    assert_eq!(blits.len(), 1);
    assert_eq!(blits[0].sprite, 0);
}

#[test]
fn equally_far_sprites_keep_their_order() {
    let left = at(4 * ONE + HALF, ONE + HALF);
    let right = at(4 * ONE + HALF, 3 * ONE + HALF);
    let blits = renderer(&[right, left], 1).draw_sprites(&camera(), 800, 600);
    assert_eq!(
        blits,
        vec![
            SpriteBlit { sprite: 0, texture_index: 0, rect: rect(596, 150, 204, 300).unwrap() },
            SpriteBlit { sprite: 1, texture_index: 0, rect: rect(0, 150, 203, 300).unwrap() },
        ]
    );
    let blits = renderer(&[left, right, left], 1).draw_sprites(&camera(), 800, 600);
    let order: Vec<usize> = blits.iter().map(|b| b.sprite).collect();
    assert_eq!(order, vec![0, 1, 2]);
}

#[test]
fn sprites_without_texture_or_off_screen_are_left_out() {
    let ahead = at(4 * ONE + HALF, 2 * ONE + HALF);
    let untextured = Sprite { x: 5 * ONE, y: 2 * ONE + HALF, texture_index: 2 };
    let textured = Sprite { x: 6 * ONE, y: 2 * ONE + HALF, texture_index: 1 };
    let off_screen = at(3 * ONE, 5 * ONE);
    let r = renderer(&[ahead, untextured, textured, off_screen], 2);
    let blits = r.draw_sprites(&camera(), 800, 600);
    let order: Vec<(usize, usize)> = blits.iter().map(|b| (b.sprite, b.texture_index)).collect();
    assert_eq!(order, vec![(2, 1), (0, 0)]);
    let r = renderer(&[ahead, untextured, textured, off_screen], 0);
    assert_eq!(r.draw_sprites(&camera(), 800, 600), vec![]);
}

#[test]
fn empty_cells_are_recognised() {
    let grid = TileGrid::from_text("015\n", 3, 1).unwrap();
    assert!(is_empty_cell(&grid, 0, 0));
    assert!(is_empty_cell(&grid, ONE - 1, ONE - 1));
    assert!(!is_empty_cell(&grid, ONE, 0));
    assert!(!is_empty_cell(&grid, 2 * ONE, 0));
    assert!(!is_empty_cell(&grid, 3 * ONE, 0));
    assert!(!is_empty_cell(&grid, 0, ONE));
    assert!(!is_empty_cell(&grid, -1, 0));
    assert!(!is_empty_cell(&grid, 0, -1));
    assert!(!is_empty_cell(&grid, i32::MIN, i32::MAX));
}

#[test]
fn samples_pick_positions_across_the_grid() {
    let grid = TileGrid::new(16, 16).unwrap();
    assert_eq!(sprite_from_samples(&grid, 0, 0, 1), Some(Sprite { x: 0, y: 0, texture_index: 1 }));
    assert_eq!(
        sprite_from_samples(&grid, 0x8000_0000, 0x4000_0000, 1),
        Some(Sprite { x: 8 * ONE, y: 4 * ONE, texture_index: 1 })
    );
    assert_eq!(
        sprite_from_samples(&grid, u32::MAX, u32::MAX, 3),
        Some(Sprite { x: 16 * ONE - 1, y: 16 * ONE - 1, texture_index: 3 })
    );
    assert_eq!(
        sprite_from_samples(&grid, 12345, 0xdead_beef, 0),
        Some(Sprite { x: 3, y: 912091, texture_index: 0 })
    );
    let wide = TileGrid::new(32768, 1).unwrap();
    assert_eq!(
        sprite_from_samples(&wide, u32::MAX, 0, 0),
        Some(Sprite { x: i32::MAX, y: 0, texture_index: 0 })
    );
}

#[test]
fn samples_in_occupied_cells_place_nothing() {
    let grid = TileGrid::from_text("01\n50\n", 2, 2).unwrap();
    assert!(sprite_from_samples(&grid, 0, 0, 0).is_some());
    assert_eq!(sprite_from_samples(&grid, 0x8000_0000, 0, 0), None);
    assert_eq!(sprite_from_samples(&grid, 0, 0x8000_0000, 0), None);
    assert!(sprite_from_samples(&grid, 0x8000_0000, 0x8000_0000, 0).is_some());
    let nothing = TileGrid::new(0, 0).unwrap();
    assert_eq!(sprite_from_samples(&nothing, 5, 5, 0), None);
}

#[test]
fn spawned_sprite_lies_in_an_empty_cell() {
    let grid = TileGrid::from_text("1111\n1001\n1111\n", 4, 3).unwrap();
    let mut r = SpriteRenderer::new();
    r.add_sprite(at(7, 7));
    let mut placed = false;
    for _ in 0..1000 {
        if r.spawn_sprite(&grid, 1, 50) {
            placed = true;
            break;
        }
    }
    assert!(placed);
    assert_eq!(r.sprite_count(), 2);
    assert_eq!(r.sprite(0), Some(at(7, 7)));
    let s = r.sprite(1).unwrap();
    assert_eq!(s.texture_index, 1);
    assert!(is_empty_cell(&grid, s.x, s.y));
    assert_eq!(s.y / ONE, 1);
    assert!(s.x / ONE == 1 || s.x / ONE == 2);
}

#[test]
fn spawning_gives_up_when_nothing_is_empty() {
    let grid = TileGrid::from_text("11\n15\n", 2, 2).unwrap();
    let mut r = SpriteRenderer::new();
    assert!(!r.spawn_sprite(&grid, 0, 200));
    assert_eq!(r.sprite_count(), 0);
    let open = TileGrid::new(4, 4).unwrap();
    assert!(!r.spawn_sprite(&open, 0, 0));
    assert_eq!(r.sprite_count(), 0);
    assert!(r.spawn_sprite(&open, 0, 1));
    assert_eq!(r.sprite_count(), 1);
}

#[test]
fn spawning_on_an_open_grid_succeeds_at_once() {
    let open = TileGrid::new(16, 16).unwrap();
    let mut r = SpriteRenderer::new();
    for n in 0..200 {
        assert!(r.spawn_sprite(&open, 1, 1));
        assert_eq!(r.sprite_count(), n + 1);
        let s = r.sprite(n).unwrap();
        assert_eq!(s.texture_index, 1);
        assert!(is_empty_cell(&open, s.x, s.y));
        assert!(0 <= s.x && s.x < 16 * ONE && 0 <= s.y && s.y < 16 * ONE);
    }
}

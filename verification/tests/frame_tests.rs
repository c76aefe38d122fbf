use maze_raycaster::caster::{render_scene, ColumnRay};
use maze_raycaster::fixed::{HALF, ONE};
use maze_raycaster::frame::assemble_frame;
use maze_raycaster::framebuffer::{draw_background, draw_minimap, TextureInfo};
use maze_raycaster::maze::TileGrid;
use maze_raycaster::player::Player;
use maze_raycaster::sprite::{Camera, Sprite, SpriteRenderer};

#[test]
fn frame_holds_every_layer() {
    let grid = TileGrid::from_text("11111\n10001\n10501\n10001\n11111\n", 5, 5).unwrap();
    let player = Player { x: ONE + HALF, y: 2 * ONE + HALF, dir_angle: 0 };
    let textures = vec![TextureInfo { width: 64, height: 64 }];
    let rays = vec![
        ColumnRay { dir_x: 56756, dir_y: -32768, cos_offset: 56756 },
        ColumnRay { dir_x: ONE, dir_y: 0, cos_offset: ONE },
        ColumnRay { dir_x: 56756, dir_y: 32768, cos_offset: 56756 },
    ];
    let mut renderer = SpriteRenderer::new();
    renderer.add_texture(TextureInfo { width: 16, height: 16 });
    renderer.add_sprite(Sprite { x: 3 * ONE + HALF, y: 2 * ONE + HALF, texture_index: 0 });
    renderer.add_sprite(Sprite { x: 2 * ONE + HALF, y: 2 * ONE + HALF, texture_index: 0 });
    let frame = assemble_frame(&grid, &player, ONE, 0, &rays, &textures, &renderer, 3, 200);
    assert_eq!(frame.background, draw_background(3, 200));
    assert_eq!(frame.walls, render_scene(&grid, &player, &rays, &textures, 200));
    assert_eq!(frame.walls.len(), 3);
    // Straight ahead the goal is looked through to the wall 2.5 cells away.
    let middle = frame.walls[1].unwrap();
    assert_eq!((middle.y_start, middle.y_end), (60, 140));
    let camera = Camera::facing(player.x, player.y, ONE, 0);
    assert_eq!(frame.sprites, renderer.draw_sprites(&camera, 3, 200));
    let order: Vec<usize> = frame.sprites.iter().map(|b| b.sprite).collect();
    assert_eq!(order, vec![0, 1]);
    assert_eq!(frame.overlay, draw_minimap(&grid, &player, ONE, 0, 3));
    assert_eq!(frame.overlay.len(), 1 + 25 + 1 + 2);
}

//! The frame assembler: everything that one frame shows, in the order in
//! which it is drawn.

use vstd::prelude::*;
use crate::caster::{column_strip, render_scene, ColumnRay, WallStrip};
use crate::framebuffer::{
    draw_background, draw_minimap, floor_fill, minimap, sky_fill, Fill, Shape, TextureInfo,
};
use crate::maze::TileGrid;
use crate::player::Player;
use crate::sprite::{camera_at, is_composite, Camera, SpriteBlit, SpriteRenderer};

verus! {

/// One frame, layer by layer. A layer is drawn over those before it.
pub struct Frame {
    /// The sky and the floor.
    pub background: (Fill, Fill),
    /// For each screen column its strip of wall, if it has one.
    pub walls: Vec<Option<WallStrip>>,
    /// The sprites, from the farthest to the nearest.
    pub sprites: Vec<SpriteBlit>,
    /// The map overlay.
    pub overlay: Vec<Shape>,
}

/// Lays out one frame for a screen of `screen_width` columns and
/// `screen_height` rows.
///
/// The player looks along `(dir_x, dir_y)`. There is one ray per column of
/// wall to be drawn: column `i` is seen along `rays[i]`. Neither the grid
/// nor the player nor the sprites are changed.
pub fn assemble_frame(
    grid: &TileGrid,
    player: &Player,
    dir_x: i32,
    dir_y: i32,
    rays: &[ColumnRay],
    wall_textures: &[TextureInfo],
    sprites: &SpriteRenderer,
    screen_width: u32,
    screen_height: u32,
) -> (frame: Frame)
    requires
        grid.wf(),
    ensures
        frame.background.0 == sky_fill(screen_width, screen_height),
        frame.background.1 == floor_fill(screen_width, screen_height),
        frame.walls@.len() == rays@.len(),
        forall|i: int|
            0 <= i < rays@.len() ==> #[trigger] frame.walls@[i] == column_strip(
                grid,
                player.x,
                player.y,
                rays@[i],
                i as usize,
                screen_height,
                wall_textures@,
            ),
        is_composite(
            camera_at(player.x, player.y, dir_x, dir_y),
            sprites@.sprites,
            sprites@.textures.len(),
            screen_width,
            screen_height,
            frame.sprites@,
        ),
        frame.overlay@ == minimap(grid, *player, dir_x, dir_y, screen_width),
{
    let camera: Camera = Camera::facing(player.x, player.y, dir_x, dir_y);
    Frame {
        background: draw_background(screen_width, screen_height),
        walls: render_scene(grid, player, rays, wall_textures, screen_height),
        sprites: sprites.draw_sprites(&camera, screen_width, screen_height),
        overlay: draw_minimap(grid, player, dir_x, dir_y, screen_width),
    }
}

} // verus!

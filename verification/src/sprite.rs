//! The sprite compositor: point sprites projected through the camera and
//! painted back to front.

use vstd::prelude::*;
use crate::fixed::{
    abs, cell_index, cell_of, clamp_i32, floor_div, lemma_product_bound, lemma_quotient_bound,
    trunc_div, truncating_div, ONE,
};
use crate::framebuffer::{ScreenRect, TextureInfo};
use crate::maze::{TileGrid, EMPTY};

verus! {

/// A point in the world that shows a texture.
#[derive(Clone, Copy, Debug, PartialEq, Eq, Structural)]
pub struct Sprite {
    pub x: i32,
    pub y: i32,
    pub texture_index: usize,
}

/// The camera of one frame: its position, the direction it faces and the
/// view plane, all in 16.16 fixed point.
#[derive(Clone, Copy, Debug)]
pub struct Camera {
    pub x: i32,
    pub y: i32,
    pub dir_x: i32,
    pub dir_y: i32,
    pub plane_x: i32,
    pub plane_y: i32,
}

/// One sprite to be copied to the screen.
#[derive(Clone, Copy, Debug, PartialEq, Eq, Structural)]
pub struct SpriteBlit {
    /// Which sprite of the renderer this is.
    pub sprite: usize,
    /// The texture to copy, whole.
    pub texture_index: usize,
    /// Where it goes, clipped to the screen.
    pub rect: ScreenRect,
}

impl Camera {
    /// Determinant of the camera basis, scaled by `ONE * ONE`. The camera
    /// coordinates of a point are quotients by it.
    pub open spec fn det(self) -> int {
        self.plane_x * self.dir_y - self.dir_x * self.plane_y
    }

    /// Numerator of the sprite's sideways camera coordinate.
    pub open spec fn lateral(self, s: Sprite) -> int {
        self.dir_y * (s.x - self.x) - self.dir_x * (s.y - self.y)
    }

    /// Numerator of the sprite's depth.
    pub open spec fn forward(self, s: Sprite) -> int {
        self.plane_x * (s.y - self.y) - self.plane_y * (s.x - self.x)
    }

    /// Whether the sprite's depth `forward / det` is positive. No sprite is
    /// in front of a camera whose basis is singular.
    pub open spec fn in_front(self, s: Sprite) -> bool {
        (self.det() > 0 && self.forward(s) > 0) || (self.det() < 0 && self.forward(s) < 0)
    }

    /// Square of the distance from the camera to the sprite, scaled by
    /// `ONE * ONE`.
    pub open spec fn squared_distance(self, s: Sprite) -> int {
        (s.x - self.x) * (s.x - self.x) + (s.y - self.y) * (s.y - self.y)
    }

    /// Screen column of the sprite's centre, for a sprite in front:
    /// `(width / 2) * (1 + lateral / forward)`, computed exactly, rounded
    /// toward zero and limited to `i32`.
    pub open spec fn screen_x(self, s: Sprite, width: u32) -> int {
        let depth = abs(self.forward(s));
        let side = if self.det() > 0 {
            self.lateral(s)
        } else {
            -self.lateral(s)
        };
        clamp_i32(trunc_div(width * (depth + side), 2 * depth))
    }

    /// Width and height of the sprite on screen, for a sprite in front:
    /// `height / depth`, rounded down and limited to `i32`.
    pub open spec fn screen_size(self, s: Sprite, height: u32) -> int {
        clamp_i32((height * abs(self.det())) / abs(self.forward(s)))
    }
}

/// The larger of two integers.
pub open spec fn max(a: int, b: int) -> int {
    if a >= b {
        a
    } else {
        b
    }
}

/// The smaller of two integers.
pub open spec fn min(a: int, b: int) -> int {
    if a <= b {
        a
    } else {
        b
    }
}

/// The part of the screen that a sprite covers: a square around its screen
/// column, centred vertically, cut down to the screen. `None` for a sprite
/// that is not in front of the camera or that lies wholly off screen.
#[verifier::opaque]
pub open spec fn sprite_rect(camera: Camera, s: Sprite, width: u32, height: u32) -> Option<
    ScreenRect,
> {
    if !camera.in_front(s) {
        None
    } else {
        let half = camera.screen_size(s, height) / 2;
        let centre = camera.screen_x(s, width);
        let left = max(centre - half, 0);
        let right = min(centre + half, width as int);
        let top = max(height / 2 - half, 0);
        let bottom = min(height / 2 + half, height as int);
        if left < right && top < bottom {
            Some(
                ScreenRect {
                    x: left as i32,
                    y: top as i32,
                    width: (right - left) as u32,
                    height: (bottom - top) as u32,
                },
            )
        } else {
            None
        }
    }
}

/// The blit that sprite number `index` gives rise to, if any: it needs a
/// texture that exists and a place on the screen.
pub open spec fn blit_of(
    camera: Camera,
    s: Sprite,
    index: int,
    texture_count: nat,
    width: u32,
    height: u32,
) -> Option<SpriteBlit> {
    match sprite_rect(camera, s, width, height) {
        Some(rect) if s.texture_index < texture_count => Some(
            SpriteBlit { sprite: index as usize, texture_index: s.texture_index, rect },
        ),
        _ => None,
    }
}

/// The painter's order: of two sprites the farther is painted first, and of
/// two equally far the one that was added first.
pub open spec fn paints_before(camera: Camera, sprites: Seq<Sprite>, i: int, j: int) -> bool {
    let di = camera.squared_distance(sprites[i]);
    let dj = camera.squared_distance(sprites[j]);
    di > dj || (di == dj && i < j)
}

/// Whether `blits` is the composite of `sprites`: it holds the blit of each
/// sprite that has one, once, and nothing else, in the painter's order.
pub open spec fn is_composite(
    camera: Camera,
    sprites: Seq<Sprite>,
    texture_count: nat,
    width: u32,
    height: u32,
    blits: Seq<SpriteBlit>,
) -> bool {
    &&& forall|i: int|
        0 <= i < blits.len() ==> (#[trigger] blits[i]).sprite < sprites.len() && blit_of(
            camera,
            sprites[blits[i].sprite as int],
            blits[i].sprite as int,
            texture_count,
            width,
            height,
        ) == Some(blits[i])
    &&& forall|j: int|
        0 <= j < sprites.len() && blit_of(
            camera,
            #[trigger] sprites[j],
            j,
            texture_count,
            width,
            height,
        ) is Some ==> exists|i: int| 0 <= i < blits.len() && (#[trigger] blits[i]).sprite == j
    &&& forall|a: int, b: int|
        0 <= a < b < blits.len() ==> paints_before(
            camera,
            sprites,
            (#[trigger] blits[a]).sprite as int,
            (#[trigger] blits[b]).sprite as int,
        )
}

/// Painter's invariant: of two sprites that both have a blit, the farther
/// one is blitted before the nearer one.
pub proof fn lemma_far_before_near(
    camera: Camera,
    sprites: Seq<Sprite>,
    texture_count: nat,
    width: u32,
    height: u32,
    blits: Seq<SpriteBlit>,
    near: int,
    far: int,
) -> (at: (int, int))
    requires
        is_composite(camera, sprites, texture_count, width, height, blits),
        0 <= near < sprites.len(),
        0 <= far < sprites.len(),
        blit_of(camera, sprites[near], near, texture_count, width, height) is Some,
        blit_of(camera, sprites[far], far, texture_count, width, height) is Some,
        camera.squared_distance(sprites[far]) > camera.squared_distance(sprites[near]),
    ensures
        0 <= at.0 < at.1 < blits.len(),
        blits[at.0].sprite == far,
        blits[at.1].sprite == near,
{
    let first = choose|i: int| 0 <= i < blits.len() && (#[trigger] blits[i]).sprite == far;
    let second = choose|i: int| 0 <= i < blits.len() && (#[trigger] blits[i]).sprite == near;
    if second < first {
        assert(paints_before(
            camera,
            sprites,
            blits[second].sprite as int,
            blits[first].sprite as int,
        ));
    }
    (first, second)
}

/// A sprite that is not in front of the camera is never blitted.
pub proof fn lemma_behind_never_drawn(
    camera: Camera,
    sprites: Seq<Sprite>,
    texture_count: nat,
    width: u32,
    height: u32,
    blits: Seq<SpriteBlit>,
    i: int,
)
    requires
        is_composite(camera, sprites, texture_count, width, height, blits),
        0 <= i < blits.len(),
    ensures
        blits[i].sprite < sprites.len(),
        camera.in_front(sprites[blits[i].sprite as int]),
{
    reveal(sprite_rect);
}

proof fn lemma_composite_prefix(
    camera: Camera,
    sprites: Seq<Sprite>,
    texture_count: nat,
    width: u32,
    height: u32,
    a: Seq<SpriteBlit>,
    b: Seq<SpriteBlit>,
    n: nat,
)
    requires
        is_composite(camera, sprites, texture_count, width, height, a),
        is_composite(camera, sprites, texture_count, width, height, b),
        n <= a.len(),
    ensures
        n <= b.len(),
        forall|i: int| 0 <= i < n ==> a[i] == b[i],
    decreases n,
{
    if n > 0 {
        lemma_composite_prefix(camera, sprites, texture_count, width, height, a, b, (n - 1) as nat);
        let i = n - 1;
        let sa = a[i].sprite as int;
        assert(blit_of(camera, sprites[sa], sa, texture_count, width, height) == Some(a[i]));
        let p = choose|p: int| 0 <= p < b.len() && (#[trigger] b[p]).sprite == sa;
        if p < i {
            assert(a[p] == b[p]);
            assert(paints_before(camera, sprites, a[p].sprite as int, a[i].sprite as int));
        }
        let sb = b[i].sprite as int;
        assert(blit_of(camera, sprites[sb], sb, texture_count, width, height) == Some(b[i]));
        let q = choose|q: int| 0 <= q < a.len() && (#[trigger] a[q]).sprite == sb;
        if q < i {
            assert(a[q] == b[q]);
            assert(paints_before(camera, sprites, b[q].sprite as int, b[i].sprite as int));
        }
        if p > i && q > i {
            assert(paints_before(camera, sprites, b[i].sprite as int, b[p].sprite as int));
            assert(paints_before(camera, sprites, a[i].sprite as int, a[q].sprite as int));
        }
        assert(sa == sb);
    }
}

/// There is one composite: two sequences of blits that both are the
/// composite of the same sprites under the same camera are equal.
pub proof fn lemma_composite_unique(
    camera: Camera,
    sprites: Seq<Sprite>,
    texture_count: nat,
    width: u32,
    height: u32,
    a: Seq<SpriteBlit>,
    b: Seq<SpriteBlit>,
)
    requires
        is_composite(camera, sprites, texture_count, width, height, a),
        is_composite(camera, sprites, texture_count, width, height, b),
    ensures
        a == b,
{
    lemma_composite_prefix(camera, sprites, texture_count, width, height, a, b, a.len());
    lemma_composite_prefix(camera, sprites, texture_count, width, height, b, a, b.len());
    assert(a =~= b);
}

/// A composite stays one when a sprite without a blit is added behind the
/// others.
proof fn lemma_composite_skip(
    camera: Camera,
    sprites: Seq<Sprite>,
    texture_count: nat,
    width: u32,
    height: u32,
    blits: Seq<SpriteBlit>,
)
    requires
        sprites.len() > 0,
        is_composite(camera, sprites.drop_last(), texture_count, width, height, blits),
        blit_of(camera, sprites.last(), sprites.len() - 1, texture_count, width, height) is None,
    ensures
        is_composite(camera, sprites, texture_count, width, height, blits),
{
    let front = sprites.drop_last();
    assert forall|i: int| 0 <= i < blits.len() implies (#[trigger] blits[i]).sprite < sprites.len()
        && blit_of(
        camera,
        sprites[blits[i].sprite as int],
        blits[i].sprite as int,
        texture_count,
        width,
        height,
    ) == Some(blits[i]) by {
        assert(front[blits[i].sprite as int] == sprites[blits[i].sprite as int]);
    }
    assert forall|j: int|
        0 <= j < sprites.len() && blit_of(
            camera,
            #[trigger] sprites[j],
            j,
            texture_count,
            width,
            height,
        ) is Some implies exists|i: int| 0 <= i < blits.len() && (#[trigger] blits[i]).sprite == j by {
        assert(j < front.len());
        assert(front[j] == sprites[j]);
    }
    assert forall|a: int, b: int| 0 <= a < b < blits.len() implies paints_before(
        camera,
        sprites,
        (#[trigger] blits[a]).sprite as int,
        (#[trigger] blits[b]).sprite as int,
    ) by {
        assert(paints_before(camera, front, blits[a].sprite as int, blits[b].sprite as int));
        assert(front[blits[a].sprite as int] == sprites[blits[a].sprite as int]);
        assert(front[blits[b].sprite as int] == sprites[blits[b].sprite as int]);
    }
}

/// A composite stays one when a sprite is added behind the others and its
/// blit is put after the blits of all sprites that are at least as far and
/// before the blits of all nearer ones.
proof fn lemma_composite_insert(
    camera: Camera,
    sprites: Seq<Sprite>,
    texture_count: nat,
    width: u32,
    height: u32,
    blits: Seq<SpriteBlit>,
    at: int,
    blit: SpriteBlit,
)
    requires
        0 < sprites.len() <= usize::MAX,
        is_composite(camera, sprites.drop_last(), texture_count, width, height, blits),
        blit_of(camera, sprites.last(), sprites.len() - 1, texture_count, width, height) == Some(
            blit,
        ),
        0 <= at <= blits.len(),
        forall|q: int|
            0 <= q < at ==> camera.squared_distance(sprites[(#[trigger] blits[q]).sprite as int])
                >= camera.squared_distance(sprites.last()),
        at < blits.len() ==> camera.squared_distance(sprites[blits[at].sprite as int])
            < camera.squared_distance(sprites.last()),
    ensures
        is_composite(camera, sprites, texture_count, width, height, blits.insert(at, blit)),
{
    let front = sprites.drop_last();
    let newest = sprites.len() - 1;
    let after = blits.insert(at, blit);
    assert forall|i: int| 0 <= i < blits.len() implies (#[trigger] blits[i]).sprite < newest
        && front[blits[i].sprite as int] == sprites[blits[i].sprite as int] by {}
    assert forall|i: int| 0 <= i < after.len() implies (#[trigger] after[i]).sprite < sprites.len()
        && blit_of(
        camera,
        sprites[after[i].sprite as int],
        after[i].sprite as int,
        texture_count,
        width,
        height,
    ) == Some(after[i]) by {
        if i < at {
            assert(after[i] == blits[i]);
        } else if i > at {
            assert(after[i] == blits[i - 1]);
        }
    }
    assert forall|j: int|
        0 <= j < sprites.len() && blit_of(
            camera,
            #[trigger] sprites[j],
            j,
            texture_count,
            width,
            height,
        ) is Some implies exists|i: int| 0 <= i < after.len() && (#[trigger] after[i]).sprite == j by {
        if j == newest {
            assert(after[at].sprite == j);
        } else {
            assert(front[j] == sprites[j]);
            let i0 = choose|i: int| 0 <= i < blits.len() && (#[trigger] blits[i]).sprite == j;
            if i0 < at {
                assert(after[i0] == blits[i0]);
            } else {
                assert(after[i0 + 1] == blits[i0]);
            }
        }
    }
    assert forall|a: int, b: int| 0 <= a < b < after.len() implies paints_before(
        camera,
        sprites,
        (#[trigger] after[a]).sprite as int,
        (#[trigger] after[b]).sprite as int,
    ) by {
        let ia = if a < at { a } else { a - 1 };
        let ib = if b < at { b } else { b - 1 };
        if a != at {
            assert(after[a] == blits[ia]);
        }
        if b != at {
            assert(after[b] == blits[ib]);
        }
        if a == at {
            if ib > at {
                assert(paints_before(
                    camera,
                    front,
                    blits[at].sprite as int,
                    blits[ib].sprite as int,
                ));
            }
        } else if b == at {
            assert(blits[ia].sprite < newest);
        } else {
            assert(paints_before(camera, front, blits[ia].sprite as int, blits[ib].sprite as int));
        }
    }
}

/// Computes the square of the distance from the camera to a sprite.
pub fn squared_distance(camera: &Camera, sprite: &Sprite) -> (d: i128)
    ensures
        d == camera.squared_distance(*sprite),
        d >= 0,
{
    let rx: i128 = sprite.x as i128 - camera.x as i128;
    let ry: i128 = sprite.y as i128 - camera.y as i128;
    proof {
        lemma_product_bound(rx as int, rx as int, 0x1_0000_0000, 0x1_0000_0000);
        lemma_product_bound(ry as int, ry as int, 0x1_0000_0000, 0x1_0000_0000);
        assert(rx * rx >= 0) by (nonlinear_arith);
        assert(ry * ry >= 0) by (nonlinear_arith);
    }
    rx * rx + ry * ry
}

/// Projects a sprite onto the screen.
pub fn project_sprite(camera: &Camera, sprite: &Sprite, width: u32, height: u32) -> (rect: Option<
    ScreenRect,
>)
    ensures
        rect == sprite_rect(*camera, *sprite, width, height),
{
    reveal(sprite_rect);
    let rx: i128 = sprite.x as i128 - camera.x as i128;
    let ry: i128 = sprite.y as i128 - camera.y as i128;
    let dir_x: i128 = camera.dir_x as i128;
    let dir_y: i128 = camera.dir_y as i128;
    let plane_x: i128 = camera.plane_x as i128;
    let plane_y: i128 = camera.plane_y as i128;
    proof {
        lemma_product_bound(plane_x as int, dir_y as int, 0x8000_0000, 0x8000_0000);
        lemma_product_bound(dir_x as int, plane_y as int, 0x8000_0000, 0x8000_0000);
        lemma_product_bound(dir_y as int, rx as int, 0x8000_0000, 0x1_0000_0000);
        lemma_product_bound(dir_x as int, ry as int, 0x8000_0000, 0x1_0000_0000);
        lemma_product_bound(plane_x as int, ry as int, 0x8000_0000, 0x1_0000_0000);
        lemma_product_bound(plane_y as int, rx as int, 0x8000_0000, 0x1_0000_0000);
    }
    let det: i128 = plane_x * dir_y - dir_x * plane_y;
    let lateral: i128 = dir_y * rx - dir_x * ry;
    let forward: i128 = plane_x * ry - plane_y * rx;
    assert(det == camera.det());
    assert(lateral == camera.lateral(*sprite));
    assert(forward == camera.forward(*sprite));
    if det == 0 || (det > 0 && forward <= 0) || (det < 0 && forward >= 0) {
        return None;
    }
    let depth: i128 = if forward < 0 { -forward } else { forward };
    let side: i128 = if det > 0 { lateral } else { -lateral };
    let scale: i128 = if det < 0 { -det } else { det };
    proof {
        lemma_product_bound(
            width as int,
            depth + side,
            0x1_0000_0000,
            0x3_0000_0000_0000_0000,
        );
        lemma_product_bound(
            height as int,
            scale as int,
            0x1_0000_0000,
            0x8000_0000_0000_0000,
        );
        assert(height * scale >= 0) by (nonlinear_arith)
            requires
                height >= 0,
                scale >= 0,
        ;
        lemma_quotient_bound(height * scale, depth as int);
    }
    let centre_exact: i128 = truncating_div(width as i128 * (depth + side), 2 * depth);
    let centre: i64 = if centre_exact < -2147483648 {
        -2147483648
    } else if centre_exact > 2147483647 {
        2147483647
    } else {
        centre_exact as i64
    };
    let size_exact: i128 = (height as i128 * scale) / depth;
    let size: i64 = if size_exact > 2147483647 {
        2147483647
    } else {
        size_exact as i64
    };
    assert(centre == camera.screen_x(*sprite, width));
    assert(size == camera.screen_size(*sprite, height));
    let half: i64 = size / 2;
    let middle: i64 = (height / 2) as i64;
    let left: i64 = if centre - half > 0 { centre - half } else { 0 };
    let right: i64 = if centre + half < width as i64 { centre + half } else { width as i64 };
    let top: i64 = if middle - half > 0 { middle - half } else { 0 };
    let bottom: i64 = if middle + half < height as i64 { middle + half } else { height as i64 };
    if left < right && top < bottom {
        Some(
            ScreenRect {
                x: left as i32,
                y: top as i32,
                width: (right - left) as u32,
                height: (bottom - top) as u32,
            },
        )
    } else {
        None
    }
}

/// What a sprite renderer holds: the textures and the sprites, each in the
/// order in which they were added.
pub struct SpriteRendererView {
    pub textures: Seq<TextureInfo>,
    pub sprites: Seq<Sprite>,
}

/// The sprites of a session and the textures they show.
pub struct SpriteRenderer {
    textures: Vec<TextureInfo>,
    sprites: Vec<Sprite>,
}

impl View for SpriteRenderer {
    type V = SpriteRendererView;

    closed spec fn view(&self) -> SpriteRendererView {
        SpriteRendererView { textures: self.textures@, sprites: self.sprites@ }
    }
}

impl SpriteRenderer {
    /// A renderer without textures or sprites.
    pub fn new() -> (renderer: SpriteRenderer)
        ensures
            renderer@.textures == Seq::<TextureInfo>::empty(),
            renderer@.sprites == Seq::<Sprite>::empty(),
    {
        SpriteRenderer { textures: Vec::new(), sprites: Vec::new() }
    }

    /// Adds a texture; it gets the next free texture index.
    pub fn add_texture(&mut self, texture: TextureInfo)
        ensures
            final(self)@.textures == old(self)@.textures.push(texture),
            final(self)@.sprites == old(self)@.sprites,
    {
        self.textures.push(texture);
    }

    /// Adds a sprite behind those already there.
    pub fn add_sprite(&mut self, sprite: Sprite)
        ensures
            final(self)@.sprites == old(self)@.sprites.push(sprite),
            final(self)@.textures == old(self)@.textures,
    {
        self.sprites.push(sprite);
    }

    /// Number of sprites.
    pub fn sprite_count(&self) -> (n: usize)
        ensures
            n == self@.sprites.len(),
    {
        self.sprites.len()
    }

    /// The sprite with the given number, counting from zero in the order
    /// of addition.
    pub fn sprite(&self, index: usize) -> (sprite: Option<Sprite>)
        ensures
            sprite == if index < self@.sprites.len() {
                Some(self@.sprites[index as int])
            } else {
                None
            },
    {
        if index < self.sprites.len() {
            Some(self.sprites[index])
        } else {
            None
        }
    }

    /// Number of textures.
    pub fn texture_count(&self) -> (n: usize)
        ensures
            n == self@.textures.len(),
    {
        self.textures.len()
    }

    /// The blits of one frame, in the order in which they are to be made.
    ///
    /// A sprite is drawn if it is in front of the camera, its texture exists
    /// and its square meets the screen. The sprites drawn are ordered from
    /// the farthest to the nearest, so that a nearer one is painted over a
    /// farther one. Walls play no part: a sprite behind a wall is drawn too.
    pub fn draw_sprites(&self, camera: &Camera, screen_width: u32, screen_height: u32) -> (blits:
        Vec<SpriteBlit>)
        ensures
            is_composite(
                *camera,
                self@.sprites,
                self@.textures.len(),
                screen_width,
                screen_height,
                blits@,
            ),
    {
        let ghost sprites = self.sprites@;
        let ghost count = self.textures@.len();
        let mut blits: Vec<SpriteBlit> = Vec::new();
        let mut j: usize = 0;
        while j < self.sprites.len()
            invariant
                j <= self.sprites.len(),
                sprites == self.sprites@,
                count == self.textures@.len(),
                is_composite(
                    *camera,
                    sprites.take(j as int),
                    count,
                    screen_width,
                    screen_height,
                    blits@,
                ),
            decreases self.sprites.len() - j,
        {
            let sprite: Sprite = self.sprites[j];
            let projected = project_sprite(camera, &sprite, screen_width, screen_height);
            let ghost seen = sprites.take(j + 1);
            proof {
                assert(seen.drop_last() =~= sprites.take(j as int));
                assert(seen.last() == sprite);
            }
            let drawn: Option<SpriteBlit> = match projected {
                Some(rect) => {
                    if sprite.texture_index < self.textures.len() {
                        Some(SpriteBlit { sprite: j, texture_index: sprite.texture_index, rect })
                    } else {
                        None
                    }
                },
                None => None,
            };
            assert(drawn == blit_of(*camera, sprite, j as int, count, screen_width, screen_height));
            match drawn {
                Some(blit) => {
                    let distance: i128 = squared_distance(camera, &sprite);
                    let ghost before = blits@;
                    let mut at: usize = 0;
                    while at < blits.len() && squared_distance(
                        camera,
                        &self.sprites[blits[at].sprite],
                    ) >= distance
                        invariant
                            at <= blits@.len(),
                            blits@ == before,
                            sprites == self.sprites@,
                            j < sprites.len(),
                            distance == camera.squared_distance(sprites[j as int]),
                            forall|i: int|
                                0 <= i < blits@.len() ==> (#[trigger] blits@[i]).sprite < j,
                            forall|q: int|
                                0 <= q < at ==> camera.squared_distance(
                                    sprites[(#[trigger] blits@[q]).sprite as int],
                                ) >= distance,
                        decreases blits@.len() - at,
                    {
                        at += 1;
                    }
                    blits.insert(at, blit);
                    proof {
                        lemma_composite_insert(
                            *camera,
                            seen,
                            count,
                            screen_width,
                            screen_height,
                            before,
                            at as int,
                            blit,
                        );
                    }
                },
                None => {
                    proof {
                        lemma_composite_skip(
                            *camera,
                            seen,
                            count,
                            screen_width,
                            screen_height,
                            blits@,
                        );
                    }
                },
            }
            j += 1;
        }
        proof {
            assert(sprites.take(j as int) =~= sprites);
        }
        blits
    }
}

/// Tangent of half the field of view, which is a sixth of a turn: the
/// length of the view plane vector for a facing direction of length one.
pub const TAN_HALF_FOV: i32 = 37837;

/// One component of the view plane: `component` times `TAN_HALF_FOV`,
/// rounded down.
pub open spec fn plane_component(component: int) -> int {
    (component * TAN_HALF_FOV) / (ONE as int)
}

/// The camera at `(x, y)` that faces along `(dir_x, dir_y)`. Its view plane
/// is the facing direction turned by a quarter turn and scaled by
/// `TAN_HALF_FOV`.
pub open spec fn camera_at(x: i32, y: i32, dir_x: i32, dir_y: i32) -> Camera {
    Camera {
        x,
        y,
        dir_x,
        dir_y,
        plane_x: plane_component(-(dir_y as int)) as i32,
        plane_y: plane_component(dir_x as int) as i32,
    }
}

impl Camera {
    /// Sets up the camera at `(x, y)` that faces along `(dir_x, dir_y)`.
    pub fn facing(x: i32, y: i32, dir_x: i32, dir_y: i32) -> (camera: Camera)
        ensures
            camera == camera_at(x, y, dir_x, dir_y),
            camera.plane_x == plane_component(-(dir_y as int)),
            camera.plane_y == plane_component(dir_x as int),
    {
        proof {
            lemma_product_bound(-(dir_y as int), 37837, 0x8000_0000, 37837);
            lemma_product_bound(dir_x as int, 37837, 0x8000_0000, 37837);
        }
        let plane_x: i128 = floor_div(-(dir_y as i128) * 37837, 65536);
        let plane_y: i128 = floor_div(dir_x as i128 * 37837, 65536);
        Camera { x, y, dir_x, dir_y, plane_x: plane_x as i32, plane_y: plane_y as i32 }
    }
}

/// Whether the position `(x, y)` lies in an empty cell of the grid.
pub open spec fn empty_at(grid: &TileGrid, x: int, y: int) -> bool {
    grid.in_bounds(cell_of(x), cell_of(y)) && grid.code(cell_of(x), cell_of(y)) == EMPTY
}

/// Whether the position `(x, y)` lies in an empty cell of the grid. A
/// position outside the grid is in no cell, so not in an empty one.
pub fn is_empty_cell(grid: &TileGrid, x: i32, y: i32) -> (b: bool)
    requires
        grid.wf(),
    ensures
        b == empty_at(grid, x as int, y as int),
{
    match grid.cell_at(cell_index(x) as i64, cell_index(y) as i64) {
        Some(code) => code == EMPTY,
        None => false,
    }
}

/// The coordinate that a random word picks on an axis of `cells` cells:
/// the word, read as a fraction of `2^32`, times the length of the axis.
pub open spec fn sample_coordinate(word: u32, cells: usize) -> int {
    (word * cells) / (ONE as int)
}

/// The sprite that two random words place on the grid: at the position
/// they pick, if that is in an empty cell.
pub open spec fn sprite_at_samples(
    grid: &TileGrid,
    word_x: u32,
    word_y: u32,
    texture_index: usize,
) -> Option<Sprite> {
    let x = sample_coordinate(word_x, grid.spec_width());
    let y = sample_coordinate(word_y, grid.spec_height());
    if empty_at(grid, x, y) {
        Some(Sprite { x: x as i32, y: y as i32, texture_index })
    } else {
        None
    }
}

/// Computes `sprite_at_samples`.
pub fn sprite_from_samples(grid: &TileGrid, word_x: u32, word_y: u32, texture_index: usize) -> (sprite:
    Option<Sprite>)
    requires
        grid.wf(),
    ensures
        sprite == sprite_at_samples(grid, word_x, word_y, texture_index),
        sprite matches Some(s) ==> s.texture_index == texture_index && empty_at(
            grid,
            s.x as int,
            s.y as int,
        ),
{
    proof {
        grid.lemma_shape();
        lemma_product_bound(word_x as int, grid.spec_width() as int, 0xffff_ffff, 32768);
        lemma_product_bound(word_y as int, grid.spec_height() as int, 0xffff_ffff, 32768);
        assert(word_x * grid.spec_width() >= 0) by (nonlinear_arith)
            requires
                word_x >= 0,
                grid.spec_width() >= 0,
        ;
        assert(word_y * grid.spec_height() >= 0) by (nonlinear_arith)
            requires
                word_y >= 0,
                grid.spec_height() >= 0,
        ;
    }
    let x: u64 = (word_x as u64 * grid.width() as u64) / 65536;
    let y: u64 = (word_y as u64 * grid.height() as u64) / 65536;
    if is_empty_cell(grid, x as i32, y as i32) {
        Some(Sprite { x: x as i32, y: y as i32, texture_index })
    } else {
        None
    }
}

/// Draws a random word from the thread's generator.
///
/// Trusted: the body calls `rand::random::<u32>()`. Nothing is claimed of
/// the word that comes back.
#[verifier::external_body]
fn random_word() -> u32 {
    rand::random::<u32>()
}

/// On a grid without walls or goal every pair of random words places a
/// sprite: the position they pick lies inside the grid, and every cell
/// there is empty.
pub proof fn lemma_samples_on_open_grid(
    grid: &TileGrid,
    word_x: u32,
    word_y: u32,
    texture_index: usize,
)
    requires
        grid.wf(),
        grid.spec_width() > 0,
        grid.spec_height() > 0,
        forall|col: int, row: int| #[trigger]
            grid.in_bounds(col, row) ==> grid.code(col, row) == EMPTY,
    ensures
        sprite_at_samples(grid, word_x, word_y, texture_index) is Some,
{
    grid.lemma_shape();
    let width = grid.spec_width() as int;
    let height = grid.spec_height() as int;
    lemma_product_bound(word_x as int, width, 0xffff_ffff, width);
    lemma_product_bound(word_y as int, height, 0xffff_ffff, height);
    let x = sample_coordinate(word_x, grid.spec_width());
    let y = sample_coordinate(word_y, grid.spec_height());
    assert(0 <= cell_of(x) < width);
    assert(0 <= cell_of(y) < height);
    assert(grid.in_bounds(cell_of(x), cell_of(y)));
}

impl SpriteRenderer {
    /// Tries up to `attempts` times to place a sprite at a random position
    /// in an empty cell of the grid, and reports whether it did.
    ///
    /// Each attempt draws two random words and places the sprite that
    /// `sprite_at_samples` gives for them; the first attempt that gives one
    /// ends the call. So the sprite that was added is the sprite of some
    /// pair of words: it lies in an empty cell and shows the texture asked
    /// for. Nothing is added only if no attempt was allowed or some pair of
    /// words gave no sprite; where every pair gives one, as on a grid that
    /// is all empty, the first attempt succeeds. Which words are drawn is
    /// not known in advance.
    pub fn spawn_sprite(&mut self, grid: &TileGrid, texture_index: usize, attempts: usize) -> (placed:
        bool)
        requires
            grid.wf(),
        ensures
            final(self)@.textures == old(self)@.textures,
            !placed ==> final(self)@.sprites == old(self)@.sprites,
            placed ==> {
                &&& attempts > 0
                &&& final(self)@.sprites.len() == old(self)@.sprites.len() + 1
                &&& final(self)@.sprites.drop_last() == old(self)@.sprites
                &&& final(self)@.sprites.last().texture_index == texture_index
                &&& empty_at(
                    grid,
                    final(self)@.sprites.last().x as int,
                    final(self)@.sprites.last().y as int,
                )
                &&& exists|word_x: u32, word_y: u32| #[trigger]
                    sprite_at_samples(grid, word_x, word_y, texture_index) == Some(
                        final(self)@.sprites.last(),
                    )
            },
            !placed && attempts > 0 ==> exists|word_x: u32, word_y: u32| #[trigger]
                sprite_at_samples(grid, word_x, word_y, texture_index) is None,
            attempts > 0 && (forall|word_x: u32, word_y: u32| #[trigger]
                sprite_at_samples(grid, word_x, word_y, texture_index) is Some) ==> placed,
    {
        let mut tries: usize = 0;
        while tries < attempts
            invariant
                grid.wf(),
                self@ == old(self)@,
                tries <= attempts,
                tries > 0 ==> exists|word_x: u32, word_y: u32| #[trigger]
                    sprite_at_samples(grid, word_x, word_y, texture_index) is None,
            decreases attempts - tries,
        {
            let word_x: u32 = random_word();
            let word_y: u32 = random_word();
            match sprite_from_samples(grid, word_x, word_y, texture_index) {
                Some(sprite) => {
                    self.sprites.push(sprite);
                    proof {
                        assert(self@.sprites == old(self)@.sprites.push(sprite));
                        assert(self@.sprites.drop_last() =~= old(self)@.sprites);
                        assert(self@.sprites.last() == sprite);
                        assert(sprite_at_samples(grid, word_x, word_y, texture_index) == Some(
                            self@.sprites.last(),
                        ));
                    }
                    return true;
                },
                None => {
                    assert(sprite_at_samples(grid, word_x, word_y, texture_index) is None);
                },
            }
            tries += 1;
        }
        false
    }
}

} // verus!

//! Images: the textures that come in, and the canvas on which the atlas is
//! composed from them.
use vstd::prelude::*;
use crate::atlas::{cell, holds_atlas, TILE};

verus! {

#[verifier::external_type_specification]
#[verifier::external_body]
pub struct ExDynamicImage(image::DynamicImage);

/// One pixel: red, green, blue and alpha.
pub ghost struct Pixel {
    pub r: u8,
    pub g: u8,
    pub b: u8,
    pub a: u8,
}

/// The pixel that shows nothing.
pub open spec fn clear() -> Pixel {
    Pixel { r: 0, g: 0, b: 0, a: 0 }
}

/// An image of four bytes a pixel, on which other images are laid.
#[verifier::external_body]
pub struct Canvas {
    image: image::RgbaImage,
}

/// The width of a texture in pixels.
pub uninterp spec fn texture_width(texture: image::DynamicImage) -> nat;

/// The height of a texture in pixels.
pub uninterp spec fn texture_height(texture: image::DynamicImage) -> nat;

/// The pixels of a texture by column and row, as `get_pixel` gives them.
pub uninterp spec fn texture_pixels(texture: image::DynamicImage) -> Map<(int, int), Pixel>;

/// The width of a canvas in pixels.
pub uninterp spec fn canvas_width(canvas: Canvas) -> nat;

/// The height of a canvas in pixels.
pub uninterp spec fn canvas_height(canvas: Canvas) -> nat;

/// The pixels of a canvas by column and row.
pub uninterp spec fn canvas_pixels(canvas: Canvas) -> Map<(int, int), Pixel>;

/// The pixels of a texture after it was resized to a square of `side`
/// pixels with the Catmull-Rom filter, by column and row.
pub uninterp spec fn resampled(texture: image::DynamicImage, side: nat) -> Map<(int, int), Pixel>;

/// The pixel that shows where `top` is blended onto `bottom`.
pub uninterp spec fn blended(bottom: Pixel, top: Pixel) -> Pixel;

/// `GenericImageView::dimensions` of a `DynamicImage`. Trusted: it gives
/// the width and the height.
#[verifier::external_body]
fn texture_size(texture: &image::DynamicImage) -> (size: (u32, u32))
    ensures
        size.0 == texture_width(*texture),
        size.1 == texture_height(*texture),
{
    image::GenericImageView::dimensions(texture)
}

/// `ImageBuffer::from_pixel` with an `Rgb` pixel, as a `DynamicImage`.
/// Trusted: the image is a square of `side` pixels, each of the given
/// colour and opaque. The outside function panics where the buffer is longer
/// than a buffer can be, which `requires` leaves out.
#[verifier::external_body]
fn flat_image(side: u32, r: u8, g: u8, b: u8) -> (texture: image::DynamicImage)
    requires
        3 * side * side <= isize::MAX,
    ensures
        texture_width(texture) == side,
        texture_height(texture) == side,
        forall|x: int, y: int|
            0 <= x < side && 0 <= y < side ==> #[trigger] texture_pixels(texture)[(x, y)] == (
            Pixel { r, g, b, a: 255 }),
{
    let pixel = image::Rgb([r, g, b]);
    image::DynamicImage::ImageRgb8(image::ImageBuffer::from_pixel(side, side, pixel))
}

/// `ImageBuffer::new`. Trusted: the canvas has the given width and height
/// and every pixel of it is clear. The outside function panics where the
/// buffer is longer than a buffer can be, which `requires` leaves out.
#[verifier::external_body]
fn blank_canvas(width: u32, height: u32) -> (canvas: Canvas)
    requires
        4 * width * height <= isize::MAX,
    ensures
        canvas_width(canvas) == width,
        canvas_height(canvas) == height,
        forall|x: int, y: int|
            0 <= x < width && 0 <= y < height ==> #[trigger] canvas_pixels(canvas)[(x, y)]
                == clear(),
{
    Canvas { image: image::ImageBuffer::new(width, height) }
}

/// `imageops::resize` of a `DynamicImage` to a square, with
/// `FilterType::CatmullRom`. Trusted: the canvas is a square of `side`
/// pixels, and what its pixels are depends on the texture and on `side`
/// alone. `requires` leaves out the empty texture, on which the outside
/// function takes a sample where there is none, and the sizes at which one
/// of its buffers is longer than a buffer can be.
#[verifier::external_body]
fn resample(texture: &image::DynamicImage, side: u32) -> (canvas: Canvas)
    requires
        texture_width(*texture) > 0,
        texture_height(*texture) > 0,
        4 * texture_width(*texture) * side <= isize::MAX,
        4 * side * side <= isize::MAX,
    ensures
        canvas_width(canvas) == side,
        canvas_height(canvas) == side,
        forall|x: int, y: int|
            0 <= x < side && 0 <= y < side ==> #[trigger] canvas_pixels(canvas)[(x, y)]
                == resampled(*texture, side as nat)[(x, y)],
{
    let filter = image::imageops::FilterType::CatmullRom;
    Canvas { image: image::imageops::resize(texture, side, side, filter) }
}

/// `imageops::overlay`. Trusted: the size of `bottom` stays; each of its
/// pixels that `top` covers, once the corner of `top` is put at (`x`, `y`),
/// becomes the blend of the pixel of `top` onto it, and the others stay.
#[verifier::external_body]
fn overlay(bottom: &mut Canvas, top: &Canvas, x: u32, y: u32)
    ensures
        canvas_width(*final(bottom)) == canvas_width(*old(bottom)),
        canvas_height(*final(bottom)) == canvas_height(*old(bottom)),
        forall|px: int, py: int|
            0 <= px < canvas_width(*old(bottom)) && 0 <= py < canvas_height(*old(bottom))
                ==> #[trigger] canvas_pixels(*final(bottom))[(px, py)] == (if x <= px < x
                + canvas_width(*top) && y <= py < y + canvas_height(*top) {
                blended(
                    canvas_pixels(*old(bottom))[(px, py)],
                    canvas_pixels(*top)[(px - x, py - y)],
                )
            } else {
                canvas_pixels(*old(bottom))[(px, py)]
            }),
{
    image::imageops::overlay(&mut bottom.image, &top.image, x, y)
}

/// A copy of the canvas as a `DynamicImage::ImageRgba8`. Trusted: the
/// image has the size and the pixels of the canvas.
#[verifier::external_body]
fn canvas_image(canvas: &Canvas) -> (copy: image::DynamicImage)
    ensures
        texture_width(copy) == canvas_width(*canvas),
        texture_height(copy) == canvas_height(*canvas),
        forall|x: int, y: int|
            0 <= x < canvas_width(*canvas) && 0 <= y < canvas_height(*canvas)
                ==> #[trigger] texture_pixels(copy)[(x, y)] == canvas_pixels(*canvas)[(x, y)],
{
    image::DynamicImage::ImageRgba8(canvas.image.clone())
}

/// The side of a flat texture, in pixels.
pub const SWATCH: u32 = 16;

/// A texture can be made into a tile: it is not empty, and it is not so
/// wide that a strip of it as high as a tile is longer than a buffer can be.
pub open spec fn usable(texture: image::DynamicImage) -> bool {
    &&& texture_width(texture) > 0
    &&& texture_height(texture) > 0
    &&& 4 * texture_width(texture) * TILE <= isize::MAX
}

/// The number of the tile in which the pixel (`x`, `y`) of an atlas of
/// `side` tiles a side lies.
pub open spec fn tile_at(side: nat, x: int, y: int) -> int {
    (y / (TILE as int)) * side + x / (TILE as int)
}

/// The canvas is a tile: a square of `TILE` pixels.
pub open spec fn is_tile(canvas: Canvas) -> bool {
    canvas_width(canvas) == TILE && canvas_height(canvas) == TILE
}

/// The pixel (`x`, `y`) of the atlas of the given tiles: where a tile lies
/// there, the pixel of the tile blended onto a clear pixel; elsewhere a
/// clear pixel.
pub open spec fn atlas_pixel(tiles: Seq<Canvas>, side: nat, x: int, y: int) -> Pixel {
    let index = tile_at(side, x, y);
    if 0 <= index < tiles.len() {
        blended(clear(), canvas_pixels(tiles[index])[(x % (TILE as int), y % (TILE as int))])
    } else {
        clear()
    }
}

/// The canvas is the atlas of the tiles: a square of `side` tiles a side in
/// which the tiles lie row by row in their order, and which is clear
/// elsewhere.
pub open spec fn shows(atlas: Canvas, tiles: Seq<Canvas>, side: nat) -> bool {
    &&& canvas_width(atlas) == side * TILE
    &&& canvas_height(atlas) == side * TILE
    &&& forall|x: int, y: int|
        0 <= x < side * TILE && 0 <= y < side * TILE ==> #[trigger] canvas_pixels(atlas)[(x, y)]
            == atlas_pixel(tiles, side, x, y)
}

/// The tile shows the texture, resampled to a tile.
pub open spec fn depicts(tile: Canvas, texture: image::DynamicImage) -> bool {
    &&& is_tile(tile)
    &&& forall|x: int, y: int|
        0 <= x < TILE && 0 <= y < TILE ==> #[trigger] canvas_pixels(tile)[(x, y)] == resampled(
            texture,
            TILE as nat,
        )[(x, y)]
}

/// The tiles are those of the textures: as many, in their order, each
/// showing its texture resampled to a tile.
pub open spec fn tiles_of(tiles: Seq<Canvas>, textures: Seq<image::DynamicImage>) -> bool {
    &&& tiles.len() == textures.len()
    &&& forall|k: int| 0 <= k < tiles.len() ==> depicts(#[trigger] tiles[k], textures[k])
}

/// The images that the references lead to.
pub open spec fn images(textures: Seq<&image::DynamicImage>) -> Seq<image::DynamicImage> {
    Seq::new(textures.len(), |k: int| *textures[k])
}

/// A pixel within the width of the atlas lies in the tile numbered `index`
/// exactly if it lies in the square of that tile's cell.
pub proof fn lemma_tile_at(side: nat, index: nat, x: int, y: int)
    requires
        0 <= x < side * TILE,
        0 <= y,
    ensures
        tile_at(side, x, y) == index <==> {
            &&& cell(index, side).0 * TILE <= x < cell(index, side).0 * TILE + TILE
            &&& cell(index, side).1 * TILE <= y < cell(index, side).1 * TILE + TILE
        },
        tile_at(side, x, y) == index ==> {
            &&& x % (TILE as int) == x - cell(index, side).0 * TILE
            &&& y % (TILE as int) == y - cell(index, side).1 * TILE
        },
{
    let column = x / 64;
    let row = y / 64;
    assert(side > 0) by (nonlinear_arith)
        requires
            0 < side * 64,
    ;
    assert(column < side) by (nonlinear_arith)
        requires
            x < side * 64,
            column * 64 <= x,
    ;
    vstd::arithmetic::div_mod::lemma_fundamental_div_mod(index as int, side as int);
    vstd::arithmetic::div_mod::lemma_mod_bound(index as int, side as int);
    if row * side + column == index {
        assert(index == side * row + column) by (nonlinear_arith)
            requires
                row * side + column == index,
        ;
        vstd::arithmetic::div_mod::lemma_fundamental_div_mod_converse(
            index as int,
            side as int,
            row,
            column,
        );
    }
    let quotient = index as int / side as int;
    let remainder = index as int % side as int;
    if column == remainder && row == quotient {
        assert(row * side + column == index) by (nonlinear_arith)
            requires
                index == side * quotient + remainder,
                column == remainder,
                row == quotient,
        ;
    }
}

/// A square texture of one colour, opaque.
pub fn flat_texture(r: u8, g: u8, b: u8) -> (texture: image::DynamicImage)
    ensures
        texture_width(texture) == SWATCH,
        texture_height(texture) == SWATCH,
        forall|x: int, y: int|
            0 <= x < SWATCH && 0 <= y < SWATCH ==> #[trigger] texture_pixels(texture)[(x, y)] == (
            Pixel { r, g, b, a: 255 }),
{
    flat_image(SWATCH, r, g, b)
}

/// Whether a texture can be made into a tile.
pub fn is_usable(texture: &image::DynamicImage) -> (fit: bool)
    ensures
        fit == usable(*texture),
{
    let (width, height) = texture_size(texture);
    if width == 0 || height == 0 {
        return false;
    }
    assert(4 * width * TILE == width * 256) by (nonlinear_arith)
        requires
            TILE == 64,
    ;
    (width as u128) * 256 <= isize::MAX as u128
}

impl Canvas {
    /// A copy of the canvas as an image.
    pub fn to_image(&self) -> (copy: image::DynamicImage)
        ensures
            texture_width(copy) == canvas_width(*self),
            texture_height(copy) == canvas_height(*self),
            forall|x: int, y: int|
                0 <= x < canvas_width(*self) && 0 <= y < canvas_height(*self)
                    ==> #[trigger] texture_pixels(copy)[(x, y)] == canvas_pixels(*self)[(x, y)],
    {
        canvas_image(self)
    }
}

/// Resamples every texture to a tile.
pub fn resample_all(textures: &Vec<&image::DynamicImage>) -> (tiles: Vec<Canvas>)
    requires
        forall|k: int| 0 <= k < textures@.len() ==> usable(*#[trigger] textures@[k]),
    ensures
        tiles_of(tiles@, images(textures@)),
{
    let mut tiles: Vec<Canvas> = Vec::new();
    let mut index: usize = 0;
    while index < textures.len()
        invariant
            index <= textures@.len(),
            forall|k: int| 0 <= k < textures@.len() ==> usable(*#[trigger] textures@[k]),
            tiles@.len() == index,
            forall|k: int| 0 <= k < index ==> depicts(#[trigger] tiles@[k], *textures@[k]),
        decreases textures@.len() - index,
    {
        assert(usable(*textures@[index as int]));
        tiles.push(resample(textures[index], TILE));
        index = index + 1;
    }
    tiles
}

/// Lays the tiles on a clear canvas of `side` tiles a side, row by row in
/// their order, each blended onto what lies there.
pub fn lay(tiles: &Vec<Canvas>, side: u32) -> (atlas: Canvas)
    requires
        side * side >= tiles@.len(),
        holds_atlas(side as nat),
        forall|k: int| 0 <= k < tiles@.len() ==> is_tile(#[trigger] tiles@[k]),
    ensures
        shows(atlas, tiles@, side as nat),
{
    let extent: u32 = side * TILE;
    assert(4 * extent * extent == 4 * (side * TILE) * (side * TILE)) by (nonlinear_arith)
        requires
            extent == side * TILE,
    ;
    let mut atlas = blank_canvas(extent, extent);
    let mut index: usize = 0;
    while index < tiles.len()
        invariant
            index <= tiles@.len(),
            side * side >= tiles@.len(),
            extent == side * TILE,
            forall|k: int| 0 <= k < tiles@.len() ==> is_tile(#[trigger] tiles@[k]),
            canvas_width(atlas) == extent,
            canvas_height(atlas) == extent,
            forall|x: int, y: int|
                0 <= x < extent && 0 <= y < extent ==> #[trigger] canvas_pixels(atlas)[(x, y)]
                    == atlas_pixel(tiles@.take(index as int), side as nat, x, y),
        decreases tiles@.len() - index,
    {
        proof {
            crate::atlas::lemma_cell_in_grid(tiles@.len(), side as nat, index as nat);
        }
        let column: u32 = (index % (side as usize)) as u32;
        let row: u32 = (index / (side as usize)) as u32;
        assert(column * TILE + TILE <= side * TILE) by (nonlinear_arith)
            requires
                column < side,
        ;
        assert(row * TILE + TILE <= side * TILE) by (nonlinear_arith)
            requires
                row < side,
        ;
        assert(is_tile(tiles@[index as int]));
        let ghost before = atlas;
        overlay(&mut atlas, &tiles[index], column * TILE, row * TILE);
        proof {
            let done = tiles@.take(index as int);
            let next = tiles@.take(index as int + 1);
            assert forall|x: int, y: int| 0 <= x < extent && 0 <= y < extent implies (
            #[trigger] canvas_pixels(atlas)[(x, y)]) == atlas_pixel(next, side as nat, x, y) by {
                lemma_tile_at(side as nat, index as nat, x, y);
                let at = tile_at(side as nat, x, y);
                assert(canvas_pixels(before)[(x, y)] == atlas_pixel(done, side as nat, x, y));
                if at == index {
                    assert(next[at] == tiles@[index as int]);
                } else if 0 <= at < index {
                    assert(next[at] == done[at]);
                }
            }
        }
        index = index + 1;
    }
    assert(tiles@.take(tiles@.len() as int) =~= tiles@);
    atlas
}

/// Composes the atlas of the given textures: a square of `side` tiles a
/// side, in which the textures lie row by row in their order, each
/// resampled to a tile, and which is clear elsewhere.
pub fn compose(textures: &Vec<&image::DynamicImage>, side: u32) -> (atlas: Canvas)
    requires
        side * side >= textures@.len(),
        holds_atlas(side as nat),
        forall|k: int| 0 <= k < textures@.len() ==> usable(*#[trigger] textures@[k]),
    ensures
        exists|tiles: Seq<Canvas>|
            tiles_of(tiles, images(textures@)) && #[trigger] shows(atlas, tiles, side as nat),
{
    let tiles = resample_all(textures);
    let atlas = lay(&tiles, side);
    assert(tiles_of(tiles@, images(textures@)) && shows(atlas, tiles@, side as nat));
    atlas
}

} // verus!

//! Tile trimming ("packing"): find the tightest per-tile rectangle that
//! covers every used pixel of every tile, and crop all tiles uniformly to it.

use vstd::prelude::*;

use crate::error::ImposterError;
use crate::image_data::{lemma_px_offset_bound, px_is_used, RgImage};

verus! {

/// Column `px` of the per-tile rectangle holds a used pixel in some tile.
pub open spec fn col_used(img: RgImage, tile: int, px: int) -> bool {
    exists|x: int, y: int|
        0 <= x < img.width && 0 <= y < img.height && x % tile == px && img.px_used(x, y)
}

/// Row `py` of the per-tile rectangle holds a used pixel in some tile.
pub open spec fn row_used(img: RgImage, tile: int, py: int) -> bool {
    exists|x: int, y: int|
        0 <= x < img.width && 0 <= y < img.height && y % tile == py && img.px_used(x, y)
}

/// Some pixel anywhere in the image is used.
pub open spec fn any_used(img: RgImage) -> bool {
    exists|x: int, y: int| 0 <= x < img.width && 0 <= y < img.height && img.px_used(x, y)
}

fn col_is_used(img: &RgImage, grid_size: u32, tile: u32, px: u32) -> (r: bool)
    requires
        img.wf(),
        grid_size >= 1,
        tile >= 1,
        img.width == grid_size * tile,
        px < tile,
    ensures
        r == col_used(*img, tile as int, px as int),
{
    let mut gx: u32 = 0;
    while gx < grid_size
        invariant
            img.wf(),
            grid_size >= 1,
            tile >= 1,
            img.width == grid_size * tile,
            px < tile,
            gx <= grid_size,
            forall|x: int, y: int|
                0 <= x < gx * tile && 0 <= y < img.height && x % (tile as int) == px
                    ==> !img.px_used(x, y),
        decreases grid_size - gx,
    {
        proof {
            assert(gx * tile + px < grid_size * tile && (gx * tile + px) % (tile as int) == px && (
            gx + 1) * tile == gx * tile + tile) by (nonlinear_arith)
                requires
                    0 <= gx < grid_size,
                    0 <= px < tile,
            ;
        }
        let x: u32 = gx * tile + px;
        let mut y: u32 = 0;
        while y < img.height
            invariant
                img.wf(),
                x < img.width,
                y <= img.height,
                (x as int) % (tile as int) == px,
                forall|y2: int| 0 <= y2 < y ==> !img.px_used(x as int, y2),
            decreases img.height - y,
        {
            if px_is_used(img, x, y) {
                return true;
            }
            y = y + 1;
        }
        proof {
            assert forall|x2: int, y2: int|
                0 <= x2 < (gx + 1) * tile && 0 <= y2 < img.height && x2 % (tile as int) == px
                    implies !img.px_used(x2, y2) by {
                if x2 >= gx * tile {
                    // the only column of this residue in the newly covered
                    // stripe is the one just scanned
                    vstd::arithmetic::div_mod::lemma_fundamental_div_mod(x2, tile as int);
                    assert(x2 == gx * tile + px) by (nonlinear_arith)
                        requires
                            x2 % (tile as int) == px,
                            0 <= px < tile,
                            gx * tile <= x2 < (gx + 1) * tile,
                            (gx + 1) * tile == gx * tile + tile,
                            x2 == (tile as int) * (x2 / (tile as int)) + x2 % (tile as int),
                    ;
                }
            }
        }
        gx = gx + 1;
    }
    proof {
        assert forall|x: int, y: int|
            0 <= x < img.width && 0 <= y < img.height && x % (tile as int) == px
                implies !img.px_used(x, y) by {
            assert(x < grid_size * tile);
        }
    }
    false
}

fn row_is_used(img: &RgImage, grid_size: u32, tile: u32, py: u32) -> (r: bool)
    requires
        img.wf(),
        grid_size >= 1,
        tile >= 1,
        img.height == grid_size * tile,
        py < tile,
    ensures
        r == row_used(*img, tile as int, py as int),
{
    let mut gy: u32 = 0;
    while gy < grid_size
        invariant
            img.wf(),
            grid_size >= 1,
            tile >= 1,
            img.height == grid_size * tile,
            py < tile,
            gy <= grid_size,
            forall|x: int, y: int|
                0 <= x < img.width && 0 <= y < gy * tile && y % (tile as int) == py
                    ==> !img.px_used(x, y),
        decreases grid_size - gy,
    {
        proof {
            assert(gy * tile + py < grid_size * tile && (gy * tile + py) % (tile as int) == py && (
            gy + 1) * tile == gy * tile + tile) by (nonlinear_arith)
                requires
                    0 <= gy < grid_size,
                    0 <= py < tile,
            ;
        }
        let y: u32 = gy * tile + py;
        let mut x: u32 = 0;
        while x < img.width
            invariant
                img.wf(),
                y < img.height,
                x <= img.width,
                (y as int) % (tile as int) == py,
                forall|x2: int| 0 <= x2 < x ==> !img.px_used(x2, y as int),
            decreases img.width - x,
        {
            if px_is_used(img, x, y) {
                return true;
            }
            x = x + 1;
        }
        proof {
            assert forall|x2: int, y2: int|
                0 <= x2 < img.width && 0 <= y2 < (gy + 1) * tile && y2 % (tile as int) == py
                    implies !img.px_used(x2, y2) by {
                if y2 >= gy * tile {
                    vstd::arithmetic::div_mod::lemma_fundamental_div_mod(y2, tile as int);
                    assert(y2 == gy * tile + py) by (nonlinear_arith)
                        requires
                            y2 % (tile as int) == py,
                            0 <= py < tile,
                            gy * tile <= y2 < (gy + 1) * tile,
                            (gy + 1) * tile == gy * tile + tile,
                            y2 == (tile as int) * (y2 / (tile as int)) + y2 % (tile as int),
                    ;
                }
            }
        }
        gy = gy + 1;
    }
    proof {
        assert forall|x: int, y: int|
            0 <= x < img.width && 0 <= y < img.height && y % (tile as int) == py
                implies !img.px_used(x, y) by {
            assert(y < grid_size * tile);
        }
    }
    false
}

/// Source byte of output byte `b` of a crop: the output pixel grid is
/// `grid * cnt_x` wide, and output tile cell (gx, gy), tile-local pixel
/// (px, py), reads source pixel (gx*tile + off_x + px, gy*tile + off_y + py).
pub open spec fn crop_src_byte(
    w: int,
    tile: int,
    grid: int,
    off_x: int,
    cnt_x: int,
    off_y: int,
    cnt_y: int,
    b: int,
) -> int {
    let p = b / 8;
    let k = b % 8;
    let out_w = grid * cnt_x;
    let oy = p / out_w;
    let ox = p % out_w;
    let gy = oy / cnt_y;
    let py = oy % cnt_y;
    let gx = ox / cnt_x;
    let px = ox % cnt_x;
    let sy = gy * tile + off_y + py;
    let sx = gx * tile + off_x + px;
    (sy * w + sx) * 8 + k
}

/// Crop every tile of `image` to the rectangle at (off_x, off_y) of size
/// (cnt_x, cnt_y), keeping the tiles' raster arrangement.
fn crop_tiles(
    image: &RgImage,
    grid_size: u32,
    tile: u32,
    off_x: u32,
    cnt_x: u32,
    off_y: u32,
    cnt_y: u32,
) -> (out: RgImage)
    requires
        image.wf(),
        grid_size >= 1,
        tile >= 1,
        image.width == grid_size * tile,
        image.height == grid_size * tile,
        1 <= cnt_x,
        1 <= cnt_y,
        off_x + cnt_x <= tile,
        off_y + cnt_y <= tile,
    ensures
        out.wf(),
        out.width == grid_size * cnt_x,
        out.height == grid_size * cnt_y,
        forall|b: int|
            0 <= b < out.data@.len() ==> out.data@[b] == image.data@[crop_src_byte(
                image.width as int,
                tile as int,
                grid_size as int,
                off_x as int,
                cnt_x as int,
                off_y as int,
                cnt_y as int,
                b,
            )],
{
    proof {
        assert(grid_size * cnt_x <= grid_size * tile && grid_size * cnt_y <= grid_size * tile && (
        grid_size * cnt_x) * (grid_size * cnt_y) * 8 <= (grid_size * tile) * (grid_size * tile)
            * 8) by (nonlinear_arith)
            requires
                grid_size >= 1,
                1 <= cnt_x <= tile,
                1 <= cnt_y <= tile,
        ;
    }
    proof {
        assert(grid_size * cnt_x >= 1 && grid_size * cnt_y >= 1) by (nonlinear_arith)
            requires
                grid_size >= 1,
                cnt_x >= 1,
                cnt_y >= 1,
        ;
    }
    let out_w: u32 = grid_size * cnt_x;
    let out_h: u32 = grid_size * cnt_y;
    let data_len: usize = image.data.len();
    let total: usize = (out_w as usize) * (out_h as usize) * 8;
    proof {
        assert((out_w as int) * (out_h as int) * 8 <= (image.width as int) * (image.height as int)
            * 8) by (nonlinear_arith)
            requires
                out_w <= image.width,
                out_h <= image.height,
                0 <= out_w,
                0 <= out_h,
        ;
    }
    let mut data: Vec<u8> = Vec::new();
    let mut b: usize = 0;
    while b < total
        invariant
            image.wf(),
            grid_size >= 1,
            tile >= 1,
            image.width == grid_size * tile,
            image.height == grid_size * tile,
            1 <= cnt_x,
            1 <= cnt_y,
            off_x + cnt_x <= tile,
            off_y + cnt_y <= tile,
            out_w == grid_size * cnt_x,
            out_h == grid_size * cnt_y,
            out_w >= 1,
            out_h >= 1,
            total == out_w * out_h * 8,
            total <= data_len,
            data_len == image.data@.len(),
            b <= total,
            data@.len() == b,
            forall|b2: int|
                0 <= b2 < b ==> data@[b2] == image.data@[crop_src_byte(
                    image.width as int,
                    tile as int,
                    grid_size as int,
                    off_x as int,
                    cnt_x as int,
                    off_y as int,
                    cnt_y as int,
                    b2,
                )],
        decreases total - b,
    {
        let p: usize = b / 8;
        let k: usize = b % 8;
        let oy: usize = p / (out_w as usize);
        let ox: usize = p % (out_w as usize);
        let gy: usize = oy / (cnt_y as usize);
        let py: usize = oy % (cnt_y as usize);
        let gx: usize = ox / (cnt_x as usize);
        let px: usize = ox % (cnt_x as usize);
        proof {
            let ow = out_w as int;
            let oh = out_h as int;
            assert(p < ow * oh) by (nonlinear_arith)
                requires
                    0 <= b < ow * oh * 8,
                    p as int == b as int / 8,
            ;
            assert(oy < oh && ox < ow) by (nonlinear_arith)
                requires
                    0 <= p < ow * oh,
                    ow >= 1,
                    oy as int == p as int / ow,
                    ox as int == p as int % ow,
            ;
            assert(gy < grid_size && py < cnt_y) by (nonlinear_arith)
                requires
                    0 <= oy < grid_size * cnt_y,
                    cnt_y >= 1,
                    gy as int == oy as int / (cnt_y as int),
                    py as int == oy as int % (cnt_y as int),
            ;
            assert(gx < grid_size && px < cnt_x) by (nonlinear_arith)
                requires
                    0 <= ox < grid_size * cnt_x,
                    cnt_x >= 1,
                    gx as int == ox as int / (cnt_x as int),
                    px as int == ox as int % (cnt_x as int),
            ;
            assert(gy * tile + off_y + py < grid_size * tile && gx * tile + off_x + px < grid_size
                * tile) by (nonlinear_arith)
                requires
                    0 <= gy < grid_size,
                    0 <= gx < grid_size,
                    0 <= py < cnt_y,
                    0 <= px < cnt_x,
                    off_y + cnt_y <= tile,
                    off_x + cnt_x <= tile,
                    tile >= 1,
            ;
        }
        let sy: usize = gy * (tile as usize) + (off_y as usize) + py;
        let sx: usize = gx * (tile as usize) + (off_x as usize) + px;
        proof {
            lemma_px_offset_bound(
                image.width as int,
                image.height as int,
                sx as int,
                sy as int,
            );
        }
        let src: usize = (sy * (image.width as usize) + sx) * 8 + k;
        let byte: u8 = image.data[src];
        data.push(byte);
        b = b + 1;
    }
    RgImage { width: out_w, height: out_h, data }
}

/// Trim every tile of the atlas to the tightest rectangle that still holds
/// every used pixel of every tile, as the asset writer stores it.
///
/// Returns the cropped atlas, the rectangle's offset inside a tile, and its
/// size. The offset is the first used column and row; offset plus size minus
/// one is the last used column and row. An image with no used pixel at all
/// has no such rectangle: that degenerate trim is reported as `EmptyTrim`
/// rather than aborting, so a caller can fall back to the unpacked layout.
pub fn pack_asset(grid_size: u32, image: &RgImage) -> (r: Result<
    (RgImage, (u32, u32), (u32, u32)),
    ImposterError,
>)
    requires
        image.wf(),
        grid_size >= 1,
        image.width == image.height,
        image.width % grid_size == 0,
        image.width >= grid_size,
    ensures
        ({
            let tile = image.width as int / grid_size as int;
            match r {
                Ok(parts) => {
                    let out = parts.0;
                    let off = parts.1;
                    let cnt = parts.2;
                    &&& any_used(*image)
                    &&& col_used(*image, tile, off.0 as int)
                    &&& forall|px: int| 0 <= px < off.0 ==> !col_used(*image, tile, px)
                    &&& col_used(*image, tile, off.0 + cnt.0 - 1)
                    &&& forall|px: int| off.0 + cnt.0 <= px < tile ==> !col_used(*image, tile, px)
                    &&& row_used(*image, tile, off.1 as int)
                    &&& forall|py: int| 0 <= py < off.1 ==> !row_used(*image, tile, py)
                    &&& row_used(*image, tile, off.1 + cnt.1 - 1)
                    &&& forall|py: int| off.1 + cnt.1 <= py < tile ==> !row_used(*image, tile, py)
                    &&& 1 <= cnt.0
                    &&& 1 <= cnt.1
                    &&& off.0 + cnt.0 <= tile
                    &&& off.1 + cnt.1 <= tile
                    &&& out.wf()
                    &&& out.width == grid_size * cnt.0
                    &&& out.height == grid_size * cnt.1
                    &&& forall|b: int|
                        0 <= b < out.data@.len() ==> out.data@[b] == image.data@[crop_src_byte(
                            image.width as int,
                            tile,
                            grid_size as int,
                            off.0 as int,
                            cnt.0 as int,
                            off.1 as int,
                            cnt.1 as int,
                            b,
                        )]
                },
                Err(e) => e == ImposterError::EmptyTrim && !any_used(*image),
            }
        }),
{
    let tile: u32 = image.width / grid_size;
    proof {
        assert(grid_size * tile == image.width && tile >= 1) by (nonlinear_arith)
            requires
                grid_size >= 1,
                image.width % grid_size == 0,
                image.width >= grid_size,
                tile == image.width as int / grid_size as int,
        ;
    }
    // first used column
    let mut x_start: u32 = 0;
    while x_start < tile && !col_is_used(image, grid_size, tile, x_start)
        invariant
            img_square_wf(*image, grid_size as int, tile as int),
            x_start <= tile,
            forall|px: int| 0 <= px < x_start ==> !col_used(*image, tile as int, px),
        decreases tile - x_start,
    {
        x_start = x_start + 1;
    }
    if x_start == tile {
        // no column used anywhere: nothing is used at all
        proof {
            assert forall|x: int, y: int|
                0 <= x < image.width && 0 <= y < image.height implies !image.px_used(x, y) by {
                let px = x % (tile as int);
                assert(0 <= px < tile);
                assert(!col_used(*image, tile as int, px));
            }
        }
        return Err(ImposterError::EmptyTrim);
    }
    proof {
        assert(col_used(*image, tile as int, x_start as int));
        let (wx, wy) = choose|wx: int, wy: int|
            0 <= wx < image.width && 0 <= wy < image.height && wx % (tile as int) == x_start
                && image.px_used(wx, wy);
        assert(image.px_used(wx, wy));
        assert(any_used(*image));
    }
    // last used column
    let mut x_end: u32 = tile - 1;
    while x_end > x_start && !col_is_used(image, grid_size, tile, x_end)
        invariant
            img_square_wf(*image, grid_size as int, tile as int),
            x_start <= x_end < tile,
            col_used(*image, tile as int, x_start as int),
            forall|px: int| x_end < px < tile ==> !col_used(*image, tile as int, px),
        decreases x_end,
    {
        x_end = x_end - 1;
    }
    // first used row
    let mut y_start: u32 = 0;
    while y_start < tile && !row_is_used(image, grid_size, tile, y_start)
        invariant
            img_square_wf(*image, grid_size as int, tile as int),
            y_start <= tile,
            any_used(*image),
            forall|py: int| 0 <= py < y_start ==> !row_used(*image, tile as int, py),
        decreases tile - y_start,
    {
        y_start = y_start + 1;
    }
    proof {
        if y_start == tile {
            let (x, y) = choose|x: int, y: int|
                0 <= x < image.width && 0 <= y < image.height && image.px_used(x, y);
            let py = y % (tile as int);
            assert(0 <= py < tile);
            assert(!row_used(*image, tile as int, py));
            assert(false);
        }
    }
    // last used row
    let mut y_end: u32 = tile - 1;
    while y_end > y_start && !row_is_used(image, grid_size, tile, y_end)
        invariant
            img_square_wf(*image, grid_size as int, tile as int),
            y_start <= y_end < tile,
            row_used(*image, tile as int, y_start as int),
            forall|py: int| y_end < py < tile ==> !row_used(*image, tile as int, py),
        decreases y_end,
    {
        y_end = y_end - 1;
    }
    proof {
        assert(col_used(*image, tile as int, x_end as int));
        assert(row_used(*image, tile as int, y_end as int));
    }
    let cnt_x: u32 = x_end - x_start + 1;
    let cnt_y: u32 = y_end - y_start + 1;
    let out = crop_tiles(image, grid_size, tile, x_start, cnt_x, y_start, cnt_y);
    Ok((out, (x_start, y_start), (cnt_x, cnt_y)))
}

/// The shape facts the packing loops carry along.
pub open spec fn img_square_wf(img: RgImage, grid_size: int, tile: int) -> bool {
    &&& img.wf()
    &&& grid_size >= 1
    &&& tile >= 1
    &&& img.width == grid_size * tile
    &&& img.height == grid_size * tile
}

/// An atlas that is already cropped tight (its first and last per-tile
/// columns and rows are used) packs to offset (0, 0) and to the full tile
/// size: packing is idempotent on the rectangle it chooses.
pub proof fn lemma_pack_tight(
    img: RgImage,
    tile: int,
    off_x: int,
    cnt_x: int,
    off_y: int,
    cnt_y: int,
)
    requires
        tile >= 1,
        col_used(img, tile, 0),
        col_used(img, tile, tile - 1),
        row_used(img, tile, 0),
        row_used(img, tile, tile - 1),
        // the rectangle characterization that `pack_asset` ensures
        forall|px: int| 0 <= px < off_x ==> !col_used(img, tile, px),
        forall|px: int| off_x + cnt_x <= px < tile ==> !col_used(img, tile, px),
        forall|py: int| 0 <= py < off_y ==> !row_used(img, tile, py),
        forall|py: int| off_y + cnt_y <= py < tile ==> !row_used(img, tile, py),
        0 <= off_x,
        0 <= off_y,
        1 <= cnt_x,
        1 <= cnt_y,
        off_x + cnt_x <= tile,
        off_y + cnt_y <= tile,
    ensures
        off_x == 0,
        off_y == 0,
        cnt_x == tile,
        cnt_y == tile,
{
    assert(off_x == 0) by {
        if off_x > 0 {
            let px = 0int;
            assert(0 <= px < off_x);
            assert(!col_used(img, tile, px));
            assert(false);
        }
    }
    assert(off_x + cnt_x == tile) by {
        if off_x + cnt_x < tile {
            let px = tile - 1;
            assert(off_x + cnt_x <= px < tile);
            assert(!col_used(img, tile, px));
            assert(false);
        }
    }
    assert(off_y == 0) by {
        if off_y > 0 {
            let py = 0int;
            assert(0 <= py < off_y);
            assert(!row_used(img, tile, py));
            assert(false);
        }
    }
    assert(off_y + cnt_y == tile) by {
        if off_y + cnt_y < tile {
            let py = tile - 1;
            assert(off_y + cnt_y <= py < tile);
            assert(!row_used(img, tile, py));
            assert(false);
        }
    }
}

} // verus!

//! The pixel rectangle that bakes and assets move around: rows of pixels of
//! eight bytes each (a pair of 32-bit words per pixel), stored row-major.

use vstd::prelude::*;

verus! {

/// Bytes of one pixel in the atlas format (two 32-bit words).
pub const PIXEL_BYTES: usize = 8;

#[derive(Clone, Debug)]
pub struct RgImage {
    pub width: u32,
    pub height: u32,
    /// Row-major pixel payload, eight bytes per pixel.
    pub data: Vec<u8>,
}

impl RgImage {
    pub open spec fn wf(self) -> bool {
        self.data@.len() == self.width * self.height * 8
    }

    /// A pixel counts as used when the first word of its pair is nonzero.
    pub open spec fn px_used(self, x: int, y: int) -> bool {
        exists|k: int|
            0 <= k < 4 && #[trigger] self.data@[(y * self.width + x) * 8 + k] != 0
    }

    /// One byte of one pixel.
    pub open spec fn px_byte(self, x: int, y: int, k: int) -> u8 {
        self.data@[(y * self.width + x) * 8 + k]
    }
}

/// Read whether the pixel at (x, y) is used (nonzero first word).
pub fn px_is_used(img: &RgImage, x: u32, y: u32) -> (r: bool)
    requires
        img.wf(),
        x < img.width,
        y < img.height,
    ensures
        r == img.px_used(x as int, y as int),
{
    let total: usize = img.data.len();
    proof {
        lemma_px_offset_bound(img.width as int, img.height as int, x as int, y as int);
    }
    let base: usize = ((y as usize) * (img.width as usize) + (x as usize)) * 8;
    let r = img.data[base] != 0 || img.data[base + 1] != 0 || img.data[base + 2] != 0
        || img.data[base + 3] != 0;
    proof {
        let o = ((y as int) * (img.width as int) + (x as int)) * 8;
        assert(base as int == o);
        if r {
            if img.data@[o + 0] != 0 {
            } else if img.data@[o + 1] != 0 {
            } else if img.data@[o + 2] != 0 {
            } else {
                assert(img.data@[o + 3] != 0);
            }
            assert(img.px_used(x as int, y as int));
        } else {
            assert forall|k: int| 0 <= k < 4 implies #[trigger] img.data@[o + k] == 0 by {
                if k == 0 {
                    assert(img.data@[o + 0] == 0);
                } else if k == 1 {
                    assert(img.data@[o + 1] == 0);
                } else if k == 2 {
                    assert(img.data@[o + 2] == 0);
                } else {
                    assert(img.data@[o + 3] == 0);
                }
            }
            assert(!img.px_used(x as int, y as int));
        }
    }
    r
}

/// Pixel offsets stay inside the payload of a well-formed image.
pub proof fn lemma_px_offset_bound(w: int, h: int, x: int, y: int)
    requires
        0 <= x < w,
        0 <= y < h,
    ensures
        0 <= (y * w + x) * 8,
        (y * w + x) * 8 + 8 <= w * h * 8,
{
    assert(0 <= (y * w + x) * 8 && (y * w + x) * 8 + 8 <= w * h * 8) by (nonlinear_arith)
        requires
            0 <= x < w,
            0 <= y < h,
    ;
}

} // verus!

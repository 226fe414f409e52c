//! Integer bounds of the input windows that the separable filters and the
//! interpolations read.
use vstd::prelude::*;
use crate::image::Image;
use crate::utils::{clamp_i64, spec_clamp};

verus! {

/// The first input index of a sampling window, given the floor of its left edge.
pub open spec fn spec_window_left(left_floor: int, len: nat) -> int {
    spec_clamp(left_floor, 0, len - 1)
}

/// The end (exclusive) of a sampling window, given the ceiling of its right edge
/// and the window's first index.
pub open spec fn spec_window_right(right_ceil: int, left: int, len: nat) -> int {
    spec_clamp(right_ceil, left + 1, len as int)
}

/// The window that `sample_window` gives, on lines of every length.
pub open spec fn spec_sample_window(left_floor: int, right_ceil: int, len: nat) -> (int, int) {
    if len > 0 {
        let left = spec_window_left(left_floor, len);
        (left, spec_window_right(right_ceil, left, len))
    } else if left_floor < 0 {
        (0, if right_ceil < 1 { 1 } else { 0 })
    } else {
        (u32::MAX as int, 0)
    }
}

/// The window `[left, right)` of input pixels that contribute to one output pixel
/// of a separable filter pass over a line of `len` pixels. `left_floor` is the
/// floor of the window's left edge and `right_ceil` the ceiling of its right edge.
///
/// For a non-empty line the window is non-empty and inside it:
/// `0 <= left < right <= len`. For an empty line the clamps meet an empty range
/// and the window's bounds come out of the integer conversions as stated below.
pub fn sample_window(left_floor: i64, right_ceil: i64, len: u32) -> (r: (u32, u32))
    ensures
        len > 0 ==> r.0 == spec_window_left(left_floor as int, len as nat) && r.1
            == spec_window_right(right_ceil as int, r.0 as int, len as nat),
        len > 0 ==> 0 <= r.0 < r.1 <= len,
        len == 0 && left_floor < 0 ==> r.0 == 0 && r.1 == (if right_ceil < 1 { 1int } else { 0 }),
        len == 0 && left_floor >= 0 ==> r.0 == u32::MAX && r.1 == 0,
        r.0 == spec_sample_window(left_floor as int, right_ceil as int, len as nat).0,
        r.1 == spec_sample_window(left_floor as int, right_ceil as int, len as nat).1,
        len > 0 ==> r.0 == (if left_floor < 0 {
            0
        } else if left_floor >= len {
            len - 1
        } else {
            left_floor as int
        }),
        len > 0 ==> r.1 == (if right_ceil > len {
            len as int
        } else if right_ceil <= r.0 {
            r.0 + 1
        } else {
            right_ceil as int
        }),
{
    let len64: i64 = len as i64;
    let left64: i64 = clamp_i64(left_floor, 0, len64 - 1);
    let left: u32 = left64 as u32;
    proof {
        if len == 0 && left_floor >= 0 {
            assert(left64 == -1);
            assert((-1i64) as u32 == 0xffff_ffffu32) by (bit_vector);
        }
    }
    let left_next: i64 = left as i64 + 1;
    let right64: i64 = clamp_i64(right_ceil, left_next, len64);
    let right: u32 = right64 as u32;
    proof {
        if len == 0 && left_floor >= 0 {
            assert(right64 == 0 || right64 == 0x1_0000_0000i64);
            assert((0x1_0000_0000i64) as u32 == 0u32) by (bit_vector);
        }
    }
    (left, right)
}

/// On a line with pixels, a window starts at the floor of its left edge when that
/// lies on the line, at the first pixel when it lies before, and at the last pixel
/// when it lies past the end.
pub proof fn lemma_window_start(left_floor: int, right_ceil: int, len: nat)
    requires
        len > 0,
    ensures
        0 <= left_floor < len ==> spec_sample_window(left_floor, right_ceil, len).0 == left_floor,
        left_floor < 0 ==> spec_sample_window(left_floor, right_ceil, len).0 == 0,
        left_floor >= len ==> spec_sample_window(left_floor, right_ceil, len).0 == len - 1,
{
}

/// On a line with pixels, a window ends at the ceiling of its right edge when that
/// lies past the window's start and on the line, one past the start when it does not
/// lie past the start, and at the line's end when it lies beyond it; the window is
/// never empty and never leaves the line.
pub proof fn lemma_window_end(left_floor: int, right_ceil: int, len: nat)
    requires
        len > 0,
    ensures
        ({
            let (start, end) = spec_sample_window(left_floor, right_ceil, len);
            &&& start < right_ceil <= len ==> end == right_ceil
            &&& right_ceil <= start ==> end == start + 1
            &&& right_ceil > len ==> end == len
            &&& 0 <= start < end <= len
        }),
{
}

/// Windows move with their edges: a window whose left edge is further right does not
/// start earlier, and of two windows with the same left edge, the one whose right edge
/// is further right does not end earlier.
pub proof fn lemma_window_monotone(lf1: int, rc1: int, lf2: int, rc2: int, len: nat)
    requires
        len > 0,
        lf1 <= lf2,
    ensures
        spec_sample_window(lf1, rc1, len).0 <= spec_sample_window(lf2, rc2, len).0,
        lf1 == lf2 && rc1 <= rc2 ==> spec_sample_window(lf1, rc1, len).1 <= spec_sample_window(
            lf2,
            rc2,
            len,
        ).1,
{
}

/// The neighbouring column and row that bilinear interpolation reads beside
/// `(x0, y0)`: one step right and one step down, held inside the image.
pub fn bilinear_neighbours(x0: u32, y0: u32, width: u32, height: u32) -> (r: (u32, u32))
    requires
        x0 < width,
        y0 < height,
    ensures
        r.0 == if x0 + 1 < width { x0 + 1 } else { width - 1 },
        r.1 == if y0 + 1 < height { y0 + 1 } else { height - 1 },
        x0 <= r.0 < width,
        y0 <= r.1 < height,
{
    let xc: u32 = if x0 + 1 < width - 1 { x0 + 1 } else { width - 1 };
    let yc: u32 = if y0 + 1 < height - 1 { y0 + 1 } else { height - 1 };
    (xc, yc)
}

/// The four pixels that bilinear interpolation blends for a point whose integer part
/// is `(x0, y0)`, in the order `(x0, y0)`, `(x0, y1)`, `(x1, y0)`, `(x1, y1)` where
/// `(x1, y1)` are the neighbours that `bilinear_neighbours` gives.
pub fn bilinear_corners<T: Copy>(image: &Image<T>, x0: u32, y0: u32) -> (r: [T; 4])
    requires
        image.wf(),
        x0 < image.spec_width(),
        y0 < image.spec_height(),
    ensures
        ({
            let x1 = if x0 + 1 < image.spec_width() { x0 + 1 } else { image.spec_width() - 1 };
            let y1 = if y0 + 1 < image.spec_height() { y0 + 1 } else { image.spec_height() - 1 };
            r == [
                image.pixel(x0 as int, y0 as int),
                image.pixel(x0 as int, y1),
                image.pixel(x1, y0 as int),
                image.pixel(x1, y1),
            ]
        }),
{
    let (width, height) = image.dimensions();
    let (x1, y1) = bilinear_neighbours(x0, y0, width, height);
    let r = [
        image.get_pixel(x0, y0),
        image.get_pixel(x0, y1),
        image.get_pixel(x1, y0),
        image.get_pixel(x1, y1),
    ];
    r
}

} // verus!

//! Thumbnails: every output pixel averages the rectangular window of input
//! pixels that maps onto it.
use vstd::prelude::*;
use crate::component::{clamp_from, larger_zero, to_larger};
use crate::image::Image;
use crate::utils::{clamp_u32, spec_clamp};

verus! {

/// Running per-channel sums of pixels with up to four `u16` components (`u8`
/// components widen to `u16` without change), kept in `u32`, the
/// `Enlargeable::Larger` type of both.
#[derive(Clone, Copy, Debug)]
pub struct ThumbnailSum(pub u32, pub u32, pub u32, pub u32);

/// Component `c` (0 to 3) of a pixel.
pub open spec fn comp(p: [u16; 4], c: int) -> int {
    p[c] as int
}

impl ThumbnailSum {
    /// The sum kept for channel `c` (0 to 3).
    pub open spec fn channel(self, c: int) -> int {
        if c == 0 {
            self.0 as int
        } else if c == 1 {
            self.1 as int
        } else if c == 2 {
            self.2 as int
        } else {
            self.3 as int
        }
    }

    /// Sums that are zero in every channel.
    pub fn zeroed() -> (r: Self)
        ensures
            forall|c: int| 0 <= c < 4 ==> r.channel(c) == 0,
    {
        ThumbnailSum(larger_zero(), larger_zero(), larger_zero(), larger_zero())
    }

    /// A component widened to the sum type, keeping its value.
    pub fn sample_val(val: u16) -> (r: u32)
        ensures
            r == val,
    {
        to_larger(val)
    }

    /// Adds every component of `pixel` to the sum of its channel.
    pub fn add_pixel(&mut self, pixel: [u16; 4])
        requires
            forall|c: int| 0 <= c < 4 ==> old(self).channel(c) + comp(pixel, c) <= u32::MAX,
        ensures
            forall|c: int|
                0 <= c < 4 ==> #[trigger] final(self).channel(c) == old(self).channel(c) + comp(
                    pixel,
                    c,
                ),
    {
        proof {
            assert(old(self).channel(0) + comp(pixel, 0) <= u32::MAX);
            assert(old(self).channel(1) + comp(pixel, 1) <= u32::MAX);
            assert(old(self).channel(2) + comp(pixel, 2) <= u32::MAX);
            assert(old(self).channel(3) + comp(pixel, 3) <= u32::MAX);
        }
        self.0 = self.0 + Self::sample_val(pixel[0]);
        self.1 = self.1 + Self::sample_val(pixel[1]);
        self.2 = self.2 + Self::sample_val(pixel[2]);
        self.3 = self.3 + Self::sample_val(pixel[3]);
    }
}

/// Sum of channel `c` over the pixels of column `x` in rows `y0 .. y1`.
pub open spec fn column_sum(img: Image<[u16; 4]>, x: int, y0: int, y1: int, c: int) -> int
    decreases y1 - y0,
{
    if y1 <= y0 {
        0
    } else {
        column_sum(img, x, y0, y1 - 1, c) + comp(img.pixel(x, y1 - 1), c)
    }
}

/// Sum of channel `c` over the pixels of row `y` in columns `x0 .. x1`.
pub open spec fn row_sum(img: Image<[u16; 4]>, y: int, x0: int, x1: int, c: int) -> int
    decreases x1 - x0,
{
    if x1 <= x0 {
        0
    } else {
        row_sum(img, y, x0, x1 - 1, c) + comp(img.pixel(x1 - 1, y), c)
    }
}

/// Sum of channel `c` over the block of columns `x0 .. x1` and rows `y0 .. y1`.
pub open spec fn block_sum(img: Image<[u16; 4]>, x0: int, x1: int, y0: int, y1: int, c: int) -> int
    decreases y1 - y0,
{
    if y1 <= y0 {
        0
    } else {
        block_sum(img, x0, x1, y0, y1 - 1, c) + row_sum(img, y1 - 1, x0, x1, c)
    }
}

/// The mean `sum / n` rounded to the nearest integer, halves rounded up.
pub open spec fn rounded_mean(sum: int, n: int) -> int {
    (sum + n / 2) / n
}

/// Channel `c` of the average of the block of columns `x0 .. x1` and rows `y0 .. y1`.
pub open spec fn block_mean(img: Image<[u16; 4]>, x0: int, x1: int, y0: int, y1: int, c: int) -> int {
    rounded_mean(block_sum(img, x0, x1, y0, y1, c), (x1 - x0) * (y1 - y0))
}

proof fn lemma_row_sum_nonneg(img: Image<[u16; 4]>, y: int, x0: int, x1: int, c: int)
    ensures
        0 <= row_sum(img, y, x0, x1, c),
    decreases x1 - x0,
{
    if x1 > x0 {
        lemma_row_sum_nonneg(img, y, x0, x1 - 1, c);
    }
}

proof fn lemma_column_sum_nonneg(img: Image<[u16; 4]>, x: int, y0: int, y1: int, c: int)
    ensures
        0 <= column_sum(img, x, y0, y1, c),
    decreases y1 - y0,
{
    if y1 > y0 {
        lemma_column_sum_nonneg(img, x, y0, y1 - 1, c);
    }
}

proof fn lemma_block_sum_nonneg(img: Image<[u16; 4]>, x0: int, x1: int, y0: int, y1: int, c: int)
    ensures
        0 <= block_sum(img, x0, x1, y0, y1, c),
    decreases y1 - y0,
{
    if y1 > y0 {
        lemma_block_sum_nonneg(img, x0, x1, y0, y1 - 1, c);
        lemma_row_sum_nonneg(img, y1 - 1, x0, x1, c);
    }
}

/// Row sums grow with the row's end.
proof fn lemma_row_sum_mono(img: Image<[u16; 4]>, y: int, x0: int, x1: int, x2: int, c: int)
    requires
        x0 <= x1 <= x2,
    ensures
        0 <= row_sum(img, y, x0, x1, c) <= row_sum(img, y, x0, x2, c),
    decreases x2 - x1,
{
    lemma_row_sum_nonneg(img, y, x0, x1, c);
    if x1 < x2 {
        lemma_row_sum_mono(img, y, x0, x1, x2 - 1, c);
    }
}

/// Column sums grow with the column's end.
proof fn lemma_column_sum_mono(img: Image<[u16; 4]>, x: int, y0: int, y1: int, y2: int, c: int)
    requires
        y0 <= y1 <= y2,
    ensures
        0 <= column_sum(img, x, y0, y1, c) <= column_sum(img, x, y0, y2, c),
    decreases y2 - y1,
{
    lemma_column_sum_nonneg(img, x, y0, y1, c);
    if y1 < y2 {
        lemma_column_sum_mono(img, x, y0, y1, y2 - 1, c);
    }
}

/// Block sums grow with the block's last row.
proof fn lemma_block_sum_mono(
    img: Image<[u16; 4]>,
    x0: int,
    x1: int,
    y0: int,
    y1: int,
    y2: int,
    c: int,
)
    requires
        x0 <= x1,
        y0 <= y1 <= y2,
    ensures
        0 <= block_sum(img, x0, x1, y0, y1, c) <= block_sum(img, x0, x1, y0, y2, c),
    decreases y2 - y1,
{
    lemma_block_sum_nonneg(img, x0, x1, y0, y1, c);
    if y1 < y2 {
        lemma_block_sum_mono(img, x0, x1, y0, y1, y2 - 1, c);
        lemma_row_sum_nonneg(img, y2 - 1, x0, x1, c);
    }
}

/// The sum over the rows of a block before row `y`, and over row `y` before column
/// `x`, is at most the sum over the whole block.
proof fn lemma_block_partial(
    img: Image<[u16; 4]>,
    x0: int,
    x1: int,
    y0: int,
    y1: int,
    x: int,
    y: int,
    c: int,
)
    requires
        x0 <= x <= x1,
        y0 <= y < y1,
    ensures
        0 <= block_sum(img, x0, x1, y0, y, c) + row_sum(img, y, x0, x, c) <= block_sum(
            img,
            x0,
            x1,
            y0,
            y1,
            c,
        ),
{
    lemma_row_sum_mono(img, y, x0, x, x1, c);
    lemma_block_sum_mono(img, x0, x1, y0, y, y, c);
    lemma_block_sum_mono(img, x0, x1, y0, y + 1, y1, c);
}

/// A column sum is the sum of the block one column wide.
proof fn lemma_column_sum_is_block(img: Image<[u16; 4]>, x: int, y0: int, y1: int, c: int)
    requires
        y0 <= y1,
    ensures
        column_sum(img, x, y0, y1, c) == block_sum(img, x, x + 1, y0, y1, c),
    decreases y1 - y0,
{
    if y0 < y1 {
        lemma_column_sum_is_block(img, x, y0, y1 - 1, c);
        assert(row_sum(img, y1 - 1, x, x, c) == 0);
        assert(row_sum(img, y1 - 1, x, x + 1, c) == comp(img.pixel(x, y1 - 1), c));
    }
}

/// A row sum is the sum of the block one row high.
proof fn lemma_row_sum_is_block(img: Image<[u16; 4]>, y: int, x0: int, x1: int, c: int)
    ensures
        row_sum(img, y, x0, x1, c) == block_sum(img, x0, x1, y, y + 1, c),
{
    assert(block_sum(img, x0, x1, y, y, c) == 0);
}

/// Every component of a `u16` pixel lies in `[0, u16::MAX]`.
proof fn lemma_block_within_u16(img: Image<[u16; 4]>, x0: int, x1: int, y0: int, y1: int, c: int)
    ensures
        block_channel_within(img, x0, x1, y0, y1, c, 0, 0xffff),
{
    assert forall|x: int, y: int| x0 <= x < x1 && y0 <= y < y1 implies 0 <= #[trigger] comp(
        img.pixel(x, y),
        c,
    ) <= 0xffff by {
        let p = img.pixel(x, y);
        assert(0 <= p[c] <= 0xffff);
    }
}

/// Whether the channel sums of the block `[x0, x1) x [y0, y1)`, with half its area
/// added for rounding, fit the `u32` accumulator, and so does the area itself.
pub open spec fn block_fits(img: Image<[u16; 4]>, x0: int, x1: int, y0: int, y1: int) -> bool {
    &&& (x1 - x0) * (y1 - y0) <= u32::MAX
    &&& forall|c: int|
        0 <= c < 4 ==> #[trigger] block_sum(img, x0, x1, y0, y1, c) + (x1 - x0) * (y1 - y0) / 2
            <= u32::MAX
}

/// Whether the channel sums of column `x` over rows `y0 .. y1` fit the `u32` accumulator.
pub open spec fn column_fits(img: Image<[u16; 4]>, x: int, y0: int, y1: int) -> bool {
    forall|c: int| 0 <= c < 4 ==> #[trigger] column_sum(img, x, y0, y1, c) <= u32::MAX
}

/// Whether the channel sums of row `y` over columns `x0 .. x1` fit the `u32` accumulator.
pub open spec fn row_fits(img: Image<[u16; 4]>, y: int, x0: int, x1: int) -> bool {
    forall|c: int| 0 <= c < 4 ==> #[trigger] row_sum(img, y, x0, x1, c) <= u32::MAX
}

/// The pixel of a thumbnail whose input window `[left, right) x [bottom, top)` holds at
/// least one whole pixel: the per-channel average of that block, rounded to nearest.
/// The channel sums are kept in `u32`, so they must fit it together with the rounding
/// term, as must the block's area.
pub fn thumbnail_sample_block(
    image: &Image<[u16; 4]>,
    left: u32,
    right: u32,
    bottom: u32,
    top: u32,
) -> (r: [u16; 4])
    requires
        image.wf(),
        left < right <= image.spec_width(),
        bottom < top <= image.spec_height(),
        block_fits(*image, left as int, right as int, bottom as int, top as int),
    ensures
        forall|c: int|
            0 <= c < 4 ==> comp(r, c) == block_mean(
                *image,
                left as int,
                right as int,
                bottom as int,
                top as int,
                c,
            ),
{
    let mut sum = ThumbnailSum::zeroed();
    let mut y: u32 = bottom;
    while y < top
        invariant
            image.wf(),
            left < right <= image.spec_width(),
            bottom <= y <= top <= image.spec_height(),
            block_fits(*image, left as int, right as int, bottom as int, top as int),
            forall|c: int|
                0 <= c < 4 ==> #[trigger] sum.channel(c) == block_sum(
                    *image,
                    left as int,
                    right as int,
                    bottom as int,
                    y as int,
                    c,
                ),
        decreases top - y,
    {
        let mut x: u32 = left;
        while x < right
            invariant
                image.wf(),
                left <= x <= right <= image.spec_width(),
                bottom <= y < top <= image.spec_height(),
                block_fits(*image, left as int, right as int, bottom as int, top as int),
                forall|c: int|
                    0 <= c < 4 ==> #[trigger] sum.channel(c) == block_sum(
                        *image,
                        left as int,
                        right as int,
                        bottom as int,
                        y as int,
                        c,
                    ) + row_sum(*image, y as int, left as int, x as int, c),
            decreases right - x,
        {
            let k = image.get_pixel(x, y);
            proof {
                assert forall|c: int| 0 <= c < 4 implies sum.channel(c) + comp(k, c)
                    <= u32::MAX by {
                    lemma_block_partial(
                        *image,
                        left as int,
                        right as int,
                        bottom as int,
                        top as int,
                        x + 1,
                        y as int,
                        c,
                    );
                    assert(row_sum(*image, y as int, left as int, x + 1, c) == row_sum(
                        *image,
                        y as int,
                        left as int,
                        x as int,
                        c,
                    ) + comp(k, c));
                    assert(block_sum(*image, left as int, right as int, bottom as int, top as int, c)
                        + (right - left) * (top - bottom) / 2 <= u32::MAX);
                    assert(0 <= (right - left) * (top - bottom) / 2) by (nonlinear_arith)
                        requires
                            left < right,
                            bottom < top,
                    ;
                }
            }
            sum.add_pixel(k);
            x = x + 1;
        }
        y = y + 1;
    }
    let n: u32 = (right - left) * (top - bottom);
    let round: u32 = n / 2;
    proof {
        assert(n > 0) by (nonlinear_arith)
            requires
                n == (right - left) * (top - bottom),
                left < right,
                bottom < top,
        ;
        assert forall|c: int| 0 <= c < 4 implies #[trigger] sum.channel(c) + round <= u32::MAX
            && rounded_mean(sum.channel(c), n as int) <= 0xffff && rounded_mean(
            sum.channel(c),
            n as int,
        ) == block_mean(*image, left as int, right as int, bottom as int, top as int, c) by {
            assert(block_sum(*image, left as int, right as int, bottom as int, top as int, c) + (
            right - left) * (top - bottom) / 2 <= u32::MAX);
            lemma_block_within_u16(*image, left as int, right as int, bottom as int, top as int, c);
            lemma_block_mean_within(
                *image,
                left as int,
                right as int,
                bottom as int,
                top as int,
                c,
                0,
                0xffff,
            );
        }
        assert(sum.channel(0) + round <= u32::MAX);
        assert(sum.channel(1) + round <= u32::MAX);
        assert(sum.channel(2) + round <= u32::MAX);
        assert(sum.channel(3) + round <= u32::MAX);
        assert(rounded_mean(sum.channel(0), n as int) <= 0xffff);
        assert(rounded_mean(sum.channel(1), n as int) <= 0xffff);
        assert(rounded_mean(sum.channel(2), n as int) <= 0xffff);
        assert(rounded_mean(sum.channel(3), n as int) <= 0xffff);
    }
    let r0 = clamp_from((sum.0 + round) / n);
    let r1 = clamp_from((sum.1 + round) / n);
    let r2 = clamp_from((sum.2 + round) / n);
    let r3 = clamp_from((sum.3 + round) / n);
    [r0, r1, r2, r3]
}

/// The channel sums of column `x` over rows `y0 .. y1`.
pub open spec fn column_sums(img: Image<[u16; 4]>, x: int, y0: int, y1: int) -> ThumbnailSum {
    ThumbnailSum(
        column_sum(img, x, y0, y1, 0) as u32,
        column_sum(img, x, y0, y1, 1) as u32,
        column_sum(img, x, y0, y1, 2) as u32,
        column_sum(img, x, y0, y1, 3) as u32,
    )
}

/// The channel sums of row `y` over columns `x0 .. x1`.
pub open spec fn row_sums(img: Image<[u16; 4]>, y: int, x0: int, x1: int) -> ThumbnailSum {
    ThumbnailSum(
        row_sum(img, y, x0, x1, 0) as u32,
        row_sum(img, y, x0, x1, 1) as u32,
        row_sum(img, y, x0, x1, 2) as u32,
        row_sum(img, y, x0, x1, 3) as u32,
    )
}

/// The sums, over rows `bottom .. top`, of column `column` and of the column to its
/// right: the whole-pixel part of a thumbnail window that falls between two columns.
/// Both columns' sums must fit the `u32` accumulator.
pub fn thumbnail_column_sums(image: &Image<[u16; 4]>, column: u32, bottom: u32, top: u32) -> (r: (
    ThumbnailSum,
    ThumbnailSum,
))
    requires
        image.wf(),
        column + 1 < image.spec_width(),
        bottom <= top <= image.spec_height(),
        column_fits(*image, column as int, bottom as int, top as int),
        column_fits(*image, column + 1, bottom as int, top as int),
    ensures
        r.0 == column_sums(*image, column as int, bottom as int, top as int),
        r.1 == column_sums(*image, column + 1, bottom as int, top as int),
{
    proof {
        image.lemma_dimensions_bounded();
    }
    let mut sum_left = ThumbnailSum::zeroed();
    let mut sum_right = ThumbnailSum::zeroed();
    let mut y: u32 = bottom;
    while y < top
        invariant
            image.wf(),
            column + 1 < image.spec_width() <= u32::MAX,
            bottom <= y <= top <= image.spec_height(),
            column_fits(*image, column as int, bottom as int, top as int),
            column_fits(*image, column + 1, bottom as int, top as int),
            forall|c: int|
                0 <= c < 4 ==> #[trigger] sum_left.channel(c) == column_sum(
                    *image,
                    column as int,
                    bottom as int,
                    y as int,
                    c,
                ),
            forall|c: int|
                0 <= c < 4 ==> #[trigger] sum_right.channel(c) == column_sum(
                    *image,
                    column + 1,
                    bottom as int,
                    y as int,
                    c,
                ),
        decreases top - y,
    {
        let k_left = image.get_pixel(column, y);
        let k_right = image.get_pixel(column + 1, y);
        proof {
            assert forall|c: int| 0 <= c < 4 implies sum_left.channel(c) + comp(k_left, c)
                <= u32::MAX && sum_right.channel(c) + comp(k_right, c) <= u32::MAX by {
                lemma_column_sum_mono(*image, column as int, bottom as int, y + 1, top as int, c);
                lemma_column_sum_mono(*image, column + 1, bottom as int, y + 1, top as int, c);
                assert(column_sum(*image, column as int, bottom as int, top as int, c) <= u32::MAX);
                assert(column_sum(*image, column + 1, bottom as int, top as int, c) <= u32::MAX);
            }
        }
        sum_left.add_pixel(k_left);
        sum_right.add_pixel(k_right);
        y = y + 1;
    }
    proof {
        assert(sum_left.channel(0) == column_sum(*image, column as int, bottom as int, top as int, 0));
        assert(sum_left.channel(1) == column_sum(*image, column as int, bottom as int, top as int, 1));
        assert(sum_left.channel(2) == column_sum(*image, column as int, bottom as int, top as int, 2));
        assert(sum_left.channel(3) == column_sum(*image, column as int, bottom as int, top as int, 3));
        assert(sum_right.channel(0) == column_sum(*image, column + 1, bottom as int, top as int, 0));
        assert(sum_right.channel(1) == column_sum(*image, column + 1, bottom as int, top as int, 1));
        assert(sum_right.channel(2) == column_sum(*image, column + 1, bottom as int, top as int, 2));
        assert(sum_right.channel(3) == column_sum(*image, column + 1, bottom as int, top as int, 3));
    }
    (sum_left, sum_right)
}

/// The sums, over columns `left .. right`, of row `row` and of the row below it:
/// the whole-pixel part of a thumbnail window that falls between two rows.
/// Both rows' sums must fit the `u32` accumulator.
pub fn thumbnail_row_sums(image: &Image<[u16; 4]>, left: u32, right: u32, row: u32) -> (r: (
    ThumbnailSum,
    ThumbnailSum,
))
    requires
        image.wf(),
        row + 1 < image.spec_height(),
        left <= right <= image.spec_width(),
        row_fits(*image, row as int, left as int, right as int),
        row_fits(*image, row + 1, left as int, right as int),
    ensures
        r.0 == row_sums(*image, row as int, left as int, right as int),
        r.1 == row_sums(*image, row + 1, left as int, right as int),
{
    proof {
        image.lemma_dimensions_bounded();
    }
    let mut sum_bot = ThumbnailSum::zeroed();
    let mut sum_top = ThumbnailSum::zeroed();
    let mut x: u32 = left;
    while x < right
        invariant
            image.wf(),
            row + 1 < image.spec_height() <= u32::MAX,
            left <= x <= right <= image.spec_width(),
            row_fits(*image, row as int, left as int, right as int),
            row_fits(*image, row + 1, left as int, right as int),
            forall|c: int|
                0 <= c < 4 ==> #[trigger] sum_bot.channel(c) == row_sum(
                    *image,
                    row as int,
                    left as int,
                    x as int,
                    c,
                ),
            forall|c: int|
                0 <= c < 4 ==> #[trigger] sum_top.channel(c) == row_sum(
                    *image,
                    row + 1,
                    left as int,
                    x as int,
                    c,
                ),
        decreases right - x,
    {
        let k_bot = image.get_pixel(x, row);
        let k_top = image.get_pixel(x, row + 1);
        proof {
            assert forall|c: int| 0 <= c < 4 implies sum_bot.channel(c) + comp(k_bot, c)
                <= u32::MAX && sum_top.channel(c) + comp(k_top, c) <= u32::MAX by {
                lemma_row_sum_mono(*image, row as int, left as int, x + 1, right as int, c);
                lemma_row_sum_mono(*image, row + 1, left as int, x + 1, right as int, c);
                assert(row_sum(*image, row as int, left as int, right as int, c) <= u32::MAX);
                assert(row_sum(*image, row + 1, left as int, right as int, c) <= u32::MAX);
            }
        }
        sum_bot.add_pixel(k_bot);
        sum_top.add_pixel(k_top);
        x = x + 1;
    }
    proof {
        assert(sum_bot.channel(0) == row_sum(*image, row as int, left as int, right as int, 0));
        assert(sum_bot.channel(1) == row_sum(*image, row as int, left as int, right as int, 1));
        assert(sum_bot.channel(2) == row_sum(*image, row as int, left as int, right as int, 2));
        assert(sum_bot.channel(3) == row_sum(*image, row as int, left as int, right as int, 3));
        assert(sum_top.channel(0) == row_sum(*image, row + 1, left as int, right as int, 0));
        assert(sum_top.channel(1) == row_sum(*image, row + 1, left as int, right as int, 1));
        assert(sum_top.channel(2) == row_sum(*image, row + 1, left as int, right as int, 2));
        assert(sum_top.channel(3) == row_sum(*image, row + 1, left as int, right as int, 3));
    }
    (sum_bot, sum_top)
}

/// The edges of the input window of one output row or column of a thumbnail, each
/// rounded up to a whole pixel index (`ceil` of the scaled edge).
#[derive(Clone, Copy, Debug)]
pub struct Span {
    /// The rounded-up lower edge.
    pub low: u32,
    /// The rounded-up upper edge.
    pub high: u32,
}

/// The first input index of a thumbnail window over a line of `len` pixels.
pub open spec fn span_start(span: Span, len: nat) -> int {
    spec_clamp(span.low as int, 0, len - 1)
}

/// The end (exclusive) of a thumbnail window over a line of `len` pixels.
pub open spec fn span_end(span: Span, len: nat) -> int {
    spec_clamp(span.high as int, span_start(span, len), len as int)
}

/// The window `[start, end)` of input pixels that a thumbnail output row or column
/// covers on a line of `len` pixels: the start is held inside the line, and the end
/// between the start and the line's end.
pub fn thumbnail_bounds(span: Span, len: u32) -> (r: (u32, u32))
    requires
        len > 0,
    ensures
        r.0 == span_start(span, len as nat),
        r.1 == span_end(span, len as nat),
        r.0 < len,
        r.0 <= r.1 <= len,
        r.0 == (if span.low >= len { len - 1 } else { span.low as int }),
        r.1 == (if span.high > len { len as int } else if span.high < r.0 { r.0 as int } else {
            span.high as int
        }),
{
    let start: u32 = clamp_u32(span.low, 0, len - 1);
    let end: u32 = clamp_u32(span.high, start, len);
    (start, end)
}

/// The part of a thumbnail pixel's window that blends neighbouring input pixels,
/// with the whole-pixel sums it needs.
#[derive(Clone, Copy, Debug)]
pub enum ThumbnailFraction {
    /// The window spans rows `bottom .. top` but no whole column: it lies between
    /// `column` and `column + 1`, whose sums over those rows are given.
    Horizontal {
        column: u32,
        bottom: u32,
        top: u32,
        left_sums: ThumbnailSum,
        right_sums: ThumbnailSum,
    },
    /// The window spans columns `left .. right` but no whole row: it lies between
    /// `row` and `row + 1`, whose sums over those columns are given.
    Vertical { left: u32, right: u32, row: u32, bottom_sums: ThumbnailSum, top_sums: ThumbnailSum },
    /// The window holds no whole pixel: it lies among the four pixels at columns
    /// `column`, `column + 1` and rows `row`, `row + 1`.
    Corners {
        column: u32,
        row: u32,
        bottom_left: [u16; 4],
        top_left: [u16; 4],
        bottom_right: [u16; 4],
        top_right: [u16; 4],
    },
}

/// A thumbnail pixel whose window takes no whole block of pixels, to be blended from
/// its neighbours by their fractional coverage.
#[derive(Clone, Copy, Debug)]
pub struct FractionRequest {
    /// The output column.
    pub out_x: u32,
    /// The output row.
    pub out_y: u32,
    /// The neighbouring pixels or sums to blend.
    pub fraction: ThumbnailFraction,
}

/// The request for the output pixel `(x, y)` whose windows are `[l, r)` and `[b, t)`,
/// when they do not both hold whole pixels.
pub open spec fn fraction_request(
    img: Image<[u16; 4]>,
    x: int,
    y: int,
    l: int,
    r: int,
    b: int,
    t: int,
) -> FractionRequest {
    FractionRequest {
        out_x: x as u32,
        out_y: y as u32,
        fraction: if b != t {
            ThumbnailFraction::Horizontal {
                column: (r - 1) as u32,
                bottom: b as u32,
                top: t as u32,
                left_sums: column_sums(img, r - 1, b, t),
                right_sums: column_sums(img, r, b, t),
            }
        } else if l != r {
            ThumbnailFraction::Vertical {
                left: l as u32,
                right: r as u32,
                row: (t - 1) as u32,
                bottom_sums: row_sums(img, t - 1, l, r),
                top_sums: row_sums(img, t, l, r),
            }
        } else {
            ThumbnailFraction::Corners {
                column: (r - 1) as u32,
                row: (t - 1) as u32,
                bottom_left: img.pixel(r - 1, t - 1),
                top_left: img.pixel(r - 1, t),
                bottom_right: img.pixel(r, t - 1),
                top_right: img.pixel(r, t),
            }
        },
    }
}

/// Whether `p` is what the thumbnail holds at output position `(x, y)`: the rounded
/// block average when the window holds whole pixels in both directions, else a result
/// of `mix` on the blending request.
pub open spec fn thumbnail_pixel<F: Fn(FractionRequest) -> [u16; 4]>(
    img: Image<[u16; 4]>,
    cols: Seq<Span>,
    rows: Seq<Span>,
    mix: F,
    x: int,
    y: int,
    p: [u16; 4],
) -> bool {
    let l = span_start(cols[x], img.spec_width());
    let r = span_end(cols[x], img.spec_width());
    let b = span_start(rows[y], img.spec_height());
    let t = span_end(rows[y], img.spec_height());
    if b != t && l != r {
        forall|c: int| 0 <= c < 4 ==> #[trigger] comp(p, c) == block_mean(img, l, r, b, t, c)
    } else {
        call_ensures(mix, (fraction_request(img, x, y, l, r, b, t),), p)
    }
}

/// Whether the sums that the thumbnail pixel with windows `[l, r)` and `[b, t)` needs
/// fit the `u32` accumulator: the block's sums for a block, the two neighbouring
/// columns' or rows' sums for a window between two columns or rows.
pub open spec fn window_fits(img: Image<[u16; 4]>, l: int, r: int, b: int, t: int) -> bool {
    if b != t && l != r {
        block_fits(img, l, r, b, t)
    } else if b != t {
        column_fits(img, r - 1, b, t) && column_fits(img, r, b, t)
    } else if l != r {
        row_fits(img, t - 1, l, r) && row_fits(img, t, l, r)
    } else {
        true
    }
}

/// Whether the sums of output pixel `(i, j)` fit the accumulator.
pub open spec fn pair_fits(img: Image<[u16; 4]>, cols: Seq<Span>, rows: Seq<Span>, i: int, j: int) -> bool {
    window_fits(
        img,
        span_start(cols[i], img.spec_width()),
        span_end(cols[i], img.spec_width()),
        span_start(rows[j], img.spec_height()),
        span_end(rows[j], img.spec_height()),
    )
}

/// The spans that a thumbnail of `img` can be built from: every window's upper edge is
/// past the first pixel, and every output pixel's sums fit the `u32` accumulator.
pub open spec fn spans_fit(img: Image<[u16; 4]>, cols: Seq<Span>, rows: Seq<Span>) -> bool {
    &&& forall|i: int| 0 <= i < cols.len() ==> #[trigger] cols[i].high >= 1
    &&& forall|j: int| 0 <= j < rows.len() ==> #[trigger] rows[j].high >= 1
    &&& forall|i: int, j: int|
        0 <= i < cols.len() && 0 <= j < rows.len() ==> #[trigger] pair_fits(img, cols, rows, i, j)
}

/// Whether the sum of channel `c` over the block `[x0, x1) x [y0, y1)` is at most
/// `limit`; the sum stops as soon as it passes the limit.
fn block_sum_at_most(
    image: &Image<[u16; 4]>,
    x0: u32,
    x1: u32,
    y0: u32,
    y1: u32,
    c: usize,
    limit: u64,
) -> (r: bool)
    requires
        image.wf(),
        x0 <= x1 <= image.spec_width(),
        y0 <= y1 <= image.spec_height(),
        c < 4,
        limit <= u32::MAX,
    ensures
        r == (block_sum(*image, x0 as int, x1 as int, y0 as int, y1 as int, c as int) <= limit),
{
    let mut acc: u64 = 0;
    let mut y: u32 = y0;
    while y < y1
        invariant
            image.wf(),
            x0 <= x1 <= image.spec_width(),
            y0 <= y <= y1 <= image.spec_height(),
            c < 4,
            limit <= u32::MAX,
            acc == block_sum(*image, x0 as int, x1 as int, y0 as int, y as int, c as int),
            acc <= limit,
        decreases y1 - y,
    {
        let mut x: u32 = x0;
        while x < x1
            invariant
                image.wf(),
                x0 <= x <= x1 <= image.spec_width(),
                y0 <= y < y1 <= image.spec_height(),
                c < 4,
                limit <= u32::MAX,
                acc == block_sum(*image, x0 as int, x1 as int, y0 as int, y as int, c as int)
                    + row_sum(*image, y as int, x0 as int, x as int, c as int),
                acc <= limit,
            decreases x1 - x,
        {
            let p = image.get_pixel(x, y);
            acc = acc + p[c] as u64;
            proof {
                assert(row_sum(*image, y as int, x0 as int, x + 1, c as int) == row_sum(
                    *image,
                    y as int,
                    x0 as int,
                    x as int,
                    c as int,
                ) + comp(p, c as int));
            }
            if acc > limit {
                proof {
                    lemma_block_partial(
                        *image,
                        x0 as int,
                        x1 as int,
                        y0 as int,
                        y1 as int,
                        x + 1,
                        y as int,
                        c as int,
                    );
                }
                return false;
            }
            x = x + 1;
        }
        y = y + 1;
    }
    true
}

/// Whether the sums of every channel over the block `[x0, x1) x [y0, y1)` are at most
/// `limit`.
fn channels_at_most(image: &Image<[u16; 4]>, x0: u32, x1: u32, y0: u32, y1: u32, limit: u64) -> (r:
    bool)
    requires
        image.wf(),
        x0 <= x1 <= image.spec_width(),
        y0 <= y1 <= image.spec_height(),
        limit <= u32::MAX,
    ensures
        r == forall|c: int|
            0 <= c < 4 ==> #[trigger] block_sum(*image, x0 as int, x1 as int, y0 as int, y1 as int, c)
                <= limit,
{
    let mut c: usize = 0;
    while c < 4
        invariant
            image.wf(),
            x0 <= x1 <= image.spec_width(),
            y0 <= y1 <= image.spec_height(),
            limit <= u32::MAX,
            c <= 4,
            forall|k: int|
                0 <= k < c ==> #[trigger] block_sum(
                    *image,
                    x0 as int,
                    x1 as int,
                    y0 as int,
                    y1 as int,
                    k,
                ) <= limit,
        decreases 4 - c,
    {
        if !block_sum_at_most(image, x0, x1, y0, y1, c, limit) {
            return false;
        }
        c = c + 1;
    }
    true
}

/// Column sums fit exactly when the sums of the one-column block fit, as `ok` says.
proof fn lemma_column_fits_as_block(img: Image<[u16; 4]>, x0: u32, x1: u32, y0: u32, y1: u32, ok: bool)
    requires
        x1 == x0 + 1,
        y0 <= y1,
        ok == forall|c: int|
            0 <= c < 4 ==> #[trigger] block_sum(img, x0 as int, x1 as int, y0 as int, y1 as int, c)
                <= u32::MAX,
    ensures
        ok == column_fits(img, x0 as int, y0 as int, y1 as int),
{
    if ok {
        assert forall|c: int| 0 <= c < 4 implies #[trigger] column_sum(
            img,
            x0 as int,
            y0 as int,
            y1 as int,
            c,
        ) <= u32::MAX by {
            lemma_column_sum_is_block(img, x0 as int, y0 as int, y1 as int, c);
            assert(block_sum(img, x0 as int, x1 as int, y0 as int, y1 as int, c) <= u32::MAX);
        }
    } else {
        let c = choose|c: int|
            0 <= c < 4 && !(#[trigger] block_sum(img, x0 as int, x1 as int, y0 as int, y1 as int, c)
                <= u32::MAX);
        lemma_column_sum_is_block(img, x0 as int, y0 as int, y1 as int, c);
        assert(!(column_sum(img, x0 as int, y0 as int, y1 as int, c) <= u32::MAX));
    }
}

/// Row sums fit exactly when the sums of the one-row block fit, as `ok` says.
proof fn lemma_row_fits_as_block(img: Image<[u16; 4]>, y0: u32, y1: u32, x0: u32, x1: u32, ok: bool)
    requires
        y1 == y0 + 1,
        ok == forall|c: int|
            0 <= c < 4 ==> #[trigger] block_sum(img, x0 as int, x1 as int, y0 as int, y1 as int, c)
                <= u32::MAX,
    ensures
        ok == row_fits(img, y0 as int, x0 as int, x1 as int),
{
    if ok {
        assert forall|c: int| 0 <= c < 4 implies #[trigger] row_sum(
            img,
            y0 as int,
            x0 as int,
            x1 as int,
            c,
        ) <= u32::MAX by {
            lemma_row_sum_is_block(img, y0 as int, x0 as int, x1 as int, c);
            assert(block_sum(img, x0 as int, x1 as int, y0 as int, y1 as int, c) <= u32::MAX);
        }
    } else {
        let c = choose|c: int|
            0 <= c < 4 && !(#[trigger] block_sum(img, x0 as int, x1 as int, y0 as int, y1 as int, c)
                <= u32::MAX);
        lemma_row_sum_is_block(img, y0 as int, x0 as int, x1 as int, c);
        assert(!(row_sum(img, y0 as int, x0 as int, x1 as int, c) <= u32::MAX));
    }
}

/// Whether the sums that the thumbnail pixel with windows `[l, r)` and `[b, t)` needs
/// fit the `u32` accumulator.
fn window_sums_fit(image: &Image<[u16; 4]>, l: u32, r: u32, b: u32, t: u32) -> (ok: bool)
    requires
        image.wf(),
        l <= r <= image.spec_width(),
        b <= t <= image.spec_height(),
        l < image.spec_width(),
        b < image.spec_height(),
        l == r ==> r >= 1,
        b == t ==> t >= 1,
    ensures
        ok == window_fits(*image, l as int, r as int, b as int, t as int),
{
    proof {
        image.lemma_dimensions_bounded();
    }
    if b != t && l != r {
        let w: u64 = (r - l) as u64;
        let h: u64 = (t - b) as u64;
        proof {
            assert(w * h <= 0xffff_ffffu64 * 0xffff_ffffu64) by (nonlinear_arith)
                requires
                    w <= 0xffff_ffffu64,
                    h <= 0xffff_ffffu64,
            ;
        }
        let n: u64 = w * h;
        proof {
            assert(n == (r - l) * (t - b));
        }
        if n > 0xffff_ffffu64 {
            return false;
        }
        let limit: u64 = 0xffff_ffffu64 - n / 2;
        let ok = channels_at_most(image, l, r, b, t, limit);
        proof {
            if !ok {
                let c = choose|c: int|
                    0 <= c < 4 && !(#[trigger] block_sum(
                        *image,
                        l as int,
                        r as int,
                        b as int,
                        t as int,
                        c,
                    ) <= limit);
                assert(!(block_sum(*image, l as int, r as int, b as int, t as int, c) + (r - l) * (t
                    - b) / 2 <= u32::MAX));
            }
            assert(ok == block_fits(*image, l as int, r as int, b as int, t as int));
        }
        ok
    } else if b != t {
        let a = channels_at_most(image, r - 1, r, b, t, 0xffff_ffffu64);
        let z = channels_at_most(image, r, r + 1, b, t, 0xffff_ffffu64);
        proof {
            lemma_column_fits_as_block(*image, (r - 1) as u32, r, b, t, a);
            lemma_column_fits_as_block(*image, r, (r + 1) as u32, b, t, z);
        }
        a && z
    } else if l != r {
        let a = channels_at_most(image, l, r, t - 1, t, 0xffff_ffffu64);
        let z = channels_at_most(image, l, r, t, t + 1, 0xffff_ffffu64);
        proof {
            lemma_row_fits_as_block(*image, (t - 1) as u32, t, l, r, a);
            lemma_row_fits_as_block(*image, t, (t + 1) as u32, l, r, z);
        }
        a && z
    } else {
        true
    }
}

/// Whether `thumbnail` can be built from these spans: every window's upper edge is
/// past the first pixel and every output pixel's sums fit the `u32` accumulator.
pub fn thumbnail_fits(image: &Image<[u16; 4]>, cols: &Vec<Span>, rows: &Vec<Span>) -> (r: bool)
    requires
        image.wf(),
        image.spec_width() > 0,
        image.spec_height() > 0,
    ensures
        r == spans_fit(*image, cols@, rows@),
{
    let (width, height) = image.dimensions();
    let mut i: usize = 0;
    while i < cols.len()
        invariant
            i <= cols.len(),
            forall|k: int| 0 <= k < i ==> #[trigger] cols@[k].high >= 1,
        decreases cols.len() - i,
    {
        if cols[i].high < 1 {
            return false;
        }
        i = i + 1;
    }
    let mut j: usize = 0;
    while j < rows.len()
        invariant
            j <= rows.len(),
            forall|k: int| 0 <= k < j ==> #[trigger] rows@[k].high >= 1,
        decreases rows.len() - j,
    {
        if rows[j].high < 1 {
            return false;
        }
        j = j + 1;
    }
    let mut j: usize = 0;
    while j < rows.len()
        invariant
            image.wf(),
            width == image.spec_width() > 0,
            height == image.spec_height() > 0,
            forall|k: int| 0 <= k < cols.len() ==> #[trigger] cols@[k].high >= 1,
            forall|k: int| 0 <= k < rows.len() ==> #[trigger] rows@[k].high >= 1,
            j <= rows.len(),
            forall|a: int, b: int|
                0 <= a < cols.len() && 0 <= b < j ==> #[trigger] pair_fits(*image, cols@, rows@, a, b),
        decreases rows.len() - j,
    {
        let (b, t) = thumbnail_bounds(rows[j], height);
        let mut i: usize = 0;
        while i < cols.len()
            invariant
                image.wf(),
                width == image.spec_width() > 0,
                height == image.spec_height() > 0,
                forall|k: int| 0 <= k < cols.len() ==> #[trigger] cols@[k].high >= 1,
                forall|k: int| 0 <= k < rows.len() ==> #[trigger] rows@[k].high >= 1,
                j < rows.len(),
                i <= cols.len(),
                b == span_start(rows@[j as int], height as nat),
                t == span_end(rows@[j as int], height as nat),
                b < height,
                b <= t <= height,
                forall|a: int, bb: int|
                    (0 <= a < cols.len() && 0 <= bb < j) || (0 <= a < i && bb == j)
                        ==> #[trigger] pair_fits(*image, cols@, rows@, a, bb),
            decreases cols.len() - i,
        {
            let (l, r) = thumbnail_bounds(cols[i], width);
            proof {
                assert(cols@[i as int].high >= 1);
                assert(rows@[j as int].high >= 1);
            }
            if !window_sums_fit(image, l, r, b, t) {
                proof {
                    assert(!pair_fits(*image, cols@, rows@, i as int, j as int));
                }
                return false;
            }
            i = i + 1;
        }
        j = j + 1;
    }
    true
}

/// Resizes `image` to `new_width` by `new_height`, averaging for each output pixel the
/// input window that maps onto it. `cols[x]` and `rows[y]` are the rounded-up edges of
/// the windows of output column `x` and row `y`.
///
/// Where a window holds whole input pixels in both directions the output is the
/// rounded average of that block, so each input pixel there counts once. Where it does
/// not (when enlarging), the nearest input pixels, or their sums along the direction
/// that does hold whole pixels, are handed to `mix` to be blended by coverage. An empty
/// input gives an image of zero pixels. Pixels have up to four `u16` components (fewer
/// are padded with zeros, which average to zero); the sums each output pixel needs must
/// fit `u32`, which `thumbnail_fits` tells.
pub fn thumbnail<F: Fn(FractionRequest) -> [u16; 4]>(
    image: &Image<[u16; 4]>,
    new_width: u32,
    new_height: u32,
    cols: &Vec<Span>,
    rows: &Vec<Span>,
    mix: F,
) -> (out: Image<[u16; 4]>)
    requires
        image.wf(),
        new_width as nat * new_height as nat <= usize::MAX,
        image.spec_width() > 0 && image.spec_height() > 0 ==> cols.len() == new_width
            && rows.len() == new_height && spans_fit(*image, cols@, rows@),
        forall|req: FractionRequest| #[trigger] mix.requires((req,)),
    ensures
        out.wf(),
        out.spec_width() == new_width,
        out.spec_height() == new_height,
        image.spec_width() == 0 || image.spec_height() == 0 ==> forall|x: int, y: int|
            out.in_bounds(x, y) ==> #[trigger] out.pixel(x, y) == [0u16, 0u16, 0u16, 0u16],
        image.spec_width() > 0 && image.spec_height() > 0 ==> forall|x: int, y: int|
            out.in_bounds(x, y) ==> thumbnail_pixel(
                *image,
                cols@,
                rows@,
                mix,
                x,
                y,
                #[trigger] out.pixel(x, y),
            ),
{
    let (width, height) = image.dimensions();
    let mut out = Image::new(new_width, new_height, [0u16, 0u16, 0u16, 0u16]);
    if height == 0 || width == 0 {
        return out;
    }
    let mut outy: u32 = 0;
    while outy < new_height
        invariant
            image.wf(),
            width == image.spec_width() > 0,
            height == image.spec_height() > 0,
            cols.len() == new_width,
            rows.len() == new_height,
            spans_fit(*image, cols@, rows@),
            forall|req: FractionRequest| #[trigger] mix.requires((req,)),
            out.wf(),
            out.spec_width() == new_width,
            out.spec_height() == new_height,
            outy <= new_height,
            forall|x: int, y: int|
                0 <= x < new_width && 0 <= y < outy ==> thumbnail_pixel(
                    *image,
                    cols@,
                    rows@,
                    mix,
                    x,
                    y,
                    #[trigger] out.pixel(x, y),
                ),
        decreases new_height - outy,
    {
        let (bottom, top) = thumbnail_bounds(rows[outy as usize], height);
        let mut outx: u32 = 0;
        while outx < new_width
            invariant
                image.wf(),
                width == image.spec_width() > 0,
                height == image.spec_height() > 0,
                cols.len() == new_width,
                rows.len() == new_height,
                spans_fit(*image, cols@, rows@),
                forall|req: FractionRequest| #[trigger] mix.requires((req,)),
                out.wf(),
                out.spec_width() == new_width,
                out.spec_height() == new_height,
                outy < new_height,
                outx <= new_width,
                bottom == span_start(rows@[outy as int], height as nat),
                top == span_end(rows@[outy as int], height as nat),
                bottom < height,
                bottom <= top <= height,
                forall|x: int, y: int|
                    (0 <= x < new_width && 0 <= y < outy) || (0 <= x < outx && y == outy)
                        ==> thumbnail_pixel(
                        *image,
                        cols@,
                        rows@,
                        mix,
                        x,
                        y,
                        #[trigger] out.pixel(x, y),
                    ),
            decreases new_width - outx,
        {
            let (left, right) = thumbnail_bounds(cols[outx as usize], width);
            proof {
                image.lemma_dimensions_bounded();
                assert(pair_fits(*image, cols@, rows@, outx as int, outy as int));
                assert(cols@[outx as int].high >= 1);
                assert(rows@[outy as int].high >= 1);
            }
            let pixel: [u16; 4] = if bottom != top && left != right {
                thumbnail_sample_block(image, left, right, bottom, top)
            } else if bottom != top {
                let (left_sums, right_sums) = thumbnail_column_sums(image, right - 1, bottom, top);
                mix(
                    FractionRequest {
                        out_x: outx,
                        out_y: outy,
                        fraction: ThumbnailFraction::Horizontal {
                            column: right - 1,
                            bottom,
                            top,
                            left_sums,
                            right_sums,
                        },
                    },
                )
            } else if left != right {
                let (bottom_sums, top_sums) = thumbnail_row_sums(image, left, right, top - 1);
                mix(
                    FractionRequest {
                        out_x: outx,
                        out_y: outy,
                        fraction: ThumbnailFraction::Vertical {
                            left,
                            right,
                            row: top - 1,
                            bottom_sums,
                            top_sums,
                        },
                    },
                )
            } else {
                let bottom_left = image.get_pixel(right - 1, top - 1);
                let top_left = image.get_pixel(right - 1, top);
                let bottom_right = image.get_pixel(right, top - 1);
                let top_right = image.get_pixel(right, top);
                mix(
                    FractionRequest {
                        out_x: outx,
                        out_y: outy,
                        fraction: ThumbnailFraction::Corners {
                            column: right - 1,
                            row: top - 1,
                            bottom_left,
                            top_left,
                            bottom_right,
                            top_right,
                        },
                    },
                )
            };
            out.put_pixel(outx, outy, pixel);
            outx = outx + 1;
        }
        outy = outy + 1;
    }
    out
}


/// Whether channel `c` of every pixel of the block `[x0, x1) x [y0, y1)` lies in `[lo, hi]`.
pub open spec fn block_channel_within(
    img: Image<[u16; 4]>,
    x0: int,
    x1: int,
    y0: int,
    y1: int,
    c: int,
    lo: int,
    hi: int,
) -> bool {
    forall|x: int, y: int|
        x0 <= x < x1 && y0 <= y < y1 ==> lo <= #[trigger] comp(img.pixel(x, y), c) <= hi
}

proof fn lemma_row_sum_within(
    img: Image<[u16; 4]>,
    y: int,
    x0: int,
    x1: int,
    c: int,
    lo: int,
    hi: int,
)
    requires
        x0 <= x1,
        forall|x: int| x0 <= x < x1 ==> lo <= #[trigger] comp(img.pixel(x, y), c) <= hi,
    ensures
        lo * (x1 - x0) <= row_sum(img, y, x0, x1, c) <= hi * (x1 - x0),
    decreases x1 - x0,
{
    if x1 > x0 {
        lemma_row_sum_within(img, y, x0, x1 - 1, c, lo, hi);
        assert(comp(img.pixel(x1 - 1, y), c) <= hi);
        assert(lo <= comp(img.pixel(x1 - 1, y), c));
        assert(lo * (x1 - 1 - x0) + lo == lo * (x1 - x0)) by (nonlinear_arith);
        assert(hi * (x1 - 1 - x0) + hi == hi * (x1 - x0)) by (nonlinear_arith);
    } else {
        assert(lo * (x1 - x0) == 0 && hi * (x1 - x0) == 0) by (nonlinear_arith)
            requires
                x1 == x0,
        ;
    }
}

proof fn lemma_block_sum_within(
    img: Image<[u16; 4]>,
    x0: int,
    x1: int,
    y0: int,
    y1: int,
    c: int,
    lo: int,
    hi: int,
)
    requires
        x0 <= x1,
        y0 <= y1,
        block_channel_within(img, x0, x1, y0, y1, c, lo, hi),
    ensures
        lo * ((x1 - x0) * (y1 - y0)) <= block_sum(img, x0, x1, y0, y1, c) <= hi * ((x1 - x0) * (
        y1 - y0)),
    decreases y1 - y0,
{
    if y1 > y0 {
        lemma_block_sum_within(img, x0, x1, y0, y1 - 1, c, lo, hi);
        assert forall|x: int| x0 <= x < x1 implies lo <= #[trigger] comp(img.pixel(x, y1 - 1), c)
            <= hi by {
            assert(x0 <= x < x1 && y0 <= y1 - 1 < y1);
        }
        lemma_row_sum_within(img, y1 - 1, x0, x1, c, lo, hi);
        let w = x1 - x0;
        let h = y1 - y0;
        assert(lo * (w * (h - 1)) + lo * w == lo * (w * h)) by (nonlinear_arith);
        assert(hi * (w * (h - 1)) + hi * w == hi * (w * h)) by (nonlinear_arith);
    } else {
        assert(lo * ((x1 - x0) * (y1 - y0)) == 0 && hi * ((x1 - x0) * (y1 - y0)) == 0)
            by (nonlinear_arith)
            requires
                y1 == y0,
        ;
    }
}

/// The rounded mean of `n` values within `[lo, hi]` lies within `[lo, hi]`.
proof fn lemma_rounded_mean_within(sum: int, n: int, lo: int, hi: int)
    requires
        n > 0,
        lo * n <= sum <= hi * n,
    ensures
        lo <= rounded_mean(sum, n) <= hi,
{
    let q = (sum + n / 2) / n;
    assert(lo <= q) by (nonlinear_arith)
        requires
            n > 0,
            lo * n <= sum,
            0 <= n / 2,
            q == (sum + n / 2) / n,
    ;
    assert(q <= hi) by (nonlinear_arith)
        requires
            n > 0,
            sum <= hi * n,
            n / 2 < n,
            q == (sum + n / 2) / n,
    ;
}

/// Averaging never leaves the range of the averaged values: when channel `c` of every
/// pixel of a non-empty block lies in `[lo, hi]`, so does the block's rounded mean.
pub proof fn lemma_block_mean_within(
    img: Image<[u16; 4]>,
    x0: int,
    x1: int,
    y0: int,
    y1: int,
    c: int,
    lo: int,
    hi: int,
)
    requires
        x0 < x1,
        y0 < y1,
        block_channel_within(img, x0, x1, y0, y1, c, lo, hi),
    ensures
        lo <= block_mean(img, x0, x1, y0, y1, c) <= hi,
{
    lemma_block_sum_within(img, x0, x1, y0, y1, c, lo, hi);
    assert((x1 - x0) * (y1 - y0) > 0) by (nonlinear_arith)
        requires
            x0 < x1,
            y0 < y1,
    ;
    lemma_rounded_mean_within(block_sum(img, x0, x1, y0, y1, c), (x1 - x0) * (y1 - y0), lo, hi);
}

/// A block of one colour averages to that colour.
pub proof fn lemma_uniform_block_mean(
    img: Image<[u16; 4]>,
    x0: int,
    x1: int,
    y0: int,
    y1: int,
    p: [u16; 4],
)
    requires
        x0 < x1,
        y0 < y1,
        forall|x: int, y: int| x0 <= x < x1 && y0 <= y < y1 ==> #[trigger] img.pixel(x, y) == p,
    ensures
        forall|c: int| 0 <= c < 4 ==> #[trigger] block_mean(img, x0, x1, y0, y1, c) == comp(p, c),
{
    assert forall|c: int| 0 <= c < 4 implies #[trigger] block_mean(img, x0, x1, y0, y1, c) == comp(
        p,
        c,
    ) by {
        assert forall|x: int, y: int| x0 <= x < x1 && y0 <= y < y1 implies comp(p, c)
            <= #[trigger] comp(img.pixel(x, y), c) <= comp(p, c) by {
            assert(img.pixel(x, y) == p);
        }
        lemma_block_mean_within(img, x0, x1, y0, y1, c, comp(p, c), comp(p, c));
    }
}

/// Spans that cover each output index `i` with exactly the input pixel `i`.
pub open spec fn unit_spans(spans: Seq<Span>) -> bool {
    forall|i: int| 0 <= i < spans.len() ==> #[trigger] spans[i].low == i && spans[i].high == i + 1
}

/// A thumbnail at the image's own size, whose windows are single pixels, is the image
/// itself.
pub proof fn lemma_same_size_thumbnail<F: Fn(FractionRequest) -> [u16; 4]>(
    img: Image<[u16; 4]>,
    cols: Seq<Span>,
    rows: Seq<Span>,
    mix: F,
    x: int,
    y: int,
    p: [u16; 4],
)
    requires
        cols.len() == img.spec_width(),
        rows.len() == img.spec_height(),
        unit_spans(cols),
        unit_spans(rows),
        img.in_bounds(x, y),
        thumbnail_pixel(img, cols, rows, mix, x, y, p),
    ensures
        p == img.pixel(x, y),
{
    assert(cols[x].low == x && cols[x].high == x + 1);
    assert(rows[y].low == y && rows[y].high == y + 1);
    lemma_uniform_block_mean(img, x, x + 1, y, y + 1, img.pixel(x, y));
    assert(forall|c: int| 0 <= c < 4 ==> #[trigger] comp(p, c) == comp(img.pixel(x, y), c));
    assert(comp(p, 0) == comp(img.pixel(x, y), 0));
    assert(comp(p, 1) == comp(img.pixel(x, y), 1));
    assert(comp(p, 2) == comp(img.pixel(x, y), 2));
    assert(comp(p, 3) == comp(img.pixel(x, y), 3));
    assert(p =~= img.pixel(x, y));
}


/// Spans that cut a line of `len` pixels into consecutive non-empty windows: the
/// first starts at 0, each ends where the next starts, and the last ends at `len`.
pub open spec fn spans_tile(spans: Seq<Span>, len: nat) -> bool {
    &&& spans.len() > 0
    &&& spans[0].low == 0
    &&& spans[spans.len() - 1].high == len
    &&& forall|i: int| 0 <= i < spans.len() ==> #[trigger] spans[i].low < spans[i].high
    &&& forall|i: int| 0 <= i < spans.len() - 1 ==> #[trigger] spans[i].high == spans[i + 1].low
}

proof fn lemma_tiling_ordered(spans: Seq<Span>, len: nat, i: int, j: int)
    requires
        spans_tile(spans, len),
        0 <= i < j < spans.len(),
    ensures
        spans[i].high <= spans[j].low,
    decreases j - i,
{
    assert(spans[j - 1].high == spans[j].low);
    if i < j - 1 {
        lemma_tiling_ordered(spans, len, i, j - 1);
        assert(spans[j - 1].low < spans[j - 1].high);
    }
}

proof fn lemma_tiling_exact(spans: Seq<Span>, len: nat, i: int)
    requires
        spans_tile(spans, len),
        0 <= i < spans.len(),
    ensures
        span_start(spans[i], len) == spans[i].low,
        span_end(spans[i], len) == spans[i].high,
{
    let n = spans.len() as int;
    assert(spans[i].low < spans[i].high);
    if i < n - 1 {
        lemma_tiling_ordered(spans, len, i, n - 1);
        assert(spans[n - 1].low < spans[n - 1].high);
    }
}

proof fn lemma_tiling_covers(spans: Seq<Span>, len: nat, k: int, p: int)
    requires
        spans_tile(spans, len),
        0 <= k < spans.len(),
        spans[k].low <= p < len,
    ensures
        exists|i: int| 0 <= i < spans.len() && #[trigger] spans[i].low <= p < spans[i].high,
    decreases spans.len() - k,
{
    if p < spans[k].high {
        assert(0 <= k < spans.len() && spans[k].low <= p < spans[k].high);
    } else {
        assert(k + 1 < spans.len());
        assert(spans[k].high == spans[k + 1].low);
        lemma_tiling_covers(spans, len, k + 1, p);
    }
}

/// When the spans tile a line, the thumbnail windows partition it: every input index
/// `p` lies in the window of exactly one output index, so each input pixel counts
/// towards exactly one output pixel.
pub proof fn lemma_tiling_windows_partition(spans: Seq<Span>, len: nat, p: int)
    requires
        spans_tile(spans, len),
        0 <= p < len,
    ensures
        exists|i: int|
            0 <= i < spans.len() && #[trigger] span_start(spans[i], len) <= p < span_end(
                spans[i],
                len,
            ),
        forall|i: int, j: int|
            0 <= i < spans.len() && 0 <= j < spans.len() && #[trigger] span_start(spans[i], len)
                <= p < span_end(spans[i], len) && #[trigger] span_start(spans[j], len) <= p < span_end(
                spans[j],
                len,
            ) ==> i == j,
{
    lemma_tiling_covers(spans, len, 0, p);
    let i = choose|i: int| 0 <= i < spans.len() && #[trigger] spans[i].low <= p < spans[i].high;
    lemma_tiling_exact(spans, len, i);
    assert forall|a: int, b: int|
        0 <= a < spans.len() && 0 <= b < spans.len() && #[trigger] span_start(spans[a], len) <= p
            < span_end(spans[a], len) && #[trigger] span_start(spans[b], len) <= p < span_end(
            spans[b],
            len,
        ) implies a == b by {
        lemma_tiling_exact(spans, len, a);
        lemma_tiling_exact(spans, len, b);
        if a < b {
            lemma_tiling_ordered(spans, len, a, b);
        } else if b < a {
            lemma_tiling_ordered(spans, len, b, a);
        }
    }
}


/// Where an output pixel's window lies between two neighbouring input columns, the
/// blend receives the sums of the left column as its left sums and those of the column
/// to its right as its right sums; between two rows, the sums of the upper row
/// (`row`) as its bottom sums and those of the next row as its top sums; among four
/// pixels, each pixel at its own corner.
#[verifier::spinoff_prover]
#[verifier::rlimit(40)]
pub proof fn lemma_thumbnail_fraction_sides<F: Fn(FractionRequest) -> [u16; 4]>(
    img: Image<[u16; 4]>,
    cols: Seq<Span>,
    rows: Seq<Span>,
    mix: F,
    x: int,
    y: int,
    p: [u16; 4],
)
    requires
        img.spec_width() > 0,
        img.spec_height() > 0,
        0 <= x < cols.len() <= u32::MAX,
        0 <= y < rows.len() <= u32::MAX,
        spans_fit(img, cols, rows),
        thumbnail_pixel(img, cols, rows, mix, x, y, p),
    ensures
        ({
            let l = span_start(cols[x], img.spec_width());
            let r = span_end(cols[x], img.spec_width());
            let b = span_start(rows[y], img.spec_height());
            let t = span_end(rows[y], img.spec_height());
            &&& b != t && l == r ==> exists|req: FractionRequest|
                #[trigger] call_ensures(mix, (req,), p) && req.out_x == x && req.out_y == y && (
                match req.fraction {
                    ThumbnailFraction::Horizontal { column, bottom, top, left_sums, right_sums } => {
                        &&& column + 1 == r
                        &&& bottom == b
                        &&& top == t
                        &&& forall|c: int|
                            0 <= c < 4 ==> #[trigger] left_sums.channel(c) == column_sum(
                                img,
                                column as int,
                                b,
                                t,
                                c,
                            ) && right_sums.channel(c) == column_sum(img, column + 1, b, t, c)
                    },
                    _ => false,
                })
            &&& b == t && l != r ==> exists|req: FractionRequest|
                #[trigger] call_ensures(mix, (req,), p) && req.out_x == x && req.out_y == y && (
                match req.fraction {
                    ThumbnailFraction::Vertical { left, right, row, bottom_sums, top_sums } => {
                        &&& row + 1 == t
                        &&& left == l
                        &&& right == r
                        &&& forall|c: int|
                            0 <= c < 4 ==> #[trigger] bottom_sums.channel(c) == row_sum(
                                img,
                                row as int,
                                l,
                                r,
                                c,
                            ) && top_sums.channel(c) == row_sum(img, row + 1, l, r, c)
                    },
                    _ => false,
                })
            &&& b == t && l == r ==> exists|req: FractionRequest|
                #[trigger] call_ensures(mix, (req,), p) && req.out_x == x && req.out_y == y && (
                match req.fraction {
                    ThumbnailFraction::Corners {
                        column,
                        row,
                        bottom_left,
                        top_left,
                        bottom_right,
                        top_right,
                    } => {
                        &&& column + 1 == r
                        &&& row + 1 == t
                        &&& bottom_left == img.pixel(column as int, row as int)
                        &&& top_left == img.pixel(column as int, row + 1)
                        &&& bottom_right == img.pixel(column + 1, row as int)
                        &&& top_right == img.pixel(column + 1, row + 1)
                    },
                    _ => false,
                })
        }),
{
    let w = img.spec_width();
    let h = img.spec_height();
    let l = span_start(cols[x], w);
    let r = span_end(cols[x], w);
    let b = span_start(rows[y], h);
    let t = span_end(rows[y], h);
    assert(pair_fits(img, cols, rows, x, y));
    assert(cols[x].high >= 1);
    assert(rows[y].high >= 1);
    img.lemma_dimensions_bounded();
    let req = fraction_request(img, x, y, l, r, b, t);
    assert(0 <= l <= r <= w && 0 <= b <= t <= h && l < w && b < h);
    if b != t && l == r {
        assert(r >= 1);
        assert(call_ensures(mix, (req,), p));
        assert(req.out_x == x && req.out_y == y);
        assert forall|c: int| 0 <= c < 4 implies #[trigger] column_sums(img, r - 1, b, t).channel(c)
            == column_sum(img, r - 1, b, t, c) && column_sums(img, r, b, t).channel(c) == column_sum(
            img,
            r,
            b,
            t,
            c,
        ) by {
            lemma_column_sum_nonneg(img, r - 1, b, t, c);
            lemma_column_sum_nonneg(img, r, b, t, c);
            assert(column_sum(img, r - 1, b, t, c) <= u32::MAX);
            assert(column_sum(img, r, b, t, c) <= u32::MAX);
        }
        let column = (r - 1) as u32;
        assert(column as int == r - 1);
        assert(req.fraction == ThumbnailFraction::Horizontal {
            column,
            bottom: b as u32,
            top: t as u32,
            left_sums: column_sums(img, r - 1, b, t),
            right_sums: column_sums(img, r, b, t),
        });
    } else if b == t && l != r {
        assert(t >= 1);
        assert(call_ensures(mix, (req,), p));
        assert(req.out_x == x && req.out_y == y);
        assert forall|c: int| 0 <= c < 4 implies #[trigger] row_sums(img, t - 1, l, r).channel(c)
            == row_sum(img, t - 1, l, r, c) && row_sums(img, t, l, r).channel(c) == row_sum(
            img,
            t,
            l,
            r,
            c,
        ) by {
            lemma_row_sum_nonneg(img, t - 1, l, r, c);
            lemma_row_sum_nonneg(img, t, l, r, c);
            assert(row_sum(img, t - 1, l, r, c) <= u32::MAX);
            assert(row_sum(img, t, l, r, c) <= u32::MAX);
        }
        let row = (t - 1) as u32;
        assert(row as int == t - 1);
        assert(req.fraction == ThumbnailFraction::Vertical {
            left: l as u32,
            right: r as u32,
            row,
            bottom_sums: row_sums(img, t - 1, l, r),
            top_sums: row_sums(img, t, l, r),
        });
    } else if b == t && l == r {
        assert(r >= 1 && t >= 1);
        assert(call_ensures(mix, (req,), p));
        assert(req.out_x == x && req.out_y == y);
    }
}


/// A thumbnail window starts at its rounded-up lower edge when that lies on the line
/// (else at the last pixel), and ends at its rounded-up upper edge when that lies
/// between the start and the line's end (else at the nearer of the two).
pub proof fn lemma_span_window(span: Span, len: nat)
    requires
        len > 0,
    ensures
        span.low < len ==> span_start(span, len) == span.low,
        span.low >= len ==> span_start(span, len) == len - 1,
        span_start(span, len) <= span.high <= len ==> span_end(span, len) == span.high,
        span.high > len ==> span_end(span, len) == len,
        span.high < span_start(span, len) ==> span_end(span, len) == span_start(span, len),
        0 <= span_start(span, len) <= span_end(span, len) <= len,
{
}

/// The rounded mean is the integer nearest to `sum / n`, with halves rounded up: it
/// misses `sum / n` by at most a half, and by exactly a half only from below.
pub proof fn lemma_rounded_mean_nearest(sum: int, n: int)
    requires
        n > 0,
    ensures
        -n <= 2 * (sum - n * rounded_mean(sum, n)) < n,
{
    let m = rounded_mean(sum, n);
    let h = n / 2;
    assert(n * m <= sum + h < n * m + n) by (nonlinear_arith)
        requires
            n > 0,
            m == (sum + h) / n,
    ;
    assert(2 * h <= n < 2 * h + 2) by (nonlinear_arith)
        requires
            n > 0,
            h == n / 2,
    ;
}

} // verus!

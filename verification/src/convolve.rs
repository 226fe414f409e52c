//! The 3x3 filter: which input pixels each output pixel is computed from.
use vstd::prelude::*;
use crate::image::Image;

verus! {

/// The position of the `i`-th tap of the 3x3 filter centred on `(x, y)`: taps run
/// row by row from the top left `(x - 1, y - 1)` to the bottom right `(x + 1, y + 1)`.
pub open spec fn spec_tap(x: int, y: int, i: int) -> (int, int) {
    (x + i % 3 - 1, y + i / 3 - 1)
}

/// The nine pixels around `(x, y)`, in the order of the kernel's weights.
pub open spec fn neighbourhood<T>(img: Image<T>, x: int, y: int) -> [T; 9] {
    [
        img.pixel(x - 1, y - 1),
        img.pixel(x, y - 1),
        img.pixel(x + 1, y - 1),
        img.pixel(x - 1, y),
        img.pixel(x, y),
        img.pixel(x + 1, y),
        img.pixel(x - 1, y + 1),
        img.pixel(x, y + 1),
        img.pixel(x + 1, y + 1),
    ]
}

/// The `i`-th entry of the neighbourhood is the pixel at the `i`-th tap.
pub proof fn lemma_neighbourhood_taps<T>(img: Image<T>, x: int, y: int, i: int)
    requires
        0 <= i < 9,
    ensures
        neighbourhood(img, x, y)[i] == img.pixel(spec_tap(x, y, i).0, spec_tap(x, y, i).1),
        neighbourhood(img, x, y)[i] == img.pixel(x + i % 3 - 1, y + i / 3 - 1),
{
}

/// Whether `(x, y)` is an inner pixel of an image `width` by `height`: one that has
/// all eight neighbours.
pub open spec fn is_inner(width: nat, height: nat, x: int, y: int) -> bool {
    1 <= x < width - 1 && 1 <= y < height - 1
}

/// Whether `out` is the 3x3 filter of `image`: of the image's size, with each inner
/// pixel a result of `apply` on its neighbourhood and every other pixel `fill`.
pub open spec fn filter3x3_result<T, F: Fn([T; 9]) -> T>(image: Image<T>, fill: T, apply: F, out: Image<T>) -> bool {
    &&& out.spec_width() == image.spec_width()
    &&& out.spec_height() == image.spec_height()
    &&& forall|x: int, y: int|
        out.in_bounds(x, y) && !is_inner(image.spec_width(), image.spec_height(), x, y)
            ==> #[trigger] out.pixel(x, y) == fill
    &&& forall|x: int, y: int|
        is_inner(image.spec_width(), image.spec_height(), x, y) ==> call_ensures(
            apply,
            (neighbourhood(image, x, y),),
            #[trigger] out.pixel(x, y),
        )
}

/// The 3x3 filter computes every pixel that has all eight neighbours, in every row
/// and column from the second to the one before last, from the nine pixels around
/// it, and leaves the first and last rows and columns at `fill`.
pub proof fn lemma_filter3x3_covers_inner<T, F: Fn([T; 9]) -> T>(
    image: Image<T>,
    fill: T,
    apply: F,
    out: Image<T>,
)
    requires
        filter3x3_result(image, fill, apply, out),
    ensures
        forall|x: int, y: int|
            1 <= x < image.spec_width() - 1 && 1 <= y < image.spec_height() - 1 ==> call_ensures(
                apply,
                (neighbourhood(image, x, y),),
                #[trigger] out.pixel(x, y),
            ),
        forall|x: int, y: int|
            0 <= x < image.spec_width() && 0 <= y < image.spec_height() && (x == 0 || y == 0 || x
                == image.spec_width() - 1 || y == image.spec_height() - 1) ==> #[trigger] out.pixel(
                x,
                y,
            ) == fill,
{
    assert forall|x: int, y: int|
        1 <= x < image.spec_width() - 1 && 1 <= y < image.spec_height() - 1 implies call_ensures(
        apply,
        (neighbourhood(image, x, y),),
        #[trigger] out.pixel(x, y),
    ) by {
        assert(is_inner(image.spec_width(), image.spec_height(), x, y));
    }
    assert forall|x: int, y: int|
        0 <= x < image.spec_width() && 0 <= y < image.spec_height() && (x == 0 || y == 0 || x
            == image.spec_width() - 1 || y == image.spec_height() - 1) implies #[trigger] out.pixel(
        x,
        y,
    ) == fill by {
        assert(out.in_bounds(x, y));
        assert(!is_inner(image.spec_width(), image.spec_height(), x, y));
    }
}

/// Applies a 3x3 filter to `image`: each inner pixel of the result is `apply` of the
/// nine pixels around it in the input, in kernel order; the pixels on the border,
/// which lack neighbours, keep the value `fill`.
///
/// The image must have a row, and a column when it has three rows or more: the
/// row and column ranges of the inner pixels start from `height - 1` and
/// `width - 1`.
pub fn filter3x3<T: Copy, F: Fn([T; 9]) -> T>(image: &Image<T>, fill: T, apply: F) -> (out: Image<T>)
    requires
        image.wf(),
        image.spec_height() >= 1,
        image.spec_height() >= 3 ==> image.spec_width() >= 1,
        forall|n: [T; 9]| #[trigger] apply.requires((n,)),
    ensures
        out.wf(),
        out.spec_width() == image.spec_width(),
        out.spec_height() == image.spec_height(),
        forall|x: int, y: int|
            out.in_bounds(x, y) && !is_inner(image.spec_width(), image.spec_height(), x, y)
                ==> #[trigger] out.pixel(x, y) == fill,
        forall|x: int, y: int|
            is_inner(image.spec_width(), image.spec_height(), x, y) ==> call_ensures(
                apply,
                (neighbourhood(*image, x, y),),
                #[trigger] out.pixel(x, y),
            ),
        filter3x3_result(*image, fill, apply, out),
        forall|x: int, y: int|
            1 <= x < image.spec_width() - 1 && 1 <= y < image.spec_height() - 1 ==> call_ensures(
                apply,
                (neighbourhood(*image, x, y),),
                #[trigger] out.pixel(x, y),
            ),
{
    let (width, height) = image.dimensions();
    let mut out = Image::new(width, height, fill);
    let mut y: u32 = 1;
    let y_end: u32 = height - 1;
    while y < y_end
        invariant
            image.wf(),
            width == image.spec_width(),
            height == image.spec_height(),
            height >= 1,
            y_end == height - 1,
            height >= 3 ==> width >= 1,
            forall|n: [T; 9]| #[trigger] apply.requires((n,)),
            1 <= y,
            y_end > 1 ==> y <= y_end,
            out.wf(),
            out.spec_width() == width,
            out.spec_height() == height,
            forall|i: int, j: int|
                out.in_bounds(i, j) && !(is_inner(width as nat, height as nat, i, j) && j < y)
                    ==> #[trigger] out.pixel(i, j) == fill,
            forall|i: int, j: int|
                is_inner(width as nat, height as nat, i, j) && j < y ==> call_ensures(
                    apply,
                    (neighbourhood(*image, i, j),),
                    #[trigger] out.pixel(i, j),
                ),
        decreases y_end - y,
    {
        let mut x: u32 = 1;
        let x_end: u32 = width - 1;
        while x < x_end
            invariant
                image.wf(),
                width == image.spec_width(),
                height == image.spec_height(),
                width >= 1,
                x_end == width - 1,
                forall|n: [T; 9]| #[trigger] apply.requires((n,)),
                1 <= y < y_end,
                y_end == height - 1,
                1 <= x,
                x_end > 1 ==> x <= x_end,
                out.wf(),
                out.spec_width() == width,
                out.spec_height() == height,
                forall|i: int, j: int|
                    out.in_bounds(i, j) && !(is_inner(width as nat, height as nat, i, j) && (j < y
                        || (j == y && i < x))) ==> #[trigger] out.pixel(i, j) == fill,
                forall|i: int, j: int|
                    is_inner(width as nat, height as nat, i, j) && (j < y || (j == y && i < x))
                        ==> call_ensures(
                        apply,
                        (neighbourhood(*image, i, j),),
                        #[trigger] out.pixel(i, j),
                    ),
            decreases x_end - x,
        {
            let n: [T; 9] = [
                image.get_pixel(x - 1, y - 1),
                image.get_pixel(x, y - 1),
                image.get_pixel(x + 1, y - 1),
                image.get_pixel(x - 1, y),
                image.get_pixel(x, y),
                image.get_pixel(x + 1, y),
                image.get_pixel(x - 1, y + 1),
                image.get_pixel(x, y + 1),
                image.get_pixel(x + 1, y + 1),
            ];
            proof {
                assert(n =~= neighbourhood(*image, x as int, y as int));
            }
            let p = apply(n);
            out.put_pixel(x, y, p);
            x = x + 1;
        }
        y = y + 1;
    }
    out
}

} // verus!

//! The per-component rule of the unsharpen mask.
use vstd::prelude::*;
use crate::image::Image;
use crate::utils::{clamp_i32, spec_clamp};

verus! {

/// `|x|`.
pub open spec fn abs(x: int) -> int {
    if x < 0 {
        -x
    } else {
        x
    }
}

/// The unsharpen rule for one component, with `a` the original value and `b` the
/// blurred one: when they differ by more than `threshold` the difference is added
/// once more to the original and the result clamped to `[0, max]`; otherwise the
/// original component is kept (`None`).
pub open spec fn spec_unsharpen(a: int, b: int, threshold: int, max: int) -> Option<int> {
    let diff = a - b;
    if abs(diff) > threshold {
        Some(spec_clamp(a + diff, 0, max))
    } else {
        None
    }
}

/// Whether the unsharpen rule can be computed in `i32` for these values: the
/// difference, its absolute value and the sharpened value all fit.
pub open spec fn unsharpen_fits(a: int, b: int, threshold: int) -> bool {
    let diff = a - b;
    &&& i32::MIN < diff <= i32::MAX
    &&& abs(diff) > threshold ==> i32::MIN <= a + diff <= i32::MAX
}

/// Applies the unsharpen rule to the original component `a` and its blurred value
/// `b`: `Some` of the sharpened value, or `None` when the original is kept.
pub fn unsharpen_component(a: i32, b: i32, threshold: i32, max: i32) -> (r: Option<i32>)
    requires
        unsharpen_fits(a as int, b as int, threshold as int),
    ensures
        r matches Some(v) ==> spec_unsharpen(a as int, b as int, threshold as int, max as int)
            == Some(v as int),
        r is None ==> spec_unsharpen(a as int, b as int, threshold as int, max as int) is None,
        r matches Some(v) ==> max >= 0 ==> 0 <= v <= max,
        (a - b > threshold || b - a > threshold) <==> r is Some,
        r matches Some(v) ==> v == (if 2 * a - b < 0 {
            0
        } else if 2 * a - b > max {
            max as int
        } else {
            2 * a - b
        }),
{
    let diff: i32 = a - b;
    let abs_diff: i32 = if diff < 0 { -diff } else { diff };
    if abs_diff > threshold {
        let e: i32 = clamp_i32(a + diff, 0, max);
        Some(e)
    } else {
        None
    }
}

/// Whether `r`, the outcome for one component, is what the unsharpen rule gives:
/// `Some` of the sharpened value, or `None` where the original is kept.
pub open spec fn agrees(r: Option<i32>, rule: Option<int>) -> bool {
    match r {
        Some(v) => rule == Some(v as int),
        None => rule is None,
    }
}

/// Whether every component of `image` and `blurred` can go through the rule in `i32`.
pub open spec fn image_fits(image: Image<[i32; 4]>, blurred: Image<[i32; 4]>, threshold: int) -> bool {
    forall|x: int, y: int, c: int|
        image.in_bounds(x, y) && 0 <= c < 4 ==> unsharpen_fits(
            #[trigger] image.pixel(x, y)[c] as int,
            blurred.pixel(x, y)[c] as int,
            threshold,
        )
}

/// Whether `out` is the unsharpen mask of `image` over `blurred`: it has the image's
/// size, and each component is the rule's outcome for the original component and the
/// blurred one at the same place.
pub open spec fn unsharpen_result(
    image: Image<[i32; 4]>,
    blurred: Image<[i32; 4]>,
    threshold: int,
    max: int,
    out: Image<[Option<i32>; 4]>,
) -> bool {
    &&& out.spec_width() == image.spec_width()
    &&& out.spec_height() == image.spec_height()
    &&& forall|x: int, y: int, c: int|
        out.in_bounds(x, y) && 0 <= c < 4 ==> agrees(
            #[trigger] out.pixel(x, y)[c],
            spec_unsharpen(
                image.pixel(x, y)[c] as int,
                blurred.pixel(x, y)[c] as int,
                threshold,
                max,
            ),
        )
}

/// The unsharpen mask of `image` over its blurred version `blurred`, on components
/// converted to `i32` (pixels with fewer than four components pad the rest): each
/// component of the result is the rule's outcome for the original component and the
/// blurred one at the same place, `None` where the original is kept.
pub fn unsharpen(image: &Image<[i32; 4]>, blurred: &Image<[i32; 4]>, threshold: i32, max: i32) -> (out:
    Image<[Option<i32>; 4]>)
    requires
        image.wf(),
        blurred.wf(),
        blurred.spec_width() == image.spec_width(),
        blurred.spec_height() == image.spec_height(),
        image_fits(*image, *blurred, threshold as int),
    ensures
        out.wf(),
        unsharpen_result(*image, *blurred, threshold as int, max as int, out),
{
    let (width, height) = image.dimensions();
    let mut out: Image<[Option<i32>; 4]> = Image::new(width, height, [None, None, None, None]);
    let mut y: u32 = 0;
    while y < height
        invariant
            image.wf(),
            blurred.wf(),
            width == image.spec_width() == blurred.spec_width(),
            height == image.spec_height() == blurred.spec_height(),
            image_fits(*image, *blurred, threshold as int),
            y <= height,
            out.wf(),
            out.spec_width() == width,
            out.spec_height() == height,
            forall|i: int, j: int, c: int|
                out.in_bounds(i, j) && j < y && 0 <= c < 4 ==> agrees(
                    #[trigger] out.pixel(i, j)[c],
                    spec_unsharpen(
                        image.pixel(i, j)[c] as int,
                        blurred.pixel(i, j)[c] as int,
                        threshold as int,
                        max as int,
                    ),
                ),
        decreases height - y,
    {
        let mut x: u32 = 0;
        while x < width
            invariant
                image.wf(),
                blurred.wf(),
                width == image.spec_width() == blurred.spec_width(),
                height == image.spec_height() == blurred.spec_height(),
                image_fits(*image, *blurred, threshold as int),
                y < height,
                x <= width,
                out.wf(),
                out.spec_width() == width,
                out.spec_height() == height,
                forall|i: int, j: int, c: int|
                    out.in_bounds(i, j) && (j < y || (j == y && i < x)) && 0 <= c < 4 ==> agrees(
                        #[trigger] out.pixel(i, j)[c],
                        spec_unsharpen(
                            image.pixel(i, j)[c] as int,
                            blurred.pixel(i, j)[c] as int,
                            threshold as int,
                            max as int,
                        ),
                    ),
            decreases width - x,
        {
            let a = image.get_pixel(x, y);
            let b = blurred.get_pixel(x, y);
            proof {
                assert(image.in_bounds(x as int, y as int));
                assert(unsharpen_fits(a[0] as int, b[0] as int, threshold as int));
                assert(unsharpen_fits(a[1] as int, b[1] as int, threshold as int));
                assert(unsharpen_fits(a[2] as int, b[2] as int, threshold as int));
                assert(unsharpen_fits(a[3] as int, b[3] as int, threshold as int));
            }
            let p: [Option<i32>; 4] = [
                unsharpen_component(a[0], b[0], threshold, max),
                unsharpen_component(a[1], b[1], threshold, max),
                unsharpen_component(a[2], b[2], threshold, max),
                unsharpen_component(a[3], b[3], threshold, max),
            ];
            out.put_pixel(x, y, p);
            proof {
                assert forall|c: int| 0 <= c < 4 implies agrees(
                    #[trigger] out.pixel(x as int, y as int)[c],
                    spec_unsharpen(
                        image.pixel(x as int, y as int)[c] as int,
                        blurred.pixel(x as int, y as int)[c] as int,
                        threshold as int,
                        max as int,
                    ),
                ) by {
                    assert(c == 0 || c == 1 || c == 2 || c == 3);
                }
            }
            x = x + 1;
        }
        y = y + 1;
    }
    out
}

/// The unsharpen rule sharpens exactly the components whose original and blurred
/// values differ by more than the threshold, and moves each of them to `2a - b`, the
/// original pushed away from the blurred value by their difference, held in `[0, max]`.
pub proof fn lemma_unsharpen_rule(a: int, b: int, threshold: int, max: int)
    ensures
        (a - b > threshold || b - a > threshold) <==> spec_unsharpen(a, b, threshold, max) is Some,
        0 <= max && (a - b > threshold || b - a > threshold) && 0 <= 2 * a - b <= max
            ==> spec_unsharpen(a, b, threshold, max) == Some(2 * a - b),
        0 <= max && (a - b > threshold || b - a > threshold) && 2 * a - b > max ==> spec_unsharpen(
            a,
            b,
            threshold,
            max,
        ) == Some(max),
        (a - b > threshold || b - a > threshold) && 2 * a - b < 0 ==> spec_unsharpen(
            a,
            b,
            threshold,
            max,
        ) == Some(0int),
{
}

/// Each component of an unsharpen mask is kept where the original and blurred values
/// differ by at most the threshold, and is otherwise `2a - b` held in `[0, max]`.
pub proof fn lemma_unsharpen_image_rule(
    image: Image<[i32; 4]>,
    blurred: Image<[i32; 4]>,
    threshold: int,
    max: int,
    out: Image<[Option<i32>; 4]>,
)
    requires
        unsharpen_result(image, blurred, threshold, max, out),
        0 <= max,
    ensures
        forall|x: int, y: int, c: int|
            out.in_bounds(x, y) && 0 <= c < 4 ==> {
                let a = image.pixel(x, y)[c] as int;
                let b = blurred.pixel(x, y)[c] as int;
                &&& (a - b > threshold || b - a > threshold) <==> (#[trigger] out.pixel(x, y)[c]) is Some
                &&& out.pixel(x, y)[c] matches Some(v) ==> v == (if 2 * a - b < 0 {
                    0
                } else if 2 * a - b > max {
                    max
                } else {
                    2 * a - b
                })
            },
{
    assert forall|x: int, y: int, c: int| out.in_bounds(x, y) && 0 <= c < 4 implies {
        let a = image.pixel(x, y)[c] as int;
        let b = blurred.pixel(x, y)[c] as int;
        &&& (a - b > threshold || b - a > threshold) <==> (#[trigger] out.pixel(x, y)[c]) is Some
        &&& out.pixel(x, y)[c] matches Some(v) ==> v == (if 2 * a - b < 0 {
            0
        } else if 2 * a - b > max {
            max
        } else {
            2 * a - b
        })
    } by {
        let a = image.pixel(x, y)[c] as int;
        let b = blurred.pixel(x, y)[c] as int;
        lemma_unsharpen_rule(a, b, threshold, max);
        assert(agrees(out.pixel(x, y)[c], spec_unsharpen(a, b, threshold, max)));
    }
}

/// With components in `[0, max]` and a threshold of at least `max`, no difference
/// exceeds the threshold, so the rule keeps the original component.
pub proof fn lemma_high_threshold_keeps(a: int, b: int, threshold: int, max: int)
    requires
        0 <= a <= max,
        0 <= b <= max,
        max <= threshold,
    ensures
        spec_unsharpen(a, b, threshold, max) is None,
{
}

/// Raising the threshold only keeps more components: at the higher threshold a
/// component is either kept or sharpened to the same value as at the lower one.
pub proof fn lemma_threshold_monotone(a: int, b: int, t1: int, t2: int, max: int)
    requires
        t1 <= t2,
    ensures
        spec_unsharpen(a, b, t2, max) is None || spec_unsharpen(a, b, t2, max) == spec_unsharpen(
            a,
            b,
            t1,
            max,
        ),
{
}

/// An unsharpen mask with a threshold of at least `max`, over images whose components
/// lie in `[0, max]`, keeps every original component.
pub proof fn lemma_unsharpen_high_threshold(
    image: Image<[i32; 4]>,
    blurred: Image<[i32; 4]>,
    threshold: int,
    max: int,
    out: Image<[Option<i32>; 4]>,
)
    requires
        unsharpen_result(image, blurred, threshold, max, out),
        max <= threshold,
        forall|x: int, y: int, c: int|
            image.in_bounds(x, y) && 0 <= c < 4 ==> 0 <= #[trigger] image.pixel(x, y)[c] <= max && 0
                <= blurred.pixel(x, y)[c] <= max,
    ensures
        forall|x: int, y: int, c: int|
            out.in_bounds(x, y) && 0 <= c < 4 ==> #[trigger] out.pixel(x, y)[c] is None,
{
    assert forall|x: int, y: int, c: int| out.in_bounds(x, y) && 0 <= c < 4 implies #[trigger] out.pixel(
        x,
        y,
    )[c] is None by {
        assert(image.in_bounds(x, y));
        assert(0 <= image.pixel(x, y)[c] <= max);
        lemma_high_threshold_keeps(
            image.pixel(x, y)[c] as int,
            blurred.pixel(x, y)[c] as int,
            threshold,
            max,
        );
    }
}

/// Of two unsharpen masks of the same images, the one with the higher threshold
/// changes a subset of the components that the other changes, to the same values.
pub proof fn lemma_unsharpen_threshold_monotone(
    image: Image<[i32; 4]>,
    blurred: Image<[i32; 4]>,
    t1: int,
    t2: int,
    max: int,
    out1: Image<[Option<i32>; 4]>,
    out2: Image<[Option<i32>; 4]>,
)
    requires
        t1 <= t2,
        unsharpen_result(image, blurred, t1, max, out1),
        unsharpen_result(image, blurred, t2, max, out2),
    ensures
        forall|x: int, y: int, c: int|
            out2.in_bounds(x, y) && 0 <= c < 4 ==> #[trigger] out2.pixel(x, y)[c] is None
                || out2.pixel(x, y)[c] == out1.pixel(x, y)[c],
{
    assert forall|x: int, y: int, c: int| out2.in_bounds(x, y) && 0 <= c < 4 implies #[trigger] out2.pixel(
        x,
        y,
    )[c] is None || out2.pixel(x, y)[c] == out1.pixel(x, y)[c] by {
        let a = image.pixel(x, y)[c] as int;
        let b = blurred.pixel(x, y)[c] as int;
        lemma_threshold_monotone(a, b, t1, t2, max);
        assert(out1.in_bounds(x, y));
        assert(agrees(out1.pixel(x, y)[c], spec_unsharpen(a, b, t1, max)));
        assert(agrees(out2.pixel(x, y)[c], spec_unsharpen(a, b, t2, max)));
    }
}

} // verus!

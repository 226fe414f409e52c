//! The two passes of separable resampling: which input pixels each output pixel
//! is computed from.
use vstd::prelude::*;
use crate::image::Image;
use crate::window::{sample_window, spec_sample_window};

verus! {

/// The pixels of column `x` in rows `top .. bottom`, from the top.
pub open spec fn column_window<T>(img: Image<T>, x: int, top: int, bottom: int) -> Seq<T> {
    if bottom <= top {
        Seq::empty()
    } else {
        Seq::new((bottom - top) as nat, |i: int| img.pixel(x, top + i))
    }
}

/// The pixels of row `y` in columns `left .. right`, from the left.
pub open spec fn row_window<T>(img: Image<T>, y: int, left: int, right: int) -> Seq<T> {
    if right <= left {
        Seq::empty()
    } else {
        Seq::new((right - left) as nat, |i: int| img.pixel(left + i, y))
    }
}

/// Whether the edge pairs give windows inside a line of `len` pixels. On a line with
/// pixels every window is inside; on an empty line a window with a negative left
/// edge and a right edge below 1 would reach for the missing pixel 0 (which matters
/// only when there are lines to read).
pub open spec fn edges_fit(edges: Seq<(i64, i64)>, len: nat) -> bool {
    len == 0 ==> forall|k: int| 0 <= k < edges.len() ==> !(#[trigger] edges[k].0 < 0 && edges[k].1 < 1)
}

/// The bounds of the window of output index `k`.
pub open spec fn edge_window(edges: Seq<(i64, i64)>, k: int, len: nat) -> (int, int) {
    spec_sample_window(edges[k].0 as int, edges[k].1 as int, len)
}

/// Gathers the pixels of column `x` in rows `top .. bottom`.
fn gather_column<T: Copy>(image: &Image<T>, x: u32, top: u32, bottom: u32) -> (r: Vec<T>)
    requires
        image.wf(),
        x < image.spec_width(),
        top <= bottom <= image.spec_height(),
    ensures
        r@ == column_window(*image, x as int, top as int, bottom as int),
{
    let mut r: Vec<T> = Vec::new();
    let mut y: u32 = top;
    while y < bottom
        invariant
            image.wf(),
            x < image.spec_width(),
            top <= y <= bottom <= image.spec_height(),
            r@ == column_window(*image, x as int, top as int, y as int),
        decreases bottom - y,
    {
        let p = image.get_pixel(x, y);
        r.push(p);
        y = y + 1;
        proof {
            assert(r@ =~= column_window(*image, x as int, top as int, y as int));
        }
    }
    r
}

/// Gathers the pixels of row `y` in columns `left .. right`.
fn gather_row<T: Copy>(image: &Image<T>, y: u32, left: u32, right: u32) -> (r: Vec<T>)
    requires
        image.wf(),
        y < image.spec_height(),
        left <= right <= image.spec_width(),
    ensures
        r@ == row_window(*image, y as int, left as int, right as int),
{
    let mut r: Vec<T> = Vec::new();
    let mut x: u32 = left;
    while x < right
        invariant
            image.wf(),
            y < image.spec_height(),
            left <= x <= right <= image.spec_width(),
            r@ == row_window(*image, y as int, left as int, x as int),
        decreases right - x,
    {
        let p = image.get_pixel(x, y);
        r.push(p);
        x = x + 1;
        proof {
            assert(r@ =~= row_window(*image, y as int, left as int, x as int));
        }
    }
    r
}

/// Whether `p` is a result of `apply` on output index `k` and the window `w`.
pub open spec fn applied<T, U, F: Fn(u32, Vec<T>) -> U>(apply: F, k: int, w: Seq<T>, p: U) -> bool {
    exists|v: Vec<T>| v@ == w && #[trigger] call_ensures(apply, (k as u32, v), p)
}

/// Whether every output pixel `(x, y)` of `out` is `apply` of `x` and the input
/// pixels of row `y` in the window of output column `x`.
pub open spec fn horizontal_result<T, U, F: Fn(u32, Vec<T>) -> U>(
    image: Image<T>,
    edges: Seq<(i64, i64)>,
    apply: F,
    out: Image<U>,
) -> bool {
    forall|x: int, y: int|
        out.in_bounds(x, y) ==> applied(
            apply,
            x,
            row_window(
                image,
                y,
                edge_window(edges, x, image.spec_width()).0,
                edge_window(edges, x, image.spec_width()).1,
            ),
            #[trigger] out.pixel(x, y),
        )
}

/// Whether every output pixel `(x, y)` of `out` is `apply` of `y` and the input
/// pixels of column `x` in the window of output row `y`.
pub open spec fn vertical_result<T, U, F: Fn(u32, Vec<T>) -> U>(
    image: Image<T>,
    edges: Seq<(i64, i64)>,
    apply: F,
    out: Image<U>,
) -> bool {
    forall|x: int, y: int|
        out.in_bounds(x, y) ==> applied(
            apply,
            y,
            column_window(
                image,
                x,
                edge_window(edges, y, image.spec_height()).0,
                edge_window(edges, y, image.spec_height()).1,
            ),
            #[trigger] out.pixel(x, y),
        )
}

/// Whether `apply` gives one result for equal arguments.
pub open spec fn deterministic<T, U, F: Fn(u32, Vec<T>) -> U>(apply: F) -> bool {
    forall|k: u32, v1: Vec<T>, v2: Vec<T>, p1: U, p2: U|
        v1@ == v2@ && #[trigger] call_ensures(apply, (k, v1), p1) && #[trigger] call_ensures(
            apply,
            (k, v2),
            p2,
        ) ==> p1 == p2
}

/// The vertical pass treats columns apart: with a deterministic `apply`, column `x` of
/// the result depends only on column `x` of the input.
pub proof fn lemma_vertical_column_independent<T, U, F: Fn(u32, Vec<T>) -> U>(
    img1: Image<T>,
    img2: Image<T>,
    edges: Seq<(i64, i64)>,
    apply: F,
    out1: Image<U>,
    out2: Image<U>,
    x: int,
)
    requires
        deterministic(apply),
        img1.spec_height() == img2.spec_height(),
        img1.spec_height() >= 1,
        vertical_result(img1, edges, apply, out1),
        vertical_result(img2, edges, apply, out2),
        out1.spec_height() == out2.spec_height(),
        0 <= x < out1.spec_width(),
        0 <= x < out2.spec_width(),
        forall|y: int| 0 <= y < img1.spec_height() ==> #[trigger] img1.pixel(x, y) == img2.pixel(x, y),
    ensures
        forall|y: int| 0 <= y < out1.spec_height() ==> #[trigger] out1.pixel(x, y) == out2.pixel(x, y),
{
    assert forall|y: int| 0 <= y < out1.spec_height() implies #[trigger] out1.pixel(x, y)
        == out2.pixel(x, y) by {
        let h = img1.spec_height();
        let win = edge_window(edges, y, h);
        assert(out1.in_bounds(x, y) && out2.in_bounds(x, y));
        let w1 = column_window(img1, x, win.0, win.1);
        let w2 = column_window(img2, x, win.0, win.1);
        assert(0 <= win.0 && win.1 <= h);
        assert(w1 =~= w2);
        let v1 = choose|v: Vec<T>| v@ == w1 && #[trigger] call_ensures(apply, (y as u32, v), out1.pixel(x, y));
        let v2 = choose|v: Vec<T>| v@ == w2 && #[trigger] call_ensures(apply, (y as u32, v), out2.pixel(x, y));
        assert(call_ensures(apply, (y as u32, v1), out1.pixel(x, y)));
        assert(call_ensures(apply, (y as u32, v2), out2.pixel(x, y)));
    }
}

/// The horizontal pass treats rows apart: with a deterministic `apply`, row `y` of the
/// result depends only on row `y` of the input.
pub proof fn lemma_horizontal_row_independent<T, U, F: Fn(u32, Vec<T>) -> U>(
    img1: Image<T>,
    img2: Image<T>,
    edges: Seq<(i64, i64)>,
    apply: F,
    out1: Image<U>,
    out2: Image<U>,
    y: int,
)
    requires
        deterministic(apply),
        img1.spec_width() == img2.spec_width(),
        img1.spec_width() >= 1,
        horizontal_result(img1, edges, apply, out1),
        horizontal_result(img2, edges, apply, out2),
        out1.spec_width() == out2.spec_width(),
        0 <= y < out1.spec_height(),
        0 <= y < out2.spec_height(),
        forall|x: int| 0 <= x < img1.spec_width() ==> #[trigger] img1.pixel(x, y) == img2.pixel(x, y),
    ensures
        forall|x: int| 0 <= x < out1.spec_width() ==> #[trigger] out1.pixel(x, y) == out2.pixel(x, y),
{
    assert forall|x: int| 0 <= x < out1.spec_width() implies #[trigger] out1.pixel(x, y)
        == out2.pixel(x, y) by {
        let w = img1.spec_width();
        let win = edge_window(edges, x, w);
        assert(out1.in_bounds(x, y) && out2.in_bounds(x, y));
        let w1 = row_window(img1, y, win.0, win.1);
        let w2 = row_window(img2, y, win.0, win.1);
        assert(0 <= win.0 && win.1 <= w);
        assert(w1 =~= w2);
        let v1 = choose|v: Vec<T>| v@ == w1 && #[trigger] call_ensures(apply, (x as u32, v), out1.pixel(x, y));
        let v2 = choose|v: Vec<T>| v@ == w2 && #[trigger] call_ensures(apply, (x as u32, v), out2.pixel(x, y));
        assert(call_ensures(apply, (x as u32, v1), out1.pixel(x, y)));
        assert(call_ensures(apply, (x as u32, v2), out2.pixel(x, y)));
    }
}

/// Resamples the rows of `image` to `new_width` columns, keeping its height. Output
/// column `k` reads, in every row, the input pixels of the window that
/// `sample_window` gives for `edges[k]` (the floor of the window's left edge and the
/// ceiling of its right edge), and its pixel is `apply` of `k` and those pixels, from
/// the left.
pub fn horizontal_sample<T: Copy, U: Copy, F: Fn(u32, Vec<T>) -> U>(
    image: &Image<T>,
    new_width: u32,
    edges: &Vec<(i64, i64)>,
    fill: U,
    apply: F,
) -> (out: Image<U>)
    requires
        image.wf(),
        new_width as nat * image.spec_height() <= usize::MAX,
        edges.len() == new_width,
        image.spec_height() > 0 ==> edges_fit(edges@, image.spec_width()),
        forall|k: u32, v: Vec<T>| #[trigger] apply.requires((k, v)),
    ensures
        out.wf(),
        out.spec_width() == new_width,
        out.spec_height() == image.spec_height(),
        horizontal_result(*image, edges@, apply, out),
        forall|x: int, y: int|
            out.in_bounds(x, y) ==> applied(
                apply,
                x,
                row_window(
                    *image,
                    y,
                    edge_window(edges@, x, image.spec_width()).0,
                    edge_window(edges@, x, image.spec_width()).1,
                ),
                #[trigger] out.pixel(x, y),
            ),
{
    let (width, height) = image.dimensions();
    let mut out = Image::new(new_width, height, fill);
    let mut outx: u32 = 0;
    while outx < new_width
        invariant
            image.wf(),
            width == image.spec_width(),
            height == image.spec_height(),
            edges.len() == new_width,
            height > 0 ==> edges_fit(edges@, width as nat),
            forall|k: u32, v: Vec<T>| #[trigger] apply.requires((k, v)),
            outx <= new_width,
            out.wf(),
            out.spec_width() == new_width,
            out.spec_height() == height,
            forall|x: int, y: int|
                out.in_bounds(x, y) && x < outx ==> applied(
                    apply,
                    x,
                    row_window(
                        *image,
                        y,
                        edge_window(edges@, x, width as nat).0,
                        edge_window(edges@, x, width as nat).1,
                    ),
                    #[trigger] out.pixel(x, y),
                ),
        decreases new_width - outx,
    {
        let (lf, rc) = edges[outx as usize];
        let (left, right) = sample_window(lf, rc, width);
        proof {
            if width == 0 && height > 0 {
                assert(!(edges@[outx as int].0 < 0 && edges@[outx as int].1 < 1));
            }
        }
        let ghost win = edge_window(edges@, outx as int, width as nat);
        let mut y: u32 = 0;
        while y < height
            invariant
                image.wf(),
                width == image.spec_width(),
                height == image.spec_height(),
                edges.len() == new_width,
                forall|k: u32, v: Vec<T>| #[trigger] apply.requires((k, v)),
                outx < new_width,
                y <= height,
                left == win.0,
                right == win.1,
                win == edge_window(edges@, outx as int, width as nat),
                height > 0 ==> (left > right || right <= width),
                out.wf(),
                out.spec_width() == new_width,
                out.spec_height() == height,
                forall|x: int, j: int|
                    out.in_bounds(x, j) && (x < outx || (x == outx && j < y)) ==> applied(
                        apply,
                        x,
                        row_window(
                            *image,
                            j,
                            edge_window(edges@, x, width as nat).0,
                            edge_window(edges@, x, width as nat).1,
                        ),
                        #[trigger] out.pixel(x, j),
                    ),
            decreases height - y,
        {
            let v: Vec<T> = if left < right {
                gather_row(image, y, left, right)
            } else {
                Vec::new()
            };
            proof {
                assert(v@ =~= row_window(*image, y as int, left as int, right as int));
            }
            let ghost vv = v;
            let p = apply(outx, v);
            proof {
                assert(call_ensures(apply, ((outx as int) as u32, vv), p));
                assert(applied(
                    apply,
                    outx as int,
                    row_window(*image, y as int, left as int, right as int),
                    p,
                ));
            }
            out.put_pixel(outx, y, p);
            y = y + 1;
        }
        outx = outx + 1;
    }
    out
}

/// Resamples the columns of `image` to `new_height` rows, keeping its width. Output
/// row `k` reads, in every column, the input pixels of the window that
/// `sample_window` gives for `edges[k]` (the floor of the window's top edge and the
/// ceiling of its bottom edge), and its pixel is `apply` of `k` and those pixels, from
/// the top.
pub fn vertical_sample<T: Copy, U: Copy, F: Fn(u32, Vec<T>) -> U>(
    image: &Image<T>,
    new_height: u32,
    edges: &Vec<(i64, i64)>,
    fill: U,
    apply: F,
) -> (out: Image<U>)
    requires
        image.wf(),
        image.spec_width() * new_height as nat <= usize::MAX,
        edges.len() == new_height,
        image.spec_width() > 0 ==> edges_fit(edges@, image.spec_height()),
        forall|k: u32, v: Vec<T>| #[trigger] apply.requires((k, v)),
    ensures
        out.wf(),
        out.spec_width() == image.spec_width(),
        out.spec_height() == new_height,
        vertical_result(*image, edges@, apply, out),
        forall|x: int, y: int|
            out.in_bounds(x, y) ==> applied(
                apply,
                y,
                column_window(
                    *image,
                    x,
                    edge_window(edges@, y, image.spec_height()).0,
                    edge_window(edges@, y, image.spec_height()).1,
                ),
                #[trigger] out.pixel(x, y),
            ),
{
    let (width, height) = image.dimensions();
    let mut out = Image::new(width, new_height, fill);
    let mut outy: u32 = 0;
    while outy < new_height
        invariant
            image.wf(),
            width == image.spec_width(),
            height == image.spec_height(),
            edges.len() == new_height,
            width > 0 ==> edges_fit(edges@, height as nat),
            forall|k: u32, v: Vec<T>| #[trigger] apply.requires((k, v)),
            outy <= new_height,
            out.wf(),
            out.spec_width() == width,
            out.spec_height() == new_height,
            forall|x: int, y: int|
                out.in_bounds(x, y) && y < outy ==> applied(
                    apply,
                    y,
                    column_window(
                        *image,
                        x,
                        edge_window(edges@, y, height as nat).0,
                        edge_window(edges@, y, height as nat).1,
                    ),
                    #[trigger] out.pixel(x, y),
                ),
        decreases new_height - outy,
    {
        let (lf, rc) = edges[outy as usize];
        let (top, bottom) = sample_window(lf, rc, height);
        proof {
            if height == 0 && width > 0 {
                assert(!(edges@[outy as int].0 < 0 && edges@[outy as int].1 < 1));
            }
        }
        let ghost win = edge_window(edges@, outy as int, height as nat);
        let mut x: u32 = 0;
        while x < width
            invariant
                image.wf(),
                width == image.spec_width(),
                height == image.spec_height(),
                edges.len() == new_height,
                forall|k: u32, v: Vec<T>| #[trigger] apply.requires((k, v)),
                outy < new_height,
                x <= width,
                top == win.0,
                bottom == win.1,
                win == edge_window(edges@, outy as int, height as nat),
                width > 0 ==> (top > bottom || bottom <= height),
                out.wf(),
                out.spec_width() == width,
                out.spec_height() == new_height,
                forall|i: int, y: int|
                    out.in_bounds(i, y) && (y < outy || (y == outy && i < x)) ==> applied(
                        apply,
                        y,
                        column_window(
                            *image,
                            i,
                            edge_window(edges@, y, height as nat).0,
                            edge_window(edges@, y, height as nat).1,
                        ),
                        #[trigger] out.pixel(i, y),
                    ),
            decreases width - x,
        {
            let v: Vec<T> = if top < bottom {
                gather_column(image, x, top, bottom)
            } else {
                Vec::new()
            };
            proof {
                assert(v@ =~= column_window(*image, x as int, top as int, bottom as int));
            }
            let ghost vv = v;
            let p = apply(outy, v);
            proof {
                assert(call_ensures(apply, ((outy as int) as u32, vv), p));
                assert(applied(
                    apply,
                    outy as int,
                    column_window(*image, x as int, top as int, bottom as int),
                    p,
                ));
            }
            out.put_pixel(x, outy, p);
            x = x + 1;
        }
        outy = outy + 1;
    }
    out
}

} // verus!

//! A rectangular buffer of pixels stored row by row.
use vstd::prelude::*;

verus! {

/// The position of pixel `(x, y)` in the row-major pixel sequence of an image `width` wide.
pub open spec fn pixel_index(width: nat, x: int, y: int) -> int {
    y * width + x
}

/// An image of `width * height` pixels of type `T`, stored row by row.
pub struct Image<T> {
    width: u32,
    height: u32,
    pixels: Vec<T>,
}

impl<T> Image<T> {
    /// The image holds exactly `width * height` pixels.
    pub closed spec fn wf(&self) -> bool {
        self.pixels.len() == self.width as nat * self.height as nat
    }

    /// The image's width.
    pub closed spec fn spec_width(&self) -> nat {
        self.width as nat
    }

    /// The image's height.
    pub closed spec fn spec_height(&self) -> nat {
        self.height as nat
    }

    /// All pixels, row by row.
    pub closed spec fn spec_pixels(&self) -> Seq<T> {
        self.pixels@
    }

    /// The pixel at column `x` and row `y`.
    pub open spec fn pixel(&self, x: int, y: int) -> T {
        self.spec_pixels()[pixel_index(self.spec_width(), x, y)]
    }

    /// Whether `(x, y)` lies inside the image.
    pub open spec fn in_bounds(&self, x: int, y: int) -> bool {
        0 <= x < self.spec_width() && 0 <= y < self.spec_height()
    }

    /// Width and height are `u32` values.
    pub proof fn lemma_dimensions_bounded(&self)
        ensures
            self.spec_width() <= u32::MAX,
            self.spec_height() <= u32::MAX,
    {
    }

    /// The width of the image.
    pub fn width(&self) -> (r: u32)
        ensures
            r == self.spec_width(),
    {
        self.width
    }

    /// The height of the image.
    pub fn height(&self) -> (r: u32)
        ensures
            r == self.spec_height(),
    {
        self.height
    }

    /// The width and height of the image.
    pub fn dimensions(&self) -> (r: (u32, u32))
        requires
            self.wf(),
        ensures
            r.0 == self.spec_width(),
            r.1 == self.spec_height(),
            self.spec_pixels().len() == self.spec_width() * self.spec_height(),
            self.spec_width() * self.spec_height() <= usize::MAX,
    {
        (self.width, self.height)
    }

    /// Builds an image from its pixels given row by row; `None` when their number is
    /// not `width * height`.
    pub fn from_pixels(width: u32, height: u32, pixels: Vec<T>) -> (r: Option<Self>)
        ensures
            (r is Some) <==> pixels.len() == width as nat * height as nat,
            r matches Some(img) ==> img.wf() && img.spec_width() == width && img.spec_height() == height
                && img.spec_pixels() == pixels@,
    {
        let len: usize = pixels.len();
        let w: usize = width as usize;
        let h: usize = height as usize;
        if w == 0 || h == 0 {
            if len == 0 {
                proof {
                    assert(width as nat * height as nat == 0) by (nonlinear_arith)
                        requires
                            width == 0 || height == 0,
                    ;
                }
                return Some(Image { width, height, pixels });
            } else {
                proof {
                    assert(width as nat * height as nat == 0) by (nonlinear_arith)
                        requires
                            width == 0 || height == 0,
                    ;
                }
                return None;
            }
        }
        if len / w != h || len % w != 0 {
            proof {
                if pixels.len() == width as nat * height as nat {
                    assert(len as int / w as int == h as int && len as int % w as int == 0)
                        by (nonlinear_arith)
                        requires
                            len as int == w as int * h as int,
                            w > 0,
                    ;
                }
            }
            None
        } else {
            proof {
                assert(len as int == w as int * h as int) by (nonlinear_arith)
                    requires
                        len as int / w as int == h as int,
                        len as int % w as int == 0,
                        w > 0,
                ;
            }
            Some(Image { width, height, pixels })
        }
    }

    /// Consumes the image and hands back its pixels, row by row.
    pub fn into_pixels(self) -> (r: Vec<T>)
        ensures
            r@ == self.spec_pixels(),
    {
        self.pixels
    }

    /// The pixels of the image, row by row.
    pub fn as_pixels(&self) -> (r: &Vec<T>)
        requires
            self.wf(),
        ensures
            r@ == self.spec_pixels(),
            r.len() == self.spec_width() * self.spec_height(),
    {
        &self.pixels
    }
}

/// Index of `(x, y)` in a row-major buffer, which is in bounds when `(x, y)` is.
proof fn lemma_index_in_bounds(width: nat, height: nat, x: int, y: int)
    requires
        0 <= x < width,
        0 <= y < height,
    ensures
        0 <= pixel_index(width, x, y) < width * height,
{
    assert(0 <= y * width) by (nonlinear_arith)
        requires
            0 <= y,
    ;
    assert(y * width + x < width * height) by (nonlinear_arith)
        requires
            0 <= x < width,
            0 <= y < height,
    ;
}

/// Distinct positions inside an image have distinct indices.
proof fn lemma_index_injective(width: nat, x1: int, y1: int, x2: int, y2: int)
    requires
        0 <= x1 < width,
        0 <= x2 < width,
        0 <= y1,
        0 <= y2,
        pixel_index(width, x1, y1) == pixel_index(width, x2, y2),
    ensures
        x1 == x2 && y1 == y2,
{
    if y1 < y2 {
        assert(y1 * width + width <= y2 * width) by (nonlinear_arith)
            requires
                y1 < y2,
        ;
    } else if y2 < y1 {
        assert(y2 * width + width <= y1 * width) by (nonlinear_arith)
            requires
                y2 < y1,
        ;
    }
}

impl<T: Copy> Image<T> {
    /// An image of the given size with every pixel set to `fill`.
    pub fn new(width: u32, height: u32, fill: T) -> (r: Self)
        requires
            width as nat * height as nat <= usize::MAX,
        ensures
            r.wf(),
            r.spec_width() == width,
            r.spec_height() == height,
            forall|x: int, y: int| r.in_bounds(x, y) ==> #[trigger] r.pixel(x, y) == fill,
    {
        let total: usize = (width as usize) * (height as usize);
        let mut pixels: Vec<T> = Vec::new();
        let mut i: usize = 0;
        while i < total
            invariant
                i <= total,
                pixels.len() == i,
                forall|k: int| 0 <= k < i ==> pixels@[k] == fill,
            decreases total - i,
        {
            pixels.push(fill);
            i = i + 1;
        }
        let r = Image { width, height, pixels };
        assert forall|x: int, y: int| r.in_bounds(x, y) implies #[trigger] r.pixel(x, y) == fill by {
            lemma_index_in_bounds(width as nat, height as nat, x, y);
        }
        r
    }

    /// The pixel at column `x` and row `y`.
    pub fn get_pixel(&self, x: u32, y: u32) -> (r: T)
        requires
            self.wf(),
            x < self.spec_width(),
            y < self.spec_height(),
        ensures
            r == self.pixel(x as int, y as int),
    {
        proof {
            lemma_index_in_bounds(self.width as nat, self.height as nat, x as int, y as int);
        }
        let idx: usize = (y as usize) * (self.width as usize) + (x as usize);
        self.pixels[idx]
    }

    /// Overwrites the pixel at column `x` and row `y`; every other pixel stays.
    pub fn put_pixel(&mut self, x: u32, y: u32, p: T)
        requires
            old(self).wf(),
            x < old(self).spec_width(),
            y < old(self).spec_height(),
        ensures
            final(self).wf(),
            final(self).spec_width() == old(self).spec_width(),
            final(self).spec_height() == old(self).spec_height(),
            final(self).pixel(x as int, y as int) == p,
            forall|i: int, j: int|
                old(self).in_bounds(i, j) && (i != x || j != y) ==> #[trigger] final(self).pixel(i, j)
                    == old(self).pixel(i, j),
    {
        proof {
            lemma_index_in_bounds(self.width as nat, self.height as nat, x as int, y as int);
        }
        let idx: usize = (y as usize) * (self.width as usize) + (x as usize);
        self.pixels.set(idx, p);
        proof {
            let w = self.width as nat;
            assert forall|i: int, j: int|
                old(self).in_bounds(i, j) && (i != x || j != y) implies #[trigger] self.pixel(i, j)
                == old(self).pixel(i, j) by {
                lemma_index_in_bounds(w, self.height as nat, i, j);
                if pixel_index(w, i, j) == pixel_index(w, x as int, y as int) {
                    lemma_index_injective(w, i, j, x as int, y as int);
                }
            }
        }
    }

    /// A copy of the image.
    pub fn duplicate(&self) -> (r: Self)
        requires
            self.wf(),
        ensures
            r.wf(),
            r.spec_width() == self.spec_width(),
            r.spec_height() == self.spec_height(),
            r.spec_pixels() == self.spec_pixels(),
    {
        let mut pixels: Vec<T> = Vec::new();
        let n: usize = self.pixels.len();
        let mut i: usize = 0;
        while i < n
            invariant
                n == self.pixels.len(),
                i <= n,
                pixels.len() == i,
                forall|k: int| 0 <= k < i ==> pixels@[k] == self.pixels@[k],
            decreases n - i,
        {
            pixels.push(self.pixels[i]);
            i = i + 1;
        }
        proof {
            assert(pixels@ =~= self.pixels@);
        }
        Image { width: self.width, height: self.height, pixels }
    }
}

} // verus!

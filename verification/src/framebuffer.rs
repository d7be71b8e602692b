//! A mutable RGB8 pixel grid: point writes, point reads, and an in-place
//! vertical flip.

use vstd::prelude::*;
use vstd::arithmetic::div_mod::{
    lemma_fundamental_div_mod_converse_div, lemma_fundamental_div_mod_converse_mod,
};

verus! {

/// An RGB8 color.
#[derive(Clone, Copy, Debug, PartialEq, Eq, Structural)]
pub struct Rgb {
    pub r: u8,
    pub g: u8,
    pub b: u8,
}

/// Black, the color every frame buffer starts out with.
pub open spec fn spec_black() -> Rgb {
    Rgb { r: 0, g: 0, b: 0 }
}

/// The grid `g` of a `w` by `h` buffer with its row order reversed: the pixel
/// at `(x, y)` moves to `(x, h - 1 - y)`.
pub open spec fn spec_flipped(g: Seq<Rgb>, w: int, h: int) -> Seq<Rgb> {
    Seq::new(g.len(), |k: int| g[(h - 1 - k / w) * w + k % w])
}

/// A fixed-size RGB8 pixel grid, stored row-major. Writes never go out of
/// range: `put_pixel` is defined only for in-range coordinates, and callers
/// clamp before calling.
pub struct FrameBuffer {
    width: usize,
    height: usize,
    pixels: Vec<Rgb>,
}

impl FrameBuffer {
    /// The pixel grid holds exactly `width * height` entries.
    pub open spec fn wf(&self) -> bool {
        self.grid().len() == self.spec_width() * self.spec_height()
    }

    pub closed spec fn spec_width(&self) -> int {
        self.width as int
    }

    pub closed spec fn spec_height(&self) -> int {
        self.height as int
    }

    /// The pixel grid, row-major: the pixel at `(x, y)` is entry
    /// `y * width + x`.
    pub closed spec fn grid(&self) -> Seq<Rgb> {
        self.pixels@
    }

    /// The color of the pixel at `(x, y)`.
    pub open spec fn pix(&self, x: int, y: int) -> Rgb {
        self.grid()[y * self.spec_width() + x]
    }

    /// The coordinate `(x, y)` lies inside the buffer.
    pub open spec fn in_bounds(&self, x: int, y: int) -> bool {
        0 <= x < self.spec_width() && 0 <= y < self.spec_height()
    }

    /// A `width` by `height` buffer with every pixel black.
    pub fn new(width: usize, height: usize) -> (fb: FrameBuffer)
        requires
            width * height <= usize::MAX,
        ensures
            fb.wf(),
            fb.spec_width() == width,
            fb.spec_height() == height,
            forall|x: int, y: int|
                fb.in_bounds(x, y) ==> fb.pix(x, y) == spec_black(),
    {
        let n = width * height;
        let pixels = vec![Rgb { r: 0, g: 0, b: 0 }; n];
        let fb = FrameBuffer { width, height, pixels };
        proof {
            assert forall|x: int, y: int| fb.in_bounds(x, y) implies fb.pix(x, y)
                == spec_black() by {
                lemma_row_major_index_in_range(x, y, width as int, height as int);
            }
        }
        fb
    }

    pub fn width(&self) -> (w: usize)
        ensures
            w == self.spec_width(),
    {
        self.width
    }

    pub fn height(&self) -> (h: usize)
        ensures
            h == self.spec_height(),
    {
        self.height
    }

    /// Read the pixel at `(x, y)`.
    pub fn get_pixel(&self, x: usize, y: usize) -> (c: Rgb)
        requires
            self.wf(),
            self.in_bounds(x as int, y as int),
        ensures
            c == self.pix(x as int, y as int),
    {
        let n = self.pixels.len();
        proof {
            lemma_row_major_index_in_range(x as int, y as int, self.spec_width(), self.spec_height());
            // n bounds the row-major index by the machine word
            assert(n == self.grid().len());
        }
        self.pixels[y * self.width + x]
    }

    /// Write the color `color` to the pixel at `(x, y)`, leaving every other
    /// pixel unchanged.
    pub fn put_pixel(&mut self, x: usize, y: usize, color: Rgb)
        requires
            old(self).wf(),
            old(self).in_bounds(x as int, y as int),
        ensures
            final(self).wf(),
            final(self).spec_width() == old(self).spec_width(),
            final(self).spec_height() == old(self).spec_height(),
            final(self).grid() == old(self).grid().update(
                y as int * old(self).spec_width() + x as int,
                color,
            ),
            final(self).pix(x as int, y as int) == color,
            forall|i: int, j: int|
                old(self).in_bounds(i, j) && !(i == x && j == y) ==> final(self).pix(i, j) == old(
                    self,
                ).pix(i, j),
    {
        let n = self.pixels.len();
        proof {
            lemma_row_major_index_in_range(x as int, y as int, self.spec_width(), self.spec_height());
            // n bounds the row-major index by the machine word
            assert(n == self.grid().len());
        }
        let idx = y * self.width + x;
        self.pixels.set(idx, color);
        proof {
            assert forall|i: int, j: int|
                old(self).in_bounds(i, j) && !(i == x && j == y) implies final(self).pix(i, j)
                == old(self).pix(i, j) by {
                lemma_row_major_index_in_range(i, j, self.spec_width(), self.spec_height());
                lemma_row_major_index_injective(
                    i,
                    j,
                    x as int,
                    y as int,
                    self.spec_width(),
                    self.spec_height(),
                );
            }
        }
    }

    /// Reverse the row order in place: row `y` swaps with row `height-1-y`.
    /// Used once at the end of rendering, because model-space `y` grows
    /// upward while raster rows grow downward.
    pub fn flip_vertical(&mut self)
        requires
            old(self).wf(),
        ensures
            final(self).wf(),
            final(self).spec_width() == old(self).spec_width(),
            final(self).spec_height() == old(self).spec_height(),
            forall|x: int, y: int|
                old(self).in_bounds(x, y) ==> final(self).pix(x, y) == old(self).pix(
                    x,
                    old(self).spec_height() - 1 - y,
                ),
            final(self).grid() == spec_flipped(
                old(self).grid(),
                old(self).spec_width(),
                old(self).spec_height(),
            ),
    {
        let w = self.width;
        let h = self.height;
        let mut y: usize = 0;
        while y < h / 2
            invariant
                self.wf(),
                self.width == w,
                self.height == h,
                0 <= y <= h / 2,
                forall|i: int, j: int|
                    #![trigger self.pix(i, j)]
                    self.in_bounds(i, j) ==> self.pix(i, j) == if j < y || j > h - 1 - y {
                        old(self).pix(i, h - 1 - j)
                    } else {
                        old(self).pix(i, j)
                    },
            decreases h / 2 - y,
        {
            let yb = h - 1 - y;
            let mut x: usize = 0;
            while x < w
                invariant
                    self.wf(),
                    self.width == w,
                    self.height == h,
                    0 <= y < h / 2,
                    yb == h - 1 - y,
                    0 <= x <= w,
                    forall|i: int, j: int|
                        #![trigger self.pix(i, j)]
                        self.in_bounds(i, j) ==> self.pix(i, j) == if j < y || j > h - 1 - y || (j
                            == y && i < x) || (j == h - 1 - y && i < x) {
                            old(self).pix(i, h - 1 - j)
                        } else {
                            old(self).pix(i, j)
                        },
                decreases w - x,
            {
                proof {
                    lemma_two_rows_distinct(y as int, h as int);
                }
                let top = self.get_pixel(x, y);
                let bot = self.get_pixel(x, yb);
                self.put_pixel(x, y, bot);
                self.put_pixel(x, yb, top);
                x = x + 1;
            }
            y = y + 1;
        }
        proof {
            assert forall|x: int, j: int| self.in_bounds(x, j) implies self.pix(x, j) == old(
                self,
            ).pix(x, h - 1 - j) by {
                // after the loop every row lies in the swapped region
                assert(j < h / 2 || j > h - 1 - h / 2 || j == h - 1 - j);
                if j == h - 1 - j {
                    assert(self.pix(x, j) == old(self).pix(x, j));
                }
            }
            assert(self.grid() =~= spec_flipped(old(self).grid(), w as int, h as int)) by {
                assert forall|k: int| 0 <= k < self.grid().len() implies self.grid()[k]
                    == spec_flipped(old(self).grid(), w as int, h as int)[k] by {
                    lemma_row_major_decompose(k, w as int, h as int);
                    let x = k % (w as int);
                    let j = k / (w as int);
                    assert(self.pix(x, j) == old(self).pix(x, h - 1 - j));
                    lemma_row_major_index_in_range(x, h - 1 - j, w as int, h as int);
                }
            }
        }
    }
}

/// A row-major index `y * w + x` with `(x, y)` in range lies within the grid,
/// and decomposes back into `x` and `y` by division and remainder.
proof fn lemma_row_major_index_in_range(x: int, y: int, w: int, h: int)
    requires
        0 <= x < w,
        0 <= y < h,
    ensures
        0 <= y * w + x < w * h,
        (y * w + x) % w == x,
        (y * w + x) / w == y,
{
    assert(0 <= y * w + x < w * h) by (nonlinear_arith)
        requires 0 <= x < w, 0 <= y < h;
    lemma_fundamental_div_mod_converse_div(y * w + x, w, y, x);
    lemma_fundamental_div_mod_converse_mod(y * w + x, w, y, x);
}

/// Distinct in-range coordinates have distinct row-major indices.
proof fn lemma_row_major_index_injective(x1: int, y1: int, x2: int, y2: int, w: int, h: int)
    requires
        0 <= x1 < w,
        0 <= y1 < h,
        0 <= x2 < w,
        0 <= y2 < h,
        !(x1 == x2 && y1 == y2),
    ensures
        y1 * w + x1 != y2 * w + x2,
{
    lemma_row_major_index_in_range(x1, y1, w, h);
    lemma_row_major_index_in_range(x2, y2, w, h);
    if y1 * w + x1 == y2 * w + x2 {
        assert(x1 == (y1 * w + x1) % w && y1 == (y1 * w + x1) / w);
        assert(x2 == (y2 * w + x2) % w && y2 == (y2 * w + x2) / w);
    }
}

/// A grid index `k` splits into the coordinates `(k % w, k / w)`.
pub proof fn lemma_row_major_decompose(k: int, w: int, h: int)
    requires
        0 <= k < w * h,
        0 <= w,
        0 <= h,
    ensures
        w > 0,
        0 <= k % w < w,
        0 <= k / w < h,
        k == (k / w) * w + k % w,
{
    assert(w > 0) by (nonlinear_arith)
        requires 0 <= k < w * h, 0 <= w;
    vstd::arithmetic::div_mod::lemma_fundamental_div_mod(k, w);
    vstd::arithmetic::div_mod::lemma_mod_bound(k, w);
    vstd::arithmetic::mul::lemma_mul_is_commutative(w, k / w);
    assert(0 <= k / w < h) by (nonlinear_arith)
        requires
            0 <= k < w * h,
            w > 0,
            k == w * (k / w) + k % w,
            0 <= k % w < w;
}

/// A row below the midline never coincides with its mirror row.
proof fn lemma_two_rows_distinct(y: int, h: int)
    requires
        0 <= y < h / 2,
    ensures
        y != h - 1 - y,
        0 <= h - 1 - y < h,
{
}

/// Reversing the row order twice gives back the starting grid exactly.
pub proof fn lemma_flip_involution(g: Seq<Rgb>, w: int, h: int)
    requires
        0 <= w,
        0 <= h,
        g.len() == w * h,
    ensures
        spec_flipped(spec_flipped(g, w, h), w, h) == g,
{
    let f1 = spec_flipped(g, w, h);
    let f2 = spec_flipped(f1, w, h);
    assert forall|k: int| 0 <= k < g.len() implies f2[k] == g[k] by {
        lemma_row_major_decompose(k, w, h);
        let x = k % w;
        let y = k / w;
        lemma_row_major_index_in_range(x, h - 1 - y, w, h);
        assert(f2[k] == f1[(h - 1 - y) * w + x]);
        assert(f1[(h - 1 - y) * w + x] == g[(h - 1 - (h - 1 - y)) * w + x]);
        assert((h - 1 - (h - 1 - y)) * w + x == k);
    };
    assert(f2 =~= g);
}

} // verus!

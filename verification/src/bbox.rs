//! Axis-aligned integer bounding boxes and a finite, restartable, row-major
//! enumeration of every integer point inside one.

use vstd::prelude::*;
use vstd::arithmetic::div_mod::{
    lemma_fundamental_div_mod_converse_div, lemma_fundamental_div_mod_converse_mod,
};

use crate::geom::{Triangle, Vec2i};

verus! {

/// An axis-aligned box of integer points, both bounds inclusive. After
/// clamping, `min > max` on either axis marks an empty box, which enumerates
/// no points.
#[derive(Clone, Copy, Debug)]
pub struct BoundingBox {
    pub min: Vec2i,
    pub max: Vec2i,
}

/// The box holds no integer point.
pub open spec fn spec_box_empty(b: BoundingBox) -> bool {
    b.min.x > b.max.x || b.min.y > b.max.y
}

/// The number of distinct `x` coordinates in the box.
pub open spec fn spec_box_width(b: BoundingBox) -> int {
    if spec_box_empty(b) {
        0
    } else {
        b.max.x - b.min.x + 1
    }
}

/// The number of distinct `y` coordinates in the box.
pub open spec fn spec_box_height(b: BoundingBox) -> int {
    if spec_box_empty(b) {
        0
    } else {
        b.max.y - b.min.y + 1
    }
}

/// The point `(px, py)` lies inside the box.
pub open spec fn spec_box_contains(b: BoundingBox, px: int, py: int) -> bool {
    b.min.x <= px <= b.max.x && b.min.y <= py <= b.max.y
}

/// Every integer point of the box in row-major order, `x` varying fastest:
/// the `k`-th point is `(min.x + k % width, min.y + k / width)`.
pub open spec fn spec_box_points(b: BoundingBox) -> Seq<(int, int)> {
    Seq::new(
        (spec_box_width(b) * spec_box_height(b)) as nat,
        |k: int| (b.min.x + k % spec_box_width(b), b.min.y + k / spec_box_width(b)),
    )
}

/// The position of the point `(px, py)` in the box's row-major enumeration.
pub open spec fn spec_box_index(b: BoundingBox, px: int, py: int) -> int {
    (py - b.min.y) * spec_box_width(b) + (px - b.min.x)
}

/// A point of the box appears in the enumeration at its row-major index.
pub proof fn lemma_box_points_index(b: BoundingBox, px: int, py: int)
    requires
        spec_box_contains(b, px, py),
    ensures
        0 <= spec_box_index(b, px, py) < spec_box_points(b).len(),
        spec_box_points(b)[spec_box_index(b, px, py)] == (px, py),
{
    let w = spec_box_width(b);
    let h = spec_box_height(b);
    let row = py - b.min.y;
    let col = px - b.min.x;
    assert(0 <= col < w && 0 <= row < h);
    assert(row * w + col < h * w) by (nonlinear_arith)
        requires 0 <= col < w, 0 <= row < h;
    assert(0 <= row * w + col) by (nonlinear_arith)
        requires 0 <= col, 0 <= row, w > 0;
    assert(h * w == w * h) by (nonlinear_arith);
    lemma_fundamental_div_mod_converse_div(row * w + col, w, row, col);
    lemma_fundamental_div_mod_converse_mod(row * w + col, w, row, col);
}

/// Every entry of the enumeration is a point of the box, found at its own
/// row-major index.
pub proof fn lemma_box_points_at(b: BoundingBox, k: int)
    requires
        0 <= k < spec_box_points(b).len(),
    ensures
        spec_box_contains(b, spec_box_points(b)[k].0, spec_box_points(b)[k].1),
        spec_box_index(b, spec_box_points(b)[k].0, spec_box_points(b)[k].1) == k,
{
    let w = spec_box_width(b);
    let h = spec_box_height(b);
    assert(w > 0) by (nonlinear_arith)
        requires 0 <= k < w * h, w >= 0;
    vstd::arithmetic::div_mod::lemma_fundamental_div_mod(k, w);
    vstd::arithmetic::div_mod::lemma_mod_bound(k, w);
    assert(0 <= k / w < h) by (nonlinear_arith)
        requires
            0 <= k < w * h,
            w > 0,
            k == w * (k / w) + k % w,
            0 <= k % w < w;
    vstd::arithmetic::mul::lemma_mul_is_commutative(w, k / w);
}

impl BoundingBox {
    /// Restrict the box in place to `[low, high]` on both axes. If the box
    /// lies fully outside that range it becomes inverted (`min > max`), and
    /// then enumerates zero points.
    pub fn clamp(&mut self, low: Vec2i, high: Vec2i)
        ensures
            final(self).min.x == if old(self).min.x < low.x { low.x } else { old(self).min.x },
            final(self).min.y == if old(self).min.y < low.y { low.y } else { old(self).min.y },
            final(self).max.x == if old(self).max.x > high.x { high.x } else { old(self).max.x },
            final(self).max.y == if old(self).max.y > high.y { high.y } else { old(self).max.y },
            !spec_box_empty(*final(self)) ==> low.x <= final(self).min.x <= final(self).max.x
                <= high.x && low.y <= final(self).min.y <= final(self).max.y <= high.y,
    {
        if self.min.x < low.x {
            self.min.x = low.x;
        }
        if self.min.y < low.y {
            self.min.y = low.y;
        }
        if self.max.x > high.x {
            self.max.x = high.x;
        }
        if self.max.y > high.y {
            self.max.y = high.y;
        }
    }

    /// Start a fresh row-major traversal of the box's points. The box is
    /// `Copy`, so a new traversal can be started from the same box state at
    /// any time.
    pub fn into_iter(self) -> (it: BoxIterator)
        ensures
            it.wf(),
            it.bbox() == self,
            it.pos() == 0,
    {
        let done = self.min.x > self.max.x || self.min.y > self.max.y;
        proof {
            if done {
                assert(spec_box_width(self) * spec_box_height(self) == 0) by (nonlinear_arith)
                    requires spec_box_width(self) == 0;
            } else {
                assert((self.min.y - self.min.y) * spec_box_width(self) == 0) by (nonlinear_arith);
            }
        }
        BoxIterator { current: self.min, bbox: self, done }
    }
}

/// A cursor over the integer points of a box, row-major, `x` fastest.
pub struct BoxIterator {
    bbox: BoundingBox,
    current: Vec2i,
    done: bool,
}

impl BoxIterator {
    /// The box being traversed.
    pub closed spec fn bbox(&self) -> BoundingBox {
        self.bbox
    }

    /// How many points have been yielded so far.
    pub closed spec fn pos(&self) -> int {
        if self.done {
            spec_box_width(self.bbox) * spec_box_height(self.bbox)
        } else {
            (self.current.y - self.bbox.min.y) * spec_box_width(self.bbox) + (self.current.x
                - self.bbox.min.x)
        }
    }

    /// The cursor points at the next unvisited point of the box, or past the
    /// end once every point has been yielded.
    pub closed spec fn wf(&self) -> bool {
        self.done || spec_box_contains(self.bbox, self.current.x as int, self.current.y as int)
    }

    /// Yield the next point of the box in row-major order, or `None` once
    /// every point has been yielded.
    pub fn next(&mut self) -> (r: Option<Vec2i>)
        requires
            old(self).wf(),
        ensures
            final(self).wf(),
            final(self).bbox() == old(self).bbox(),
            old(self).pos() < spec_box_points(old(self).bbox()).len() ==> {
                &&& final(self).pos() == old(self).pos() + 1
                &&& r is Some
                &&& (r->0.x as int, r->0.y as int) == spec_box_points(old(self).bbox())[old(
                    self,
                ).pos()]
            },
            old(self).pos() >= spec_box_points(old(self).bbox()).len() ==> r is None
                && final(self).pos() == old(self).pos(),
    {
        if self.done {
            return None;
        }
        let p = self.current;
        proof {
            let b = self.bbox;
            let w = spec_box_width(b);
            let h = spec_box_height(b);
            let row = self.current.y - b.min.y;
            let col = self.current.x - b.min.x;
            lemma_box_points_index(b, p.x as int, p.y as int);
            if self.current.x == b.max.x && self.current.y != b.max.y {
                // wrapping to the next row advances the row-major position by one
                assert((row + 1) * w == row * w + w) by (nonlinear_arith);
            }
            if self.current.x == b.max.x && self.current.y == b.max.y {
                assert(row == h - 1 && col == w - 1);
                assert((h - 1) * w + (w - 1) + 1 == h * w) by (nonlinear_arith);
            }
        }
        if self.current.x < self.bbox.max.x {
            self.current.x = self.current.x + 1;
        } else if self.current.y < self.bbox.max.y {
            self.current.x = self.bbox.min.x;
            self.current.y = self.current.y + 1;
        } else {
            self.done = true;
        }
        Some(p)
    }
}

impl Triangle {
    /// The minimal axis-aligned box containing the three vertices:
    /// component-wise minimum and maximum.
    pub fn bounding_box(&self) -> (b: BoundingBox)
        ensures
            b.min.x == vstd::math::min(self.0.x as int, vstd::math::min(self.1.x as int, self.2.x as int)),
            b.min.y == vstd::math::min(self.0.y as int, vstd::math::min(self.1.y as int, self.2.y as int)),
            b.max.x == vstd::math::max(self.0.x as int, vstd::math::max(self.1.x as int, self.2.x as int)),
            b.max.y == vstd::math::max(self.0.y as int, vstd::math::max(self.1.y as int, self.2.y as int)),
            !spec_box_empty(b),
            spec_box_contains(b, self.0.x as int, self.0.y as int),
            spec_box_contains(b, self.1.x as int, self.1.y as int),
            spec_box_contains(b, self.2.x as int, self.2.y as int),
    {
        let mut bboxmin = Vec2i { x: self.0.x, y: self.0.y };
        let mut bboxmax = Vec2i { x: self.0.x, y: self.0.y };
        if self.1.x < bboxmin.x {
            bboxmin.x = self.1.x;
        }
        if self.2.x < bboxmin.x {
            bboxmin.x = self.2.x;
        }
        if self.1.y < bboxmin.y {
            bboxmin.y = self.1.y;
        }
        if self.2.y < bboxmin.y {
            bboxmin.y = self.2.y;
        }
        if self.1.x > bboxmax.x {
            bboxmax.x = self.1.x;
        }
        if self.2.x > bboxmax.x {
            bboxmax.x = self.2.x;
        }
        if self.1.y > bboxmax.y {
            bboxmax.y = self.1.y;
        }
        if self.2.y > bboxmax.y {
            bboxmax.y = self.2.y;
        }
        BoundingBox { min: bboxmin, max: bboxmax }
    }
}

} // verus!

//! Integer screen-space geometry: 2D pixel coordinates, triangles, lines, and
//! an exact barycentric containment test.
//!
//! For a triangle `A B C` and a query point `P`, the vectors
//! `x = (C.x - A.x, B.x - A.x, A.x - P.x)` and
//! `y = (C.y - A.y, B.y - A.y, A.y - P.y)` are formed and their cross product
//! `u = x cross y` is taken. When `u.z` is zero the triangle is degenerate (zero
//! signed area) and contains no point. Otherwise the barycentric weights of
//! `P` are `(1 - (u.x + u.y) / u.z, u.y / u.z, u.x / u.z)`, and `P` lies in
//! the triangle (boundary included) exactly when all three weights are
//! non-negative. A weight `n / u.z` is non-negative exactly when
//! `n * u.z >= 0`, so the whole test is carried out in exact integer
//! arithmetic; no precision is lost to rounding.

use vstd::prelude::*;

verus! {

/// A pixel coordinate. May be negative or exceed the frame buffer's bounds
/// before clamping.
#[derive(Clone, Copy, Debug, PartialEq, Eq, Structural)]
pub struct Vec2i {
    pub x: i32,
    pub y: i32,
}

impl Vec2i {
    pub fn new(x: i32, y: i32) -> (v: Vec2i)
        ensures
            v.x == x,
            v.y == y,
    {
        Vec2i { x, y }
    }
}

/// A screen-space triangle to fill. No ordering is assumed among the three
/// vertices: the fill routine computes its own bounding box and containment
/// test per point.
#[derive(Clone, Copy, Debug)]
pub struct Triangle(pub Vec2i, pub Vec2i, pub Vec2i);

/// A screen-space segment for the line rasterizer.
#[derive(Clone, Copy, Debug)]
pub struct Line(pub Vec2i, pub Vec2i);

/// The cross product of two 3-vectors of integers.
pub open spec fn cross3(a: (int, int, int), b: (int, int, int)) -> (int, int, int) {
    (a.1 * b.2 - a.2 * b.1, a.2 * b.0 - a.0 * b.2, a.0 * b.1 - a.1 * b.0)
}

/// The vector `u` whose signed ratios are the barycentric weights of the
/// point `(px, py)` with respect to the triangle.
pub open spec fn spec_barycentric(t: Triangle, px: int, py: int) -> (int, int, int) {
    cross3(
        (t.2.x - t.0.x, t.1.x - t.0.x, t.0.x - px),
        (t.2.y - t.0.y, t.1.y - t.0.y, t.0.y - py),
    )
}

/// Twice the signed area of the triangle; the `z` component of the
/// barycentric cross product, which does not depend on the query point.
pub open spec fn spec_signed_area2(t: Triangle) -> int {
    (t.2.x - t.0.x) * (t.1.y - t.0.y) - (t.1.x - t.0.x) * (t.2.y - t.0.y)
}

/// A triangle is degenerate when its three vertices are collinear, that is,
/// when its signed area is zero.
pub open spec fn spec_degenerate(t: Triangle) -> bool {
    spec_signed_area2(t) == 0
}

/// The point `(px, py)` lies inside the triangle or on its boundary: the
/// triangle is non-degenerate and all three barycentric weights are
/// non-negative. A weight `n / uz` is non-negative exactly when
/// `n * uz >= 0`.
pub open spec fn spec_contains(t: Triangle, px: int, py: int) -> bool {
    let (ux, uy, uz) = spec_barycentric(t, px, py);
    uz != 0 && ux * uz >= 0 && uy * uz >= 0 && (uz - ux - uy) * uz >= 0
}

/// Each vertex of a non-degenerate triangle passes the triangle's own
/// barycentric containment test: its weights come out as a permutation of
/// `(1, 0, 0)`.
pub proof fn lemma_vertices_contained(t: Triangle)
    requires
        !spec_degenerate(t),
    ensures
        spec_contains(t, t.0.x as int, t.0.y as int),
        spec_contains(t, t.1.x as int, t.1.y as int),
        spec_contains(t, t.2.x as int, t.2.y as int),
{
    let x0 = t.2.x - t.0.x as int;
    let x1 = t.1.x - t.0.x as int;
    let y0 = t.2.y - t.0.y as int;
    let y1 = t.1.y - t.0.y as int;
    let uz = x0 * y1 - x1 * y0;
    assert(uz != 0);
    assert(uz * uz >= 0) by (nonlinear_arith);
    // at the first vertex the weights are (1, 0, 0)
    let (ux_a, uy_a, uz_a) = spec_barycentric(t, t.0.x as int, t.0.y as int);
    assert(ux_a == 0 && uy_a == 0 && uz_a == uz);
    // at the second vertex the query vector components are the negated first
    // edge, so the weights are (0, 1, 0)
    let (ux_b, uy_b, uz_b) = spec_barycentric(t, t.1.x as int, t.1.y as int);
    assert(ux_b == 0 && uy_b == uz) by (nonlinear_arith)
        requires
            ux_b == x1 * (-y1) - (-x1) * y1,
            uy_b == (-x1) * y0 - x0 * (-y1),
            uz == x0 * y1 - x1 * y0;
    assert(uz_b == uz);
    // at the third vertex the query vector components are the negated second
    // edge, so the weights are (0, 0, 1)
    let (ux_c, uy_c, uz_c) = spec_barycentric(t, t.2.x as int, t.2.y as int);
    assert(ux_c == uz && uy_c == 0) by (nonlinear_arith)
        requires
            ux_c == x1 * (-y0) - (-x0) * y1,
            uy_c == (-x0) * y0 - x0 * (-y0),
            uz == x0 * y1 - x1 * y0;
    assert(uz_c == uz);
}

/// The product of two factors each bounded by `m` in magnitude is bounded by
/// `m * m`.
pub proof fn lemma_mul_bound(a: int, b: int, m: int)
    by (nonlinear_arith)
    requires
        0 <= m,
        -m <= a <= m,
        -m <= b <= m,
    ensures
        -(m * m) <= a * b <= m * m,
{
}

impl Triangle {
    /// The barycentric cross product `u` of the query point: `u.z` is twice
    /// the triangle's signed area, and the barycentric weights of the point
    /// are `(1 - (u.x + u.y) / u.z, u.y / u.z, u.x / u.z)`.
    pub fn barycentric(&self, p: Vec2i) -> (u: (i128, i128, i128))
        ensures
            (u.0 as int, u.1 as int, u.2 as int) == spec_barycentric(*self, p.x as int, p.y as int),
            -0x2_0000_0000_0000_0000 <= u.0 <= 0x2_0000_0000_0000_0000,
            -0x2_0000_0000_0000_0000 <= u.1 <= 0x2_0000_0000_0000_0000,
            -0x2_0000_0000_0000_0000 <= u.2 <= 0x2_0000_0000_0000_0000,
    {
        let x0: i128 = self.2.x as i128 - self.0.x as i128;
        let x1: i128 = self.1.x as i128 - self.0.x as i128;
        let x2: i128 = self.0.x as i128 - p.x as i128;
        let y0: i128 = self.2.y as i128 - self.0.y as i128;
        let y1: i128 = self.1.y as i128 - self.0.y as i128;
        let y2: i128 = self.0.y as i128 - p.y as i128;
        proof {
            lemma_mul_bound(x1 as int, y2 as int, 0x1_0000_0000);
            lemma_mul_bound(x2 as int, y1 as int, 0x1_0000_0000);
            lemma_mul_bound(x2 as int, y0 as int, 0x1_0000_0000);
            lemma_mul_bound(x0 as int, y2 as int, 0x1_0000_0000);
            lemma_mul_bound(x0 as int, y1 as int, 0x1_0000_0000);
            lemma_mul_bound(x1 as int, y0 as int, 0x1_0000_0000);
        }
        (x1 * y2 - x2 * y1, x2 * y0 - x0 * y2, x0 * y1 - x1 * y0)
    }

    /// The triangle contains the point if all of the barycentric weights are
    /// positive or zero. A degenerate triangle contains no point.
    pub fn contains(&self, point: Vec2i) -> (r: bool)
        ensures
            r == spec_contains(*self, point.x as int, point.y as int),
    {
        let (ux, uy, uz) = self.barycentric(point);
        if uz == 0 {
            false
        } else if uz > 0 {
            proof {
                let (vx, vy, vz) = (ux as int, uy as int, uz as int);
                assert((vx >= 0) == (vx * vz >= 0)) by (nonlinear_arith)
                    requires vz > 0;
                assert((vy >= 0) == (vy * vz >= 0)) by (nonlinear_arith)
                    requires vz > 0;
                assert((vz - vx - vy >= 0) == ((vz - vx - vy) * vz >= 0)) by (nonlinear_arith)
                    requires vz > 0;
            }
            ux >= 0 && uy >= 0 && ux + uy <= uz
        } else {
            proof {
                let (vx, vy, vz) = (ux as int, uy as int, uz as int);
                assert((vx <= 0) == (vx * vz >= 0)) by (nonlinear_arith)
                    requires vz < 0;
                assert((vy <= 0) == (vy * vz >= 0)) by (nonlinear_arith)
                    requires vz < 0;
                assert((vz - vx - vy <= 0) == ((vz - vx - vy) * vz >= 0)) by (nonlinear_arith)
                    requires vz < 0;
            }
            ux <= 0 && uy <= 0 && ux + uy >= uz
        }
    }
}

} // verus!


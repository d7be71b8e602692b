//! The mesh-to-raster pipeline: for each face of a triangle mesh, project the
//! vertices to screen space with a fixed orthographic map, compute the face
//! normal and a flat-shading intensity against the fixed light direction
//! `(0, 0, -1)`, cull back faces, and fill the projected triangle in a
//! grayscale of the intensity. The buffer is flipped vertically at the end,
//! because model-space `y` grows upward while raster rows grow downward.
//!
//! Model-space coordinates are fixed-point integers with `FIXED_ONE`
//! standing for one model unit, so the whole pipeline is exact integer
//! arithmetic: the shading intensity `-nz / |n|` is evaluated with an integer
//! square root, and `round(intensity * 255)` comes out as
//! `(510 * -nz + |n|) / (2 * |n|)`.

use vstd::prelude::*;

use crate::fill::{draw_triangle, spec_fill_grid};
use crate::framebuffer::{spec_black, spec_flipped, FrameBuffer, Rgb};
use crate::geom::{cross3, Triangle, Vec2i};

verus! {

/// One model unit in fixed-point coordinates.
pub const FIXED_ONE: i64 = 65536;

/// The largest magnitude a fixed-point coordinate may have: 256 model units,
/// generous slack around the conventional `[-1, 1]` model cube, and small
/// enough that every intermediate product fits its machine integer.
pub const COORD_LIMIT: i64 = 16777216;

/// A vertex position in model space, in fixed-point coordinates:
/// `FIXED_ONE` stands for 1.0.
#[derive(Clone, Copy, Debug, PartialEq, Eq, Structural)]
pub struct ModelVertex {
    pub x: i64,
    pub y: i64,
    pub z: i64,
}

/// A triangle mesh: vertex positions and faces as index triples into the
/// positions, exactly as the external loader yields them.
pub struct Mesh {
    pub positions: Vec<ModelVertex>,
    pub faces: Vec<(usize, usize, usize)>,
}

/// The coordinate is within the renderer's fixed-point range.
pub open spec fn spec_coord_ok(v: ModelVertex) -> bool {
    &&& -COORD_LIMIT <= v.x <= COORD_LIMIT
    &&& -COORD_LIMIT <= v.y <= COORD_LIMIT
    &&& -COORD_LIMIT <= v.z <= COORD_LIMIT
}

impl Mesh {
    /// Every face index refers to a vertex of the mesh, and every coordinate
    /// is within the renderer's fixed-point range. The renderer trusts this
    /// invariant; `check` tests it.
    pub open spec fn wf(&self) -> bool {
        &&& forall|i: int|
            0 <= i < self.faces@.len() ==> (#[trigger] self.faces@[i]).0 < self.positions@.len()
                && self.faces@[i].1 < self.positions@.len() && self.faces@[i].2
                < self.positions@.len()
        &&& forall|i: int|
            0 <= i < self.positions@.len() ==> spec_coord_ok(#[trigger] self.positions@[i])
    }

    /// Test the mesh invariant: every face index in range and every
    /// coordinate within the fixed-point range.
    pub fn check(&self) -> (ok: bool)
        ensures
            ok == self.wf(),
    {
        let np = self.positions.len();
        let mut i: usize = 0;
        while i < self.faces.len()
            invariant
                np == self.positions@.len(),
                0 <= i <= self.faces@.len(),
                forall|j: int|
                    0 <= j < i ==> (#[trigger] self.faces@[j]).0 < np && self.faces@[j].1 < np
                        && self.faces@[j].2 < np,
            decreases self.faces@.len() - i,
        {
            let f = self.faces[i];
            if f.0 >= np || f.1 >= np || f.2 >= np {
                return false;
            }
            i = i + 1;
        }
        let mut i: usize = 0;
        while i < self.positions.len()
            invariant
                np == self.positions@.len(),
                0 <= i <= self.positions@.len(),
                forall|j: int|
                    0 <= j < self.faces@.len() ==> (#[trigger] self.faces@[j]).0 < np
                        && self.faces@[j].1 < np && self.faces@[j].2 < np,
                forall|j: int| 0 <= j < i ==> spec_coord_ok(#[trigger] self.positions@[j]),
            decreases self.positions@.len() - i,
        {
            let p = self.positions[i];
            if p.x < -COORD_LIMIT || p.x > COORD_LIMIT || p.y < -COORD_LIMIT || p.y > COORD_LIMIT
                || p.z < -COORD_LIMIT || p.z > COORD_LIMIT {
                return false;
            }
            i = i + 1;
        }
        true
    }
}

/// `r` is the integer square root of `n`.
pub open spec fn is_isqrt(n: int, r: int) -> bool {
    r >= 0 && r * r <= n < (r + 1) * (r + 1)
}

/// The integer square root: the unique `r >= 0` with
/// `r * r <= n < (r + 1) * (r + 1)`.
pub open spec fn spec_isqrt(n: int) -> int {
    choose|r: int| is_isqrt(n, r)
}

/// Two integer square roots of the same number coincide.
proof fn lemma_isqrt_unique(n: int, r1: int, r2: int)
    by (nonlinear_arith)
    requires
        is_isqrt(n, r1),
        is_isqrt(n, r2),
    ensures
        r1 == r2,
{
}

/// The integer square root, by binary search.
pub fn isqrt(n: u128) -> (r: u64)
    ensures
        is_isqrt(n as int, r as int),
        r == spec_isqrt(n as int),
{
    let mut lo: u64 = 0;
    let mut hi: u64 = u64::MAX;
    proof {
        assert((lo as int) * (lo as int) <= n as int);
        assert((hi as int + 1) * (hi as int + 1) > n as int) by (nonlinear_arith)
            requires hi == u64::MAX, n <= u128::MAX;
    }
    while lo < hi
        invariant
            lo <= hi,
            (lo as int) * (lo as int) <= n as int,
            (hi as int + 1) * (hi as int + 1) > n as int,
        decreases hi - lo,
    {
        let mid = hi - (hi - lo) / 2;
        proof {
            assert(lo < mid <= hi);
            assert((mid as int) * (mid as int) <= u128::MAX) by (nonlinear_arith)
                requires 0 <= mid <= u64::MAX;
        }
        if (mid as u128) * (mid as u128) <= n {
            lo = mid;
        } else {
            hi = mid - 1;
        }
    }
    proof {
        assert(is_isqrt(n as int, lo as int));
        let w = spec_isqrt(n as int);
        assert(is_isqrt(n as int, w)) by {
            assert(is_isqrt(n as int, lo as int));
        }
        lemma_isqrt_unique(n as int, lo as int, w);
    }
    lo
}

/// The face normal before normalization: the cross product of the edges
/// `c - a` and `b - a`, in that operand order; swapping them would flip
/// which side of a face counts as its front.
pub open spec fn spec_face_normal(a: ModelVertex, b: ModelVertex, c: ModelVertex) -> (
    int,
    int,
    int,
) {
    cross3((c.x - a.x, c.y - a.y, c.z - a.z), (b.x - a.x, b.y - a.y, b.z - a.z))
}

/// The squared length of a 3-vector.
pub open spec fn spec_norm_sq(n: (int, int, int)) -> int {
    n.0 * n.0 + n.1 * n.1 + n.2 * n.2
}

/// The shading intensity of a face, scaled to `[0, 255]` and rounded to the
/// nearest integer, or `None` when the face is culled. The intensity is the
/// dot product of the unit face normal with the fixed light direction
/// `(0, 0, -1)`, that is `-nz / |n|`; a face with non-positive intensity
/// (including a degenerate face with zero normal) is culled.
pub open spec fn spec_shade(a: ModelVertex, b: ModelVertex, c: ModelVertex) -> Option<u8> {
    let n = spec_face_normal(a, b, c);
    if n.2 >= 0 {
        None
    } else {
        let m = spec_isqrt(spec_norm_sq(n));
        Some(((510 * -n.2 + m) / (2 * m)) as u8)
    }
}

/// The product of two factors is bounded by the product of their bounds.
proof fn lemma_mul_bound2(a: int, b: int, ma: int, mb: int)
    by (nonlinear_arith)
    requires
        0 <= ma,
        0 <= mb,
        -ma <= a <= ma,
        -mb <= b <= mb,
    ensures
        -(ma * mb) <= a * b <= ma * mb,
{
}

/// A non-negative number divided by a positive one stays below any bound the
/// numerator is below `d` times.
proof fn lemma_div_bounds(num: int, d: int, bound: int)
    requires
        d > 0,
        0 <= num,
        num < d * (bound + 1),
    ensures
        0 <= num / d <= bound,
{
    vstd::arithmetic::div_mod::lemma_fundamental_div_mod(num, d);
    vstd::arithmetic::div_mod::lemma_mod_bound(num, d);
    let q = num / d;
    let r = num % d;
    assert(0 <= q <= bound) by (nonlinear_arith)
        requires
            num == d * q + r,
            0 <= r < d,
            d > 0,
            0 <= num,
            num < d * (bound + 1);
}

/// Compute the flat-shading intensity of the face `a b c`, or `None` when
/// the face is culled.
pub fn shade(a: ModelVertex, b: ModelVertex, c: ModelVertex) -> (r: Option<u8>)
    requires
        spec_coord_ok(a),
        spec_coord_ok(b),
        spec_coord_ok(c),
    ensures
        r == spec_shade(a, b, c),
{
    let e1x = c.x - a.x;
    let e1y = c.y - a.y;
    let e1z = c.z - a.z;
    let e2x = b.x - a.x;
    let e2y = b.y - a.y;
    let e2z = b.z - a.z;
    proof {
        crate::geom::lemma_mul_bound(e1y as int, e2z as int, 2 * COORD_LIMIT);
        crate::geom::lemma_mul_bound(e1z as int, e2y as int, 2 * COORD_LIMIT);
        crate::geom::lemma_mul_bound(e1z as int, e2x as int, 2 * COORD_LIMIT);
        crate::geom::lemma_mul_bound(e1x as int, e2z as int, 2 * COORD_LIMIT);
        crate::geom::lemma_mul_bound(e1x as int, e2y as int, 2 * COORD_LIMIT);
        crate::geom::lemma_mul_bound(e1y as int, e2x as int, 2 * COORD_LIMIT);
    }
    let nx = e1y * e2z - e1z * e2y;
    let ny = e1z * e2x - e1x * e2z;
    let nz = e1x * e2y - e1y * e2x;
    if nz >= 0 {
        return None;
    }
    // |n| <= 2 * (2 * COORD_LIMIT)^2 componentwise, so the squared length
    // fits comfortably in an i128
    let nb: i128 = 0x8_0000_0000_0000;
    proof {
        crate::geom::lemma_mul_bound(nx as int, nx as int, nb as int);
        crate::geom::lemma_mul_bound(ny as int, ny as int, nb as int);
        crate::geom::lemma_mul_bound(nz as int, nz as int, nb as int);
        assert((nx as int) * (nx as int) >= 0) by (nonlinear_arith);
        assert((ny as int) * (ny as int) >= 0) by (nonlinear_arith);
        assert((nz as int) * (nz as int) >= 0) by (nonlinear_arith);
    }
    let nn_i: i128 = (nx as i128) * (nx as i128) + (ny as i128) * (ny as i128) + (nz as i128) * (
    nz as i128);
    let nn: u128 = nn_i as u128;
    let m: u64 = isqrt(nn);
    proof {
        // nz^2 <= nn < (m + 1)^2 pins |nz| <= m, so the intensity is at
        // most one and the rounded byte at most 255
        assert(1 <= m && -(m as int) <= nz as int <= m as int) by (nonlinear_arith)
            requires
                nz < 0,
                (nz as int) * (nz as int) <= nn_i as int,
                nn_i == nn,
                is_isqrt(nn as int, m as int);
        // the squared length is below 2^104, so its root is below 2^52
        assert(m as int <= 0x10_0000_0000_0000) by (nonlinear_arith)
            requires
                is_isqrt(nn as int, m as int),
                nn <= 0xC0_0000_0000_0000_0000_0000_0000;
        lemma_div_bounds(510 * -(nz as int) + m, 2 * (m as int), 255);
    }
    let neg: u64 = (-nz) as u64;
    let num: u64 = 510 * neg + m;
    let v: u64 = num / (2 * m);
    Some(v as u8)
}

/// Truncating division with a positive divisor, as the machine performs it:
/// the quotient is rounded toward zero.
pub open spec fn spec_trunc_div(a: int, b: int) -> int {
    if a >= 0 {
        a / b
    } else {
        -((-a) / b)
    }
}

/// The fixed orthographic map from a model-space coordinate to a screen
/// coordinate: `(f + 1) * dim / 2 - 1` in model units, truncated toward
/// zero.
pub open spec fn spec_project_coord(f: int, dim: int) -> int {
    spec_trunc_div((f + FIXED_ONE) * dim - 2 * FIXED_ONE, 2 * FIXED_ONE)
}

/// Project a model vertex to a screen point on a `width` by `height` buffer:
/// `x` against the width, `y` against the height; `z` is dropped.
pub fn project(v: ModelVertex, width: usize, height: usize) -> (p: Vec2i)
    requires
        spec_coord_ok(v),
        width <= 65535,
        height <= 65535,
    ensures
        p.x as int == spec_project_coord(v.x as int, width as int),
        p.y as int == spec_project_coord(v.y as int, height as int),
{
    let px = project_coord(v.x, width as i64);
    let py = project_coord(v.y, height as i64);
    Vec2i { x: px, y: py }
}

/// Project one coordinate: `(f + FIXED_ONE) * dim` model units, less two, in
/// half-pixels, truncated toward zero.
fn project_coord(f: i64, dim: i64) -> (r: i32)
    requires
        -COORD_LIMIT <= f <= COORD_LIMIT,
        0 <= dim <= 65535,
    ensures
        r as int == spec_project_coord(f as int, dim as int),
{
    proof {
        lemma_mul_bound2((f + FIXED_ONE) as int, dim as int, 16842752, 65535);
        assert(-(16842752 * 65535) <= (f + FIXED_ONE) * dim <= 16842752 * 65535);
    }
    let num: i64 = (f + FIXED_ONE) * dim - 2 * FIXED_ONE;
    let den: u64 = (2 * FIXED_ONE) as u64;
    let q: i64 = if num >= 0 {
        proof {
            lemma_div_bounds(num as int, den as int, 16842752);
        }
        ((num as u64) / den) as i64
    } else {
        proof {
            lemma_div_bounds(-(num as int), den as int, 16842752);
        }
        -((((-num) as u64) / den) as i64)
    };
    q as i32
}

/// A gray pixel of the given brightness.
pub open spec fn spec_grey(v: u8) -> Rgb {
    Rgb { r: v, g: v, b: v }
}

/// The projected screen triangle of a face.
pub open spec fn spec_screen_triangle(
    a: ModelVertex,
    b: ModelVertex,
    c: ModelVertex,
    w: int,
    h: int,
) -> Triangle {
    Triangle(
        Vec2i {
            x: spec_project_coord(a.x as int, w) as i32,
            y: spec_project_coord(a.y as int, h) as i32,
        },
        Vec2i {
            x: spec_project_coord(b.x as int, w) as i32,
            y: spec_project_coord(b.y as int, h) as i32,
        },
        Vec2i {
            x: spec_project_coord(c.x as int, w) as i32,
            y: spec_project_coord(c.y as int, h) as i32,
        },
    )
}

/// The grid after rendering the first `n` faces, in input order, onto an
/// initially black `w` by `h` grid: each visible face fills its projected
/// triangle with its gray intensity; later faces simply overwrite earlier
/// ones.
pub open spec fn spec_render_faces(
    positions: Seq<ModelVertex>,
    faces: Seq<(usize, usize, usize)>,
    w: int,
    h: int,
    n: int,
) -> Seq<Rgb>
    decreases n,
{
    if n <= 0 {
        Seq::new((w * h) as nat, |k: int| spec_black())
    } else {
        let g = spec_render_faces(positions, faces, w, h, n - 1);
        let f = faces[n - 1];
        let a = positions[f.0 as int];
        let b = positions[f.1 as int];
        let c = positions[f.2 as int];
        match spec_shade(a, b, c) {
            Some(v) => spec_fill_grid(g, spec_screen_triangle(a, b, c, w, h), spec_grey(v), w),
            None => g,
        }
    }
}

/// The finished image of a mesh: all faces rendered in input order, then the
/// row order reversed.
pub open spec fn spec_render(
    positions: Seq<ModelVertex>,
    faces: Seq<(usize, usize, usize)>,
    w: int,
    h: int,
) -> Seq<Rgb> {
    spec_flipped(spec_render_faces(positions, faces, w, h, faces.len() as int), w, h)
}

/// Render the mesh onto a fresh black `width` by `height` buffer: project,
/// shade and cull each face in input order, fill the visible ones, and flip
/// the finished buffer vertically.
pub fn render(mesh: &Mesh, width: usize, height: usize) -> (img: FrameBuffer)
    requires
        mesh.wf(),
        width <= 65535,
        height <= 65535,
    ensures
        img.wf(),
        img.spec_width() == width,
        img.spec_height() == height,
        img.grid() == spec_render(mesh.positions@, mesh.faces@, width as int, height as int),
{
    proof {
        crate::geom::lemma_mul_bound(width as int, height as int, 65535);
    }
    let mut img = FrameBuffer::new(width, height);
    proof {
        assert(img.grid() =~= spec_render_faces(
            mesh.positions@,
            mesh.faces@,
            width as int,
            height as int,
            0,
        )) by {
            assert forall|k: int| 0 <= k < img.grid().len() implies img.grid()[k]
                == spec_black() by {
                crate::framebuffer::lemma_row_major_decompose(k, width as int, height as int);
                assert(img.pix(k % (width as int), k / (width as int)) == spec_black());
            }
        }
    }
    let nfaces = mesh.faces.len();
    let mut i: usize = 0;
    while i < nfaces
        invariant
            mesh.wf(),
            nfaces == mesh.faces@.len(),
            0 <= i <= nfaces,
            width <= 65535,
            height <= 65535,
            img.wf(),
            img.spec_width() == width,
            img.spec_height() == height,
            img.grid() == spec_render_faces(
                mesh.positions@,
                mesh.faces@,
                width as int,
                height as int,
                i as int,
            ),
        decreases nfaces - i,
    {
        let f = mesh.faces[i];
        let a = mesh.positions[f.0];
        let b = mesh.positions[f.1];
        let c = mesh.positions[f.2];
        match shade(a, b, c) {
            Some(v) => {
                let pa = project(a, width, height);
                let pb = project(b, width, height);
                let pc = project(c, width, height);
                let t = Triangle(pa, pb, pc);
                proof {
                    assert(t == spec_screen_triangle(a, b, c, width as int, height as int));
                }
                draw_triangle(t, &mut img, Rgb { r: v, g: v, b: v });
            },
            None => {},
        }
        i = i + 1;
    }
    img.flip_vertical();
    img
}

} // verus!

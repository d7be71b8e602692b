//! Triangle fill: clamp the triangle's bounding box to the buffer, then paint
//! every box point that passes the barycentric containment test.

use vstd::prelude::*;
use vstd::arithmetic::mul::{
    lemma_mul_is_associative, lemma_mul_is_commutative, lemma_mul_is_distributive_sub,
    lemma_mul_is_distributive_sub_other_way,
};

use crate::bbox::{
    lemma_box_points_at, lemma_box_points_index, spec_box_contains, spec_box_empty,
    spec_box_index, spec_box_points,
};
use crate::framebuffer::{lemma_row_major_decompose, FrameBuffer, Rgb};
use crate::geom::{spec_barycentric, spec_contains, spec_degenerate, Triangle, Vec2i};

verus! {

/// The grid `g` of a width-`w` buffer after filling the triangle: every pixel
/// the triangle contains takes `color`, every other pixel keeps its value.
pub open spec fn spec_fill_grid(g: Seq<Rgb>, t: Triangle, color: Rgb, w: int) -> Seq<Rgb> {
    Seq::new(g.len(), |k: int| if spec_contains(t, k % w, k / w) {
        color
    } else {
        g[k]
    })
}

/// The defining identity of the barycentric cross product: the weights
/// `(uz - ux - uy, uy, ux)`, summing to `uz`, combine the vertices into
/// `uz` times the query point.
proof fn lemma_bary_identity(
    ax: int,
    bx: int,
    cx: int,
    x0: int,
    x1: int,
    x2: int,
    y0: int,
    y1: int,
    y2: int,
    px: int,
)
    requires
        x0 == cx - ax,
        x1 == bx - ax,
        x2 == ax - px,
    ensures
        (x0 * y1 - x1 * y0) * px == ((x0 * y1 - x1 * y0) - (x1 * y2 - x2 * y1) - (x2 * y0 - x0
            * y2)) * ax + (x2 * y0 - x0 * y2) * bx + (x1 * y2 - x2 * y1) * cx,
{
    let ux = x1 * y2 - x2 * y1;
    let uy = x2 * y0 - x0 * y2;
    let uz = x0 * y1 - x1 * y0;
    // uy * x1 + ux * x0 + x2 * uz == 0, one product at a time
    lemma_mul_is_distributive_sub_other_way(x1, x2 * y0, x0 * y2);
    lemma_mul_is_distributive_sub_other_way(x0, x1 * y2, x2 * y1);
    lemma_mul_is_distributive_sub(x2, x0 * y1, x1 * y0);
    lemma_mul_is_associative(x2, y0, x1);
    lemma_mul_is_commutative(y0, x1);
    lemma_mul_is_associative(x0, y2, x1);
    lemma_mul_is_commutative(y2, x1);
    lemma_mul_is_commutative(x0, x1 * y2);
    lemma_mul_is_associative(x2, y1, x0);
    lemma_mul_is_commutative(y1, x0);
    assert(uy * x1 + ux * x0 + x2 * uz == 0);
    // substitute the edge vectors and distribute
    lemma_mul_is_distributive_sub(uy, bx, ax);
    lemma_mul_is_distributive_sub(ux, cx, ax);
    lemma_mul_is_distributive_sub_other_way(uz, ax, px);
    assert(uy * bx - uy * ax + ux * cx - ux * ax + ax * uz - px * uz == 0);
    lemma_mul_is_distributive_sub_other_way(ax, uz - ux, uy);
    lemma_mul_is_distributive_sub_other_way(ax, uz, ux);
    lemma_mul_is_commutative(ax, uz);
    lemma_mul_is_commutative(ax, ux);
    lemma_mul_is_commutative(ax, uy);
    lemma_mul_is_commutative(uz, px);
}

/// A weighted combination with non-negative weights summing to `s > 0` stays
/// between the least and greatest of its inputs.
proof fn lemma_convex_combination_bound(
    c1: int,
    c2: int,
    c3: int,
    v1: int,
    v2: int,
    v3: int,
    s: int,
    p: int,
    lo: int,
    hi: int,
)
    by (nonlinear_arith)
    requires
        c1 >= 0,
        c2 >= 0,
        c3 >= 0,
        s == c1 + c2 + c3,
        s > 0,
        lo <= v1 <= hi,
        lo <= v2 <= hi,
        lo <= v3 <= hi,
        s * p == c1 * v1 + c2 * v2 + c3 * v3,
    ensures
        lo <= p <= hi,
{
}

/// Every point the barycentric test accepts lies inside the triangle's
/// bounding box: the weights make it a convex combination of the vertices.
pub proof fn lemma_contained_in_bounding_box(t: Triangle, px: int, py: int)
    requires
        spec_contains(t, px, py),
    ensures
        vstd::math::min(t.0.x as int, vstd::math::min(t.1.x as int, t.2.x as int)) <= px
            <= vstd::math::max(t.0.x as int, vstd::math::max(t.1.x as int, t.2.x as int)),
        vstd::math::min(t.0.y as int, vstd::math::min(t.1.y as int, t.2.y as int)) <= py
            <= vstd::math::max(t.0.y as int, vstd::math::max(t.1.y as int, t.2.y as int)),
{
    let (ax, ay) = (t.0.x as int, t.0.y as int);
    let (bx, by) = (t.1.x as int, t.1.y as int);
    let (cx, cy) = (t.2.x as int, t.2.y as int);
    let x0 = cx - ax;
    let x1 = bx - ax;
    let x2 = ax - px;
    let y0 = cy - ay;
    let y1 = by - ay;
    let y2 = ay - py;
    let (ux, uy, uz) = spec_barycentric(t, px, py);
    assert(ux == x1 * y2 - x2 * y1 && uy == x2 * y0 - x0 * y2 && uz == x0 * y1 - x1 * y0);
    lemma_bary_identity(ax, bx, cx, x0, x1, x2, y0, y1, y2, px);
    // the same identity for the y coordinates, with the two vector triples
    // exchanged; that negates all three cross components at once
    lemma_bary_identity(ay, by, cy, y0, y1, y2, x0, x1, x2, py);
    assert(uz * px == (uz - ux - uy) * ax + uy * bx + ux * cx);
    assert((-uz) * py == ((-uz) - (-ux) - (-uy)) * ay + (-uy) * by + (-ux) * cy);
    let lox = vstd::math::min(ax, vstd::math::min(bx, cx));
    let hix = vstd::math::max(ax, vstd::math::max(bx, cx));
    let loy = vstd::math::min(ay, vstd::math::min(by, cy));
    let hiy = vstd::math::max(ay, vstd::math::max(by, cy));
    if uz > 0 {
        assert(ux >= 0 && uy >= 0 && uz - ux - uy >= 0) by (nonlinear_arith)
            requires
                uz > 0,
                ux * uz >= 0,
                uy * uz >= 0,
                (uz - ux - uy) * uz >= 0;
        assert((-(-uz)) * py == -(((-uz) - (-ux) - (-uy)) * ay + (-uy) * by + (-ux) * cy))
            by (nonlinear_arith)
            requires (-uz) * py == ((-uz) - (-ux) - (-uy)) * ay + (-uy) * by + (-ux) * cy;
        assert(uz * py == (uz - ux - uy) * ay + uy * by + ux * cy) by (nonlinear_arith)
            requires (-(-uz)) * py == -(((-uz) - (-ux) - (-uy)) * ay + (-uy) * by + (-ux) * cy);
        lemma_convex_combination_bound(uz - ux - uy, uy, ux, ax, bx, cx, uz, px, lox, hix);
        lemma_convex_combination_bound(uz - ux - uy, uy, ux, ay, by, cy, uz, py, loy, hiy);
    } else {
        assert(-ux >= 0 && -uy >= 0 && -(uz - ux - uy) >= 0) by (nonlinear_arith)
            requires
                uz < 0,
                ux * uz >= 0,
                uy * uz >= 0,
                (uz - ux - uy) * uz >= 0;
        assert((-uz) * px == ((-uz) - (-ux) - (-uy)) * ax + (-uy) * bx + (-ux) * cx)
            by (nonlinear_arith)
            requires uz * px == (uz - ux - uy) * ax + uy * bx + ux * cx;
        lemma_convex_combination_bound(
            (-uz) - (-ux) - (-uy),
            -uy,
            -ux,
            ax,
            bx,
            cx,
            -uz,
            px,
            lox,
            hix,
        );
        lemma_convex_combination_bound(
            (-uz) - (-ux) - (-uy),
            -uy,
            -ux,
            ay,
            by,
            cy,
            -uz,
            py,
            loy,
            hiy,
        );
    }
}

/// Filling a triangle whose three vertices are collinear leaves every pixel
/// of the grid unchanged: a degenerate triangle contains no point.
pub proof fn lemma_degenerate_fill_paints_nothing(g: Seq<Rgb>, t: Triangle, color: Rgb, w: int)
    requires
        spec_degenerate(t),
    ensures
        spec_fill_grid(g, t, color, w) == g,
{
    assert(spec_fill_grid(g, t, color, w) =~= g);
}

/// Fill the triangle: compute its bounding box, clamp the box to the buffer,
/// and paint every point of the clamped box that the triangle contains.
pub fn draw_triangle(t: Triangle, img: &mut FrameBuffer, color: Rgb)
    requires
        old(img).wf(),
        old(img).spec_width() <= i32::MAX,
        old(img).spec_height() <= i32::MAX,
    ensures
        final(img).wf(),
        final(img).spec_width() == old(img).spec_width(),
        final(img).spec_height() == old(img).spec_height(),
        forall|i: int, j: int|
            old(img).in_bounds(i, j) ==> final(img).pix(i, j) == if spec_contains(t, i, j) {
                color
            } else {
                old(img).pix(i, j)
            },
        final(img).grid() == spec_fill_grid(old(img).grid(), t, color, old(img).spec_width()),
{
    let w = img.width();
    let h = img.height();
    let mut bbox = t.bounding_box();
    bbox.clamp(Vec2i { x: 0, y: 0 }, Vec2i { x: w as i32 - 1, y: h as i32 - 1 });
    let ghost cb = bbox;
    let mut it = bbox.into_iter();
    loop
        invariant
            img.wf(),
            img.spec_width() == old(img).spec_width(),
            img.spec_height() == old(img).spec_height(),
            w == img.spec_width(),
            h == img.spec_height(),
            it.wf(),
            it.bbox() == cb,
            0 <= it.pos() <= spec_box_points(cb).len(),
            spec_box_empty(cb) || (0 <= cb.min.x && 0 <= cb.min.y && cb.max.x < w && cb.max.y < h),
            forall|i: int, j: int|
                #![trigger img.pix(i, j)]
                old(img).in_bounds(i, j) ==> img.pix(i, j) == if spec_box_contains(cb, i, j)
                    && spec_box_index(cb, i, j) < it.pos() && spec_contains(t, i, j) {
                    color
                } else {
                    old(img).pix(i, j)
                },
        ensures
            forall|i: int, j: int|
                #![trigger img.pix(i, j)]
                old(img).in_bounds(i, j) ==> img.pix(i, j) == if spec_box_contains(cb, i, j)
                    && spec_contains(t, i, j) {
                    color
                } else {
                    old(img).pix(i, j)
                },
        decreases spec_box_points(cb).len() - it.pos(),
    {
        let ghost pos0 = it.pos();
        match it.next() {
            None => {
                proof {
                    assert forall|i: int, j: int| spec_box_contains(cb, i, j) implies spec_box_index(
                        cb,
                        i,
                        j,
                    ) < it.pos() by {
                        lemma_box_points_index(cb, i, j);
                    }
                }
                break;
            },
            Some(p) => {
                proof {
                    lemma_box_points_at(cb, pos0);
                }
                if t.contains(p) {
                    proof {
                        assert(spec_box_contains(cb, p.x as int, p.y as int));
                    }
                    img.put_pixel(p.x as usize, p.y as usize, color);
                }
                proof {
                    assert forall|i: int, j: int|
                        old(img).in_bounds(i, j) && spec_box_contains(cb, i, j) && spec_box_index(
                            cb,
                            i,
                            j,
                        ) == pos0 implies i == p.x as int && j == p.y as int by {
                        lemma_box_points_index(cb, i, j);
                    }
                }
            },
        }
    }
    proof {
        assert forall|i: int, j: int| old(img).in_bounds(i, j) implies img.pix(i, j) == (
        if spec_contains(t, i, j) {
            color
        } else {
            old(img).pix(i, j)
        }) by {
            if spec_contains(t, i, j) {
                lemma_contained_in_bounding_box(t, i, j);
                assert(spec_box_contains(cb, i, j));
            }
        }
        assert(img.grid() =~= spec_fill_grid(old(img).grid(), t, color, w as int)) by {
            assert forall|k: int| 0 <= k < img.grid().len() implies img.grid()[k] == spec_fill_grid(
                old(img).grid(),
                t,
                color,
                w as int,
            )[k] by {
                lemma_row_major_decompose(k, w as int, h as int);
                assert(img.pix(k % (w as int), k / (w as int)) == img.grid()[k]);
            }
        }
    }
}

} // verus!

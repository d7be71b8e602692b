//! Bresenham-style line rasterizer.
//!
//! The segment is normalized first: if it is steep (taller than wide) both
//! endpoints are transposed so the major axis is horizontal, and the
//! endpoints are swapped if needed so iteration runs left to right. The walk
//! then visits every `x` from the left endpoint to the right one, both
//! endpoints included, keeping an integer error accumulator: each step adds
//! `2 * |dy|`, and whenever the accumulator exceeds the run length `dx` the
//! minor coordinate steps by one toward its destination and the accumulator
//! drops by `2 * dx`. Pixels are written with coordinates un-transposed when
//! the segment was steep.

use vstd::prelude::*;
use vstd::math::abs;

use crate::framebuffer::{FrameBuffer, Rgb};
use crate::geom::{Line, Vec2i};

verus! {

/// The segment rises or falls faster than it runs: the line is taller than
/// it is wide.
pub open spec fn spec_steep(l: Line) -> bool {
    abs(l.1.x - l.0.x) < abs(l.1.y - l.0.y)
}

/// Both endpoints with their coordinates exchanged.
pub open spec fn spec_transposed(l: Line) -> Line {
    Line(Vec2i { x: l.0.y, y: l.0.x }, Vec2i { x: l.1.y, y: l.1.x })
}

/// The segment with its major axis horizontal and its endpoints ordered left
/// to right.
pub open spec fn spec_normalized(l: Line) -> Line {
    let t = if spec_steep(l) {
        spec_transposed(l)
    } else {
        l
    };
    if t.0.x > t.1.x {
        Line(t.1, t.0)
    } else {
        t
    }
}

/// The points visited by the error-accumulator walk from `(x, y)` up to and
/// including column `x1`, un-transposing each point when the segment was
/// steep.
pub open spec fn spec_walk(
    x: int,
    y: int,
    err: int,
    x1: int,
    dx: int,
    dy2: int,
    ystep: int,
    steep: bool,
) -> Seq<(int, int)>
    decreases x1 + 1 - x,
{
    if x > x1 {
        Seq::empty()
    } else {
        let p = if steep {
            (y, x)
        } else {
            (x, y)
        };
        let e2 = err + dy2;
        if e2 > dx {
            seq![p] + spec_walk(x + 1, y + ystep, e2 - 2 * dx, x1, dx, dy2, ystep, steep)
        } else {
            seq![p] + spec_walk(x + 1, y, e2, x1, dx, dy2, ystep, steep)
        }
    }
}

/// Every pixel the line rasterizer paints for the segment, both endpoints
/// included.
pub open spec fn spec_line_points(l: Line) -> Seq<(int, int)> {
    let n = spec_normalized(l);
    let x0 = n.0.x as int;
    let y0 = n.0.y as int;
    let x1 = n.1.x as int;
    let y1 = n.1.y as int;
    let ystep: int = if y1 > y0 {
        1
    } else {
        -1
    };
    spec_walk(x0, y0, 0, x1, x1 - x0, 2 * abs(y1 - y0) as int, ystep, spec_steep(l))
}

/// A sequence extended by one element contains exactly its old elements and
/// the new one.
proof fn lemma_push_contains<A>(s: Seq<A>, v: A, q: A)
    ensures
        s.push(v).contains(q) <==> (s.contains(q) || q == v),
{
    if s.push(v).contains(q) {
        let i = choose|i: int| 0 <= i < s.push(v).len() && s.push(v)[i] == q;
        if i < s.len() {
            assert(s[i] == q);
        }
    }
    if s.contains(q) {
        let i = choose|i: int| 0 <= i < s.len() && s[i] == q;
        assert(s.push(v)[i] == q);
    }
    if q == v {
        assert(s.push(v)[s.len() as int] == q);
    }
}

/// While the walk has taken `k` column steps and `s` minor steps, the error
/// accumulator keeps the minor step count within the segment's rise.
proof fn lemma_step_count_bounds(dyabs: int, dx: int, k: int, s: int, err: int)
    by (nonlinear_arith)
    requires
        dx > 0,
        0 <= dyabs <= dx,
        0 <= k <= dx,
        err == 2 * dyabs * k - 2 * dx * s,
        -dx < err <= dx,
    ensures
        0 <= s <= dyabs,
{
}

/// When the accumulator calls for a minor step, the step count has not yet
/// reached the segment's rise, so the minor coordinate never overshoots.
proof fn lemma_y_step_allowed(dyabs: int, dx: int, k: int, s: int, err: int)
    by (nonlinear_arith)
    requires
        dx > 0,
        0 <= dyabs <= dx,
        0 <= k,
        k + 1 <= dx,
        s >= 0,
        err == 2 * dyabs * k - 2 * dx * s,
        err + 2 * dyabs > dx,
    ensures
        s + 1 <= dyabs,
{
}

/// Advancing one column (with or without a minor step) preserves the error
/// accumulator's closed form.
proof fn lemma_err_advance(dyabs: int, dx: int, k: int, s: int, err: int, stepped: bool)
    by (nonlinear_arith)
    requires
        err == 2 * dyabs * k - 2 * dx * s,
    ensures
        stepped ==> err + 2 * dyabs - 2 * dx == 2 * dyabs * (k + 1) - 2 * dx * (s + 1),
        !stepped ==> err + 2 * dyabs == 2 * dyabs * (k + 1) - 2 * dx * s,
{
}

/// Draw the segment into the buffer. Both endpoints must lie inside the
/// buffer; every painted pixel then lies inside the bounding box of the
/// endpoints. Both endpoints are painted, so chained segments join without
/// gaps.
pub fn draw_line(l: Line, img: &mut FrameBuffer, color: Rgb)
    requires
        old(img).wf(),
        old(img).in_bounds(l.0.x as int, l.0.y as int),
        old(img).in_bounds(l.1.x as int, l.1.y as int),
    ensures
        final(img).wf(),
        final(img).spec_width() == old(img).spec_width(),
        final(img).spec_height() == old(img).spec_height(),
        forall|i: int, j: int|
            old(img).in_bounds(i, j) ==> final(img).pix(i, j) == if spec_line_points(l).contains(
                (i, j),
            ) {
                color
            } else {
                old(img).pix(i, j)
            },
{
    let ghost full = spec_line_points(l);
    let mut x0 = l.0.x;
    let mut y0 = l.0.y;
    let mut x1 = l.1.x;
    let mut y1 = l.1.y;
    let adx = if x1 >= x0 {
        x1 - x0
    } else {
        x0 - x1
    };
    let ady = if y1 >= y0 {
        y1 - y0
    } else {
        y0 - y1
    };
    let steep = adx < ady;
    // transpose if the line is steep, so the major axis is horizontal
    if steep {
        let tmp = x0;
        x0 = y0;
        y0 = tmp;
        let tmp = x1;
        x1 = y1;
        y1 = tmp;
    }
    // left to right
    if x0 > x1 {
        let tmp = x0;
        x0 = x1;
        x1 = tmp;
        let tmp = y0;
        y0 = y1;
        y1 = tmp;
    }
    proof {
        assert(spec_normalized(l) == Line(Vec2i { x: x0, y: y0 }, Vec2i { x: x1, y: y1 }));
    }
    let dx = (x1 - x0) as i64;
    let dyabs = if y1 >= y0 {
        (y1 - y0) as i64
    } else {
        (y0 - y1) as i64
    };
    // how much further from the ideal line each column step strays
    let dy2 = 2 * dyabs;
    let ystep: i32 = if y1 > y0 {
        1
    } else {
        -1
    };
    let mut err: i64 = 0;
    let mut x = x0;
    let mut y = y0;
    let ghost mut done: Seq<(int, int)> = Seq::empty();
    proof {
        assert(full == spec_walk(
            x as int,
            y as int,
            err as int,
            x1 as int,
            dx as int,
            dy2 as int,
            ystep as int,
            steep,
        ));
        assert(done + spec_walk(
            x as int,
            y as int,
            err as int,
            x1 as int,
            dx as int,
            dy2 as int,
            ystep as int,
            steep,
        ) =~= full);
    }
    loop
        invariant_except_break
            done + spec_walk(
                x as int,
                y as int,
                err as int,
                x1 as int,
                dx as int,
                dy2 as int,
                ystep as int,
                steep,
            ) == full,
        invariant
            img.wf(),
            img.spec_width() == old(img).spec_width(),
            img.spec_height() == old(img).spec_height(),
            dx == x1 - x0,
            0 <= dyabs <= dx,
            dy2 == 2 * dyabs,
            dyabs == abs(y1 - y0),
            ystep == if y1 > y0 { 1int } else { -1int },
            x0 <= x <= x1,
            steep ==> old(img).in_bounds(y0 as int, x0 as int) && old(img).in_bounds(
                y1 as int,
                x1 as int,
            ),
            !steep ==> old(img).in_bounds(x0 as int, y0 as int) && old(img).in_bounds(
                x1 as int,
                y1 as int,
            ),
            err == 2 * (dyabs as int) * (x - x0) - 2 * (dx as int) * ((ystep as int) * (y - y0)),
            dx > 0 ==> -dx < err <= dx,
            dx == 0 ==> err == 0 && y == y0,
            forall|i: int, j: int|
                #![trigger img.pix(i, j)]
                old(img).in_bounds(i, j) ==> img.pix(i, j) == if done.contains((i, j)) {
                    color
                } else {
                    old(img).pix(i, j)
                },
        ensures
            done == full,
            img.wf(),
            img.spec_width() == old(img).spec_width(),
            img.spec_height() == old(img).spec_height(),
            forall|i: int, j: int|
                #![trigger img.pix(i, j)]
                old(img).in_bounds(i, j) ==> img.pix(i, j) == if done.contains((i, j)) {
                    color
                } else {
                    old(img).pix(i, j)
                },
        decreases x1 - x,
    {
        let ghost s = (ystep as int) * (y - y0);
        proof {
            if dx > 0 {
                lemma_step_count_bounds(dyabs as int, dx as int, x - x0, s, err as int);
            } else {
                assert(s == 0) by (nonlinear_arith)
                    requires s == (ystep as int) * (y - y0), y == y0;
            }
            // 0 <= s <= dyabs puts y between y0 and y1
            if ystep == 1 {
                assert(y1 - y0 == dyabs && y0 <= y <= y1) by (nonlinear_arith)
                    requires s == 1int * (y - y0), 0 <= s <= dyabs, dyabs == abs(y1 - y0), y1 > y0 || dyabs == 0;
            } else {
                assert(y0 - y1 == dyabs && y1 <= y <= y0) by (nonlinear_arith)
                    requires s == (-1int) * (y - y0), 0 <= s <= dyabs, dyabs == abs(y1 - y0), !(y1 > y0);
            }
        }
        let ghost walk_now = spec_walk(
            x as int,
            y as int,
            err as int,
            x1 as int,
            dx as int,
            dy2 as int,
            ystep as int,
            steep,
        );
        let ghost p = if steep {
            (y as int, x as int)
        } else {
            (x as int, y as int)
        };
        if steep {
            img.put_pixel(y as usize, x as usize, color);
        } else {
            img.put_pixel(x as usize, y as usize, color);
        }
        let ghost done0 = done;
        proof {
            done = done0.push(p);
            assert forall|i: int, j: int| old(img).in_bounds(i, j) implies img.pix(i, j) == (
            if done.contains((i, j)) {
                color
            } else {
                old(img).pix(i, j)
            }) by {
                lemma_push_contains(done0, p, (i, j));
            }
        }
        if x == x1 {
            proof {
                // the tail of the walk past the last column is empty
                let e2 = err as int + dy2 as int;
                if e2 > dx {
                    assert(spec_walk(
                        x + 1 as int,
                        y + ystep as int,
                        e2 - 2 * dx,
                        x1 as int,
                        dx as int,
                        dy2 as int,
                        ystep as int,
                        steep,
                    ) =~= Seq::empty());
                } else {
                    assert(spec_walk(
                        x + 1 as int,
                        y as int,
                        e2,
                        x1 as int,
                        dx as int,
                        dy2 as int,
                        ystep as int,
                        steep,
                    ) =~= Seq::empty());
                }
                assert(walk_now =~= seq![p]);
                assert(done =~= full);
            }
            break;
        }
        proof {
            lemma_err_advance(
                dyabs as int,
                dx as int,
                x - x0,
                s,
                err as int,
                err + dy2 > dx,
            );
            if err + dy2 > dx {
                lemma_y_step_allowed(dyabs as int, dx as int, x - x0, s, err as int);
                assert((ystep as int) * ((y - y0) + ystep) == s + 1) by (nonlinear_arith)
                    requires
                        s == (ystep as int) * (y - y0),
                        ystep == 1 || ystep == -1;
            }
        }
        err = err + dy2;
        if err > dx {
            y = y + ystep;
            err = err - 2 * dx;
        }
        x = x + 1;
        proof {
            assert(done + spec_walk(
                x as int,
                y as int,
                err as int,
                x1 as int,
                dx as int,
                dy2 as int,
                ystep as int,
                steep,
            ) =~= full) by {
                assert(walk_now == seq![p] + spec_walk(
                    x as int,
                    y as int,
                    err as int,
                    x1 as int,
                    dx as int,
                    dy2 as int,
                    ystep as int,
                    steep,
                ));
            }
        }
    }
    proof {
        assert(forall|i: int, j: int|
            old(img).in_bounds(i, j) ==> img.pix(i, j) == if full.contains((i, j)) {
                color
            } else {
                old(img).pix(i, j)
            });
    }
}

/// Drawing a segment in one direction paints exactly the pixels of drawing
/// it in the other: normalization maps both endpoint orders to the same
/// walk.
pub proof fn lemma_line_symmetric(a: Vec2i, b: Vec2i)
    ensures
        spec_line_points(Line(a, b)) == spec_line_points(Line(b, a)),
{
    let lab = Line(a, b);
    let lba = Line(b, a);
    assert(spec_steep(lab) == spec_steep(lba));
    if spec_steep(lab) {
        // a steep segment cannot have equal transposed x coordinates, for
        // then its rise would be zero yet exceed its run
        assert(spec_normalized(lab) == spec_normalized(lba));
    } else {
        if a.x == b.x {
            // run zero and not steep forces rise zero: the endpoints coincide
            assert(a == b);
        }
        assert(spec_normalized(lab) == spec_normalized(lba));
    }
}

} // verus!

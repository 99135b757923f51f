//! The 3-D line rasterizer: the ordered grid points approximating the
//! straight segment between two integer points, by the Bresenham midpoint
//! method — one step per unit along the driving axis (the axis with the
//! largest delta, ties resolving to x, then y, then z), the other two
//! axes following through doubled error accumulators.
use vstd::arithmetic::div_mod::lemma_fundamental_div_mod_converse;
use vstd::prelude::*;

verus! {

/// The absolute difference of two coordinates.
pub open spec fn delta(a: i32, b: i32) -> int {
    if b >= a {
        b - a
    } else {
        a - b
    }
}

/// The unit step from `a` toward `b`; `-1` when they are equal, though an
/// axis with zero delta never actually steps.
pub open spec fn step_sign(a: i32, b: i32) -> int {
    if b > a {
        1
    } else {
        -1
    }
}

/// The x axis drives: its delta is no smaller than either other.
pub open spec fn x_drives(s: (i32, i32, i32), e: (i32, i32, i32)) -> bool {
    delta(s.0, e.0) >= delta(s.1, e.1) && delta(s.0, e.0) >= delta(s.2, e.2)
}

/// The y axis drives: x does not, and y's delta is no smaller than either
/// other.
pub open spec fn y_drives(s: (i32, i32, i32), e: (i32, i32, i32)) -> bool {
    !x_drives(s, e) && delta(s.1, e.1) >= delta(s.0, e.0) && delta(s.1, e.1) >= delta(s.2, e.2)
}

/// The delta of the driving axis: how many steps the segment takes.
pub open spec fn driving_delta(s: (i32, i32, i32), e: (i32, i32, i32)) -> int {
    if x_drives(s, e) {
        delta(s.0, e.0)
    } else if y_drives(s, e) {
        delta(s.1, e.1)
    } else {
        delta(s.2, e.2)
    }
}

/// How many of its `d` lateral steps a non-driving axis has taken after
/// `i` of the `dd` driving steps: `d*i/dd` rounded half up.
pub open spec fn lateral(d: int, i: int, dd: int) -> int {
    (2 * d * i + dd) / (2 * dd)
}

/// A point as a triple of mathematical integers.
pub open spec fn point_view(p: (i32, i32, i32)) -> (int, int, int) {
    (p.0 as int, p.1 as int, p.2 as int)
}

/// The `i`-th point when axis `a` drives, in (a, b, c) order.
pub open spec fn axis_point(
    a0: i32,
    a1: i32,
    b0: i32,
    b1: i32,
    c0: i32,
    c1: i32,
    i: int,
) -> (int, int, int) {
    if i == 0 {
        (a0 as int, b0 as int, c0 as int)
    } else {
        (
            a0 + i * step_sign(a0, a1),
            b0 + step_sign(b0, b1) * lateral(delta(b0, b1), i, delta(a0, a1)),
            c0 + step_sign(c0, c1) * lateral(delta(c0, c1), i, delta(a0, a1)),
        )
    }
}

/// The `i`-th point of the rasterized segment from `s` to `e`.
pub open spec fn line_point(s: (i32, i32, i32), e: (i32, i32, i32), i: int) -> (int, int, int) {
    if x_drives(s, e) {
        axis_point(s.0, e.0, s.1, e.1, s.2, e.2, i)
    } else if y_drives(s, e) {
        let t = axis_point(s.1, e.1, s.0, e.0, s.2, e.2, i);
        (t.1, t.0, t.2)
    } else {
        let t = axis_point(s.2, e.2, s.1, e.1, s.0, e.0, i);
        (t.2, t.1, t.0)
    }
}

/// Two distinct grid points no farther than one unit apart on any axis.
pub open spec fn unit_step(p: (i32, i32, i32), q: (i32, i32, i32)) -> bool {
    &&& delta(p.0, q.0) <= 1
    &&& delta(p.1, q.1) <= 1
    &&& delta(p.2, q.2) <= 1
    &&& p != q
}

/// One Bresenham step of a non-driving axis with delta `d`, after `n` of
/// the `dd` driving steps, `m` lateral moves taken and `p` the error
/// accumulator: stepping keeps the accumulator equation and bounds, moves
/// only within the axis's delta, and lands the move count exactly on the
/// midpoint count.
proof fn lemma_axis_step(dd: int, d: int, n: int, m: int, p: int)
    requires
        1 <= dd,
        0 <= d <= dd,
        0 <= n < dd,
        0 <= m,
        p == 2 * d * (n + 1) - dd - 2 * dd * m,
        2 * d - 2 * dd <= p <= 2 * d - 1,
    ensures
        p >= 0 ==> {
            &&& m + 1 <= d
            &&& p - 2 * dd + 2 * d == 2 * d * (n + 2) - dd - 2 * dd * (m + 1)
            &&& 2 * d - 2 * dd <= p - 2 * dd + 2 * d <= 2 * d - 1
            &&& m + 1 == lateral(d, n + 1, dd)
        },
        p < 0 ==> {
            &&& p + 2 * d == 2 * d * (n + 2) - dd - 2 * dd * m
            &&& 2 * d - 2 * dd <= p + 2 * d <= 2 * d - 1
            &&& m == lateral(d, n + 1, dd)
        },
{
    let x = 2 * d * (n + 1) + dd;
    assert(2 * d * (n + 2) == 2 * d * (n + 1) + 2 * d) by (nonlinear_arith);
    assert(2 * dd * (m + 1) == 2 * dd * m + 2 * dd) by (nonlinear_arith);
    if p >= 0 {
        assert(2 * d * (n + 1) <= 2 * d * dd) by (nonlinear_arith)
            requires
                0 <= d,
                n + 1 <= dd,
        ;
        assert(2 * dd * m <= 2 * d * dd - dd);
        assert(m < d) by (nonlinear_arith)
            requires
                2 * dd * m <= 2 * d * dd - dd,
                1 <= dd,
                0 <= m,
        ;
        let r = x - (m + 1) * (2 * dd);
        assert((m + 1) * (2 * dd) == 2 * dd * m + 2 * dd) by (nonlinear_arith);
        assert(r == p);
        lemma_fundamental_div_mod_converse(x, 2 * dd, m + 1, r);
        assert(m + 1 == lateral(d, n + 1, dd));
    } else {
        let r = x - m * (2 * dd);
        assert(m * (2 * dd) == 2 * dd * m) by (nonlinear_arith);
        assert(r == p + 2 * dd);
        lemma_fundamental_div_mod_converse(x, 2 * dd, m, r);
        assert(m == lateral(d, n + 1, dd));
    }
}

/// After all `dd` driving steps a non-driving axis has taken all `d` of
/// its lateral moves: the accumulator bounds force the move count.
proof fn lemma_axis_arrives(dd: int, d: int, m: int, p: int)
    requires
        1 <= dd,
        0 <= d <= dd,
        0 <= m,
        p == 2 * d * (dd + 1) - dd - 2 * dd * m,
        2 * d - 2 * dd <= p <= 2 * d - 1,
    ensures
        m == d,
{
    assert(2 * d * (dd + 1) == 2 * d * dd + 2 * d) by (nonlinear_arith);
    assert(2 * dd * m >= 2 * d * dd - dd + 1);
    assert(2 * dd * m <= 2 * d * dd + dd);
    assert(m == d) by (nonlinear_arith)
        requires
            2 * dd * m >= 2 * d * dd - dd + 1,
            2 * dd * m <= 2 * d * dd + dd,
            1 <= dd,
    ;
}

/// The rasterized segment when axis `a` drives, points in (a, b, c)
/// order.
fn raster_axis(a0: i32, a1: i32, b0: i32, b1: i32, c0: i32, c1: i32) -> (r: Vec<(i32, i32, i32)>)
    requires
        delta(b0, b1) <= delta(a0, a1),
        delta(c0, c1) <= delta(a0, a1),
    ensures
        r@.len() == delta(a0, a1) + 1,
        forall|i: int|
            0 <= i < r@.len() ==> point_view(#[trigger] r@[i]) == axis_point(
                a0,
                a1,
                b0,
                b1,
                c0,
                c1,
                i,
            ),
        r@[r@.len() - 1] == (a1, b1, c1),
        forall|i: int| 0 <= i < r@.len() - 1 ==> unit_step(#[trigger] r@[i], r@[i + 1]),
{
    let da: i64 = if a1 >= a0 {
        a1 as i64 - a0 as i64
    } else {
        a0 as i64 - a1 as i64
    };
    let db: i64 = if b1 >= b0 {
        b1 as i64 - b0 as i64
    } else {
        b0 as i64 - b1 as i64
    };
    let dc: i64 = if c1 >= c0 {
        c1 as i64 - c0 as i64
    } else {
        c0 as i64 - c1 as i64
    };
    let sa: i32 = if a1 > a0 {
        1
    } else {
        -1
    };
    let sb: i32 = if b1 > b0 {
        1
    } else {
        -1
    };
    let sc: i32 = if c1 > c0 {
        1
    } else {
        -1
    };
    let mut p1: i64 = 2 * db - da;
    let mut p2: i64 = 2 * dc - da;
    let mut cur_a = a0;
    let mut cur_b = b0;
    let mut cur_c = c0;
    let mut points: Vec<(i32, i32, i32)> = Vec::new();
    points.push((a0, b0, c0));
    let ghost mut k: int = 0;
    let ghost mut mb: int = 0;
    let ghost mut mc: int = 0;
    while cur_a != a1
        invariant
            da == delta(a0, a1),
            db == delta(b0, b1),
            dc == delta(c0, c1),
            delta(b0, b1) <= delta(a0, a1),
            delta(c0, c1) <= delta(a0, a1),
            sa as int == step_sign(a0, a1),
            sb as int == step_sign(b0, b1),
            sc as int == step_sign(c0, c1),
            a0 as int + delta(a0, a1) * step_sign(a0, a1) == a1 as int,
            b0 as int + delta(b0, b1) * step_sign(b0, b1) == b1 as int,
            c0 as int + delta(c0, c1) * step_sign(c0, c1) == c1 as int,
            0 <= k <= delta(a0, a1),
            cur_a as int == a0 as int + k * step_sign(a0, a1),
            cur_b as int == b0 as int + mb * step_sign(b0, b1),
            cur_c as int == c0 as int + mc * step_sign(c0, c1),
            0 <= mb <= delta(b0, b1),
            0 <= mc <= delta(c0, c1),
            p1 as int == 2 * delta(b0, b1) * (k + 1) - delta(a0, a1) - 2 * delta(a0, a1) * mb,
            p2 as int == 2 * delta(c0, c1) * (k + 1) - delta(a0, a1) - 2 * delta(a0, a1) * mc,
            delta(a0, a1) >= 1 ==> 2 * delta(b0, b1) - 2 * delta(a0, a1) <= p1 as int <= 2 * delta(
                b0,
                b1,
            ) - 1,
            delta(a0, a1) >= 1 ==> 2 * delta(c0, c1) - 2 * delta(a0, a1) <= p2 as int <= 2 * delta(
                c0,
                c1,
            ) - 1,
            points@.len() == k + 1,
            point_view(points@[k]) == (cur_a as int, cur_b as int, cur_c as int),
            forall|j: int|
                0 <= j <= k ==> point_view(#[trigger] points@[j]) == axis_point(
                    a0,
                    a1,
                    b0,
                    b1,
                    c0,
                    c1,
                    j,
                ),
            forall|j: int| 0 <= j < k ==> unit_step(#[trigger] points@[j], points@[j + 1]),
        decreases delta(a0, a1) - k,
    {
        proof {
            if k == delta(a0, a1) {
                assert(false);
            }
        }
        cur_a = cur_a + sa;
        proof {
            lemma_axis_step(delta(a0, a1), delta(b0, b1), k, mb, p1 as int);
            lemma_axis_step(delta(a0, a1), delta(c0, c1), k, mc, p2 as int);
        }
        if p1 >= 0 {
            cur_b = cur_b + sb;
            p1 = p1 - 2 * da;
            proof {
                mb = mb + 1;
            }
        }
        if p2 >= 0 {
            cur_c = cur_c + sc;
            p2 = p2 - 2 * da;
            proof {
                mc = mc + 1;
            }
        }
        p1 = p1 + 2 * db;
        p2 = p2 + 2 * dc;
        proof {
            k = k + 1;
        }
        points.push((cur_a, cur_b, cur_c));
        proof {
            assert(mb == lateral(delta(b0, b1), k, delta(a0, a1)));
            assert(mc == lateral(delta(c0, c1), k, delta(a0, a1)));
            assert(point_view(points@[k]) == axis_point(a0, a1, b0, b1, c0, c1, k));
            assert(unit_step(points@[k - 1], points@[k]));
        }
    }
    proof {
        assert(k == delta(a0, a1));
        if k >= 1 {
            lemma_axis_arrives(delta(a0, a1), delta(b0, b1), mb, p1 as int);
            lemma_axis_arrives(delta(a0, a1), delta(c0, c1), mc, p2 as int);
        }
        assert(points@[points@.len() - 1] == (a1, b1, c1));
    }
    points
}

/// The ordered grid points approximating the segment from `pos_start` to
/// `pos_end`: `driving_delta` steps of exactly one unit along the driving
/// axis, the other axes following by at most one unit per step, from the
/// start point to the end point inclusive, with no point repeated
/// adjacently.
pub fn rasterize(pos_start: (i32, i32, i32), pos_end: (i32, i32, i32)) -> (r: Vec<(i32, i32, i32)>)
    ensures
        r@.len() == driving_delta(pos_start, pos_end) + 1,
        forall|i: int|
            0 <= i < r@.len() ==> point_view(#[trigger] r@[i]) == line_point(pos_start, pos_end, i),
        r@[0] == pos_start,
        r@[r@.len() - 1] == pos_end,
        forall|i: int| 0 <= i < r@.len() - 1 ==> unit_step(#[trigger] r@[i], r@[i + 1]),
{
    let (x0, y0, z0) = pos_start;
    let (x1, y1, z1) = pos_end;
    let dx: i64 = if x1 >= x0 {
        x1 as i64 - x0 as i64
    } else {
        x0 as i64 - x1 as i64
    };
    let dy: i64 = if y1 >= y0 {
        y1 as i64 - y0 as i64
    } else {
        y0 as i64 - y1 as i64
    };
    let dz: i64 = if z1 >= z0 {
        z1 as i64 - z0 as i64
    } else {
        z0 as i64 - z1 as i64
    };
    if dx >= dy && dx >= dz {
        let r = raster_axis(x0, x1, y0, y1, z0, z1);
        proof {
            assert(point_view(r@[0]) == (x0 as int, y0 as int, z0 as int));
            assert(r@[0] == pos_start);
        }
        r
    } else if dy >= dx && dy >= dz {
        let pts = raster_axis(y0, y1, x0, x1, z0, z1);
        let mut r: Vec<(i32, i32, i32)> = Vec::new();
        let mut j: usize = 0;
        while j < pts.len()
            invariant
                0 <= j <= pts@.len(),
                r@.len() == j,
                forall|i: int|
                    0 <= i < j ==> #[trigger] r@[i] == (pts@[i].1, pts@[i].0, pts@[i].2),
            decreases pts@.len() - j,
        {
            let p = pts[j];
            r.push((p.1, p.0, p.2));
            j = j + 1;
        }
        proof {
            assert(point_view(r@[0]) == (x0 as int, y0 as int, z0 as int));
            assert(r@[0] == pos_start);
            assert(r@[r@.len() - 1] == pos_end);
            assert forall|i: int|
                0 <= i < r@.len() implies point_view(#[trigger] r@[i]) == line_point(
                pos_start,
                pos_end,
                i,
            ) by {
                assert(point_view(pts@[i]) == axis_point(y0, y1, x0, x1, z0, z1, i));
            }
            assert forall|i: int|
                0 <= i < r@.len() - 1 implies unit_step(#[trigger] r@[i], r@[i + 1]) by {
                assert(unit_step(pts@[i], pts@[i + 1]));
            }
        }
        r
    } else {
        let pts = raster_axis(z0, z1, y0, y1, x0, x1);
        let mut r: Vec<(i32, i32, i32)> = Vec::new();
        let mut j: usize = 0;
        while j < pts.len()
            invariant
                0 <= j <= pts@.len(),
                r@.len() == j,
                forall|i: int|
                    0 <= i < j ==> #[trigger] r@[i] == (pts@[i].2, pts@[i].1, pts@[i].0),
            decreases pts@.len() - j,
        {
            let p = pts[j];
            r.push((p.2, p.1, p.0));
            j = j + 1;
        }
        proof {
            assert(point_view(r@[0]) == (x0 as int, y0 as int, z0 as int));
            assert(r@[0] == pos_start);
            assert(r@[r@.len() - 1] == pos_end);
            assert forall|i: int|
                0 <= i < r@.len() implies point_view(#[trigger] r@[i]) == line_point(
                pos_start,
                pos_end,
                i,
            ) by {
                assert(point_view(pts@[i]) == axis_point(z0, z1, y0, y1, x0, x1, i));
            }
            assert forall|i: int|
                0 <= i < r@.len() - 1 implies unit_step(#[trigger] r@[i], r@[i + 1]) by {
                assert(unit_step(pts@[i], pts@[i + 1]));
            }
        }
        r
    }
}

} // verus!

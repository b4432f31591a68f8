//! Which pixels a triangle covers.
//!
//! A pixel is covered when its centre lies inside the triangle. Of the points
//! that lie exactly on an edge, a triangle owns those on its left edges and on
//! its horizontal top edges, so that two triangles that share an edge never
//! both cover a pixel.

use vstd::prelude::*;
use crate::vector::Vec3;

verus! {

/// The raw coordinate of the centre of pixel column or row `p`.
pub open spec fn pixel_center(p: int) -> int {
    p * 65536 + 32768
}

/// The edge function of the directed edge from `(ax, ay)` to `(bx, by)` at
/// the point `(px, py)`: the cross product of `p - a` and `b - a`.
pub open spec fn edge(ax: int, ay: int, bx: int, by: int, px: int, py: int) -> int {
    (px - ax) * (by - ay) - (py - ay) * (bx - ax)
}

/// Twice the signed area of the triangle in screen space.
pub open spec fn signed_area(a: Vec3, b: Vec3, c: Vec3) -> int {
    edge(a.x as int, a.y as int, b.x as int, b.y as int, c.x as int, c.y as int)
}

/// The sign of the signed area: zero for a triangle without area.
pub open spec fn orientation(a: Vec3, b: Vec3, c: Vec3) -> int {
    if signed_area(a, b, c) > 0 {
        1
    } else if signed_area(a, b, c) < 0 {
        -1
    } else {
        0
    }
}

/// `v` for a triangle of positive orientation, `-v` for one of negative
/// orientation.
pub open spec fn oriented(s: int, v: int) -> int {
    if s >= 0 {
        v
    } else {
        -v
    }
}

/// The barycentric weight at `(px, py)` of the vertex opposite the edge from
/// `p0` to `p1`, not yet divided by the area, and oriented so that it is
/// positive inside the triangle.
pub open spec fn weight(s: int, p0: Vec3, p1: Vec3, px: int, py: int) -> int {
    oriented(s, edge(p0.x as int, p0.y as int, p1.x as int, p1.y as int, px, py))
}

/// Whether the edge from `p0` to `p1` of a triangle of orientation `s` owns the
/// points that lie on it: its inward normal points right, or it is horizontal
/// and its inward normal points down.
pub open spec fn owns_boundary(s: int, p0: Vec3, p1: Vec3) -> bool {
    let nx = oriented(s, p1.y as int - p0.y as int);
    let ny = oriented(s, p0.x as int - p1.x as int);
    nx > 0 || (nx == 0 && ny > 0)
}

/// Whether `(px, py)` is on the inner side of the edge from `p0` to `p1`.
pub open spec fn edge_accepts(s: int, p0: Vec3, p1: Vec3, px: int, py: int) -> bool {
    let w = weight(s, p0, p1, px, py);
    w > 0 || (w == 0 && owns_boundary(s, p0, p1))
}

/// Whether the triangle `a`, `b`, `c` covers pixel `(x, y)`.
pub open spec fn covers(a: Vec3, b: Vec3, c: Vec3, x: int, y: int) -> bool {
    let s = orientation(a, b, c);
    let px = pixel_center(x);
    let py = pixel_center(y);
    &&& s != 0
    &&& edge_accepts(s, b, c, px, py)
    &&& edge_accepts(s, c, a, px, py)
    &&& edge_accepts(s, a, b, px, py)
}

/// The least of three values.
pub open spec fn min3(a: int, b: int, c: int) -> int {
    if a <= b && a <= c {
        a
    } else if b <= c {
        b
    } else {
        c
    }
}

/// The greatest of three values.
pub open spec fn max3(a: int, b: int, c: int) -> int {
    if a >= b && a >= c {
        a
    } else if b >= c {
        b
    } else {
        c
    }
}

/// The weights of a covered pixel are not negative, and they add up to the
/// absolute value of the signed area, which is positive.
pub proof fn lemma_covered_weights(a: Vec3, b: Vec3, c: Vec3, x: int, y: int)
    requires
        covers(a, b, c, x, y),
    ensures
        weight(orientation(a, b, c), b, c, pixel_center(x), pixel_center(y)) >= 0,
        weight(orientation(a, b, c), c, a, pixel_center(x), pixel_center(y)) >= 0,
        weight(orientation(a, b, c), a, b, pixel_center(x), pixel_center(y)) >= 0,
        weight(orientation(a, b, c), b, c, pixel_center(x), pixel_center(y)) + weight(
            orientation(a, b, c),
            c,
            a,
            pixel_center(x),
            pixel_center(y),
        ) + weight(orientation(a, b, c), a, b, pixel_center(x), pixel_center(y)) == oriented(
            orientation(a, b, c),
            signed_area(a, b, c),
        ),
        oriented(orientation(a, b, c), signed_area(a, b, c)) > 0,
{
    let px = pixel_center(x);
    let py = pixel_center(y);
    let (uax, uay) = (a.x as int - px, a.y as int - py);
    let (ubx, uby) = (b.x as int - px, b.y as int - py);
    let (ucx, ucy) = (c.x as int - px, c.y as int - py);
    lemma_edge_as_cross(b.x as int, b.y as int, c.x as int, c.y as int, px, py, ubx, uby, ucx, ucy);
    lemma_edge_as_cross(c.x as int, c.y as int, a.x as int, a.y as int, px, py, ucx, ucy, uax, uay);
    lemma_edge_as_cross(a.x as int, a.y as int, b.x as int, b.y as int, px, py, uax, uay, ubx, uby);
    lemma_area_as_crosses(uax, uay, ubx, uby, ucx, ucy);
    assert(c.x as int - a.x as int == ucx - uax);
    assert(b.y as int - a.y as int == uby - uay);
    assert(c.y as int - a.y as int == ucy - uay);
    assert(b.x as int - a.x as int == ubx - uax);
    assert(signed_area(a, b, c) == (ucx - uax) * (uby - uay) - (ucy - uay) * (ubx - uax));
}

/// The centre of a covered pixel lies inside the bounding box of the three
/// vertices.
pub proof fn lemma_covered_in_box(a: Vec3, b: Vec3, c: Vec3, x: int, y: int)
    requires
        covers(a, b, c, x, y),
    ensures
        min3(a.x as int, b.x as int, c.x as int) <= pixel_center(x) <= max3(
            a.x as int,
            b.x as int,
            c.x as int,
        ),
        min3(a.y as int, b.y as int, c.y as int) <= pixel_center(y) <= max3(
            a.y as int,
            b.y as int,
            c.y as int,
        ),
{
    let s = orientation(a, b, c);
    let px = pixel_center(x);
    let py = pixel_center(y);
    let (uax, uay) = (a.x as int - px, a.y as int - py);
    let (ubx, uby) = (b.x as int - px, b.y as int - py);
    let (ucx, ucy) = (c.x as int - px, c.y as int - py);
    lemma_covered_weights(a, b, c, x, y);
    lemma_edge_as_cross(b.x as int, b.y as int, c.x as int, c.y as int, px, py, ubx, uby, ucx, ucy);
    lemma_edge_as_cross(c.x as int, c.y as int, a.x as int, a.y as int, px, py, ucx, ucy, uax, uay);
    lemma_edge_as_cross(a.x as int, a.y as int, b.x as int, b.y as int, px, py, uax, uay, ubx, uby);
    lemma_cross_cycle(uax, uay, ubx, uby, ucx, ucy);
    let ea = ucx * uby - ucy * ubx;
    let eb = uax * ucy - uay * ucx;
    let ec = ubx * uay - uby * uax;
    let wa = weight(s, b, c, px, py);
    let wb = weight(s, c, a, px, py);
    let wc = weight(s, a, b, px, py);
    if s < 0 {
        lemma_negate_product(ea, uax);
        lemma_negate_product(eb, ubx);
        lemma_negate_product(ec, ucx);
        lemma_negate_product(ea, uay);
        lemma_negate_product(eb, uby);
        lemma_negate_product(ec, ucy);
    }
    assert(wa * uax + wb * ubx + wc * ucx == 0);
    assert(wa * uay + wb * uby + wc * ucy == 0);
    lemma_zero_mean(wa, wb, wc, uax, ubx, ucx);
    lemma_zero_mean(wa, wb, wc, uay, uby, ucy);
}

/// A triangle covers the same pixels in whichever order its vertices are
/// given.
pub proof fn lemma_covers_any_order(a: Vec3, b: Vec3, c: Vec3, x: int, y: int)
    ensures
        covers(b, c, a, x, y) == covers(a, b, c, x, y),
        covers(b, a, c, x, y) == covers(a, b, c, x, y),
{
    let px = pixel_center(x);
    let py = pixel_center(y);
    lemma_area_rotated(a, b, c);
    lemma_edge_reversed(a.x as int, a.y as int, b.x as int, b.y as int, px, py);
    lemma_edge_reversed(b.x as int, b.y as int, c.x as int, c.y as int, px, py);
    lemma_edge_reversed(c.x as int, c.y as int, a.x as int, a.y as int, px, py);
}

/// Two triangles that lie on opposite sides of a common edge never cover the
/// same pixel: a pixel centre on the edge belongs to one of them at most.
pub proof fn lemma_shared_edge_exclusive(a: Vec3, b: Vec3, c: Vec3, d: Vec3, x: int, y: int)
    requires
        orientation(a, b, c) != 0,
        orientation(a, b, d) == -orientation(a, b, c),
    ensures
        !(covers(a, b, c, x, y) && covers(a, b, d, x, y)),
{
}

/// The edge function seen from the point itself.
proof fn lemma_edge_as_cross(
    ax: int,
    ay: int,
    bx: int,
    by: int,
    px: int,
    py: int,
    ux: int,
    uy: int,
    vx: int,
    vy: int,
)
    by (nonlinear_arith)
    requires
        ux == ax - px,
        uy == ay - py,
        vx == bx - px,
        vy == by - py,
    ensures
        edge(ax, ay, bx, by, px, py) == vx * uy - vy * ux,
{
}

/// The product of two differences, multiplied out.
proof fn lemma_expand(a: int, b: int, c: int, d: int)
    by (nonlinear_arith)
    ensures
        (a - b) * (c - d) == a * c - a * d - b * c + b * d,
{
}

/// A difference times a factor, multiplied out.
proof fn lemma_spread(m: int, n: int, k: int)
    by (nonlinear_arith)
    ensures
        (m - n) * k == m * k - n * k,
{
}

/// A product of three factors does not depend on their order.
proof fn lemma_rotate(a: int, b: int, c: int)
    by (nonlinear_arith)
    ensures
        (a * b) * c == (b * c) * a,
{
}

/// The product with a negated factor is the negated product.
proof fn lemma_negate_product(e: int, u: int)
    by (nonlinear_arith)
    ensures
        (-e) * u == -(e * u),
{
}

/// The three cross products of three vectors, each weighted by the third
/// vector, cancel.
proof fn lemma_cross_cycle(ax: int, ay: int, bx: int, by: int, cx: int, cy: int)
    ensures
        (cx * by - cy * bx) * ax + (ax * cy - ay * cx) * bx + (bx * ay - by * ax) * cx == 0,
        (cx * by - cy * bx) * ay + (ax * cy - ay * cx) * by + (bx * ay - by * ax) * cy == 0,
{
    lemma_spread(cx * by, cy * bx, ax);
    lemma_spread(ax * cy, ay * cx, bx);
    lemma_spread(bx * ay, by * ax, cx);
    lemma_rotate(cx, by, ax);
    lemma_rotate(ax, cy, bx);
    lemma_rotate(bx, ay, cx);
    lemma_spread(cx * by, cy * bx, ay);
    lemma_spread(ax * cy, ay * cx, by);
    lemma_spread(bx * ay, by * ax, cy);
    lemma_rotate(cx, by, ay);
    lemma_rotate(cy, bx, ay);
    lemma_rotate(ax, cy, by);
    lemma_rotate(ay, cx, by);
    lemma_rotate(bx, ay, cy);
    lemma_rotate(by, ax, cy);
}

/// The signed area of a triangle is the sum of the cross products of its
/// vertices, taken in pairs.
proof fn lemma_area_as_crosses(ax: int, ay: int, bx: int, by: int, cx: int, cy: int)
    ensures
        (cx - ax) * (by - ay) - (cy - ay) * (bx - ax) == (cx * by - cy * bx) + (ax * cy - ay * cx)
            + (bx * ay - by * ax),
{
    lemma_expand(cx, ax, by, ay);
    lemma_expand(cy, ay, bx, ax);
}

/// A weighted sum of zero, with non-negative weights that are not all zero,
/// has a value that is not positive and one that is not negative.
proof fn lemma_zero_mean(wa: int, wb: int, wc: int, xa: int, xb: int, xc: int)
    by (nonlinear_arith)
    requires
        wa >= 0,
        wb >= 0,
        wc >= 0,
        wa + wb + wc > 0,
        wa * xa + wb * xb + wc * xc == 0,
    ensures
        xa <= 0 || xb <= 0 || xc <= 0,
        xa >= 0 || xb >= 0 || xc >= 0,
{
    if xa > 0 && xb > 0 && xc > 0 {
        assert(wa * xa >= wa);
        assert(wb * xb >= wb);
        assert(wc * xc >= wc);
    }
    if xa < 0 && xb < 0 && xc < 0 {
        assert(wa * xa <= -wa);
        assert(wb * xb <= -wb);
        assert(wc * xc <= -wc);
    }
}

/// Swapping the ends of an edge negates its edge function.
proof fn lemma_edge_reversed(ax: int, ay: int, bx: int, by: int, px: int, py: int)
    ensures
        edge(bx, by, ax, ay, px, py) == -edge(ax, ay, bx, by, px, py),
{
    lemma_expand(px, ax, by, ay);
    lemma_expand(py, ay, bx, ax);
    lemma_expand(px, bx, ay, by);
    lemma_expand(py, by, ax, bx);
}

/// The signed area is the same from whichever vertex the triangle is
/// walked.
proof fn lemma_area_rotated(a: Vec3, b: Vec3, c: Vec3)
    ensures
        signed_area(b, c, a) == signed_area(a, b, c),
        signed_area(b, a, c) == -signed_area(a, b, c),
{
    lemma_expand(c.x as int, a.x as int, b.y as int, a.y as int);
    lemma_expand(c.y as int, a.y as int, b.x as int, a.x as int);
    lemma_expand(a.x as int, b.x as int, c.y as int, b.y as int);
    lemma_expand(a.y as int, b.y as int, c.x as int, b.x as int);
    lemma_expand(c.x as int, b.x as int, a.y as int, b.y as int);
    lemma_expand(c.y as int, b.y as int, a.x as int, b.x as int);
}

} // verus!

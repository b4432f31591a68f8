//! The triangle rasterizer: one fragment for each pixel that a screen-space
//! triangle covers, with depth, normal and object-space position interpolated
//! by the barycentric weights of the pixel centre.
//!
//! The light shines along the z axis: the intensity of a fragment is the z
//! component of its normalized normal, clamped to `[0, 1]`. There is no
//! ambient term.

use vstd::prelude::*;
use crate::coverage::{
    covers,
    edge,
    lemma_covered_in_box,
    lemma_covered_weights,
    max3,
    min3,
    orientation,
    oriented,
    owns_boundary,
    pixel_center,
    signed_area,
    weight,
};
use crate::fixed::{
    floor_div,
    isqrt,
    lemma_mul_bounds,
    narrow,
    saturate,
    sqrt_floor,
    wide_mul64,
    ONE,
};
use crate::fragment::{Fragment, Pixel};
use crate::vector::Vec3;
use crate::vertex::Vertex;

verus! {

/// The weighted mean of three values, rounded down and clamped.
pub open spec fn blend(fa: i32, fb: i32, fc: i32, wa: int, wb: int, wc: int) -> i32 {
    saturate((fa as int * wa + fb as int * wb + fc as int * wc) / (wa + wb + wc))
}

/// The weighted mean of three vectors, component by component.
pub open spec fn blend3(va: Vec3, vb: Vec3, vc: Vec3, wa: int, wb: int, wc: int) -> Vec3 {
    Vec3 {
        x: blend(va.x, vb.x, vc.x, wa, wb, wc),
        y: blend(va.y, vb.y, vc.y, wa, wb, wc),
        z: blend(va.z, vb.z, vc.z, wa, wb, wc),
    }
}

/// The lighting intensity of a surface with normal `n`: the z component of
/// the normalized normal, clamped to `[0, 1]`; zero for a zero normal.
pub open spec fn lighting(n: Vec3) -> i32 {
    let len = sqrt_floor(n.norm_squared());
    if len <= 0 || n.z <= 0 {
        0
    } else {
        let k = (n.z as int * 65536) / len;
        if k > 65536 {
            ONE
        } else {
            k as i32
        }
    }
}

/// The fragment of pixel `(x, y)`: depth, normal and object-space position
/// interpolated by the barycentric weights of the pixel centre.
pub open spec fn fragment_at(v1: Vertex, v2: Vertex, v3: Vertex, x: int, y: int) -> Fragment {
    let a = v1.transformed_position;
    let b = v2.transformed_position;
    let c = v3.transformed_position;
    let s = orientation(a, b, c);
    let wa = weight(s, b, c, pixel_center(x), pixel_center(y));
    let wb = weight(s, c, a, pixel_center(x), pixel_center(y));
    let wc = weight(s, a, b, pixel_center(x), pixel_center(y));
    let normal = blend3(
        v1.transformed_normal,
        v2.transformed_normal,
        v3.transformed_normal,
        wa,
        wb,
        wc,
    );
    Fragment {
        position: Pixel { x: x as usize, y: y as usize },
        depth: blend(a.z, b.z, c.z, wa, wb, wc),
        vertex_position: blend3(v1.position, v2.position, v3.position, wa, wb, wc),
        normal,
        intensity: lighting(normal),
    }
}

/// The fragments of row `y` in the columns `from..to`, left to right.
pub open spec fn scan_row(v1: Vertex, v2: Vertex, v3: Vertex, y: int, from: int, to: int) -> Seq<
    Fragment,
>
    decreases to - from,
{
    if from >= to {
        Seq::empty()
    } else if covers(
        v1.transformed_position,
        v2.transformed_position,
        v3.transformed_position,
        to - 1,
        y,
    ) {
        scan_row(v1, v2, v3, y, from, to - 1).push(fragment_at(v1, v2, v3, to - 1, y))
    } else {
        scan_row(v1, v2, v3, y, from, to - 1)
    }
}

/// The fragments of the rows `0..rows` of a target `width` pixels wide, top
/// to bottom.
pub open spec fn scan(v1: Vertex, v2: Vertex, v3: Vertex, width: int, rows: int) -> Seq<Fragment>
    decreases rows,
{
    if rows <= 0 {
        Seq::empty()
    } else {
        scan(v1, v2, v3, width, rows - 1) + scan_row(v1, v2, v3, rows - 1, 0, width)
    }
}

/// The fragments of a triangle on a target of `width` by `height` pixels: one
/// for each pixel of the target that the triangle covers, row by row.
pub open spec fn rasterized(v1: Vertex, v2: Vertex, v3: Vertex, width: int, height: int) -> Seq<
    Fragment,
> {
    scan(v1, v2, v3, width, height)
}

/// Whether `f` is the fragment of a pixel of the target that the triangle
/// covers.
pub open spec fn is_fragment_of(
    v1: Vertex,
    v2: Vertex,
    v3: Vertex,
    width: int,
    height: int,
    f: Fragment,
) -> bool {
    &&& f.position.x < width
    &&& f.position.y < height
    &&& covers(
        v1.transformed_position,
        v2.transformed_position,
        v3.transformed_position,
        f.position.x as int,
        f.position.y as int,
    )
    &&& f == fragment_at(v1, v2, v3, f.position.x as int, f.position.y as int)
}

/// Whether pixel `p` comes before pixel `q` when the target is read row by
/// row from the top, each row from the left.
pub open spec fn scanned_before(p: Pixel, q: Pixel) -> bool {
    p.y < q.y || (p.y == q.y && p.x < q.x)
}

/// `v` kept inside `0..=limit`.
pub open spec fn clip(v: int, limit: int) -> int {
    if v < 0 {
        0
    } else if v > limit {
        limit
    } else {
        v
    }
}

/// Computes the lighting intensity of a surface with normal `n`.
pub fn light_intensity(n: &Vec3) -> (k: i32)
    ensures
        k == lighting(*n),
        0 <= k <= ONE,
{
    let d: i128 = n.raw_dot(n);
    proof {
        assert(n.x as int * n.x as int >= 0) by (nonlinear_arith);
        assert(n.y as int * n.y as int >= 0) by (nonlinear_arith);
        assert(n.z as int * n.z as int >= 0) by (nonlinear_arith);
        lemma_mul_bounds(n.x as int, n.x as int, 0x8000_0000, 0x8000_0000);
        lemma_mul_bounds(n.y as int, n.y as int, 0x8000_0000, 0x8000_0000);
        lemma_mul_bounds(n.z as int, n.z as int, 0x8000_0000, 0x8000_0000);
    }
    let len: u64 = isqrt(d as u128);
    proof {
        assert(len < 0x1_0000_0000) by (nonlinear_arith)
            requires
                len as int * len as int <= d,
                d <= 3 * 0x4000_0000_0000_0000,
                len >= 0,
        ;
    }
    if len == 0 || n.z <= 0 {
        0
    } else {
        let k: i64 = (n.z as i64 * 65536) / (len as i64);
        if k > 65536 {
            ONE
        } else {
            k as i32
        }
    }
}

/// Rasterizes the triangle of three shaded vertices on a target of `width` by
/// `height` pixels.
///
/// The result holds one fragment for each pixel of the target whose centre
/// the triangle covers, row by row from the top and left to right in each
/// row. A triangle without area has no fragments.
#[verifier::loop_isolation(false)]
pub fn triangle(v1: &Vertex, v2: &Vertex, v3: &Vertex, width: usize, height: usize) -> (fragments:
    Vec<Fragment>)
    ensures
        fragments@ == rasterized(*v1, *v2, *v3, width as int, height as int),
        forall|i: int|
            0 <= i < fragments@.len() ==> is_fragment_of(
                *v1,
                *v2,
                *v3,
                width as int,
                height as int,
                #[trigger] fragments@[i],
            ),
{
    proof {
        lemma_scan_sound(*v1, *v2, *v3, width as int, height as int, height as int);
    }
    let a = v1.transformed_position;
    let b = v2.transformed_position;
    let c = v3.transformed_position;
    let mut fragments: Vec<Fragment> = Vec::new();
    let area: i128 = edge_value(&a, &b, c.x as i64, c.y as i64);
    if area == 0 {
        proof {
            lemma_rows_skip(*v1, *v2, *v3, width as int, 0, height as int);
        }
        return fragments;
    }
    let positive: bool = area > 0;

    let lo_x: usize = clip_pixel(least(a.x, b.x, c.x), 0, width);
    let end_x: usize = clip_pixel(greatest(a.x, b.x, c.x), 1, width);
    let lo_y: usize = clip_pixel(least(a.y, b.y, c.y), 0, height);
    let end_y: usize = clip_pixel(greatest(a.y, b.y, c.y), 1, height);

    assert forall|x: int, y: int|
        0 <= x < width && 0 <= y < height && #[trigger] covers(a, b, c, x, y) implies lo_x <= x
        < end_x && lo_y <= y < end_y by {
        lemma_covered_in_box(a, b, c, x, y);
    }
    proof {
        lemma_rows_skip(*v1, *v2, *v3, width as int, 0, lo_y as int);
    }

    let mut y: usize = lo_y;
    while y < end_y
        invariant
            lo_y <= y <= end_y,
            fragments@ == scan(*v1, *v2, *v3, width as int, y as int),
        decreases end_y - y,
    {
        let ghost above = fragments@;
        let py: i64 = (y as i64) * 65536 + 32768;
        proof {
            lemma_row_skip(*v1, *v2, *v3, y as int, 0, 0, lo_x as int);
            assert(above + Seq::<Fragment>::empty() =~= above);
        }
        let mut x: usize = lo_x;
        while x < end_x
            invariant
                lo_x <= x <= end_x,
                fragments@ == above + scan_row(*v1, *v2, *v3, y as int, 0, x as int),
            decreases end_x - x,
        {
            let ghost row = scan_row(*v1, *v2, *v3, y as int, 0, x as int);
            let px: i64 = (x as i64) * 65536 + 32768;
            let ea: i128 = edge_value(&b, &c, px, py);
            let eb: i128 = edge_value(&c, &a, px, py);
            let ec: i128 = edge_value(&a, &b, px, py);
            let wa: i128 = if positive { ea } else { -ea };
            let wb: i128 = if positive { eb } else { -eb };
            let wc: i128 = if positive { ec } else { -ec };
            let inside = accepts(positive, wa, &b, &c) && accepts(positive, wb, &c, &a) && accepts(
                positive,
                wc,
                &a,
                &b,
            );
            assert(inside == covers(a, b, c, x as int, y as int));
            if inside {
                proof {
                    lemma_covered_weights(a, b, c, x as int, y as int);
                }
                let normal = blend_vector(
                    &v1.transformed_normal,
                    &v2.transformed_normal,
                    &v3.transformed_normal,
                    wa,
                    wb,
                    wc,
                );
                let intensity = light_intensity(&normal);
                let depth = blend_value(a.z, b.z, c.z, wa, wb, wc);
                let vertex_position = blend_vector(
                    &v1.position,
                    &v2.position,
                    &v3.position,
                    wa,
                    wb,
                    wc,
                );
                let fragment = Fragment::new(
                    Pixel { x, y },
                    depth,
                    normal,
                    intensity,
                    vertex_position,
                );
                assert(fragment == fragment_at(*v1, *v2, *v3, x as int, y as int));
                fragments.push(fragment);
                assert(fragments@ =~= above + row.push(fragment));
            }
            x = x + 1;
        }
        proof {
            lemma_row_skip(*v1, *v2, *v3, y as int, 0, end_x as int, width as int);
        }
        y = y + 1;
    }
    proof {
        lemma_rows_skip(*v1, *v2, *v3, width as int, end_y as int, height as int);
    }
    fragments
}

/// The least of three values.
fn least(a: i32, b: i32, c: i32) -> (m: i32)
    ensures
        m == min3(a as int, b as int, c as int),
{
    if a <= b && a <= c {
        a
    } else if b <= c {
        b
    } else {
        c
    }
}

/// The greatest of three values.
fn greatest(a: i32, b: i32, c: i32) -> (m: i32)
    ensures
        m == max3(a as int, b as int, c as int),
{
    if a >= b && a >= c {
        a
    } else if b >= c {
        b
    } else {
        c
    }
}

/// The pixel column or row that holds the raw coordinate `v`, plus `extra`,
/// kept inside `0..=limit`.
fn clip_pixel(v: i32, extra: i64, limit: usize) -> (p: usize)
    requires
        0 <= extra <= 1,
    ensures
        p == clip(v as int / 65536 + extra, limit as int),
        p <= 32768,
{
    let q: i64 = floor_div(v as i128, 65536) as i64 + extra;
    if q < 0 {
        0
    } else if q as u64 > limit as u64 {
        limit
    } else {
        q as usize
    }
}

/// The edge function of the edge from `a` to `b` at a pixel centre.
fn edge_value(a: &Vec3, b: &Vec3, px: i64, py: i64) -> (e: i128)
    requires
        -0x8000_0000 <= px <= 0x8000_0000,
        -0x8000_0000 <= py <= 0x8000_0000,
    ensures
        e == edge(a.x as int, a.y as int, b.x as int, b.y as int, px as int, py as int),
        -0x2_0000_0000_0000_0000 <= e <= 0x2_0000_0000_0000_0000,
{
    let dx: i64 = px - a.x as i64;
    let ey: i64 = b.y as i64 - a.y as i64;
    let dy: i64 = py - a.y as i64;
    let ex: i64 = b.x as i64 - a.x as i64;
    proof {
        lemma_mul_bounds(dx as int, ey as int, 0x1_0000_0000, 0x1_0000_0000);
        lemma_mul_bounds(dy as int, ex as int, 0x1_0000_0000, 0x1_0000_0000);
    }
    wide_mul64(dx, ey) - wide_mul64(dy, ex)
}

/// Whether the edge from `p0` to `p1`, on which the oriented weight is `w`,
/// has the point on its inner side.
fn accepts(positive: bool, w: i128, p0: &Vec3, p1: &Vec3) -> (yes: bool)
    ensures
        yes == (w > 0 || (w == 0 && owns_boundary(if positive { 1 } else { -1 }, *p0, *p1))),
{
    if w != 0 {
        w > 0
    } else {
        let dy: i64 = p1.y as i64 - p0.y as i64;
        let dx: i64 = p0.x as i64 - p1.x as i64;
        let nx: i64 = if positive { dy } else { -dy };
        let ny: i64 = if positive { dx } else { -dx };
        nx > 0 || (nx == 0 && ny > 0)
    }
}

/// The weighted mean of three values.
fn blend_value(fa: i32, fb: i32, fc: i32, wa: i128, wb: i128, wc: i128) -> (r: i32)
    requires
        0 <= wa <= 0x2_0000_0000_0000_0000,
        0 <= wb <= 0x2_0000_0000_0000_0000,
        0 <= wc <= 0x2_0000_0000_0000_0000,
        wa + wb + wc > 0,
    ensures
        r == blend(fa, fb, fc, wa as int, wb as int, wc as int),
{
    proof {
        lemma_mul_bounds(fa as int, wa as int, 0x8000_0000, 0x2_0000_0000_0000_0000);
        lemma_mul_bounds(fb as int, wb as int, 0x8000_0000, 0x2_0000_0000_0000_0000);
        lemma_mul_bounds(fc as int, wc as int, 0x8000_0000, 0x2_0000_0000_0000_0000);
    }
    let n: i128 = (fa as i128) * wa + (fb as i128) * wb + (fc as i128) * wc;
    narrow(floor_div(n, wa + wb + wc))
}

/// The weighted mean of three vectors.
fn blend_vector(va: &Vec3, vb: &Vec3, vc: &Vec3, wa: i128, wb: i128, wc: i128) -> (r: Vec3)
    requires
        0 <= wa <= 0x2_0000_0000_0000_0000,
        0 <= wb <= 0x2_0000_0000_0000_0000,
        0 <= wc <= 0x2_0000_0000_0000_0000,
        wa + wb + wc > 0,
    ensures
        r == blend3(*va, *vb, *vc, wa as int, wb as int, wc as int),
{
    Vec3 {
        x: blend_value(va.x, vb.x, vc.x, wa, wb, wc),
        y: blend_value(va.y, vb.y, vc.y, wa, wb, wc),
        z: blend_value(va.z, vb.z, vc.z, wa, wb, wc),
    }
}

/// The barycentric weights of every fragment are not negative, and they add
/// up to the absolute area of the triangle.
pub proof fn lemma_fragment_weights(
    v1: Vertex,
    v2: Vertex,
    v3: Vertex,
    width: int,
    height: int,
    i: int,
)
    requires
        0 <= width <= usize::MAX,
        0 <= height <= usize::MAX,
        0 <= i < rasterized(v1, v2, v3, width, height).len(),
    ensures
        ({
            let f = rasterized(v1, v2, v3, width, height)[i];
            let a = v1.transformed_position;
            let b = v2.transformed_position;
            let c = v3.transformed_position;
            let s = orientation(a, b, c);
            let px = pixel_center(f.position.x as int);
            let py = pixel_center(f.position.y as int);
            &&& is_fragment_of(v1, v2, v3, width, height, f)
            &&& weight(s, b, c, px, py) >= 0
            &&& weight(s, c, a, px, py) >= 0
            &&& weight(s, a, b, px, py) >= 0
            &&& weight(s, b, c, px, py) + weight(s, c, a, px, py) + weight(s, a, b, px, py)
                == oriented(s, signed_area(a, b, c))
            &&& oriented(s, signed_area(a, b, c)) > 0
        }),
{
    lemma_scan_sound(v1, v2, v3, width, height, height);
    let f = rasterized(v1, v2, v3, width, height)[i];
    lemma_covered_weights(
        v1.transformed_position,
        v2.transformed_position,
        v3.transformed_position,
        f.position.x as int,
        f.position.y as int,
    );
}

/// Every pixel of the target that the triangle covers has its fragment in
/// the result.
pub proof fn lemma_covered_pixel_has_fragment(
    v1: Vertex,
    v2: Vertex,
    v3: Vertex,
    width: int,
    height: int,
    x: int,
    y: int,
)
    requires
        0 <= x < width,
        0 <= y < height,
        covers(v1.transformed_position, v2.transformed_position, v3.transformed_position, x, y),
    ensures
        rasterized(v1, v2, v3, width, height).contains(fragment_at(v1, v2, v3, x, y)),
    decreases height,
{
    let all = scan(v1, v2, v3, width, height);
    let above = scan(v1, v2, v3, width, height - 1);
    let row = scan_row(v1, v2, v3, height - 1, 0, width);
    let f = fragment_at(v1, v2, v3, x, y);
    if y == height - 1 {
        lemma_row_complete(v1, v2, v3, y, width, x);
        let i = choose|i: int| 0 <= i < row.len() && row[i] == f;
        assert(all[above.len() + i] == f);
    } else {
        lemma_covered_pixel_has_fragment(v1, v2, v3, width, height - 1, x, y);
        let i = choose|i: int| 0 <= i < above.len() && above[i] == f;
        assert(all[i] == f);
    }
}

/// The fragments come in reading order, so that no pixel has two of them.
pub proof fn lemma_fragments_in_order(
    v1: Vertex,
    v2: Vertex,
    v3: Vertex,
    width: int,
    height: int,
    i: int,
    j: int,
)
    requires
        0 <= width <= usize::MAX,
        0 <= height <= usize::MAX,
        0 <= i < j < rasterized(v1, v2, v3, width, height).len(),
    ensures
        scanned_before(
            rasterized(v1, v2, v3, width, height)[i].position,
            rasterized(v1, v2, v3, width, height)[j].position,
        ),
        rasterized(v1, v2, v3, width, height)[i].position != rasterized(
            v1,
            v2,
            v3,
            width,
            height,
        )[j].position,
{
    lemma_scan_order(v1, v2, v3, width, height);
}

/// A weighted mean with non-negative weights lies between the least and the
/// greatest of the three values.
pub proof fn lemma_blend_between(fa: i32, fb: i32, fc: i32, wa: int, wb: int, wc: int)
    requires
        wa >= 0,
        wb >= 0,
        wc >= 0,
        wa + wb + wc > 0,
    ensures
        min3(fa as int, fb as int, fc as int) <= blend(fa, fb, fc, wa, wb, wc) <= max3(
            fa as int,
            fb as int,
            fc as int,
        ),
{
    let lo = min3(fa as int, fb as int, fc as int);
    let hi = max3(fa as int, fb as int, fc as int);
    let t = wa + wb + wc;
    let n = fa as int * wa + fb as int * wb + fc as int * wc;
    lemma_weighted_sum_between(wa, fa as int, lo, hi);
    lemma_weighted_sum_between(wb, fb as int, lo, hi);
    lemma_weighted_sum_between(wc, fc as int, lo, hi);
    assert(lo * t == lo * wa + lo * wb + lo * wc) by (nonlinear_arith)
        requires
            t == wa + wb + wc,
    ;
    assert(hi * t == hi * wa + hi * wb + hi * wc) by (nonlinear_arith)
        requires
            t == wa + wb + wc,
    ;
    lemma_quotient_between(n, t, lo, hi);
}

/// The depth of the fragment of a covered pixel lies between the least and
/// the greatest depth of the three vertices, and its intensity in `[0, 1]`.
pub proof fn lemma_fragment_depth_between(v1: Vertex, v2: Vertex, v3: Vertex, x: int, y: int)
    requires
        covers(v1.transformed_position, v2.transformed_position, v3.transformed_position, x, y),
    ensures
        min3(
            v1.transformed_position.z as int,
            v2.transformed_position.z as int,
            v3.transformed_position.z as int,
        ) <= fragment_at(v1, v2, v3, x, y).depth <= max3(
            v1.transformed_position.z as int,
            v2.transformed_position.z as int,
            v3.transformed_position.z as int,
        ),
        0 <= fragment_at(v1, v2, v3, x, y).intensity <= ONE,
{
    let a = v1.transformed_position;
    let b = v2.transformed_position;
    let c = v3.transformed_position;
    let s = orientation(a, b, c);
    lemma_covered_weights(a, b, c, x, y);
    lemma_blend_between(
        a.z,
        b.z,
        c.z,
        weight(s, b, c, pixel_center(x), pixel_center(y)),
        weight(s, c, a, pixel_center(x), pixel_center(y)),
        weight(s, a, b, pixel_center(x), pixel_center(y)),
    );
    let n = fragment_at(v1, v2, v3, x, y).normal;
    let len = sqrt_floor(n.norm_squared());
    if len > 0 && n.z > 0 {
        assert((n.z as int * 65536) / len >= 0) by (nonlinear_arith)
            requires
                n.z > 0,
                len > 0,
        ;
    }
}

/// A triangle without area has no fragments.
pub proof fn lemma_degenerate_is_empty(
    v1: Vertex,
    v2: Vertex,
    v3: Vertex,
    width: int,
    height: int,
)
    requires
        0 <= width,
        0 <= height,
        signed_area(v1.transformed_position, v2.transformed_position, v3.transformed_position)
            == 0,
    ensures
        rasterized(v1, v2, v3, width, height) == Seq::<Fragment>::empty(),
{
    lemma_rows_skip(v1, v2, v3, width, 0, height);
}

/// A triangle whose three vertices all lie to the left of the target, or all
/// to its right, or all above it, or all below it, has no fragments.
pub proof fn lemma_outside_is_empty(v1: Vertex, v2: Vertex, v3: Vertex, width: int, height: int)
    requires
        0 <= width,
        0 <= height,
        ({
            let a = v1.transformed_position;
            let b = v2.transformed_position;
            let c = v3.transformed_position;
            ||| max3(a.x as int, b.x as int, c.x as int) < 0
            ||| min3(a.x as int, b.x as int, c.x as int) > width * 65536
            ||| max3(a.y as int, b.y as int, c.y as int) < 0
            ||| min3(a.y as int, b.y as int, c.y as int) > height * 65536
        }),
    ensures
        rasterized(v1, v2, v3, width, height) == Seq::<Fragment>::empty(),
{
    let a = v1.transformed_position;
    let b = v2.transformed_position;
    let c = v3.transformed_position;
    assert forall|x: int, y: int| 0 <= y < height && 0 <= x < width implies !#[trigger] covers(
        a,
        b,
        c,
        x,
        y,
    ) by {
        if covers(a, b, c, x, y) {
            lemma_covered_in_box(a, b, c, x, y);
        }
    }
    lemma_rows_skip(v1, v2, v3, width, 0, height);
}

/// Columns that hold no covered pixel add nothing to the end of a row.
proof fn lemma_row_skip(
    v1: Vertex,
    v2: Vertex,
    v3: Vertex,
    y: int,
    from: int,
    mid: int,
    to: int,
)
    requires
        from <= mid <= to,
        forall|x: int|
            mid <= x < to ==> !#[trigger] covers(
                v1.transformed_position,
                v2.transformed_position,
                v3.transformed_position,
                x,
                y,
            ),
    ensures
        scan_row(v1, v2, v3, y, from, to) == scan_row(v1, v2, v3, y, from, mid),
    decreases to - mid,
{
    if mid < to {
        lemma_row_skip(v1, v2, v3, y, from, mid, to - 1);
    }
}

/// Rows that hold no covered pixel add nothing to the end of a scan.
proof fn lemma_rows_skip(v1: Vertex, v2: Vertex, v3: Vertex, width: int, mid: int, rows: int)
    requires
        0 <= mid <= rows,
        0 <= width,
        forall|x: int, y: int|
            mid <= y < rows && 0 <= x < width ==> !#[trigger] covers(
                v1.transformed_position,
                v2.transformed_position,
                v3.transformed_position,
                x,
                y,
            ),
    ensures
        scan(v1, v2, v3, width, rows) == scan(v1, v2, v3, width, mid),
    decreases rows - mid,
{
    if mid < rows {
        lemma_rows_skip(v1, v2, v3, width, mid, rows - 1);
        lemma_row_skip(v1, v2, v3, rows - 1, 0, 0, width);
        assert(scan(v1, v2, v3, width, rows - 1) + Seq::<Fragment>::empty() =~= scan(
            v1,
            v2,
            v3,
            width,
            rows - 1,
        ));
    }
}

/// Every fragment of a row belongs to a covered pixel of that row.
proof fn lemma_row_sound(
    v1: Vertex,
    v2: Vertex,
    v3: Vertex,
    y: int,
    to: int,
    width: int,
    height: int,
)
    requires
        0 <= to <= width <= usize::MAX,
        0 <= y < height <= usize::MAX,
    ensures
        forall|i: int|
            0 <= i < scan_row(v1, v2, v3, y, 0, to).len() ==> is_fragment_of(
                v1,
                v2,
                v3,
                width,
                height,
                #[trigger] scan_row(v1, v2, v3, y, 0, to)[i],
            ),
    decreases to,
{
    if to > 0 {
        lemma_row_sound(v1, v2, v3, y, to - 1, width, height);
        let row = scan_row(v1, v2, v3, y, 0, to);
        let before = scan_row(v1, v2, v3, y, 0, to - 1);
        assert forall|i: int| 0 <= i < row.len() implies is_fragment_of(
            v1,
            v2,
            v3,
            width,
            height,
            #[trigger] row[i],
        ) by {
            if i < before.len() {
                assert(row[i] == before[i]);
            } else {
                assert(row[i] == fragment_at(v1, v2, v3, to - 1, y));
            }
        }
    }
}

/// Every fragment of a scan belongs to a covered pixel of the target.
proof fn lemma_scan_sound(
    v1: Vertex,
    v2: Vertex,
    v3: Vertex,
    width: int,
    rows: int,
    height: int,
)
    requires
        0 <= width <= usize::MAX,
        0 <= rows <= height <= usize::MAX,
    ensures
        forall|i: int|
            0 <= i < scan(v1, v2, v3, width, rows).len() ==> is_fragment_of(
                v1,
                v2,
                v3,
                width,
                height,
                #[trigger] scan(v1, v2, v3, width, rows)[i],
            ),
    decreases rows,
{
    if rows > 0 {
        lemma_scan_sound(v1, v2, v3, width, rows - 1, height);
        lemma_row_sound(v1, v2, v3, rows - 1, width, width, height);
        let all = scan(v1, v2, v3, width, rows);
        let above = scan(v1, v2, v3, width, rows - 1);
        let row = scan_row(v1, v2, v3, rows - 1, 0, width);
        assert forall|i: int| 0 <= i < all.len() implies is_fragment_of(
            v1,
            v2,
            v3,
            width,
            height,
            #[trigger] all[i],
        ) by {
            if i < above.len() {
                assert(all[i] == above[i]);
            } else {
                assert(all[i] == row[i - above.len()]);
            }
        }
    }
}

/// A covered pixel of a row has its fragment in that row.
proof fn lemma_row_complete(v1: Vertex, v2: Vertex, v3: Vertex, y: int, to: int, x: int)
    requires
        0 <= x < to,
        covers(v1.transformed_position, v2.transformed_position, v3.transformed_position, x, y),
    ensures
        scan_row(v1, v2, v3, y, 0, to).contains(fragment_at(v1, v2, v3, x, y)),
    decreases to,
{
    let row = scan_row(v1, v2, v3, y, 0, to);
    let before = scan_row(v1, v2, v3, y, 0, to - 1);
    if x == to - 1 {
        assert(row[row.len() - 1] == fragment_at(v1, v2, v3, x, y));
    } else {
        lemma_row_complete(v1, v2, v3, y, to - 1, x);
        let i = choose|i: int| 0 <= i < before.len() && before[i] == fragment_at(v1, v2, v3, x, y);
        assert(row[i] == fragment_at(v1, v2, v3, x, y));
    }
}

/// The fragments of a row lie in that row, left of its end, each further to
/// the right than the one before.
proof fn lemma_row_order(v1: Vertex, v2: Vertex, v3: Vertex, y: int, to: int)
    requires
        0 <= to <= usize::MAX,
        0 <= y <= usize::MAX,
    ensures
        forall|i: int|
            0 <= i < scan_row(v1, v2, v3, y, 0, to).len() ==> {
                &&& (#[trigger] scan_row(v1, v2, v3, y, 0, to)[i]).position.y == y
                &&& scan_row(v1, v2, v3, y, 0, to)[i].position.x < to
            },
        forall|i: int, j: int|
            0 <= i < j < scan_row(v1, v2, v3, y, 0, to).len() ==> (#[trigger] scan_row(
                v1,
                v2,
                v3,
                y,
                0,
                to,
            )[i]).position.x < (#[trigger] scan_row(v1, v2, v3, y, 0, to)[j]).position.x,
    decreases to,
{
    if to > 0 {
        lemma_row_order(v1, v2, v3, y, to - 1);
        let row = scan_row(v1, v2, v3, y, 0, to);
        let before = scan_row(v1, v2, v3, y, 0, to - 1);
        assert forall|i: int| 0 <= i < row.len() implies (#[trigger] row[i]).position.y == y
            && row[i].position.x < to by {
            if i < before.len() {
                assert(row[i] == before[i]);
            }
        }
        assert forall|i: int, j: int| 0 <= i < j < row.len() implies (#[trigger] row[i]).position.x
            < (#[trigger] row[j]).position.x by {
            assert(row[i] == before[i]);
            if j < before.len() {
                assert(row[j] == before[j]);
            }
        }
    }
}

/// The fragments of a scan lie in its rows, each later in reading order than
/// the one before.
proof fn lemma_scan_order(v1: Vertex, v2: Vertex, v3: Vertex, width: int, rows: int)
    requires
        0 <= width <= usize::MAX,
        0 <= rows <= usize::MAX,
    ensures
        forall|i: int|
            0 <= i < scan(v1, v2, v3, width, rows).len() ==> (#[trigger] scan(
                v1,
                v2,
                v3,
                width,
                rows,
            )[i]).position.y < rows,
        forall|i: int, j: int|
            0 <= i < j < scan(v1, v2, v3, width, rows).len() ==> scanned_before(
                (#[trigger] scan(v1, v2, v3, width, rows)[i]).position,
                (#[trigger] scan(v1, v2, v3, width, rows)[j]).position,
            ),
    decreases rows,
{
    if rows > 0 {
        lemma_scan_order(v1, v2, v3, width, rows - 1);
        lemma_row_order(v1, v2, v3, rows - 1, width);
        let all = scan(v1, v2, v3, width, rows);
        let above = scan(v1, v2, v3, width, rows - 1);
        let row = scan_row(v1, v2, v3, rows - 1, 0, width);
        assert forall|i: int| 0 <= i < all.len() implies (#[trigger] all[i]).position.y < rows by {
            if i < above.len() {
                assert(all[i] == above[i]);
            } else {
                assert(all[i] == row[i - above.len()]);
            }
        }
        assert forall|i: int, j: int| 0 <= i < j < all.len() implies scanned_before(
            (#[trigger] all[i]).position,
            (#[trigger] all[j]).position,
        ) by {
            if j < above.len() {
                assert(all[i] == above[i]);
                assert(all[j] == above[j]);
            } else if i < above.len() {
                assert(all[i] == above[i]);
                assert(all[j] == row[j - above.len()]);
            } else {
                assert(all[i] == row[i - above.len()]);
                assert(all[j] == row[j - above.len()]);
            }
        }
    }
}

/// A quotient lies between two bounds where the dividend lies between their
/// multiples.
proof fn lemma_quotient_between(n: int, t: int, lo: int, hi: int)
    by (nonlinear_arith)
    requires
        t > 0,
        lo * t <= n <= hi * t,
    ensures
        lo <= n / t <= hi,
{
    if n / t < lo {
        assert((n / t + 1) * t <= lo * t);
        assert(n < (n / t + 1) * t);
    }
    if n / t > hi {
        assert((n / t) * t >= (hi + 1) * t);
        assert((n / t) * t <= n);
    }
}

/// A value between two bounds, times a weight, lies between the weighted
/// bounds.
proof fn lemma_weighted_sum_between(
    w: int,
    f: int,
    lo: int,
    hi: int,
)
    by (nonlinear_arith)
    requires
        w >= 0,
        lo <= f <= hi,
    ensures
        lo * w <= f * w <= hi * w,
{
}

} // verus!

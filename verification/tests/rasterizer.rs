use softraster::fixed::ONE;
use softraster::fragment::{Fragment, Pixel};
use softraster::triangle::{light_intensity, triangle};
use softraster::vector::{Vec2, Vec3};
use softraster::vertex::Vertex;

fn fx(v: f64) -> i32 {
    (v * 65536.0).round() as i32
}

/// A vertex that sits at `(x, y)` on the screen with depth `z`, facing the
/// light.
fn at(x: f64, y: f64, z: f64) -> Vertex {
    let mut v = Vertex::new(Vec3::zeros(), Vec3::new(0, 0, ONE), Vec2::new(0, 0));
    v.transformed_position = Vec3::new(fx(x), fx(y), fx(z));
    v
}

fn pixels(fragments: &[Fragment]) -> Vec<(usize, usize)> {
    fragments.iter().map(|f| (f.position.x, f.position.y)).collect()
}

#[test]
fn fragment_new_keeps_fields() {
    let f = Fragment::new(Pixel { x: 3, y: 4 }, 5, Vec3::new(1, 2, 3), 6, Vec3::new(7, 8, 9));
    assert_eq!(f.position, Pixel { x: 3, y: 4 });
    assert_eq!(f.depth, 5);
    assert_eq!(f.normal, Vec3::new(1, 2, 3));
    assert_eq!(f.intensity, 6);
    assert_eq!(f.vertex_position, Vec3::new(7, 8, 9));
}

#[test]
fn small_triangle_covers_its_pixel_centres() {
    let fragments = triangle(&at(0.5, 0.5, 0.0), &at(4.5, 0.5, 0.0), &at(0.5, 4.5, 0.0), 8, 8);
    // Row by row, left to right; the centres on the slanted edge are left out.
    assert_eq!(
        pixels(&fragments),
        vec![
            (0, 0),
            (1, 0),
            (2, 0),
            (3, 0),
            (0, 1),
            (1, 1),
            (2, 1),
            (0, 2),
            (1, 2),
            (0, 3)
        ]
    );
}

#[test]
fn winding_does_not_matter() {
    let one = triangle(&at(0.5, 0.5, 0.0), &at(4.5, 0.5, 0.0), &at(0.5, 4.5, 0.0), 8, 8);
    let other = triangle(&at(0.5, 0.5, 0.0), &at(0.5, 4.5, 0.0), &at(4.5, 0.5, 0.0), 8, 8);
    assert_eq!(pixels(&one), pixels(&other));
}

#[test]
fn triangle_inside_bounds_has_about_its_area_in_fragments() {
    // Legs of 8 pixels: an area of 32.
    let fragments = triangle(&at(1.0, 1.0, 0.0), &at(9.0, 1.0, 0.0), &at(1.0, 9.0, 0.0), 16, 16);
    assert_eq!(fragments.len(), 28);
    let area = 32.0f64;
    let edge_rounding = 8.0f64;
    assert!((fragments.len() as f64 - area).abs() <= edge_rounding);
    for f in &fragments {
        assert!(1 <= f.position.x && f.position.x < 9);
        assert!(1 <= f.position.y && f.position.y < 9);
    }
}

#[test]
fn triangle_outside_bounds_has_no_fragments() {
    let left = triangle(&at(-9.0, 1.0, 0.0), &at(-1.0, 1.0, 0.0), &at(-5.0, 7.0, 0.0), 8, 8);
    assert!(left.is_empty());
    let right = triangle(&at(9.0, 1.0, 0.0), &at(19.0, 1.0, 0.0), &at(15.0, 7.0, 0.0), 8, 8);
    assert!(right.is_empty());
    let above = triangle(&at(1.0, -9.0, 0.0), &at(7.0, -1.0, 0.0), &at(1.0, -1.0, 0.0), 8, 8);
    assert!(above.is_empty());
    let below = triangle(&at(1.0, 9.0, 0.0), &at(7.0, 19.0, 0.0), &at(1.0, 19.0, 0.0), 8, 8);
    assert!(below.is_empty());
}

#[test]
fn triangle_around_the_target_covers_every_pixel() {
    let fragments =
        triangle(&at(-10.0, -10.0, 0.0), &at(30.0, -10.0, 0.0), &at(-10.0, 30.0, 0.0), 8, 8);
    assert_eq!(fragments.len(), 64);
    let mut expected = Vec::new();
    for y in 0..8 {
        for x in 0..8 {
            expected.push((x, y));
        }
    }
    assert_eq!(pixels(&fragments), expected);
}

#[test]
fn triangle_is_clipped_to_the_target() {
    let fragments =
        triangle(&at(-4.0, -4.0, 0.0), &at(4.0, -4.0, 0.0), &at(-4.0, 4.0, 0.0), 8, 8);
    // The slanted edge passes through the corner of the target: every pixel
    // centre lies beyond it.
    assert!(fragments.is_empty());
    let more = triangle(&at(-4.0, -4.0, 0.0), &at(6.0, -4.0, 0.0), &at(-4.0, 6.0, 0.0), 8, 8);
    assert_eq!(pixels(&more), vec![(0, 0)]);
}

#[test]
fn degenerate_triangles_have_no_fragments() {
    let line = triangle(&at(0.0, 0.0, 0.0), &at(4.0, 4.0, 0.0), &at(8.0, 8.0, 0.0), 8, 8);
    assert!(line.is_empty());
    let point = triangle(&at(3.5, 3.5, 0.0), &at(3.5, 3.5, 0.0), &at(3.5, 3.5, 0.0), 8, 8);
    assert!(point.is_empty());
    let doubled = triangle(&at(0.5, 0.5, 0.0), &at(4.5, 0.5, 0.0), &at(0.5, 0.5, 0.0), 8, 8);
    assert!(doubled.is_empty());
}

#[test]
fn empty_target_has_no_fragments() {
    let a = at(-10.0, -10.0, 0.0);
    let b = at(30.0, -10.0, 0.0);
    let c = at(-10.0, 30.0, 0.0);
    assert!(triangle(&a, &b, &c, 0, 8).is_empty());
    assert!(triangle(&a, &b, &c, 8, 0).is_empty());
}

#[test]
fn triangles_that_share_an_edge_never_share_a_pixel() {
    let p = at(0.0, 0.0, 0.0);
    let q = at(8.0, 0.0, 0.0);
    let r = at(8.0, 8.0, 0.0);
    let s = at(0.0, 8.0, 0.0);
    let upper = pixels(&triangle(&p, &q, &r, 8, 8));
    let lower = pixels(&triangle(&p, &r, &s, 8, 8));
    assert_eq!(upper.len(), 36);
    assert_eq!(lower.len(), 28);
    for pixel in &upper {
        assert!(!lower.contains(pixel));
    }
    // Together they tile the square, diagonal included.
    assert_eq!(upper.len() + lower.len(), 64);
    assert!(upper.contains(&(3, 3)));
}

#[test]
fn depth_is_interpolated_across_the_triangle() {
    let fragments = triangle(&at(0.5, 0.5, 0.0), &at(4.5, 0.5, 1.0), &at(0.5, 4.5, 0.0), 8, 8);
    let depth_at = |x: usize, y: usize| {
        fragments.iter().find(|f| f.position == Pixel { x, y }).unwrap().depth
    };
    assert_eq!(depth_at(0, 0), 0);
    assert_eq!(depth_at(1, 0), fx(0.25));
    assert_eq!(depth_at(2, 0), fx(0.5));
    assert_eq!(depth_at(3, 0), fx(0.75));
    assert_eq!(depth_at(1, 1), fx(0.25));
    assert_eq!(depth_at(0, 3), 0);
}

#[test]
fn object_space_position_is_interpolated() {
    let mut a = at(0.5, 0.5, 0.0);
    let mut b = at(4.5, 0.5, 0.0);
    let mut c = at(0.5, 4.5, 0.0);
    a.position = Vec3::new(fx(-1.0), fx(2.0), 0);
    b.position = Vec3::new(fx(1.0), fx(2.0), 0);
    c.position = Vec3::new(fx(-1.0), fx(-2.0), 0);
    let fragments = triangle(&a, &b, &c, 8, 8);
    let position_at = |x: usize, y: usize| {
        fragments.iter().find(|f| f.position == Pixel { x, y }).unwrap().vertex_position
    };
    assert_eq!(position_at(0, 0), Vec3::new(fx(-1.0), fx(2.0), 0));
    assert_eq!(position_at(2, 0), Vec3::new(0, fx(2.0), 0));
    assert_eq!(position_at(1, 1), Vec3::new(fx(-0.5), fx(1.0), 0));
    assert_eq!(position_at(0, 3), Vec3::new(fx(-1.0), fx(-1.0), 0));
}

#[test]
fn interpolated_values_stay_between_the_vertices() {
    let fragments = triangle(&at(0.3, 0.2, -0.7), &at(6.9, 1.4, 0.9), &at(2.2, 7.6, 0.1), 8, 8);
    assert!(!fragments.is_empty());
    for f in &fragments {
        assert!(fx(-0.7) <= f.depth && f.depth <= fx(0.9));
    }
}

#[test]
fn normals_are_interpolated_and_lit() {
    let mut a = at(0.5, 0.5, 0.0);
    let mut b = at(4.5, 0.5, 0.0);
    let mut c = at(0.5, 4.5, 0.0);
    a.transformed_normal = Vec3::new(0, 0, ONE);
    b.transformed_normal = Vec3::new(ONE, 0, 0);
    c.transformed_normal = Vec3::new(0, 0, ONE);
    let fragments = triangle(&a, &b, &c, 8, 8);
    let find = |x: usize, y: usize| {
        *fragments.iter().find(|f| f.position == Pixel { x, y }).unwrap()
    };
    assert_eq!(find(0, 0).normal, Vec3::new(0, 0, ONE));
    assert_eq!(find(0, 0).intensity, ONE);
    // Half way: the normal (0.5, 0, 0.5) makes 45 degrees with the light.
    assert_eq!(find(2, 0).normal, Vec3::new(ONE / 2, 0, ONE / 2));
    assert_eq!(find(2, 0).intensity, 46341);
    for f in &fragments {
        assert!(0 <= f.intensity && f.intensity <= ONE);
    }
}

#[test]
fn lighting_is_the_cosine_with_the_z_axis() {
    assert_eq!(light_intensity(&Vec3::new(0, 0, ONE)), ONE);
    assert_eq!(light_intensity(&Vec3::new(0, 0, 5)), ONE);
    assert_eq!(light_intensity(&Vec3::new(ONE, 0, ONE)), 46341);
    assert_eq!(light_intensity(&Vec3::new(0, 3 * ONE, 4 * ONE)), 52428);
    assert_eq!(light_intensity(&Vec3::new(ONE, 0, 0)), 0);
}

#[test]
fn lighting_of_a_surface_that_faces_away_is_zero() {
    assert_eq!(light_intensity(&Vec3::new(0, 0, -ONE)), 0);
    assert_eq!(light_intensity(&Vec3::new(ONE, ONE, -1)), 0);
}

#[test]
fn lighting_of_a_zero_normal_is_zero() {
    assert_eq!(light_intensity(&Vec3::zeros()), 0);
}

#[test]
fn lighting_takes_extreme_normals() {
    assert_eq!(light_intensity(&Vec3::new(i32::MIN, i32::MIN, i32::MAX)), 37837);
    assert_eq!(light_intensity(&Vec3::new(0, 0, i32::MAX)), ONE);
}

#[test]
fn extreme_coordinates_are_handled() {
    let corner = |x: i32, y: i32, z: i32| {
        let mut v = at(0.0, 0.0, 0.0);
        v.transformed_position = Vec3::new(x, y, z);
        v
    };
    // The half of the plane below the diagonal y = x, diagonal included.
    let a = corner(i32::MIN, i32::MIN, i32::MIN);
    let b = corner(i32::MAX, i32::MIN, i32::MAX);
    let c = corner(i32::MAX, i32::MAX, 0);
    let fragments = triangle(&a, &b, &c, 4, 4);
    assert_eq!(
        pixels(&fragments),
        vec![
            (0, 0),
            (1, 0),
            (2, 0),
            (3, 0),
            (1, 1),
            (2, 1),
            (3, 1),
            (2, 2),
            (3, 2),
            (3, 3)
        ]
    );
    // The other half owns no pixel of the diagonal.
    let d = corner(i32::MIN, i32::MAX, 0);
    let rest = triangle(&a, &c, &d, 4, 4);
    assert_eq!(pixels(&rest), vec![(0, 1), (0, 2), (1, 2), (0, 3), (1, 3), (2, 3)]);
}

/// The barycentric weights of `(px, py)` in floating point.
fn float_weights(a: (f64, f64), b: (f64, f64), c: (f64, f64), px: f64, py: f64) -> [f64; 3] {
    let cross = |u: (f64, f64), v: (f64, f64)| u.0 * v.1 - u.1 * v.0;
    let area = cross((b.0 - a.0, b.1 - a.1), (c.0 - a.0, c.1 - a.1));
    let wa = cross((b.0 - px, b.1 - py), (c.0 - px, c.1 - py)) / area;
    let wb = cross((c.0 - px, c.1 - py), (a.0 - px, a.1 - py)) / area;
    let wc = cross((a.0 - px, a.1 - py), (b.0 - px, b.1 - py)) / area;
    [wa, wb, wc]
}

#[test]
fn coverage_agrees_with_floating_point_geometry() {
    // A fixed pseudo-random walk over triangles around a 24 by 16 target.
    let mut state: u64 = 0x9E3779B97F4A7C15;
    let mut next = || {
        state = state.wrapping_mul(6364136223846793005).wrapping_add(1442695040888963407);
        ((state >> 33) % 4000) as f64 / 100.0 - 8.0
    };
    let mut covered_somewhere = 0;
    for _ in 0..200 {
        let a = (next(), next() * 0.7);
        let b = (next(), next() * 0.7);
        let c = (next(), next() * 0.7);
        let (za, zb, zc) = (0.1, 0.5, 0.9);
        let fragments = triangle(&at(a.0, a.1, za), &at(b.0, b.1, zb), &at(c.0, c.1, zc), 24, 16);
        let got = pixels(&fragments);
        // What the library saw after rounding to sixteen fractional bits.
        let snap = |p: (f64, f64)| (fx(p.0) as f64 / 65536.0, fx(p.1) as f64 / 65536.0);
        let (a, b, c) = (snap(a), snap(b), snap(c));
        let area = (b.0 - a.0) * (c.1 - a.1) - (b.1 - a.1) * (c.0 - a.0);
        if area.abs() < 1e-6 {
            continue;
        }
        for y in 0..16usize {
            for x in 0..24usize {
                let w = float_weights(a, b, c, x as f64 + 0.5, y as f64 + 0.5);
                let inside = w.iter().all(|&v| v > 1e-9);
                let outside = w.iter().any(|&v| v < -1e-9);
                if inside {
                    assert!(got.contains(&(x, y)));
                }
                if outside {
                    assert!(!got.contains(&(x, y)));
                }
            }
        }
        for f in &fragments {
            let w = float_weights(a, b, c, f.position.x as f64 + 0.5, f.position.y as f64 + 0.5);
            let depth = w[0] * za + w[1] * zb + w[2] * zc;
            assert!((f.depth as f64 / 65536.0 - depth).abs() < 0.001);
            covered_somewhere += 1;
        }
    }
    assert!(covered_somewhere > 1000);
}

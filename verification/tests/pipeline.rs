use fastnoise_lite::{FastNoiseLite, NoiseType};
use softraster::color::Color;
use softraster::fixed::ONE;
use softraster::fragment::{Fragment, Pixel};
use softraster::framebuffer::{Framebuffer, FAR};
use softraster::matrix::Mat4;
use softraster::shaders::{
    fragment_shader, noise_query, vertex_shader, NoisePoint, NoiseQuery, NoiseSamples,
};
use softraster::triangle::triangle;
use softraster::vector::{Vec2, Vec3, Vec4};
use softraster::vertex::Vertex;
use softraster::{assemble, create_viewport_matrix, render, SampledFragment, Uniforms};

const BACKGROUND: u32 = 0x333355;

fn fx(v: f64) -> i32 {
    (v * 65536.0).round() as i32
}

fn plain_uniforms(width: usize, height: usize, time: u32) -> Uniforms {
    Uniforms {
        model_matrix: Mat4::identity(),
        view_matrix: Mat4::identity(),
        projection_matrix: Mat4::identity(),
        viewport_matrix: create_viewport_matrix(width, height),
        time,
    }
}

fn facing(x: f64, y: f64, z: f64) -> Vertex {
    Vertex::new(Vec3::new(fx(x), fx(y), fx(z)), Vec3::new(0, 0, ONE), Vec2::new(0, 0))
}

/// A triangle that covers the whole of the device square at depth `z`.
fn covering(z: f64) -> Vec<Vertex> {
    vec![facing(-5.0, -5.0, z), facing(5.0, -5.0, z), facing(0.0, 5.0, z)]
}

fn noise_field() -> FastNoiseLite {
    let mut noise = FastNoiseLite::with_seed(1337);
    noise.set_noise_type(Some(NoiseType::OpenSimplex2));
    noise
}

fn coordinate(raw: i64) -> f32 {
    (raw as f64 / 65536.0) as f32
}

fn sample2(noise: &FastNoiseLite, p: &NoisePoint) -> i32 {
    fx(noise.get_noise_2d(coordinate(p.x), coordinate(p.y)) as f64)
}

fn sample3(noise: &FastNoiseLite, p: &NoisePoint) -> i32 {
    fx(noise.get_noise_3d(coordinate(p.x), coordinate(p.y), coordinate(p.z)) as f64)
}

fn sampled(
    noise: &FastNoiseLite,
    fragments: &[Fragment],
    uniforms: &Uniforms,
    material: usize,
) -> Vec<SampledFragment> {
    fragments
        .iter()
        .map(|fragment| {
            let samples = match noise_query(fragment, uniforms, material) {
                NoiseQuery::Nothing => NoiseSamples { first: 0, second: 0 },
                NoiseQuery::Planar(p) => NoiseSamples { first: sample2(noise, &p), second: 0 },
                NoiseQuery::Spatial(p) => NoiseSamples { first: sample3(noise, &p), second: 0 },
                NoiseQuery::SpatialPair(p, q) => {
                    NoiseSamples { first: sample3(noise, &p), second: sample3(noise, &q) }
                }
            };
            SampledFragment { fragment: *fragment, samples }
        })
        .collect()
}

fn draw(
    framebuffer: &mut Framebuffer,
    uniforms: &Uniforms,
    mesh: &Vec<Vertex>,
    material: usize,
) -> usize {
    let fragments = assemble(uniforms, mesh, framebuffer.width(), framebuffer.height());
    let pairs = sampled(&noise_field(), &fragments, uniforms, material);
    render(framebuffer, uniforms, &pairs, material);
    fragments.len()
}

fn with_zero_noise(fragments: &[Fragment]) -> Vec<SampledFragment> {
    fragments
        .iter()
        .map(|f| SampledFragment { fragment: *f, samples: NoiseSamples { first: 0, second: 0 } })
        .collect()
}

#[test]
fn one_covering_triangle_paints_every_pixel() {
    let mut framebuffer = Framebuffer::new(16, 12);
    framebuffer.set_background_color(BACKGROUND);
    framebuffer.clear();
    let uniforms = plain_uniforms(16, 12, 0);
    let count = draw(&mut framebuffer, &uniforms, &covering(0.5), 0);
    assert_eq!(count, 16 * 12);
    for y in 0..12 {
        for x in 0..16 {
            assert_ne!(framebuffer.color_at(x, y), BACKGROUND);
            assert!(framebuffer.depth_at(x, y) < FAR);
            assert_eq!(framebuffer.depth_at(x, y), fx(0.5));
        }
    }
}

#[test]
fn the_solar_material_paints_its_three_colors() {
    let mut framebuffer = Framebuffer::new(16, 12);
    framebuffer.set_background_color(BACKGROUND);
    framebuffer.clear();
    let uniforms = plain_uniforms(16, 12, 0);
    draw(&mut framebuffer, &uniforms, &covering(0.5), 0);
    let palette = [0xFFD700u32, 0xFF8C00, 0xFF4500];
    for &pixel in framebuffer.buffer().iter() {
        assert!(palette.contains(&pixel));
    }
}

#[test]
fn every_material_paints_every_pixel() {
    for material in 0..9 {
        let mut framebuffer = Framebuffer::new(8, 8);
        framebuffer.set_background_color(BACKGROUND);
        framebuffer.clear();
        let uniforms = plain_uniforms(8, 8, 3);
        draw(&mut framebuffer, &uniforms, &covering(0.25), material);
        for y in 0..8 {
            for x in 0..8 {
                assert_ne!(framebuffer.color_at(x, y), BACKGROUND);
                assert_eq!(framebuffer.depth_at(x, y), fx(0.25));
            }
        }
    }
}

#[test]
fn rendering_is_reproducible() {
    let picture = |time: u32| {
        let mut framebuffer = Framebuffer::new(8, 8);
        framebuffer.clear();
        let uniforms = plain_uniforms(8, 8, time);
        for material in 0..9 {
            draw(&mut framebuffer, &uniforms, &covering(0.9 - 0.1 * material as f64), material);
        }
        framebuffer.buffer().clone()
    };
    assert_eq!(picture(5), picture(5));
    assert_eq!(picture(77), picture(77));
}

#[test]
fn the_nearer_mesh_hides_the_farther_one_in_either_order() {
    let uniforms = plain_uniforms(8, 8, 0);
    let near = covering(0.2);
    let far = covering(0.7);

    let mut first = Framebuffer::new(8, 8);
    draw(&mut first, &uniforms, &near, 1);
    let only_near = first.buffer().clone();
    draw(&mut first, &uniforms, &far, 2);

    let mut second = Framebuffer::new(8, 8);
    draw(&mut second, &uniforms, &far, 2);
    draw(&mut second, &uniforms, &near, 1);

    assert_eq!(first.buffer(), &only_near);
    assert_eq!(second.buffer(), &only_near);
    for y in 0..8 {
        for x in 0..8 {
            assert_eq!(first.depth_at(x, y), fx(0.2));
            assert_eq!(second.depth_at(x, y), fx(0.2));
        }
    }
}

#[test]
fn assemble_groups_consecutive_triples() {
    let uniforms = plain_uniforms(8, 8, 0);
    // Left half and right half of the target, as two triangles each way too
    // large, so that every pixel of a half is covered.
    let left = [facing(-1.0, -9.0, 0.1), facing(-1.0, 9.0, 0.1), facing(-0.5, 0.0, 0.1)];
    let right = [facing(1.0, -9.0, 0.3), facing(1.0, 9.0, 0.3), facing(0.5, 0.0, 0.3)];
    let mut mesh = Vec::new();
    mesh.extend_from_slice(&left);
    mesh.extend_from_slice(&right);
    let fragments = assemble(&uniforms, &mesh, 8, 8);

    let shade = |v: &Vertex| vertex_shader(v, &uniforms).unwrap();
    let mut expected = triangle(&shade(&left[0]), &shade(&left[1]), &shade(&left[2]), 8, 8);
    expected.extend(triangle(&shade(&right[0]), &shade(&right[1]), &shade(&right[2]), 8, 8));
    assert!(!expected.is_empty());
    assert_eq!(fragments, expected);
    assert!(fragments.iter().any(|f| f.depth == fx(0.1)));
    assert!(fragments.iter().any(|f| f.depth == fx(0.3)));
}

#[test]
fn assemble_ignores_vertices_left_over() {
    let uniforms = plain_uniforms(8, 8, 0);
    let whole = covering(0.5);
    let expected = assemble(&uniforms, &whole, 8, 8);
    assert_eq!(expected.len(), 64);

    let mut one_more = whole.clone();
    one_more.push(facing(0.0, 0.0, 0.0));
    assert_eq!(assemble(&uniforms, &one_more, 8, 8), expected);

    let mut two_more = one_more.clone();
    two_more.push(facing(1.0, 0.0, 0.0));
    assert_eq!(assemble(&uniforms, &two_more, 8, 8), expected);

    assert!(assemble(&uniforms, &Vec::new(), 8, 8).is_empty());
    assert!(assemble(&uniforms, &two_more[3..].to_vec(), 8, 8).is_empty());
}

#[test]
fn assemble_skips_a_triangle_with_a_vertex_that_has_no_w() {
    let mut uniforms = plain_uniforms(8, 8, 0);
    // w = z: a vertex at z = 0 has no perspective divide.
    uniforms.projection_matrix = Mat4::from_rows(
        Vec4::new(ONE, 0, 0, 0),
        Vec4::new(0, ONE, 0, 0),
        Vec4::new(0, 0, ONE, 0),
        Vec4::new(0, 0, ONE, 0),
    );
    let good = vec![facing(-5.0, -5.0, 1.0), facing(5.0, -5.0, 1.0), facing(0.0, 5.0, 1.0)];
    assert_eq!(assemble(&uniforms, &good, 8, 8).len(), 64);
    let bad = vec![facing(-5.0, -5.0, 1.0), facing(5.0, -5.0, 0.0), facing(0.0, 5.0, 1.0)];
    assert!(assemble(&uniforms, &bad, 8, 8).is_empty());
    let mut both = bad.clone();
    both.extend_from_slice(&good);
    assert_eq!(assemble(&uniforms, &both, 8, 8).len(), 64);
}

#[test]
fn render_drops_fragments_outside_the_framebuffer() {
    let uniforms = plain_uniforms(4, 4, 0);
    let mut framebuffer = Framebuffer::new(4, 4);
    let fragment = |x: usize, y: usize| {
        Fragment::new(Pixel { x, y }, 0, Vec3::new(0, 0, ONE), ONE, Vec3::zeros())
    };
    let fragments =
        [fragment(4, 0), fragment(0, 4), fragment(usize::MAX, usize::MAX), fragment(3, 3)];
    render(&mut framebuffer, &uniforms, &with_zero_noise(&fragments), 1);
    let written: Vec<usize> = framebuffer
        .buffer()
        .iter()
        .enumerate()
        .filter(|(_, &p)| p != 0)
        .map(|(i, _)| i)
        .collect();
    assert_eq!(written, vec![15]);
    assert_eq!(framebuffer.color_at(3, 3), 0xFFFFFF);
}

#[test]
fn render_writes_the_shaded_color_of_each_fragment() {
    let uniforms = plain_uniforms(4, 4, 0);
    let mut framebuffer = Framebuffer::new(4, 4);
    let fragment =
        Fragment::new(Pixel { x: 1, y: 2 }, 77, Vec3::new(0, 0, ONE), ONE / 2, Vec3::zeros());
    let samples = NoiseSamples { first: fx(0.9), second: 0 };
    render(&mut framebuffer, &uniforms, &vec![SampledFragment { fragment, samples }], 5);
    let expected = fragment_shader(&fragment, &uniforms, 5, &samples);
    assert_eq!(expected, Color::new(69, 34, 9));
    assert_eq!(framebuffer.color_at(1, 2), expected.to_hex());
    assert_eq!(framebuffer.depth_at(1, 2), 77);
}

#[test]
fn render_draws_fragments_in_order_through_the_depth_test() {
    let uniforms = plain_uniforms(2, 2, 0);
    let mut framebuffer = Framebuffer::new(2, 2);
    let fragment = |depth: i32, intensity: i32| {
        Fragment::new(Pixel { x: 0, y: 0 }, depth, Vec3::new(0, 0, ONE), intensity, Vec3::zeros())
    };
    let fragments =
        [fragment(50, ONE), fragment(20, ONE / 2), fragment(20, ONE), fragment(30, ONE)];
    render(&mut framebuffer, &uniforms, &with_zero_noise(&fragments), 1);
    // The first fragment at depth 20 wins: a later one at the same depth does
    // not replace it.
    assert_eq!(framebuffer.color_at(0, 0), 0x7F7F7F);
    assert_eq!(framebuffer.depth_at(0, 0), 20);
}

#[test]
fn render_of_nothing_changes_nothing() {
    let uniforms = plain_uniforms(2, 2, 0);
    let mut framebuffer = Framebuffer::new(2, 2);
    framebuffer.set_background_color(BACKGROUND);
    framebuffer.clear();
    render(&mut framebuffer, &uniforms, &Vec::new(), 0);
    assert!(framebuffer.buffer().iter().all(|&p| p == BACKGROUND));
}

#[test]
fn rendering_the_same_mesh_twice_changes_nothing() {
    for material in 0..9 {
        let uniforms = plain_uniforms(8, 8, 11);
        let mut framebuffer = Framebuffer::new(8, 8);
        framebuffer.set_background_color(BACKGROUND);
        framebuffer.clear();
        let mesh = vec![
            facing(-0.9, -0.8, 0.1),
            facing(0.8, -0.7, 0.9),
            facing(0.1, 0.9, 0.4),
            facing(-0.5, 0.9, 0.3),
            facing(0.9, 0.2, 0.2),
            facing(-0.2, -0.9, 0.8),
        ];
        draw(&mut framebuffer, &uniforms, &mesh, material);
        let colors = framebuffer.buffer().clone();
        let mut depths = Vec::new();
        for y in 0..8 {
            for x in 0..8 {
                depths.push(framebuffer.depth_at(x, y));
            }
        }
        assert!(colors.iter().any(|&p| p != BACKGROUND));
        draw(&mut framebuffer, &uniforms, &mesh, material);
        assert_eq!(framebuffer.buffer(), &colors);
        for y in 0..8 {
            for x in 0..8 {
                assert_eq!(framebuffer.depth_at(x, y), depths[y * 8 + x]);
            }
        }
    }
}

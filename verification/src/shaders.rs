//! The vertex stage and the procedural fragment shaders.

use vstd::prelude::*;
use rand::rngs::StdRng;
use rand::Rng;
use rand::SeedableRng;
use crate::color::Color;
use crate::fixed::{floor_div, fx_div, fx_div_spec, lemma_mul_bounds, ONE};
use crate::fragment::Fragment;
use crate::matrix::Mat3;
use crate::vector::{Vec3, Vec4};
use crate::vertex::Vertex;
use crate::Uniforms;

verus! {

/// The vertex position in clip space: projection, view and model applied to
/// `(x, y, z, 1)`, the model first.
pub open spec fn clip_position(position: Vec3, uniforms: Uniforms) -> Vec4 {
    uniforms.projection_matrix.apply(
        uniforms.view_matrix.apply(uniforms.model_matrix.apply(position.homogeneous())),
    )
}

/// The perspective divide of a clip-space point whose `w` is not zero.
pub open spec fn perspective_divided(clip: Vec4) -> Vec4 {
    Vec4 {
        x: fx_div_spec(clip.x, clip.w),
        y: fx_div_spec(clip.y, clip.w),
        z: fx_div_spec(clip.z, clip.w),
        w: ONE,
    }
}

/// The screen-space position of a clip-space point whose `w` is not zero.
pub open spec fn screen_position(clip: Vec4, uniforms: Uniforms) -> Vec3 {
    uniforms.viewport_matrix.apply(perspective_divided(clip)).xyz()
}

/// The matrix that transforms normals: the inverse of the transpose of the
/// model matrix's upper-left block, or the identity where that block is
/// singular.
pub open spec fn normal_matrix(uniforms: Uniforms) -> Mat3 {
    match Mat3::upper_left(uniforms.model_matrix).transposed().inverse() {
        Some(m) => m,
        None => Mat3::spec_identity(),
    }
}

/// What the vertex stage makes of a vertex: nothing where the clip-space `w`
/// rounds to zero, else the vertex with its two transformed fields set.
pub open spec fn shaded_vertex(vertex: Vertex, uniforms: Uniforms) -> Option<Vertex> {
    let clip = clip_position(vertex.position, uniforms);
    if clip.w == 0 {
        None
    } else {
        Some(
            Vertex {
                transformed_position: screen_position(clip, uniforms),
                transformed_normal: normal_matrix(uniforms).apply(vertex.normal),
                ..vertex
            },
        )
    }
}

/// Transforms one vertex from object space to screen space, and its normal by
/// the normal matrix.
///
/// A vertex whose homogeneous `w` is smaller in magnitude than the fixed-point
/// resolution has no perspective divide and is not drawn: the result is
/// `None`.
pub fn vertex_shader(vertex: &Vertex, uniforms: &Uniforms) -> (out: Option<Vertex>)
    ensures
        out == shaded_vertex(*vertex, *uniforms),
{
    let position = Vec4::new(vertex.position.x, vertex.position.y, vertex.position.z, ONE);

    let transformed = uniforms.projection_matrix.mul_vec(
        &uniforms.view_matrix.mul_vec(&uniforms.model_matrix.mul_vec(&position)),
    );

    let w = transformed.w;
    if w == 0 {
        return None;
    }
    let transformed_position = Vec4::new(
        fx_div(transformed.x, w),
        fx_div(transformed.y, w),
        fx_div(transformed.z, w),
        ONE,
    );

    let screen_position = uniforms.viewport_matrix.mul_vec(&transformed_position);

    let model_mat3 = Mat3::from_mat4(&uniforms.model_matrix);
    let normal_matrix = match model_mat3.transpose().try_inverse() {
        Some(m) => m,
        None => Mat3::identity(),
    };

    let transformed_normal = normal_matrix.mul_vec(&vertex.normal);

    Some(
        Vertex {
            position: vertex.position,
            normal: vertex.normal,
            tex_coords: vertex.tex_coords,
            color: vertex.color,
            transformed_position: Vec3::new(
                screen_position.x,
                screen_position.y,
                screen_position.z,
            ),
            transformed_normal,
        },
    )
}

/// A point of the noise field, in 16.16 fixed point with room for large
/// offsets.
#[derive(Clone, Copy, Debug, PartialEq, Eq, Structural)]
pub struct NoisePoint {
    pub x: i64,
    pub y: i64,
    pub z: i64,
}

/// Where a shader wants the noise field sampled for one fragment.
#[derive(Clone, Copy, Debug, PartialEq, Eq, Structural)]
pub enum NoiseQuery {
    /// The shader reads no noise.
    Nothing,
    /// One sample of the 2D field at `(x, y)`.
    Planar(NoisePoint),
    /// One sample of the 3D field.
    Spatial(NoisePoint),
    /// Two samples of the 3D field.
    SpatialPair(NoisePoint, NoisePoint),
}

/// The noise values, each in `[-1, 1]`, that were sampled at the points of a
/// `NoiseQuery`: `first` at its first point, `second` at its second.
#[derive(Clone, Copy, Debug, PartialEq, Eq, Structural)]
pub struct NoiseSamples {
    pub first: i32,
    pub second: i32,
}

/// The colour with the three channels `r`, `g`, `b`.
pub open spec fn rgb(r: u8, g: u8, b: u8) -> Color {
    Color { r, g, b }
}

/// The coordinate `v` multiplied by a zoom factor given in tenths.
pub open spec fn zoomed(v: int, tenths: int) -> int {
    (v * tenths) / 10
}

/// How far the noise has drifted at `time` when it moves one unit every
/// `per` ticks.
pub open spec fn drift(time: u32, per: int) -> int {
    (time as int * 65536) / per
}

/// The raw value of a whole number.
pub open spec fn whole(n: int) -> int {
    n * 65536
}

/// Whether the fixed-point value `v` is less than `hundredths / 100`.
pub open spec fn below(v: int, hundredths: int) -> bool {
    v * 100 < hundredths * 65536
}

/// The absolute value.
pub open spec fn magnitude(v: i32) -> int {
    if v < 0 {
        -(v as int)
    } else {
        v as int
    }
}

/// The colour of the first band whose upper limit, in hundredths, lies above
/// `v`: `c1` below `t1`, `c2` below `t2`, else `c3`.
pub open spec fn three_bands(v: int, t1: int, c1: Color, t2: int, c2: Color, c3: Color) -> Color {
    if below(v, t1) {
        c1
    } else if below(v, t2) {
        c2
    } else {
        c3
    }
}

/// The spotted shader reads the plane at 100 times the shading coordinate,
/// drifting along both axes by one unit every 2 ticks.
pub open spec fn dalmata_point(f: Fragment, time: u32) -> NoisePoint {
    NoisePoint {
        x: (zoomed(f.vertex_position.x as int, 1000) + drift(time, 2)) as i64,
        y: (zoomed(f.vertex_position.y as int, 1000) + drift(time, 2)) as i64,
        z: 0,
    }
}

/// The cloud shader reads the plane at 100 times the shading coordinate plus
/// 100, drifting along x by one unit every 2 ticks.
pub open spec fn cloud_point(f: Fragment, time: u32) -> NoisePoint {
    NoisePoint {
        x: (zoomed(f.vertex_position.x as int, 1000) + whole(100) + drift(time, 2)) as i64,
        y: (zoomed(f.vertex_position.y as int, 1000) + whole(100)) as i64,
        z: 0,
    }
}

/// The cellular shader reads the plane at 30 times the shading coordinate
/// plus 50, drifting along both axes by one unit every 10 ticks.
pub open spec fn cellular_point(f: Fragment, time: u32) -> NoisePoint {
    NoisePoint {
        x: (zoomed(f.vertex_position.x as int, 300) + whole(50) + drift(time, 10)) as i64,
        y: (zoomed(f.vertex_position.y as int, 300) + whole(50) + drift(time, 10)) as i64,
        z: 0,
    }
}

/// The molten shader reads space at 100 times the shading coordinate moved by
/// 100, with the depth as third coordinate. Its two samples drift in opposite
/// directions by one hundredth of a unit every tick, before the zoom:
/// `direction` is 1 or -1.
pub open spec fn lava_point(f: Fragment, time: u32, direction: int) -> NoisePoint {
    NoisePoint {
        x: zoomed(
            f.vertex_position.x as int + whole(100) + direction * drift(time, 100),
            1000,
        ) as i64,
        y: zoomed(
            f.vertex_position.y as int + whole(100) + direction * drift(time, 100),
            1000,
        ) as i64,
        z: zoomed(f.depth as int, 1000) as i64,
    }
}

/// The rocky shader reads the plane at 50 times the shading coordinate plus
/// `(10, 20)`, drifting along both axes by one unit every 2 ticks.
pub open spec fn rocky_point(f: Fragment, time: u32) -> NoisePoint {
    NoisePoint {
        x: (zoomed(f.vertex_position.x as int, 500) + whole(10) + drift(time, 2)) as i64,
        y: (zoomed(f.vertex_position.y as int, 500) + whole(20) + drift(time, 2)) as i64,
        z: 0,
    }
}

/// The gaseous shader reads space at three tenths of the shading coordinate,
/// with the depth as third coordinate, drifting along x and y by one unit
/// every 10 ticks.
pub open spec fn gaseous_point(f: Fragment, time: u32) -> NoisePoint {
    NoisePoint {
        x: (zoomed(f.vertex_position.x as int, 3) + drift(time, 10)) as i64,
        y: (zoomed(f.vertex_position.y as int, 3) + drift(time, 10)) as i64,
        z: zoomed(f.depth as int, 3) as i64,
    }
}

/// The solar and the earth shader read space at 20 times the shading
/// coordinate moved by `shift` whole units, with the depth as third
/// coordinate, drifting along x and y by one unit every `per` ticks.
pub open spec fn globe_point(f: Fragment, time: u32, shift: int, per: int) -> NoisePoint {
    NoisePoint {
        x: (zoomed(f.vertex_position.x as int + whole(shift), 200) + drift(time, per)) as i64,
        y: (zoomed(f.vertex_position.y as int + whole(shift), 200) + drift(time, per)) as i64,
        z: zoomed(f.depth as int, 200) as i64,
    }
}

/// The points at which the shader of material `sphere_index` reads the noise
/// field for a fragment.
pub open spec fn query_for(f: Fragment, uniforms: Uniforms, sphere_index: usize) -> NoiseQuery {
    let t = uniforms.time;
    if sphere_index == 0 {
        NoiseQuery::SpatialPair(globe_point(f, t, 0, 5), globe_point(f, t, 50, 5))
    } else if sphere_index == 1 {
        NoiseQuery::Planar(dalmata_point(f, t))
    } else if sphere_index == 2 {
        NoiseQuery::Planar(cloud_point(f, t))
    } else if sphere_index == 3 {
        NoiseQuery::Planar(cellular_point(f, t))
    } else if sphere_index == 4 {
        NoiseQuery::SpatialPair(lava_point(f, t, 1), lava_point(f, t, -1))
    } else if sphere_index == 5 {
        NoiseQuery::Planar(rocky_point(f, t))
    } else if sphere_index == 6 {
        NoiseQuery::SpatialPair(globe_point(f, t, 0, 10), globe_point(f, t, 50, 10))
    } else if sphere_index == 7 {
        NoiseQuery::Spatial(gaseous_point(f, t))
    } else {
        NoiseQuery::Nothing
    }
}

/// White spots where the noise is below one half, on black.
pub open spec fn dalmata_color(f: Fragment, n: NoiseSamples) -> Color {
    (if below(n.first as int, 50) {
        rgb(255, 255, 255)
    } else {
        rgb(0, 0, 0)
    }).scaled(f.intensity)
}

/// White clouds where the noise is above one half, on a blue sky.
pub open spec fn cloud_color(f: Fragment, n: NoiseSamples) -> Color {
    (if n.first as int * 100 > 50 * 65536 {
        rgb(255, 255, 255)
    } else {
        rgb(30, 97, 145)
    }).scaled(f.intensity)
}

/// Four green bands of the magnitude of the noise, ending at 0.15, 0.7 and
/// 0.75.
pub open spec fn cellular_color(f: Fragment, n: NoiseSamples) -> Color {
    let m = magnitude(n.first);
    (if below(m, 15) {
        rgb(85, 107, 47)
    } else {
        three_bands(m, 70, rgb(124, 252, 0), 75, rgb(34, 139, 34), rgb(173, 255, 47))
    }).scaled(f.intensity)
}

/// Dark red, orange and bright yellow by the mean of the two samples: the
/// bands end where the mean reaches 0.25 and 0.75, that is where the sum
/// reaches 0.5 and 1.5. The orange lies midway between the other two.
pub open spec fn lava_color(f: Fragment, n: NoiseSamples) -> Color {
    three_bands(
        n.first as int + n.second as int,
        50,
        rgb(130, 20, 0),
        150,
        rgb(193, 130, 0),
        rgb(255, 240, 0),
    ).scaled(f.intensity)
}

/// Lowland, plain and mountain by the magnitude of the noise: the bands end at
/// 0.2 and 0.5.
pub open spec fn rocky_color(f: Fragment, n: NoiseSamples) -> Color {
    three_bands(
        magnitude(n.first),
        20,
        rgb(222, 184, 135),
        50,
        rgb(205, 133, 63),
        rgb(139, 69, 19),
    ).scaled(f.intensity)
}

/// Three pale bands of the magnitude of the noise, ending at 0.4 and 0.7.
pub open spec fn gaseous_color(f: Fragment, n: NoiseSamples) -> Color {
    three_bands(
        magnitude(n.first),
        40,
        rgb(135, 206, 250),
        70,
        rgb(176, 224, 230),
        rgb(255, 228, 196),
    ).scaled(f.intensity)
}

/// Corona, core and flare by the mean magnitude of the two samples: the bands
/// end where the mean reaches 0.3 and 0.6, that is where the sum reaches 0.6
/// and 1.2.
pub open spec fn solar_color(f: Fragment, n: NoiseSamples) -> Color {
    three_bands(
        magnitude(n.first) + magnitude(n.second),
        60,
        rgb(255, 215, 0),
        120,
        rgb(255, 140, 0),
        rgb(255, 69, 0),
    ).scaled(f.intensity)
}

/// Ocean, land and mountain by the mean magnitude of the two samples, with
/// the bands of the solar shader.
pub open spec fn earth_color(f: Fragment, n: NoiseSamples) -> Color {
    three_bands(
        magnitude(n.first) + magnitude(n.second),
        60,
        rgb(0, 105, 148),
        120,
        rgb(34, 139, 34),
        rgb(139, 69, 19),
    ).scaled(f.intensity)
}

/// The seed of the static shader: the whole part of the magnitude of
/// `time * y * x`.
pub open spec fn static_seed(f: Fragment, uniforms: Uniforms) -> u64 {
    let p = uniforms.time as int * f.vertex_position.y as int * f.vertex_position.x as int;
    ((if p < 0 {
        -p
    } else {
        p
    }) / 0x1_0000_0000) as u64
}

/// Black for a roll below 50, else white, scaled by the intensity.
pub open spec fn static_color(roll: int, intensity: i32) -> Color {
    (if roll < 50 {
        rgb(0, 0, 0)
    } else {
        rgb(255, 255, 255)
    }).scaled(intensity)
}

/// The number from `low` to `high` that the standard generator of the `rand`
/// crate, seeded with `seed`, draws first.
pub uninterp spec fn roll_of(seed: u64, low: i32, high: i32) -> int;

/// The roll of the static shader for a seed: a number from 0 to 100.
pub open spec fn static_roll(seed: u64) -> int {
    roll_of(seed, 0, 100)
}

/// The colour of a fragment of material `sphere_index`, given the noise
/// sampled at the points of `query_for`.
pub open spec fn shaded(
    f: Fragment,
    uniforms: Uniforms,
    sphere_index: usize,
    n: NoiseSamples,
) -> Color {
    if sphere_index == 0 {
        solar_color(f, n)
    } else if sphere_index == 1 {
        dalmata_color(f, n)
    } else if sphere_index == 2 {
        cloud_color(f, n)
    } else if sphere_index == 3 {
        cellular_color(f, n)
    } else if sphere_index == 4 {
        lava_color(f, n)
    } else if sphere_index == 5 {
        rocky_color(f, n)
    } else if sphere_index == 6 {
        earth_color(f, n)
    } else if sphere_index == 7 {
        gaseous_color(f, n)
    } else {
        static_color(static_roll(static_seed(f, uniforms)), f.intensity)
    }
}

/// Names the points of the noise field that the shader of material
/// `sphere_index` reads for `fragment`. The caller samples the field there
/// and hands the values to `fragment_shader`.
pub fn noise_query(fragment: &Fragment, uniforms: &Uniforms, sphere_index: usize) -> (query:
    NoiseQuery)
    ensures
        query == query_for(*fragment, *uniforms, sphere_index),
{
    let time = uniforms.time;
    let x = fragment.vertex_position.x as i64;
    let y = fragment.vertex_position.y as i64;
    match sphere_index {
        0 => NoiseQuery::SpatialPair(
            globe_sample(fragment, time, 0, 5),
            globe_sample(fragment, time, 50, 5),
        ),
        1 => {
            let t = drift_of(time, 2);
            NoiseQuery::Planar(NoisePoint { x: zoom(x, 1000) + t, y: zoom(y, 1000) + t, z: 0 })
        },
        2 => {
            let t = drift_of(time, 2);
            NoiseQuery::Planar(
                NoisePoint {
                    x: zoom(x, 1000) + 100 * 65536 + t,
                    y: zoom(y, 1000) + 100 * 65536,
                    z: 0,
                },
            )
        },
        3 => {
            let t = drift_of(time, 10);
            NoiseQuery::Planar(
                NoisePoint {
                    x: zoom(x, 300) + 50 * 65536 + t,
                    y: zoom(y, 300) + 50 * 65536 + t,
                    z: 0,
                },
            )
        },
        4 => NoiseQuery::SpatialPair(
            lava_sample(fragment, time, true),
            lava_sample(fragment, time, false),
        ),
        5 => {
            let t = drift_of(time, 2);
            NoiseQuery::Planar(
                NoisePoint {
                    x: zoom(x, 500) + 10 * 65536 + t,
                    y: zoom(y, 500) + 20 * 65536 + t,
                    z: 0,
                },
            )
        },
        6 => NoiseQuery::SpatialPair(
            globe_sample(fragment, time, 0, 10),
            globe_sample(fragment, time, 50, 10),
        ),
        7 => {
            let t = drift_of(time, 10);
            NoiseQuery::Spatial(
                NoisePoint {
                    x: zoom(x, 3) + t,
                    y: zoom(y, 3) + t,
                    z: zoom(fragment.depth as i64, 3),
                },
            )
        },
        _ => NoiseQuery::Nothing,
    }
}

/// Shades one fragment of material `sphere_index` from the noise sampled at
/// the points of `noise_query`. Materials 0 to 7 are the solar, spotted,
/// cloudy, cellular, molten, rocky, earth and gaseous shaders; every other
/// index gets the static shader.
pub fn fragment_shader(
    fragment: &Fragment,
    uniforms: &Uniforms,
    sphere_index: usize,
    samples: &NoiseSamples,
) -> (color: Color)
    ensures
        color == shaded(*fragment, *uniforms, sphere_index, *samples),
{
    match sphere_index {
        0 => solar_shader(fragment, samples),
        1 => dalmata_shader(fragment, samples),
        2 => cloud_shader(fragment, samples),
        3 => cellular_shader(fragment, samples),
        4 => lava_shader(fragment, samples),
        5 => rocky_planet_shader(fragment, samples),
        6 => earth_shader(fragment, samples),
        7 => gaseous_planet_shader(fragment, samples),
        _ => black_and_white(fragment, uniforms),
    }
}

/// The static shader: black or white by a pseudo-random roll that depends on
/// the time and the shading coordinate alone.
pub fn black_and_white(fragment: &Fragment, uniforms: &Uniforms) -> (color: Color)
    ensures
        color == static_color(
            static_roll(static_seed(*fragment, *uniforms)),
            fragment.intensity,
        ),
{
    let seed = static_noise_seed(fragment, uniforms);
    let random_number = seeded_roll(seed, 0, 100);
    static_shade(random_number, fragment.intensity)
}

/// Computes the seed of the static shader for a fragment.
pub fn static_noise_seed(fragment: &Fragment, uniforms: &Uniforms) -> (seed: u64)
    ensures
        seed == static_seed(*fragment, *uniforms),
{
    let t: i128 = uniforms.time as i128;
    let y: i128 = fragment.vertex_position.y as i128;
    let x: i128 = fragment.vertex_position.x as i128;
    proof {
        lemma_mul_bounds(t as int, y as int, 0x1_0000_0000, 0x8000_0000);
        lemma_mul_bounds((t * y) as int, x as int, 0x8000_0000_0000_0000, 0x8000_0000);
    }
    let p: i128 = t * y * x;
    let m: i128 = if p < 0 { -p } else { p };
    (m / 0x1_0000_0000) as u64
}

/// Picks black or white from a roll and scales it: black below 50.
pub fn static_shade(roll: i32, intensity: i32) -> (color: Color)
    ensures
        color == static_color(roll as int, intensity),
{
    let black_or_white = if roll < 50 {
        Color::new(0, 0, 0)
    } else {
        Color::new(255, 255, 255)
    };
    black_or_white.scale(intensity)
}

/// Draws once with `Rng::gen_range(low..=high)` of the `rand` crate from its
/// standard generator, which `StdRng::seed_from_u64(seed)` makes for the
/// draw.
///
/// Nothing of this is proved. It is taken from the crate that the draw
/// depends on the seed and the two bounds alone, so that they give one number
/// on every run, and that the number lies in the range that `gen_range` was
/// given. `gen_range` panics on an empty range, which `low <= high` leaves
/// out.
#[verifier::external_body]
fn seeded_roll(seed: u64, low: i32, high: i32) -> (roll: i32)
    requires
        low <= high,
    ensures
        roll == roll_of(seed, low, high),
        low <= roll <= high,
{
    let mut rng = StdRng::seed_from_u64(seed);
    rng.gen_range(low..=high)
}

pub fn dalmata_shader(fragment: &Fragment, samples: &NoiseSamples) -> (color: Color)
    ensures
        color == dalmata_color(*fragment, *samples),
{
    let noise_value = samples.first as i64;

    let spot_threshold: i64 = 50;
    let spot_color = Color::new(255, 255, 255);
    let base_color = Color::new(0, 0, 0);

    let noise_color = if is_below(noise_value, spot_threshold) {
        spot_color
    } else {
        base_color
    };

    noise_color.scale(fragment.intensity)
}

pub fn cloud_shader(fragment: &Fragment, samples: &NoiseSamples) -> (color: Color)
    ensures
        color == cloud_color(*fragment, *samples),
{
    let noise_value = samples.first as i64;

    let cloud_color = Color::new(255, 255, 255);
    let sky_color = Color::new(30, 97, 145);

    let noise_color = if noise_value * 100 > 50 * 65536 {
        cloud_color
    } else {
        sky_color
    };

    noise_color.scale(fragment.intensity)
}

pub fn cellular_shader(fragment: &Fragment, samples: &NoiseSamples) -> (color: Color)
    ensures
        color == cellular_color(*fragment, *samples),
{
    let cell_noise_value = magnitude_of(samples.first);

    let cell_color_1 = Color::new(85, 107, 47);
    let cell_color_2 = Color::new(124, 252, 0);
    let cell_color_3 = Color::new(34, 139, 34);
    let cell_color_4 = Color::new(173, 255, 47);

    let final_color = if is_below(cell_noise_value, 15) {
        cell_color_1
    } else if is_below(cell_noise_value, 70) {
        cell_color_2
    } else if is_below(cell_noise_value, 75) {
        cell_color_3
    } else {
        cell_color_4
    };

    final_color.scale(fragment.intensity)
}

pub fn lava_shader(fragment: &Fragment, samples: &NoiseSamples) -> (color: Color)
    ensures
        color == lava_color(*fragment, *samples),
{
    let bright_color = Color::new(255, 240, 0);
    let glowing_color = Color::new(193, 130, 0);
    let dark_color = Color::new(130, 20, 0);

    let noise_value1 = samples.first as i64;
    let noise_value2 = samples.second as i64;
    let combined_noise = noise_value1 + noise_value2;

    let color = pick_band(combined_noise, 50, dark_color, 150, glowing_color, bright_color);

    color.scale(fragment.intensity)
}

pub fn rocky_planet_shader(fragment: &Fragment, samples: &NoiseSamples) -> (color: Color)
    ensures
        color == rocky_color(*fragment, *samples),
{
    let noise_value = magnitude_of(samples.first);

    let mountain_color = Color::new(139, 69, 19);
    let plain_color = Color::new(205, 133, 63);
    let lowland_color = Color::new(222, 184, 135);

    let final_color = pick_band(noise_value, 20, lowland_color, 50, plain_color, mountain_color);

    final_color.scale(fragment.intensity)
}

pub fn gaseous_planet_shader(fragment: &Fragment, samples: &NoiseSamples) -> (color: Color)
    ensures
        color == gaseous_color(*fragment, *samples),
{
    let noise_value = magnitude_of(samples.first);

    let gas_color_1 = Color::new(135, 206, 250);
    let gas_color_2 = Color::new(176, 224, 230);
    let gas_color_3 = Color::new(255, 228, 196);

    let final_color = pick_band(noise_value, 40, gas_color_1, 70, gas_color_2, gas_color_3);

    final_color.scale(fragment.intensity)
}

pub fn solar_shader(fragment: &Fragment, samples: &NoiseSamples) -> (color: Color)
    ensures
        color == solar_color(*fragment, *samples),
{
    let noise_value1 = magnitude_of(samples.first);
    let noise_value2 = magnitude_of(samples.second);
    let combined_noise = noise_value1 + noise_value2;

    let core_color = Color::new(255, 140, 0);
    let flare_color = Color::new(255, 69, 0);
    let corona_color = Color::new(255, 215, 0);

    let final_color = pick_band(combined_noise, 60, corona_color, 120, core_color, flare_color);

    final_color.scale(fragment.intensity)
}

pub fn earth_shader(fragment: &Fragment, samples: &NoiseSamples) -> (color: Color)
    ensures
        color == earth_color(*fragment, *samples),
{
    let noise_value1 = magnitude_of(samples.first);
    let noise_value2 = magnitude_of(samples.second);
    let combined_noise = noise_value1 + noise_value2;

    let ocean_color = Color::new(0, 105, 148);
    let land_color = Color::new(34, 139, 34);
    let mountain_color = Color::new(139, 69, 19);

    let final_color = pick_band(combined_noise, 60, ocean_color, 120, land_color, mountain_color);

    final_color.scale(fragment.intensity)
}

fn zoom(v: i64, tenths: i64) -> (r: i64)
    requires
        -0x1_0000_0000_0000 <= v <= 0x1_0000_0000_0000,
        0 < tenths <= 1000,
    ensures
        r == zoomed(v as int, tenths as int),
        -0x64_0000_0000_0000 <= r <= 0x64_0000_0000_0000,
{
    proof {
        lemma_mul_bounds(v as int, tenths as int, 0x1_0000_0000_0000, 1000);
    }
    floor_div((v * tenths) as i128, 10) as i64
}

fn drift_of(time: u32, per: i64) -> (r: i64)
    requires
        per == 2 || per == 5 || per == 10 || per == 100,
    ensures
        r == drift(time, per as int),
        0 <= r <= 0x8000_0000_0000,
{
    (time as i64 * 65536) / per
}

fn is_below(v: i64, hundredths: i64) -> (yes: bool)
    requires
        -0x2_0000_0000 <= v <= 0x2_0000_0000,
        0 <= hundredths <= 200,
    ensures
        yes == below(v as int, hundredths as int),
{
    v * 100 < hundredths * 65536
}

fn magnitude_of(v: i32) -> (m: i64)
    ensures
        m == magnitude(v),
        0 <= m <= 0x8000_0000,
{
    if v < 0 {
        -(v as i64)
    } else {
        v as i64
    }
}

fn pick_band(v: i64, t1: i64, c1: Color, t2: i64, c2: Color, c3: Color) -> (c: Color)
    requires
        -0x1_0000_0000 <= v <= 0x1_0000_0000,
        0 <= t1 <= 200,
        0 <= t2 <= 200,
    ensures
        c == three_bands(v as int, t1 as int, c1, t2 as int, c2, c3),
{
    if is_below(v, t1) {
        c1
    } else if is_below(v, t2) {
        c2
    } else {
        c3
    }
}

fn globe_sample(fragment: &Fragment, time: u32, shift: i64, per: i64) -> (p: NoisePoint)
    requires
        shift == 0 || shift == 50,
        per == 5 || per == 10,
    ensures
        p == globe_point(*fragment, time, shift as int, per as int),
{
    let t = drift_of(time, per);
    NoisePoint {
        x: zoom(fragment.vertex_position.x as i64 + shift * 65536, 200) + t,
        y: zoom(fragment.vertex_position.y as i64 + shift * 65536, 200) + t,
        z: zoom(fragment.depth as i64, 200),
    }
}

fn lava_sample(fragment: &Fragment, time: u32, forward: bool) -> (p: NoisePoint)
    ensures
        p == lava_point(*fragment, time, if forward { 1 } else { -1 }),
{
    let d = drift_of(time, 100);
    let t: i64 = if forward { d } else { -d };
    NoisePoint {
        x: zoom(fragment.vertex_position.x as i64 + 100 * 65536 + t, 1000),
        y: zoom(fragment.vertex_position.y as i64 + 100 * 65536 + t, 1000),
        z: zoom(fragment.depth as i64, 1000),
    }
}

/// A point inside the view frustum keeps its depth inside the device range:
/// where the clip-space point has `w > 0` and `-w <= z <= w`, and the viewport
/// matrix leaves depth alone, the vertex is drawn and its screen-space depth
/// lies in `[-1, 1]`.
pub proof fn lemma_depth_in_device_range(vertex: Vertex, uniforms: Uniforms)
    requires
        clip_position(vertex.position, uniforms).w > 0,
        -clip_position(vertex.position, uniforms).w <= clip_position(vertex.position, uniforms).z
            <= clip_position(vertex.position, uniforms).w,
        uniforms.viewport_matrix.r2 == (Vec4 { x: 0, y: 0, z: ONE, w: 0 }),
    ensures
        shaded_vertex(vertex, uniforms) is Some,
        -ONE <= shaded_vertex(vertex, uniforms)->0.transformed_position.z <= ONE,
{
    let clip = clip_position(vertex.position, uniforms);
    let w = clip.w as int;
    let z = clip.z as int;
    let q = (z * 65536) / w;
    lemma_ratio_within_one(z, w);
    let ndc = perspective_divided(clip);
    assert(ndc.z == q);
    let row = uniforms.viewport_matrix.r2;
    assert(crate::vector::dot4(row, ndc) == 65536 * q) by (nonlinear_arith)
        requires
            row.x == 0,
            row.y == 0,
            row.z == 65536,
            row.w == 0,
            ndc.z == q,
    ;
    assert((65536 * q) / 65536 == q);
    assert(uniforms.viewport_matrix.apply(ndc).z == q);
}

/// A point inside the view frustum lands on the target: where the clip-space
/// point has `w > 0` and `x`, `y` between `-w` and `w`, its screen-space
/// position lies between 0 and the width, and between 0 and the height, of the
/// target that the viewport matrix was built for.
pub proof fn lemma_frustum_lands_on_target(
    vertex: Vertex,
    uniforms: Uniforms,
    width: usize,
    height: usize,
)
    requires
        uniforms.viewport_matrix == crate::viewport_matrix(width, height),
        clip_position(vertex.position, uniforms).w > 0,
        -clip_position(vertex.position, uniforms).w <= clip_position(vertex.position, uniforms).x
            <= clip_position(vertex.position, uniforms).w,
        -clip_position(vertex.position, uniforms).w <= clip_position(vertex.position, uniforms).y
            <= clip_position(vertex.position, uniforms).w,
    ensures
        shaded_vertex(vertex, uniforms) is Some,
        0 <= shaded_vertex(vertex, uniforms)->0.transformed_position.x <= 2 * crate::half_extent(
            width,
        ),
        0 <= shaded_vertex(vertex, uniforms)->0.transformed_position.y <= 2 * crate::half_extent(
            height,
        ),
{
    let clip = clip_position(vertex.position, uniforms);
    let w = clip.w as int;
    let ndc = perspective_divided(clip);
    lemma_ratio_within_one(clip.x as int, w);
    lemma_ratio_within_one(clip.y as int, w);
    let hw = crate::half_extent(width) as int;
    let hh = crate::half_extent(height) as int;
    assert(hw >= 0 && hh >= 0);
    assert(crate::negated(crate::half_extent(height)) == -hh);
    lemma_scaled_to_extent(hw, ndc.x as int);
    lemma_scaled_to_extent(hh, -(ndc.y as int));
    assert((-hh) * ndc.y as int == hh * (-(ndc.y as int))) by (nonlinear_arith);
    assert(crate::vector::dot4(uniforms.viewport_matrix.r0, ndc) == hw * ndc.x as int + hw * 65536)
        by (nonlinear_arith)
        requires
            uniforms.viewport_matrix.r0 == (Vec4 { x: hw as i32, y: 0, z: 0, w: hw as i32 }),
            ndc.w == 65536,
            -0x8000_0000 <= hw < 0x8000_0000,
    ;
    assert(crate::vector::dot4(uniforms.viewport_matrix.r1, ndc) == (-hh) * ndc.y as int + hh
        * 65536) by (nonlinear_arith)
        requires
            uniforms.viewport_matrix.r1 == (Vec4 { x: 0, y: (-hh) as i32, z: 0, w: hh as i32 }),
            ndc.w == 65536,
            -0x8000_0000 < hh < 0x8000_0000,
    ;
}

/// The molten shader shows one of its three colours, scaled by the
/// intensity. For an intensity in `[0, 1]` its green stays at or below 240,
/// and it never has any blue.
pub proof fn lemma_lava_is_banded(f: Fragment, n: NoiseSamples)
    ensures
        ({
            ||| lava_color(f, n) == rgb(130, 20, 0).scaled(f.intensity)
            ||| lava_color(f, n) == rgb(193, 130, 0).scaled(f.intensity)
            ||| lava_color(f, n) == rgb(255, 240, 0).scaled(f.intensity)
        }),
        lava_color(f, n).b == 0,
        0 <= f.intensity <= ONE ==> lava_color(f, n).g <= 240,
{
    crate::color::lemma_scaled_range(0, f.intensity);
    crate::color::lemma_scaled_range(20, f.intensity);
    crate::color::lemma_scaled_range(130, f.intensity);
    crate::color::lemma_scaled_range(240, f.intensity);
    assert(0 * f.intensity as int == 0);
}

/// The solar shader never lights the blue channel: none of its three colours
/// has any blue, and scaling keeps a channel of zero at zero.
pub proof fn lemma_solar_has_no_blue(f: Fragment, n: NoiseSamples)
    ensures
        solar_color(f, n).b == 0,
        solar_color(f, n).packed() % 256 == 0,
{
    crate::color::lemma_scaled_range(0, f.intensity);
    assert(0 * f.intensity as int == 0);
}

/// The quotient of a value between `-w` and `w` by `w` lies in `[-1, 1]`.
proof fn lemma_ratio_within_one(v: int, w: int)
    by (nonlinear_arith)
    requires
        w > 0,
        -w <= v <= w,
    ensures
        -65536 <= (v * 65536) / w <= 65536,
{
}

/// Half an extent times a device coordinate in `[-1, 1]`, moved by half the
/// extent, lies between zero and the extent.
proof fn lemma_scaled_to_extent(h: int, n: int)
    by (nonlinear_arith)
    requires
        h >= 0,
        -65536 <= n <= 65536,
    ensures
        0 <= (h * n + h * 65536) / 65536 <= 2 * h,
{
    assert(h * n >= -(h * 65536));
    assert(h * n <= h * 65536);
}

} // verus!

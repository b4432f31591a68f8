use rand::rngs::StdRng;
use rand::Rng;
use rand::SeedableRng;
use softraster::color::Color;
use softraster::fixed::ONE;
use softraster::fragment::{Fragment, Pixel};
use softraster::matrix::Mat4;
use softraster::shaders::{
    black_and_white, cellular_shader, cloud_shader, dalmata_shader, earth_shader,
    fragment_shader, gaseous_planet_shader, lava_shader, noise_query, rocky_planet_shader,
    solar_shader, static_noise_seed, static_shade, NoisePoint, NoiseQuery, NoiseSamples,
};
use softraster::vector::Vec3;
use softraster::Uniforms;

fn fx(v: f64) -> i32 {
    (v * 65536.0).round() as i32
}

fn uniforms_at(time: u32) -> Uniforms {
    Uniforms {
        model_matrix: Mat4::identity(),
        view_matrix: Mat4::identity(),
        projection_matrix: Mat4::identity(),
        viewport_matrix: Mat4::identity(),
        time,
    }
}

fn lit(intensity: i32) -> Fragment {
    Fragment::new(Pixel { x: 0, y: 0 }, 0, Vec3::new(0, 0, ONE), intensity, Vec3::zeros())
}

fn placed(x: f64, y: f64, depth: f64) -> Fragment {
    Fragment::new(
        Pixel { x: 0, y: 0 },
        fx(depth),
        Vec3::new(0, 0, ONE),
        ONE,
        Vec3::new(fx(x), fx(y), 0),
    )
}

fn one(v: i32) -> NoiseSamples {
    NoiseSamples { first: v, second: 0 }
}

fn two(a: i32, b: i32) -> NoiseSamples {
    NoiseSamples { first: a, second: b }
}

fn whole(x: i64, y: i64, z: i64) -> NoisePoint {
    NoisePoint { x: x * 65536, y: y * 65536, z: z * 65536 }
}

const WHITE: Color = Color { r: 255, g: 255, b: 255 };
const BLACK: Color = Color { r: 0, g: 0, b: 0 };

#[test]
fn dalmata_spots_below_one_half() {
    assert_eq!(dalmata_shader(&lit(ONE), &one(fx(0.4))), WHITE);
    assert_eq!(dalmata_shader(&lit(ONE), &one(-ONE)), WHITE);
    assert_eq!(dalmata_shader(&lit(ONE), &one(ONE / 2 - 1)), WHITE);
    assert_eq!(dalmata_shader(&lit(ONE), &one(ONE / 2)), BLACK);
    assert_eq!(dalmata_shader(&lit(ONE), &one(ONE)), BLACK);
}

#[test]
fn dalmata_scales_by_intensity() {
    assert_eq!(dalmata_shader(&lit(ONE / 2), &one(0)), Color::new(127, 127, 127));
    assert_eq!(dalmata_shader(&lit(0), &one(0)), BLACK);
}

#[test]
fn cloud_above_one_half() {
    let sky = Color::new(30, 97, 145);
    assert_eq!(cloud_shader(&lit(ONE), &one(fx(0.6))), WHITE);
    assert_eq!(cloud_shader(&lit(ONE), &one(ONE / 2 + 1)), WHITE);
    assert_eq!(cloud_shader(&lit(ONE), &one(ONE / 2)), sky);
    assert_eq!(cloud_shader(&lit(ONE), &one(-ONE)), sky);
    assert_eq!(cloud_shader(&lit(ONE / 2), &one(0)), Color::new(15, 48, 72));
}

#[test]
fn cellular_has_four_bands() {
    let f = lit(ONE);
    assert_eq!(cellular_shader(&f, &one(0)), Color::new(85, 107, 47));
    assert_eq!(cellular_shader(&f, &one(9830)), Color::new(85, 107, 47));
    assert_eq!(cellular_shader(&f, &one(9831)), Color::new(124, 252, 0));
    assert_eq!(cellular_shader(&f, &one(45875)), Color::new(124, 252, 0));
    assert_eq!(cellular_shader(&f, &one(45876)), Color::new(34, 139, 34));
    assert_eq!(cellular_shader(&f, &one(49151)), Color::new(34, 139, 34));
    assert_eq!(cellular_shader(&f, &one(49152)), Color::new(173, 255, 47));
    assert_eq!(cellular_shader(&f, &one(ONE)), Color::new(173, 255, 47));
}

#[test]
fn cellular_reads_the_magnitude() {
    let f = lit(ONE);
    assert_eq!(cellular_shader(&f, &one(-9830)), Color::new(85, 107, 47));
    assert_eq!(cellular_shader(&f, &one(-9831)), Color::new(124, 252, 0));
    assert_eq!(cellular_shader(&f, &one(-ONE)), Color::new(173, 255, 47));
    assert_eq!(cellular_shader(&f, &one(i32::MIN)), Color::new(173, 255, 47));
}

#[test]
fn lava_has_three_bands_of_the_mean_of_two_samples() {
    let f = lit(ONE);
    let dark = Color::new(130, 20, 0);
    let glowing = Color::new(193, 130, 0);
    let bright = Color::new(255, 240, 0);
    assert_eq!(lava_shader(&f, &two(0, 0)), dark);
    assert_eq!(lava_shader(&f, &two(-ONE, -ONE)), dark);
    assert_eq!(lava_shader(&f, &two(ONE, -ONE)), dark);
    assert_eq!(lava_shader(&f, &two(i32::MIN, i32::MIN)), dark);
    // A mean of 0.25 is a sum of 32768.
    assert_eq!(lava_shader(&f, &two(32767, 0)), dark);
    assert_eq!(lava_shader(&f, &two(32768, 0)), glowing);
    assert_eq!(lava_shader(&f, &two(ONE / 2, ONE / 2)), glowing);
    assert_eq!(lava_shader(&f, &two(ONE, 0)), glowing);
    // A mean of 0.75 is a sum of 98304.
    assert_eq!(lava_shader(&f, &two(ONE, 32767)), glowing);
    assert_eq!(lava_shader(&f, &two(ONE, 32768)), bright);
    assert_eq!(lava_shader(&f, &two(ONE, ONE)), bright);
    assert_eq!(lava_shader(&f, &two(i32::MAX, i32::MAX)), bright);
}

#[test]
fn lava_shows_no_more_than_three_colors() {
    let f = lit(ONE);
    let mut seen = Vec::new();
    let mut v = -2 * ONE;
    while v <= 2 * ONE {
        let c = lava_shader(&f, &two(v, v / 3));
        if !seen.contains(&c) {
            seen.push(c);
        }
        v += 997;
    }
    assert_eq!(
        seen,
        vec![Color::new(130, 20, 0), Color::new(193, 130, 0), Color::new(255, 240, 0)]
    );
}

#[test]
fn lava_scales_by_intensity() {
    assert_eq!(lava_shader(&lit(ONE / 2), &two(ONE, ONE)), Color::new(127, 120, 0));
    assert_eq!(lava_shader(&lit(ONE / 2), &two(ONE, 0)), Color::new(96, 65, 0));
    assert_eq!(lava_shader(&lit(0), &two(ONE, ONE)), BLACK);
    for k in [0, 1, ONE / 3, ONE / 2, ONE - 1, ONE] {
        for n in [two(0, 0), two(ONE, 0), two(ONE, ONE)] {
            let c = lava_shader(&lit(k), &n);
            assert!(c.g <= 240);
            assert_eq!(c.b, 0);
        }
    }
}

#[test]
fn rocky_planet_has_three_bands() {
    let f = lit(ONE);
    let lowland = Color::new(222, 184, 135);
    let plain = Color::new(205, 133, 63);
    let mountain = Color::new(139, 69, 19);
    assert_eq!(rocky_planet_shader(&f, &one(0)), lowland);
    assert_eq!(rocky_planet_shader(&f, &one(13107)), lowland);
    assert_eq!(rocky_planet_shader(&f, &one(13108)), plain);
    assert_eq!(rocky_planet_shader(&f, &one(-13108)), plain);
    assert_eq!(rocky_planet_shader(&f, &one(32767)), plain);
    assert_eq!(rocky_planet_shader(&f, &one(32768)), mountain);
    assert_eq!(rocky_planet_shader(&f, &one(-ONE)), mountain);
}

#[test]
fn gaseous_planet_has_three_bands() {
    let f = lit(ONE);
    let first = Color::new(135, 206, 250);
    let second = Color::new(176, 224, 230);
    let third = Color::new(255, 228, 196);
    assert_eq!(gaseous_planet_shader(&f, &one(0)), first);
    assert_eq!(gaseous_planet_shader(&f, &one(26214)), first);
    assert_eq!(gaseous_planet_shader(&f, &one(26215)), second);
    assert_eq!(gaseous_planet_shader(&f, &one(-45875)), second);
    assert_eq!(gaseous_planet_shader(&f, &one(45876)), third);
    assert_eq!(gaseous_planet_shader(&f, &one(ONE)), third);
}

#[test]
fn solar_bands_by_the_mean_magnitude() {
    let f = lit(ONE);
    let corona = Color::new(255, 215, 0);
    let core = Color::new(255, 140, 0);
    let flare = Color::new(255, 69, 0);
    assert_eq!(solar_shader(&f, &two(0, 0)), corona);
    assert_eq!(solar_shader(&f, &two(fx(0.1), fx(-0.1))), corona);
    // A mean of 0.3 needs a sum of 39321.6.
    assert_eq!(solar_shader(&f, &two(39321, 0)), corona);
    assert_eq!(solar_shader(&f, &two(-39321, 1)), core);
    assert_eq!(solar_shader(&f, &two(fx(0.3), fx(0.3))), core);
    // A mean of 0.6 needs a sum of 78643.2.
    assert_eq!(solar_shader(&f, &two(ONE, 13107)), core);
    assert_eq!(solar_shader(&f, &two(ONE, -13108)), flare);
    assert_eq!(solar_shader(&f, &two(-ONE, ONE)), flare);
}

#[test]
fn solar_scales_by_intensity() {
    assert_eq!(solar_shader(&lit(ONE / 2), &two(0, 0)), Color::new(127, 107, 0));
    assert_eq!(solar_shader(&lit(0), &two(0, 0)), BLACK);
}

#[test]
fn earth_bands_by_the_mean_magnitude() {
    let f = lit(ONE);
    let ocean = Color::new(0, 105, 148);
    let land = Color::new(34, 139, 34);
    let mountain = Color::new(139, 69, 19);
    assert_eq!(earth_shader(&f, &two(0, 0)), ocean);
    assert_eq!(earth_shader(&f, &two(39321, 0)), ocean);
    assert_eq!(earth_shader(&f, &two(39322, 0)), land);
    assert_eq!(earth_shader(&f, &two(-ONE, 13107)), land);
    assert_eq!(earth_shader(&f, &two(13108, -ONE)), mountain);
    assert_eq!(earth_shader(&f, &two(i32::MIN, i32::MIN)), mountain);
}

#[test]
fn static_shade_splits_at_fifty() {
    assert_eq!(static_shade(0, ONE), BLACK);
    assert_eq!(static_shade(49, ONE), BLACK);
    assert_eq!(static_shade(50, ONE), WHITE);
    assert_eq!(static_shade(100, ONE), WHITE);
    assert_eq!(static_shade(100, ONE / 2), Color::new(127, 127, 127));
    assert_eq!(static_shade(100, 0), BLACK);
}

#[test]
fn static_seed_is_the_whole_part_of_the_product() {
    // 10 * (-0.25) * 0.5 = -1.25
    assert_eq!(static_noise_seed(&placed(0.5, -0.25, 0.0), &uniforms_at(10)), 1);
    assert_eq!(static_noise_seed(&placed(3.0, 7.0, 0.0), &uniforms_at(100)), 2100);
    assert_eq!(static_noise_seed(&placed(3.0, 7.0, 0.0), &uniforms_at(0)), 0);
    assert_eq!(static_noise_seed(&placed(0.0, 7.0, 0.0), &uniforms_at(100)), 0);
}

#[test]
fn static_seed_takes_extreme_values() {
    let mut f = placed(0.0, 0.0, 0.0);
    f.vertex_position = Vec3::new(i32::MIN, i32::MIN, 0);
    assert_eq!(static_noise_seed(&f, &uniforms_at(u32::MAX)), (u32::MAX as u64) << 30);
}

#[test]
fn static_shader_follows_the_seeded_generator() {
    let mut blacks = 0;
    let mut whites = 0;
    for k in 50..150u32 {
        // x = y = 1 makes the seed equal to the time.
        let f = placed(1.0, 1.0, 0.0);
        let uniforms = uniforms_at(k);
        assert_eq!(static_noise_seed(&f, &uniforms), k as u64);
        let mut rng = StdRng::seed_from_u64(k as u64);
        let roll: i32 = rng.gen_range(0..=100);
        let expected = if roll < 50 { BLACK } else { WHITE };
        assert_eq!(black_and_white(&f, &uniforms), expected);
        if roll < 50 {
            blacks += 1;
        } else {
            whites += 1;
        }
    }
    assert!(blacks > 0);
    assert!(whites > 0);
}

#[test]
fn static_shader_scales_by_intensity() {
    let mut f = placed(1.0, 1.0, 0.0);
    f.intensity = 0;
    for k in 0..20 {
        assert_eq!(black_and_white(&f, &uniforms_at(k)), BLACK);
    }
}

#[test]
fn shaders_are_deterministic() {
    let f = placed(0.37, -0.81, 0.4);
    let uniforms = uniforms_at(1234);
    let samples = two(fx(0.123), fx(-0.456));
    for index in 0..12 {
        let first = fragment_shader(&f, &uniforms, index, &samples);
        let second = fragment_shader(&f, &uniforms, index, &samples);
        assert_eq!(first, second);
        assert_eq!(noise_query(&f, &uniforms, index), noise_query(&f, &uniforms, index));
    }
}

#[test]
fn dispatch_by_material_index() {
    let f = lit(ONE);
    let uniforms = uniforms_at(7);
    let n = two(fx(0.25), fx(0.55));
    assert_eq!(fragment_shader(&f, &uniforms, 0, &n), solar_shader(&f, &n));
    assert_eq!(fragment_shader(&f, &uniforms, 1, &n), dalmata_shader(&f, &n));
    assert_eq!(fragment_shader(&f, &uniforms, 2, &n), cloud_shader(&f, &n));
    assert_eq!(fragment_shader(&f, &uniforms, 3, &n), cellular_shader(&f, &n));
    assert_eq!(fragment_shader(&f, &uniforms, 4, &n), lava_shader(&f, &n));
    assert_eq!(fragment_shader(&f, &uniforms, 5, &n), rocky_planet_shader(&f, &n));
    assert_eq!(fragment_shader(&f, &uniforms, 6, &n), earth_shader(&f, &n));
    assert_eq!(fragment_shader(&f, &uniforms, 7, &n), gaseous_planet_shader(&f, &n));
}

#[test]
fn dispatch_gives_exact_colors() {
    let f = lit(ONE);
    let uniforms = uniforms_at(7);
    let n = two(fx(0.25), fx(0.55));
    assert_eq!(fragment_shader(&f, &uniforms, 0, &n), Color::new(255, 140, 0));
    assert_eq!(fragment_shader(&f, &uniforms, 1, &n), WHITE);
    assert_eq!(fragment_shader(&f, &uniforms, 2, &n), Color::new(30, 97, 145));
    assert_eq!(fragment_shader(&f, &uniforms, 3, &n), Color::new(124, 252, 0));
    assert_eq!(fragment_shader(&f, &uniforms, 4, &n), Color::new(193, 130, 0));
    assert_eq!(fragment_shader(&f, &uniforms, 5, &n), Color::new(205, 133, 63));
    assert_eq!(fragment_shader(&f, &uniforms, 6, &n), Color::new(34, 139, 34));
    assert_eq!(fragment_shader(&f, &uniforms, 7, &n), Color::new(135, 206, 250));
}

#[test]
fn unknown_material_falls_back_to_static() {
    let f = placed(2.0, 3.0, 0.0);
    let uniforms = uniforms_at(7);
    let n = two(fx(0.25), fx(0.55));
    for index in [8usize, 9, 100, usize::MAX] {
        assert_eq!(fragment_shader(&f, &uniforms, index, &n), black_and_white(&f, &uniforms));
        assert_eq!(noise_query(&f, &uniforms, index), NoiseQuery::Nothing);
    }
}

#[test]
fn noise_points_of_each_material() {
    let f = placed(0.5, -0.25, 0.75);
    let u = uniforms_at(10);
    assert_eq!(
        noise_query(&f, &u, 0),
        NoiseQuery::SpatialPair(whole(12, -3, 15), whole(1012, 997, 15))
    );
    assert_eq!(noise_query(&f, &u, 1), NoiseQuery::Planar(whole(55, -20, 0)));
    assert_eq!(noise_query(&f, &u, 2), NoiseQuery::Planar(whole(155, 75, 0)));
    assert_eq!(
        noise_query(&f, &u, 3),
        NoiseQuery::Planar(NoisePoint { x: 66 * 65536, y: 43 * 65536 + 32768, z: 0 })
    );
    assert_eq!(
        noise_query(&f, &u, 4),
        NoiseQuery::SpatialPair(
            NoisePoint { x: 659292100, y: 654376900, z: 4915200 },
            NoisePoint { x: 657981500, y: 653066300, z: 4915200 }
        )
    );
    assert_eq!(
        noise_query(&f, &u, 5),
        NoiseQuery::Planar(NoisePoint { x: 40 * 65536, y: 12 * 65536 + 32768, z: 0 })
    );
    assert_eq!(
        noise_query(&f, &u, 6),
        NoiseQuery::SpatialPair(whole(11, -4, 15), whole(1011, 996, 15))
    );
    assert_eq!(
        noise_query(&f, &u, 7),
        NoiseQuery::Spatial(NoisePoint { x: 75366, y: 60620, z: 14745 })
    );
}

#[test]
fn noise_drifts_with_time() {
    let f = placed(0.0, 0.0, 0.0);
    assert_eq!(noise_query(&f, &uniforms_at(0), 1), NoiseQuery::Planar(whole(0, 0, 0)));
    assert_eq!(noise_query(&f, &uniforms_at(4), 1), NoiseQuery::Planar(whole(2, 2, 0)));
    assert_eq!(noise_query(&f, &uniforms_at(4), 2), NoiseQuery::Planar(whole(102, 100, 0)));
    assert_eq!(noise_query(&f, &uniforms_at(30), 3), NoiseQuery::Planar(whole(53, 53, 0)));
    assert_eq!(noise_query(&f, &uniforms_at(4), 5), NoiseQuery::Planar(whole(12, 22, 0)));
    assert_eq!(
        noise_query(&f, &uniforms_at(200), 4),
        NoiseQuery::SpatialPair(whole(10200, 10200, 0), whole(9800, 9800, 0))
    );
}

#[test]
fn noise_points_take_extreme_values() {
    let mut f = placed(0.0, 0.0, 0.0);
    f.vertex_position = Vec3::new(i32::MAX, i32::MIN, 0);
    f.depth = i32::MIN;
    let u = uniforms_at(u32::MAX);
    for index in 0..9 {
        let again = noise_query(&f, &u, index);
        assert_eq!(noise_query(&f, &u, index), again);
    }
    assert_eq!(
        noise_query(&f, &u, 1),
        NoiseQuery::Planar(NoisePoint {
            x: (i32::MAX as i64) * 100 + (u32::MAX as i64) * 32768,
            y: (i32::MIN as i64) * 100 + (u32::MAX as i64) * 32768,
            z: 0
        })
    );
}

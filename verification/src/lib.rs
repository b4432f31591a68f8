//! Integer core of a software rasterizer.
//!
//! The pipeline is the classic one. `assemble` runs the vertex stage on a mesh
//! and rasterizes its triangles into fragments. The caller samples its noise
//! field for each fragment at the points that `shaders::noise_query` names.
//! `render` shades the fragments and writes them to a `Framebuffer` through
//! the depth test.
//!
//! Every quantity is a 16.16 fixed-point number held in an `i32`: a value `v`
//! is stored as `v * 65536`. Matrices, sines and cosines, and noise values
//! come from the caller in that form. Each stage is exact integer arithmetic
//! on wide intermediates: quotients are rounded down unless said otherwise,
//! and a result that leaves the range of `i32` is clamped.

use vstd::prelude::*;

pub mod camera;
pub mod color;
pub mod coverage;
pub mod fixed;
pub mod fragment;
pub mod framebuffer;
pub mod matrix;
pub mod shaders;
pub mod triangle;
pub mod vector;
pub mod vertex;

use crate::fixed::{
    fx_mul,
    fx_mul_spec,
    is_sqrt,
    isqrt,
    lemma_sqrt_unique,
    narrow,
    saturate,
    sqrt_floor,
    ONE,
};
use crate::color::lemma_hex_round_trip;
use crate::fragment::Fragment;
use crate::framebuffer::{lemma_index_in_range, lemma_plotted_frame, Framebuffer, Surface, FAR};
use crate::matrix::{Mat3, Mat4};
use crate::shaders::{
    fragment_shader,
    lemma_solar_has_no_blue,
    shaded,
    shaded_vertex,
    vertex_shader,
    NoiseSamples,
};
use crate::coverage::covers;
use crate::triangle::{
    fragment_at,
    lemma_covered_pixel_has_fragment,
    lemma_fragment_depth_between,
    lemma_fragment_weights,
    rasterized,
    triangle,
};
use crate::vector::{Vec3, Vec4};
use crate::vertex::Vertex;

verus! {

/// What one draw call shares between all its vertices and fragments: the
/// four transforms and the animation time. The noise field is not among
/// them: the caller holds it and samples it.
#[derive(Clone, Copy, Debug, PartialEq, Eq, Structural)]
pub struct Uniforms {
    pub model_matrix: Mat4,
    pub view_matrix: Mat4,
    pub projection_matrix: Mat4,
    pub viewport_matrix: Mat4,
    pub time: u32,
}

/// The sine and cosine of an angle, as fixed-point numbers.
#[derive(Clone, Copy, Debug, PartialEq, Eq, Structural)]
pub struct Angle {
    pub sin: i32,
    pub cos: i32,
}

/// A rotation about the x, then the y, then the z axis.
#[derive(Clone, Copy, Debug, PartialEq, Eq, Structural)]
pub struct Rotation {
    pub x: Angle,
    pub y: Angle,
    pub z: Angle,
}

/// A fragment together with the noise that was sampled for it.
#[derive(Clone, Copy, Debug, PartialEq, Eq, Structural)]
pub struct SampledFragment {
    pub fragment: Fragment,
    pub samples: NoiseSamples,
}

/// The negation of `v`, clamped.
pub open spec fn negated(v: i32) -> i32 {
    saturate(-(v as int))
}

/// Half of `n` pixels as a fixed-point number, clamped.
pub open spec fn half_extent(n: usize) -> i32 {
    saturate(n as int * 32768)
}

/// The rotation by the angle `a` about the x axis.
pub open spec fn rotation_about_x(a: Angle) -> Mat4 {
    Mat4 {
        r0: Vec4 { x: ONE, y: 0, z: 0, w: 0 },
        r1: Vec4 { x: 0, y: a.cos, z: negated(a.sin), w: 0 },
        r2: Vec4 { x: 0, y: a.sin, z: a.cos, w: 0 },
        r3: Vec4 { x: 0, y: 0, z: 0, w: ONE },
    }
}

/// The rotation by the angle `a` about the y axis.
pub open spec fn rotation_about_y(a: Angle) -> Mat4 {
    Mat4 {
        r0: Vec4 { x: a.cos, y: 0, z: a.sin, w: 0 },
        r1: Vec4 { x: 0, y: ONE, z: 0, w: 0 },
        r2: Vec4 { x: negated(a.sin), y: 0, z: a.cos, w: 0 },
        r3: Vec4 { x: 0, y: 0, z: 0, w: ONE },
    }
}

/// The rotation by the angle `a` about the z axis.
pub open spec fn rotation_about_z(a: Angle) -> Mat4 {
    Mat4 {
        r0: Vec4 { x: a.cos, y: negated(a.sin), z: 0, w: 0 },
        r1: Vec4 { x: a.sin, y: a.cos, z: 0, w: 0 },
        r2: Vec4 { x: 0, y: 0, z: ONE, w: 0 },
        r3: Vec4 { x: 0, y: 0, z: 0, w: ONE },
    }
}

/// A uniform scaling followed by a translation.
pub open spec fn scale_and_translate(translation: Vec3, scale: i32) -> Mat4 {
    Mat4 {
        r0: Vec4 { x: scale, y: 0, z: 0, w: translation.x },
        r1: Vec4 { x: 0, y: scale, z: 0, w: translation.y },
        r2: Vec4 { x: 0, y: 0, z: scale, w: translation.z },
        r3: Vec4 { x: 0, y: 0, z: 0, w: ONE },
    }
}

/// The model matrix: rotate about x, then y, then z, then scale and
/// translate.
pub open spec fn model_matrix(translation: Vec3, scale: i32, rotation: Rotation) -> Mat4 {
    scale_and_translate(translation, scale).times(
        rotation_about_z(rotation.z).times(rotation_about_y(rotation.y)).times(
            rotation_about_x(rotation.x),
        ),
    )
}

/// The length of the raw vector `v`, rounded down and clamped.
pub open spec fn length(v: Vec3) -> i32 {
    saturate(sqrt_floor(v.norm_squared()))
}

/// The point at the given angle on the circle of the given radius around
/// `center`, in the xy plane: `center + radius * (cos, sin, 0)`.
pub open spec fn orbit_point_at(center: Vec3, radius: i32, angle: Angle) -> Vec3 {
    Vec3 {
        x: saturate(center.x as int + fx_mul_spec(radius, angle.cos) as int),
        y: saturate(center.y as int + fx_mul_spec(radius, angle.sin) as int),
        z: center.z,
    }
}

/// Where a body stands on its orbit: on the circle around `center` in the xy
/// plane whose radius is the distance of `center` from the origin, at the
/// given angle. A body whose centre is the origin stays there.
pub open spec fn orbit_point(center: Vec3, angle: Angle) -> Vec3 {
    orbit_point_at(center, length(center), angle)
}

/// The translation that puts a body on its orbit of the given radius around
/// `center`: a translation by `orbit_point_at`.
pub open spec fn orbit_matrix(center: Vec3, radius: i32, angle: Angle) -> Mat4 {
    Mat4 {
        r0: Vec4 { x: ONE, y: 0, z: 0, w: orbit_point_at(center, radius, angle).x },
        r1: Vec4 { x: 0, y: ONE, z: 0, w: orbit_point_at(center, radius, angle).y },
        r2: Vec4 { x: 0, y: 0, z: ONE, w: orbit_point_at(center, radius, angle).z },
        r3: Vec4 { x: 0, y: 0, z: 0, w: ONE },
    }
}

/// The matrix that maps normalized device coordinates to pixels: x from
/// `[-1, 1]` to `[0, width]`, y from `[-1, 1]` to `[height, 0]`, z unchanged.
pub open spec fn viewport_matrix(width: usize, height: usize) -> Mat4 {
    Mat4 {
        r0: Vec4 { x: half_extent(width), y: 0, z: 0, w: half_extent(width) },
        r1: Vec4 { x: 0, y: negated(half_extent(height)), z: 0, w: half_extent(height) },
        r2: Vec4 { x: 0, y: 0, z: ONE, w: 0 },
        r3: Vec4 { x: 0, y: 0, z: 0, w: ONE },
    }
}

/// The fragments of triangle number `k` of a mesh: the vertices `3k`, `3k + 1`
/// and `3k + 2`, shaded and rasterized. A triangle with a vertex that the
/// vertex stage drops has none.
pub open spec fn triangle_fragments(
    vertices: Seq<Vertex>,
    uniforms: Uniforms,
    k: int,
    width: int,
    height: int,
) -> Seq<Fragment> {
    match (
        shaded_vertex(vertices[3 * k], uniforms),
        shaded_vertex(vertices[3 * k + 1], uniforms),
        shaded_vertex(vertices[3 * k + 2], uniforms),
    ) {
        (Some(a), Some(b), Some(c)) => rasterized(a, b, c, width, height),
        _ => Seq::empty(),
    }
}

/// The fragments of the first `count` triangles of a mesh, in order.
pub open spec fn mesh_fragments(
    vertices: Seq<Vertex>,
    uniforms: Uniforms,
    count: int,
    width: int,
    height: int,
) -> Seq<Fragment>
    decreases count,
{
    if count <= 0 {
        Seq::empty()
    } else {
        mesh_fragments(vertices, uniforms, count - 1, width, height) + triangle_fragments(
            vertices,
            uniforms,
            count - 1,
            width,
            height,
        )
    }
}

/// The surface after one fragment: its shaded colour is drawn at its pixel
/// with its depth, if the pixel lies on the surface.
pub open spec fn painted_one(
    s: Surface,
    f: SampledFragment,
    uniforms: Uniforms,
    sphere_index: usize,
) -> Surface {
    let x = f.fragment.position.x;
    let y = f.fragment.position.y;
    if x < s.width && y < s.height {
        s.drawn(
            shaded(f.fragment, uniforms, sphere_index, f.samples).packed() as u32,
            x as int,
            y as int,
            f.fragment.depth,
        )
    } else {
        s
    }
}

/// The surface after the first `count` fragments, drawn in order.
pub open spec fn painted(
    s: Surface,
    fragments: Seq<SampledFragment>,
    uniforms: Uniforms,
    sphere_index: usize,
    count: int,
) -> Surface
    decreases count,
{
    if count <= 0 {
        s
    } else {
        painted_one(
            painted(s, fragments, uniforms, sphere_index, count - 1),
            fragments[count - 1],
            uniforms,
            sphere_index,
        )
    }
}

/// The colour that the surface draws with after the first `count` fragments
/// were drawn on a surface of `width` by `height` pixels that drew with
/// `start`: the colour of the last of them that lies on the surface.
pub open spec fn last_color(
    fragments: Seq<SampledFragment>,
    uniforms: Uniforms,
    sphere_index: usize,
    count: int,
    width: nat,
    height: nat,
    start: u32,
) -> u32
    decreases count,
{
    if count <= 0 {
        start
    } else if fragments[count - 1].fragment.position.x < width && fragments[count
        - 1].fragment.position.y < height {
        shaded(
            fragments[count - 1].fragment,
            uniforms,
            sphere_index,
            fragments[count - 1].samples,
        ).packed() as u32
    } else {
        last_color(fragments, uniforms, sphere_index, count - 1, width, height, start)
    }
}

/// Whether entry `i` of the surface shows the fragment `f`: `f` lies on that
/// pixel, and the pixel holds the colour and the depth of `f`.
pub open spec fn shows(
    after: Surface,
    f: SampledFragment,
    uniforms: Uniforms,
    sphere_index: usize,
    i: int,
) -> bool {
    &&& f.fragment.position.x < after.width
    &&& f.fragment.position.y < after.height
    &&& after.index_of(f.fragment.position.x as int, f.fragment.position.y as int) == i
    &&& after.depths[i] == f.fragment.depth
    &&& after.colors[i] == shaded(f.fragment, uniforms, sphere_index, f.samples).packed() as u32
}

/// Builds the model matrix from a translation, a uniform scale and the
/// sines and cosines of the three rotation angles.
pub fn create_model_matrix(translation: Vec3, scale: i32, rotation: Rotation) -> (m: Mat4)
    ensures
        m == model_matrix(translation, scale, rotation),
{
    let (sin_x, cos_x) = (rotation.x.sin, rotation.x.cos);
    let (sin_y, cos_y) = (rotation.y.sin, rotation.y.cos);
    let (sin_z, cos_z) = (rotation.z.sin, rotation.z.cos);

    let rotation_matrix_x = Mat4::from_rows(
        Vec4::new(ONE, 0, 0, 0),
        Vec4::new(0, cos_x, negate(sin_x), 0),
        Vec4::new(0, sin_x, cos_x, 0),
        Vec4::new(0, 0, 0, ONE),
    );

    let rotation_matrix_y = Mat4::from_rows(
        Vec4::new(cos_y, 0, sin_y, 0),
        Vec4::new(0, ONE, 0, 0),
        Vec4::new(negate(sin_y), 0, cos_y, 0),
        Vec4::new(0, 0, 0, ONE),
    );

    let rotation_matrix_z = Mat4::from_rows(
        Vec4::new(cos_z, negate(sin_z), 0, 0),
        Vec4::new(sin_z, cos_z, 0, 0),
        Vec4::new(0, 0, ONE, 0),
        Vec4::new(0, 0, 0, ONE),
    );

    let rotation_matrix = rotation_matrix_z.mul_mat(&rotation_matrix_y).mul_mat(
        &rotation_matrix_x,
    );

    let transform_matrix = Mat4::from_rows(
        Vec4::new(scale, 0, 0, translation.x),
        Vec4::new(0, scale, 0, translation.y),
        Vec4::new(0, 0, scale, translation.z),
        Vec4::new(0, 0, 0, ONE),
    );

    transform_matrix.mul_mat(&rotation_matrix)
}

/// Builds the translation to the point of the orbit of radius `radius`
/// around `center` at the given angle. The orbit lies in the xy plane.
pub fn create_orbit_matrix(center: Vec3, radius: i32, angle: Angle) -> (m: Mat4)
    ensures
        m == orbit_matrix(center, radius, angle),
        Mat3::upper_left(m) == Mat3::spec_identity(),
        m.r3 == (Vec4 { x: 0, y: 0, z: 0, w: ONE }),
{
    Mat4::new_translation(&place_on_orbit(center, radius, angle))
}

/// Computes where a body stands on its orbit around the origin at the given
/// angle.
pub fn orbit_position(center: Vec3, angle: Angle) -> (p: Vec3)
    ensures
        p == orbit_point(center, angle),
        center == (Vec3 { x: 0, y: 0, z: 0 }) ==> p == center,
{
    let square: i128 = center.raw_dot(&center);
    proof {
        assert(center.x as int * center.x as int >= 0) by (nonlinear_arith);
        assert(center.y as int * center.y as int >= 0) by (nonlinear_arith);
        assert(center.z as int * center.z as int >= 0) by (nonlinear_arith);
        if center == (Vec3 { x: 0, y: 0, z: 0 }) {
            assert(is_sqrt(0, 0)) by (nonlinear_arith);
            lemma_sqrt_unique(0, 0, sqrt_floor(0));
            assert(fx_mul_spec(0, angle.cos) == 0);
            assert(fx_mul_spec(0, angle.sin) == 0);
        }
    }
    let radius = narrow(isqrt(square as u128) as i128);
    place_on_orbit(center, radius, angle)
}

/// The point at the given angle on the circle of the given radius around
/// `center`.
fn place_on_orbit(center: Vec3, radius: i32, angle: Angle) -> (p: Vec3)
    ensures
        p == orbit_point_at(center, radius, angle),
{
    Vec3 {
        x: narrow(center.x as i128 + fx_mul(radius, angle.cos) as i128),
        y: narrow(center.y as i128 + fx_mul(radius, angle.sin) as i128),
        z: center.z,
    }
}

/// Builds the viewport matrix of a target of `width` by `height` pixels.
pub fn create_viewport_matrix(width: usize, height: usize) -> (m: Mat4)
    ensures
        m == viewport_matrix(width, height),
{
    let half_width = half(width);
    let half_height = half(height);
    Mat4::from_rows(
        Vec4::new(half_width, 0, 0, half_width),
        Vec4::new(0, negate(half_height), 0, half_height),
        Vec4::new(0, 0, ONE, 0),
        Vec4::new(0, 0, 0, ONE),
    )
}

/// Runs the vertex stage on every vertex of a mesh and rasterizes its
/// triangles, which are the consecutive triples of vertices; up to two
/// vertices left over at the end are ignored.
///
/// The fragments come out triangle by triangle. The caller samples the noise
/// field for each of them where `noise_query` says, and hands the pairs to
/// `render`.
pub fn assemble(
    uniforms: &Uniforms,
    vertex_array: &Vec<Vertex>,
    width: usize,
    height: usize,
) -> (fragments: Vec<Fragment>)
    ensures
        fragments@ == mesh_fragments(
            vertex_array@,
            *uniforms,
            vertex_array@.len() as int / 3,
            width as int,
            height as int,
        ),
{
    let mut transformed_vertices: Vec<Option<Vertex>> = Vec::new();
    let mut n: usize = 0;
    while n < vertex_array.len()
        invariant
            n <= vertex_array.len(),
            transformed_vertices@.len() == n,
            forall|j: int|
                0 <= j < n ==> transformed_vertices@[j] == shaded_vertex(
                    #[trigger] vertex_array@[j],
                    *uniforms,
                ),
        decreases vertex_array.len() - n,
    {
        let transformed = vertex_shader(&vertex_array[n], uniforms);
        transformed_vertices.push(transformed);
        n = n + 1;
    }

    let mut fragments: Vec<Fragment> = Vec::new();
    let count: usize = transformed_vertices.len() / 3;
    let mut k: usize = 0;
    while k < count
        invariant
            k <= count,
            count == vertex_array@.len() / 3,
            transformed_vertices@.len() == vertex_array@.len(),
            vertex_array@.len() <= usize::MAX,
            forall|j: int|
                0 <= j < vertex_array@.len() ==> transformed_vertices@[j] == shaded_vertex(
                    #[trigger] vertex_array@[j],
                    *uniforms,
                ),
            fragments@ == mesh_fragments(
                vertex_array@,
                *uniforms,
                k as int,
                width as int,
                height as int,
            ),
        decreases count - k,
    {
        let i: usize = 3 * k;
        let ghost before = fragments@;
        match (transformed_vertices[i], transformed_vertices[i + 1], transformed_vertices[i + 2]) {
            (Some(a), Some(b), Some(c)) => {
                let mut more = triangle(&a, &b, &c, width, height);
                fragments.append(&mut more);
            },
            _ => {
                assert(before + Seq::<Fragment>::empty() =~= before);
            },
        }
        k = k + 1;
    }
    fragments
}

/// Shades every fragment and writes it to the framebuffer through the depth
/// test. A fragment whose pixel lies outside the framebuffer is dropped.
pub fn render(
    framebuffer: &mut Framebuffer,
    uniforms: &Uniforms,
    fragments: &Vec<SampledFragment>,
    sphere_index: usize,
)
    ensures
        final(framebuffer)@ == painted(
            old(framebuffer)@,
            fragments@,
            *uniforms,
            sphere_index,
            fragments@.len() as int,
        ),
        final(framebuffer)@.well_formed(),
{
    let width = framebuffer.width();
    let height = framebuffer.height();
    let mut i: usize = 0;
    while i < fragments.len()
        invariant
            i <= fragments.len(),
            framebuffer@.width == width,
            framebuffer@.height == height,
            framebuffer@.well_formed(),
            framebuffer@ == painted(
                old(framebuffer)@,
                fragments@,
                *uniforms,
                sphere_index,
                i as int,
            ),
        decreases fragments.len() - i,
    {
        let fragment = &fragments[i].fragment;
        let x = fragment.position.x;
        let y = fragment.position.y;

        if x < width && y < height {
            let shaded_color = fragment_shader(
                fragment,
                uniforms,
                sphere_index,
                &fragments[i].samples,
            );
            let color = shaded_color.to_hex();
            framebuffer.set_current_color(color);
            framebuffer.point(x, y, fragment.depth);
        }
        i = i + 1;
    }
}

fn negate(v: i32) -> (n: i32)
    ensures
        n == negated(v),
{
    narrow(-(v as i128))
}

fn half(n: usize) -> (h: i32)
    ensures
        h == half_extent(n),
{
    if n >= 65536 {
        i32::MAX
    } else {
        (n as i32) * 32768
    }
}

/// The fragments of a mesh of one triangle are the fragments of that
/// triangle, where the vertex stage keeps its three vertices.
pub proof fn lemma_single_triangle_mesh(
    vertices: Seq<Vertex>,
    uniforms: Uniforms,
    width: int,
    height: int,
)
    requires
        3 <= vertices.len() < 6,
        shaded_vertex(vertices[0], uniforms) is Some,
        shaded_vertex(vertices[1], uniforms) is Some,
        shaded_vertex(vertices[2], uniforms) is Some,
    ensures
        mesh_fragments(vertices, uniforms, vertices.len() as int / 3, width, height) == rasterized(
            shaded_vertex(vertices[0], uniforms)->0,
            shaded_vertex(vertices[1], uniforms)->0,
            shaded_vertex(vertices[2], uniforms)->0,
            width,
            height,
        ),
{
    let one = triangle_fragments(vertices, uniforms, 0, width, height);
    assert(mesh_fragments(vertices, uniforms, 0, width, height) == Seq::<Fragment>::empty());
    assert(mesh_fragments(vertices, uniforms, 1, width, height) == Seq::<Fragment>::empty() + one);
    assert(Seq::<Fragment>::empty() + one =~= one);
}

/// Every fragment of a mesh lies on the target it was assembled for, so that
/// `render` drops none of them on a framebuffer of that size.
pub proof fn lemma_mesh_fragments_on_target(
    vertices: Seq<Vertex>,
    uniforms: Uniforms,
    count: int,
    width: int,
    height: int,
)
    requires
        0 <= width <= usize::MAX,
        0 <= height <= usize::MAX,
    ensures
        forall|i: int|
            0 <= i < mesh_fragments(vertices, uniforms, count, width, height).len() ==> {
                &&& (#[trigger] mesh_fragments(
                    vertices,
                    uniforms,
                    count,
                    width,
                    height,
                )[i]).position.x < width
                &&& mesh_fragments(vertices, uniforms, count, width, height)[i].position.y < height
            },
    decreases count,
{
    if count > 0 {
        lemma_mesh_fragments_on_target(vertices, uniforms, count - 1, width, height);
        let all = mesh_fragments(vertices, uniforms, count, width, height);
        let before = mesh_fragments(vertices, uniforms, count - 1, width, height);
        let last = triangle_fragments(vertices, uniforms, count - 1, width, height);
        assert forall|i: int| 0 <= i < all.len() implies (#[trigger] all[i]).position.x < width
            && all[i].position.y < height by {
            if i < before.len() {
                assert(all[i] == before[i]);
            } else {
                assert(all[i] == last[i - before.len()]);
                match (
                    shaded_vertex(vertices[3 * (count - 1)], uniforms),
                    shaded_vertex(vertices[3 * (count - 1) + 1], uniforms),
                    shaded_vertex(vertices[3 * (count - 1) + 2], uniforms),
                ) {
                    (Some(a), Some(b), Some(c)) => {
                        lemma_fragment_weights(a, b, c, width, height, i - before.len());
                    },
                    _ => {},
                }
            }
        }
    }
}

/// Rendering never raises a stored depth and never changes the size of the
/// surface: within a frame every pixel only moves nearer.
pub proof fn lemma_painted_depths_decrease(
    s: Surface,
    fragments: Seq<SampledFragment>,
    uniforms: Uniforms,
    sphere_index: usize,
    count: int,
)
    requires
        s.well_formed(),
        count <= fragments.len(),
    ensures
        painted(s, fragments, uniforms, sphere_index, count).well_formed(),
        painted(s, fragments, uniforms, sphere_index, count).width == s.width,
        painted(s, fragments, uniforms, sphere_index, count).height == s.height,
        painted(s, fragments, uniforms, sphere_index, count).background == s.background,
        forall|i: int|
            0 <= i < s.depths.len() ==> #[trigger] painted(
                s,
                fragments,
                uniforms,
                sphere_index,
                count,
            ).depths[i] <= s.depths[i],
    decreases count,
{
    if count > 0 {
        lemma_painted_depths_decrease(s, fragments, uniforms, sphere_index, count - 1);
        let before = painted(s, fragments, uniforms, sphere_index, count - 1);
        let f = fragments[count - 1];
        let x = f.fragment.position.x;
        let y = f.fragment.position.y;
        if x < before.width && y < before.height {
            let color = shaded(f.fragment, uniforms, sphere_index, f.samples).packed() as u32;
            lemma_plotted_frame(before.with_current(color), x as int, y as int, f.fragment.depth);
        }
    }
}

/// After rendering, no pixel is farther than any fragment that was drawn on
/// it.
pub proof fn lemma_painted_depth_is_nearest(
    s: Surface,
    fragments: Seq<SampledFragment>,
    uniforms: Uniforms,
    sphere_index: usize,
    count: int,
    k: int,
)
    requires
        s.well_formed(),
        0 <= k < count <= fragments.len(),
        fragments[k].fragment.position.x < s.width,
        fragments[k].fragment.position.y < s.height,
    ensures
        painted(s, fragments, uniforms, sphere_index, count).depths[s.index_of(
            fragments[k].fragment.position.x as int,
            fragments[k].fragment.position.y as int,
        )] <= fragments[k].fragment.depth,
    decreases count,
{
    let before = painted(s, fragments, uniforms, sphere_index, count - 1);
    let f = fragments[count - 1];
    let x = f.fragment.position.x;
    let y = f.fragment.position.y;
    let color = shaded(f.fragment, uniforms, sphere_index, f.samples).packed() as u32;
    lemma_painted_depths_decrease(s, fragments, uniforms, sphere_index, count - 1);
    let at = s.index_of(
        fragments[k].fragment.position.x as int,
        fragments[k].fragment.position.y as int,
    );
    lemma_index_in_range(
        s.width as int,
        s.height as int,
        fragments[k].fragment.position.x as int,
        fragments[k].fragment.position.y as int,
    );
    if k < count - 1 {
        lemma_painted_depth_is_nearest(s, fragments, uniforms, sphere_index, count - 1, k);
        if x < before.width && y < before.height {
            lemma_plotted_frame(before.with_current(color), x as int, y as int, f.fragment.depth);
            let drawn = before.with_current(color).plotted(x as int, y as int, f.fragment.depth);
            assert(drawn.depths[at] <= before.with_current(color).depths[at]);
        }
    }
}

/// After rendering, every pixel either is as it was or shows one of the
/// fragments that were drawn on it, and that fragment was nearer than what the
/// pixel held before.
pub proof fn lemma_painted_pixel(
    s: Surface,
    fragments: Seq<SampledFragment>,
    uniforms: Uniforms,
    sphere_index: usize,
    count: int,
    i: int,
)
    requires
        s.well_formed(),
        count <= fragments.len(),
        0 <= i < s.colors.len(),
    ensures
        ({
            let after = painted(s, fragments, uniforms, sphere_index, count);
            ||| after.colors[i] == s.colors[i] && after.depths[i] == s.depths[i]
            ||| exists|j: int|
                0 <= j < count && #[trigger] shows(
                    after,
                    fragments[j],
                    uniforms,
                    sphere_index,
                    i,
                ) && fragments[j].fragment.depth < s.depths[i]
        }),
    decreases count,
{
    if count > 0 {
        let before = painted(s, fragments, uniforms, sphere_index, count - 1);
        let after = painted(s, fragments, uniforms, sphere_index, count);
        let f = fragments[count - 1];
        let x = f.fragment.position.x;
        let y = f.fragment.position.y;
        let color = shaded(f.fragment, uniforms, sphere_index, f.samples).packed() as u32;
        lemma_painted_pixel(s, fragments, uniforms, sphere_index, count - 1, i);
        lemma_painted_depths_decrease(s, fragments, uniforms, sphere_index, count - 1);
        if x < before.width && y < before.height {
            lemma_plotted_frame(before.with_current(color), x as int, y as int, f.fragment.depth);
            lemma_index_in_range(before.width as int, before.height as int, x as int, y as int);
            if i == before.index_of(x as int, y as int) && f.fragment.depth < before.depths[i] {
                assert(shows(after, fragments[count - 1], uniforms, sphere_index, i));
            } else {
                assert(after.colors[i] == before.colors[i]);
                assert(after.depths[i] == before.depths[i]);
                if !(before.colors[i] == s.colors[i] && before.depths[i] == s.depths[i]) {
                    let j = choose|j: int|
                        0 <= j < count - 1 && #[trigger] shows(
                            before,
                            fragments[j],
                            uniforms,
                            sphere_index,
                            i,
                        ) && fragments[j].fragment.depth < s.depths[i];
                    assert(shows(after, fragments[j], uniforms, sphere_index, i));
                }
            }
        } else {
            if !(before.colors[i] == s.colors[i] && before.depths[i] == s.depths[i]) {
                let j = choose|j: int|
                    0 <= j < count - 1 && #[trigger] shows(
                        before,
                        fragments[j],
                        uniforms,
                        sphere_index,
                        i,
                    ) && fragments[j].fragment.depth < s.depths[i];
                assert(shows(after, fragments[j], uniforms, sphere_index, i));
            }
        }
    }
}

/// A pixel on which a fragment nearer than its stored depth is drawn ends
/// nearer than it was, and shows one of the fragments drawn on it. On a
/// cleared surface, every pixel that gets a fragment in front of the far
/// plane is painted.
pub proof fn lemma_touched_pixel_is_painted(
    s: Surface,
    fragments: Seq<SampledFragment>,
    uniforms: Uniforms,
    sphere_index: usize,
    k: int,
)
    requires
        s.well_formed(),
        0 <= k < fragments.len(),
        fragments[k].fragment.position.x < s.width,
        fragments[k].fragment.position.y < s.height,
        fragments[k].fragment.depth < s.depths[s.index_of(
            fragments[k].fragment.position.x as int,
            fragments[k].fragment.position.y as int,
        )],
    ensures
        ({
            let after = painted(s, fragments, uniforms, sphere_index, fragments.len() as int);
            let i = s.index_of(
                fragments[k].fragment.position.x as int,
                fragments[k].fragment.position.y as int,
            );
            &&& after.depths[i] <= fragments[k].fragment.depth
            &&& after.depths[i] < s.depths[i]
            &&& exists|j: int|
                0 <= j < fragments.len() && #[trigger] shows(
                    after,
                    fragments[j],
                    uniforms,
                    sphere_index,
                    i,
                )
        }),
{
    let i = s.index_of(
        fragments[k].fragment.position.x as int,
        fragments[k].fragment.position.y as int,
    );
    lemma_index_in_range(
        s.width as int,
        s.height as int,
        fragments[k].fragment.position.x as int,
        fragments[k].fragment.position.y as int,
    );
    lemma_painted_depth_is_nearest(s, fragments, uniforms, sphere_index, fragments.len() as int, k);
    lemma_painted_pixel(s, fragments, uniforms, sphere_index, fragments.len() as int, i);
}

/// End to end for one triangle of the solar material on a cleared pixel: a
/// pixel that the triangle covers, in front of the far plane, ends with a
/// depth in front of the far plane and with a colour that has no blue, which
/// therefore differs from every background that has some.
pub proof fn lemma_covered_pixel_is_painted(
    s: Surface,
    v1: Vertex,
    v2: Vertex,
    v3: Vertex,
    sampled: Seq<SampledFragment>,
    uniforms: Uniforms,
    x: int,
    y: int,
)
    requires
        s.well_formed(),
        s.width <= usize::MAX,
        s.height <= usize::MAX,
        sampled.len() == rasterized(v1, v2, v3, s.width as int, s.height as int).len(),
        forall|i: int|
            0 <= i < sampled.len() ==> (#[trigger] sampled[i]).fragment == rasterized(
                v1,
                v2,
                v3,
                s.width as int,
                s.height as int,
            )[i],
        0 <= x < s.width,
        0 <= y < s.height,
        covers(v1.transformed_position, v2.transformed_position, v3.transformed_position, x, y),
        s.depths[s.index_of(x, y)] == FAR,
        v1.transformed_position.z < FAR,
        v2.transformed_position.z < FAR,
        v3.transformed_position.z < FAR,
    ensures
        painted(s, sampled, uniforms, 0, sampled.len() as int).depths[s.index_of(x, y)] < FAR,
        painted(s, sampled, uniforms, 0, sampled.len() as int).colors[s.index_of(x, y)] % 256 == 0,
{
    let width = s.width as int;
    let height = s.height as int;
    let fragments = rasterized(v1, v2, v3, width, height);
    let f = fragment_at(v1, v2, v3, x, y);
    lemma_covered_pixel_has_fragment(v1, v2, v3, width, height, x, y);
    let k = choose|k: int| 0 <= k < fragments.len() && fragments[k] == f;
    lemma_fragment_depth_between(v1, v2, v3, x, y);
    assert(sampled[k].fragment == f);
    lemma_touched_pixel_is_painted(s, sampled, uniforms, 0, k);
    let after = painted(s, sampled, uniforms, 0, sampled.len() as int);
    let i = s.index_of(x, y);
    let j = choose|j: int|
        0 <= j < sampled.len() && #[trigger] shows(after, sampled[j], uniforms, 0, i);
    lemma_solar_has_no_blue(sampled[j].fragment, sampled[j].samples);
    lemma_hex_round_trip(shaded(sampled[j].fragment, uniforms, 0, sampled[j].samples), 0);
}

/// Rendering the same fragments a second time changes nothing: every pixel
/// already holds a depth that none of them beats, and the colour to draw with
/// ends as it did the first time.
pub proof fn lemma_render_twice_changes_nothing(
    s: Surface,
    fragments: Seq<SampledFragment>,
    uniforms: Uniforms,
    sphere_index: usize,
)
    requires
        s.well_formed(),
    ensures
        painted(
            painted(s, fragments, uniforms, sphere_index, fragments.len() as int),
            fragments,
            uniforms,
            sphere_index,
            fragments.len() as int,
        ) == painted(s, fragments, uniforms, sphere_index, fragments.len() as int),
{
    let n = fragments.len() as int;
    let once = painted(s, fragments, uniforms, sphere_index, n);
    lemma_painted_depths_decrease(s, fragments, uniforms, sphere_index, n);
    assert forall|j: int|
        0 <= j < n && (#[trigger] fragments[j]).fragment.position.x < once.width
            && fragments[j].fragment.position.y < once.height implies once.depths[once.index_of(
        fragments[j].fragment.position.x as int,
        fragments[j].fragment.position.y as int,
    )] <= fragments[j].fragment.depth by {
        lemma_painted_depth_is_nearest(s, fragments, uniforms, sphere_index, n, j);
    }
    lemma_repainted(once, fragments, uniforms, sphere_index, n);
    lemma_painted_color(s, fragments, uniforms, sphere_index, n);
    lemma_last_color_settles(
        fragments,
        uniforms,
        sphere_index,
        n,
        s.width,
        s.height,
        s.current,
    );
}

/// After rendering, the surface draws with the colour of the last fragment
/// that lay on it.
proof fn lemma_painted_color(
    s: Surface,
    fragments: Seq<SampledFragment>,
    uniforms: Uniforms,
    sphere_index: usize,
    count: int,
)
    requires
        s.well_formed(),
        count <= fragments.len(),
    ensures
        painted(s, fragments, uniforms, sphere_index, count).current == last_color(
            fragments,
            uniforms,
            sphere_index,
            count,
            s.width,
            s.height,
            s.current,
        ),
    decreases count,
{
    if count > 0 {
        lemma_painted_color(s, fragments, uniforms, sphere_index, count - 1);
        lemma_painted_depths_decrease(s, fragments, uniforms, sphere_index, count - 1);
    }
}

/// On a surface where no pixel is farther than any of the fragments that lie
/// on it, drawing the fragments changes the colour to draw with and nothing
/// else.
proof fn lemma_repainted(
    t: Surface,
    fragments: Seq<SampledFragment>,
    uniforms: Uniforms,
    sphere_index: usize,
    count: int,
)
    requires
        t.well_formed(),
        count <= fragments.len(),
        forall|j: int|
            0 <= j < fragments.len() && (#[trigger] fragments[j]).fragment.position.x < t.width
                && fragments[j].fragment.position.y < t.height ==> t.depths[t.index_of(
                fragments[j].fragment.position.x as int,
                fragments[j].fragment.position.y as int,
            )] <= fragments[j].fragment.depth,
    ensures
        painted(t, fragments, uniforms, sphere_index, count) == t.with_current(
            last_color(fragments, uniforms, sphere_index, count, t.width, t.height, t.current),
        ),
    decreases count,
{
    if count > 0 {
        lemma_repainted(t, fragments, uniforms, sphere_index, count - 1);
        let f = fragments[count - 1];
        assert(f.fragment.position.x < t.width && f.fragment.position.y < t.height
            ==> t.depths[t.index_of(f.fragment.position.x as int, f.fragment.position.y as int)]
            <= f.fragment.depth);
    }
}

/// Starting from the colour that the fragments leave behind, they leave the
/// same colour behind.
proof fn lemma_last_color_settles(
    fragments: Seq<SampledFragment>,
    uniforms: Uniforms,
    sphere_index: usize,
    count: int,
    width: nat,
    height: nat,
    start: u32,
)
    ensures
        last_color(
            fragments,
            uniforms,
            sphere_index,
            count,
            width,
            height,
            last_color(fragments, uniforms, sphere_index, count, width, height, start),
        ) == last_color(fragments, uniforms, sphere_index, count, width, height, start),
    decreases count,
{
    if count > 0 {
        let inner = last_color(fragments, uniforms, sphere_index, count, width, height, start);
        lemma_last_color_settles(
            fragments,
            uniforms,
            sphere_index,
            count - 1,
            width,
            height,
            start,
        );
        lemma_last_color_from(
            fragments,
            uniforms,
            sphere_index,
            count - 1,
            width,
            height,
            start,
            inner,
        );
    }
}

/// The colour left behind is either the starting colour, whatever that was,
/// or does not depend on it.
proof fn lemma_last_color_from(
    fragments: Seq<SampledFragment>,
    uniforms: Uniforms,
    sphere_index: usize,
    count: int,
    width: nat,
    height: nat,
    first: u32,
    second: u32,
)
    ensures
        ({
            let a = last_color(fragments, uniforms, sphere_index, count, width, height, first);
            let b = last_color(fragments, uniforms, sphere_index, count, width, height, second);
            a == b || (a == first && b == second)
        }),
    decreases count,
{
    if count > 0 {
        lemma_last_color_from(
            fragments,
            uniforms,
            sphere_index,
            count - 1,
            width,
            height,
            first,
            second,
        );
    }
}

} // verus!

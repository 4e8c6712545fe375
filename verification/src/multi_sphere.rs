//! Several spheres of different sizes, of which the nearest is seen.
use crate::formula::{Formula, Node, col, column, lit, num, number};
use crate::ideal::{IdealRow, Reals};
use crate::number::{CHANNEL_MAX, HALF, Number, ONE, TWO, ZERO};
use crate::plan::{Plan, Projection, Rendering, Steps, pixel_columns, vector_steps};
use crate::portrait::is_pixel;
use crate::spheres_portrait::{is_view, law_several_spheres, shows_spheres};
use crate::text::join;
use crate::trace::{
    Ball, Camera, Solid, add_meeting_ahead, ahead_step, at,
    camera_direction, camera_origin, chosen, clamp, clamped, grid_query, hit_index, hit_sphere,
    is_hit, nearest, nearest_hit, pixel_grid, pixels_to_rays, point_at, ray_steps, sphere_columns,
};
use crate::vector::{Triple, Vec3};
use vstd::prelude::*;

verus! {

// Image settings
pub const WIDTH: u32 = 800;

pub const HEIGHT: u32 = 600;

// Camera settings
/// Two times the width of the image over its height: 2.6666666666666665.
pub const VIEWPORT_WIDTH: u64 = 0x4005_5555_5555_5555;

pub const VIEWPORT_HEIGHT: u64 = TWO;

pub const FOCAL_LENGTH: u64 = ONE;

// Background: a light blue sky of 135, 206, 235
pub const SKY_R: u64 = 0x4060_e000_0000_0000;

pub const SKY_G: u64 = 0x4069_c000_0000_0000;

pub const SKY_B: u64 = 0x406d_6000_0000_0000;

/// How much blue is added to a surface that faces away: 50.
pub const BLUE_TINT: u64 = 0x4049_0000_0000_0000;

/// A sphere in the scene with colour.
#[derive(Clone, Debug, PartialEq, Eq)]
pub struct Sphere {
    pub name: String,
    pub center_x: Number,
    pub center_y: Number,
    pub center_z: Number,
    pub radius: Number,
    pub color_r: Number,
    pub color_g: Number,
    pub color_b: Number,
}

impl Sphere {
    /// Whether the colour is the one given.
    pub open spec fn has_color(self, r: u64, g: u64, b: u64) -> bool {
        self.color_r.bits == r && self.color_g.bits == g && self.color_b.bits == b
    }

    /// Whether place and size are the ones given.
    pub open spec fn is_at(self, x: u64, y: u64, z: u64, radius: u64) -> bool {
        &&& self.center_x.bits == x
        &&& self.center_y.bits == y
        &&& self.center_z.bits == z
        &&& self.radius.bits == radius
    }

    /// A white sphere.
    pub fn new(name: &str, cx: Number, cy: Number, cz: Number, radius: Number) -> (sphere: Sphere)
        ensures
            sphere.name@ == name@,
            sphere.is_at(cx.bits, cy.bits, cz.bits, radius.bits),
            sphere.has_color(ONE, ONE, ONE),
    {
        Sphere {
            name: name.to_owned(),
            center_x: cx,
            center_y: cy,
            center_z: cz,
            radius,
            color_r: Number::of(ONE),
            color_g: Number::of(ONE),
            color_b: Number::of(ONE),
        }
    }

    /// The same sphere in another colour.
    pub fn with_color(self, r: Number, g: Number, b: Number) -> (sphere: Sphere)
        ensures
            sphere == (Sphere { color_r: r, color_g: g, color_b: b, ..self }),
    {
        Sphere { color_r: r, color_g: g, color_b: b, ..self }
    }
}

impl Solid for Sphere {
    open spec fn label(&self) -> Seq<char> {
        self.name@
    }

    open spec fn shape(&self) -> Ball {
        Ball {
            center_x: self.center_x,
            center_y: self.center_y,
            center_z: self.center_z,
            radius: self.radius,
        }
    }

    fn name(&self) -> (name: &str) {
        self.name.as_str()
    }

    fn ball(&self) -> (ball: Ball) {
        Ball {
            center_x: self.center_x,
            center_y: self.center_y,
            center_z: self.center_z,
            radius: self.radius,
        }
    }
}

/// The column of the parameter at which the camera's ray meets a sphere ahead.
pub open spec fn intersect_step(sphere: Sphere) -> (Seq<char>, Node) {
    ahead_step(sphere, camera_origin(), camera_direction(), "t_"@)
}

/// Adds the parameter at which the camera's ray meets the sphere, missing where
/// it passes by or the sphere lies behind.
pub fn intersect_sphere(plan: &mut Plan, sphere: &Sphere)
    ensures
        final(plan)@ == old(plan)@.push(intersect_step(*sphere)),
{
    let origin: Vec3 = Vec3::columns("origin_x", "origin_y", "origin_z");
    let direction: Vec3 = Vec3::columns("dir_x", "dir_y", "dir_z");
    add_meeting_ahead(plan, sphere, origin, direction, "t_");
}

/// The columns of all parameters at which the camera's ray meets a sphere ahead.
pub open spec fn intersect_steps(spheres: Seq<Sphere>) -> Steps {
    Seq::new(spheres.len(), |i: int| intersect_step(spheres[i]))
}

/// Adds the parameters at which the camera's ray meets the spheres.
pub fn intersect_spheres(plan: &mut Plan, spheres: &Vec<Sphere>)
    ensures
        final(plan)@ == old(plan)@ + intersect_steps(spheres@),
{
    let mut i: usize = 0;
    assert(plan@ =~= old(plan)@ + intersect_steps(spheres@).take(0));
    while i < spheres.len()
        invariant
            i <= spheres.len(),
            plan@ == old(plan)@ + intersect_steps(spheres@).take(i as int),
        decreases spheres.len() - i,
    {
        intersect_sphere(plan, &spheres[i]);
        i = i + 1;
        assert(plan@ =~= old(plan)@ + intersect_steps(spheres@).take(i as int));
    }
    assert(intersect_steps(spheres@).take(i as int) =~= intersect_steps(spheres@));
}

/// The column of the smallest parameter.
pub open spec fn nearest_step(spheres: Seq<Sphere>) -> (Seq<char>, Node) {
    ("t_nearest"@, nearest(sphere_columns(spheres, "t_"@)))
}

/// Adds the smallest of the parameters, missing where no sphere is hit.
pub fn find_nearest_hit(plan: &mut Plan, spheres: &Vec<Sphere>)
    requires
        spheres.len() > 0,
    ensures
        final(plan)@ == old(plan)@.push(nearest_step(spheres@)),
{
    plan.with_column("t_nearest", nearest_hit(spheres, "t_"));
}

/// The column of the index of the sphere that is hit.
pub open spec fn index_step(spheres: Seq<Sphere>) -> (Seq<char>, Node) {
    ("hit_sphere"@, hit_index(sphere_columns(spheres, "t_"@), column("t_nearest"@)))
}

/// Adds the index of the sphere that is hit, missing where none is.
pub fn compute_hit_sphere_index(plan: &mut Plan, spheres: &Vec<Sphere>)
    ensures
        final(plan)@ == old(plan)@.push(index_step(spheres@)),
{
    plan.with_column("hit_sphere", hit_sphere(spheres, "t_", "t_nearest"));
}

/// The columns of the normal where the camera's ray meets a sphere.
pub open spec fn normal_steps(sphere: Sphere) -> Steps {
    let t = column("t_"@ + sphere.name@);
    vector_steps(
        sphere.name@ + "_nx"@,
        sphere.name@ + "_ny"@,
        sphere.name@ + "_nz"@,
        sphere.shape().normal_at(point_at(camera_origin(), camera_direction(), t)),
    )
}

/// The columns of the normals of all spheres.
pub open spec fn all_normal_steps(spheres: Seq<Sphere>) -> Steps
    decreases spheres.len(),
{
    if spheres.len() == 0 {
        seq![]
    } else {
        all_normal_steps(spheres.drop_last()) + normal_steps(spheres.last())
    }
}

/// Adds, for each sphere, the normal where the camera's ray meets it.
pub fn compute_all_normals(plan: &mut Plan, spheres: &Vec<Sphere>)
    ensures
        final(plan)@ == old(plan)@ + all_normal_steps(spheres@),
{
    let mut i: usize = 0;
    proof {
        assert(spheres@.take(0) =~= Seq::empty());
        assert(plan@ =~= old(plan)@ + all_normal_steps(spheres@.take(0)));
    }
    while i < spheres.len()
        invariant
            i <= spheres.len(),
            plan@ == old(plan)@ + all_normal_steps(spheres@.take(i as int)),
        decreases spheres.len() - i,
    {
        let sphere: &Sphere = &spheres[i];
        let origin: Vec3 = Vec3::columns("origin_x", "origin_y", "origin_z");
        let direction: Vec3 = Vec3::columns("dir_x", "dir_y", "dir_z");
        let hit: Vec3 = at(origin, direction, &col(join("t_", sphere.name()).as_str()));
        plan.with_vector(
            join(sphere.name(), "_nx").as_str(),
            join(sphere.name(), "_ny").as_str(),
            join(sphere.name(), "_nz").as_str(),
            sphere.ball().normal(hit),
        );
        proof {
            assert(spheres@.take(i + 1).drop_last() =~= spheres@.take(i as int));
            assert(plan@ =~= old(plan)@ + all_normal_steps(spheres@.take(i + 1)));
        }
        i = i + 1;
    }
    assert(spheres@.take(i as int) =~= spheres@);
}

/// A channel of a colour, shaded by a component of the normal.
pub open spec fn shaded(color: u64, component: Node) -> Node {
    number(color).times(number(CHANNEL_MAX)).times(
        number(HALF).plus(number(HALF).times(component)),
    )
}

/// The colour of a sphere by its normal, with some blue where it faces away.
pub open spec fn shade(sphere: Sphere) -> Triple {
    let nz = column(sphere.name@ + "_nz"@);
    Triple {
        x: shaded(sphere.color_r.bits, column(sphere.name@ + "_nx"@)),
        y: shaded(sphere.color_g.bits, column(sphere.name@ + "_ny"@)),
        z: shaded(sphere.color_b.bits, nz).plus(number(BLUE_TINT).times(number(ONE).minus(nz))),
    }
}

/// A channel of a colour, shaded by a component of the normal.
fn shade_channel(color: Number, component: Formula) -> (expr: Formula)
    ensures
        expr@ == shaded(color.bits, component@),
{
    lit(color).times(num(CHANNEL_MAX)).times(num(HALF).plus(num(HALF).times(component)))
}

/// The colour of a sphere by its normal.
fn shade_of(sphere: &Sphere) -> (color: Vec3)
    ensures
        color@ == shade(*sphere),
{
    let nx: Formula = col(join(sphere.name(), "_nx").as_str());
    let ny: Formula = col(join(sphere.name(), "_ny").as_str());
    let nz: Formula = col(join(sphere.name(), "_nz").as_str());
    let tint: Formula = num(BLUE_TINT).times(num(ONE).minus(nz.copy()));
    Vec3 {
        x: shade_channel(sphere.color_r, nx),
        y: shade_channel(sphere.color_g, ny),
        z: shade_channel(sphere.color_b, nz).plus(tint),
    }
}

/// The colour of the pixel: that of the sphere that is hit, or the sky.
pub open spec fn final_color(spheres: Seq<Sphere>) -> Triple {
    let hit = column("hit_sphere"@);
    let n = spheres.len();
    Triple {
        x: clamped(chosen(hit, Seq::new(n, |i: int| shade(spheres[i]).x), number(SKY_R))),
        y: clamped(chosen(hit, Seq::new(n, |i: int| shade(spheres[i]).y), number(SKY_G))),
        z: clamped(chosen(hit, Seq::new(n, |i: int| shade(spheres[i]).z), number(SKY_B))),
    }
}

/// The columns of the final colour.
pub open spec fn color_steps(spheres: Seq<Sphere>) -> Steps {
    vector_steps("final_r"@, "final_g"@, "final_b"@, final_color(spheres))
}

/// Adds the colour of the pixel: that of the sphere that is hit, or the sky.
pub fn compute_final_color(plan: &mut Plan, spheres: &Vec<Sphere>)
    ensures
        final(plan)@ == old(plan)@ + color_steps(spheres@),
{
    let hit: Formula = col("hit_sphere");
    let ghost n = spheres@.len();
    let ghost rs = Seq::new(n, |i: int| shade(spheres@[i]).x);
    let ghost gs = Seq::new(n, |i: int| shade(spheres@[i]).y);
    let ghost bs = Seq::new(n, |i: int| shade(spheres@[i]).z);
    let mut color: Vec3 = Vec3::numbers(Number::of(SKY_R), Number::of(SKY_G), Number::of(SKY_B));
    let mut i: usize = 0;
    proof {
        assert(rs.take(0) =~= Seq::empty());
        assert(gs.take(0) =~= Seq::empty());
        assert(bs.take(0) =~= Seq::empty());
    }
    while i < spheres.len()
        invariant
            i <= spheres.len(),
            n == spheres@.len(),
            rs == Seq::new(n, |i: int| shade(spheres@[i]).x),
            gs == Seq::new(n, |i: int| shade(spheres@[i]).y),
            bs == Seq::new(n, |i: int| shade(spheres@[i]).z),
            hit@ == column("hit_sphere"@),
            color@.x == chosen(hit@, rs.take(i as int), number(SKY_R)),
            color@.y == chosen(hit@, gs.take(i as int), number(SKY_G)),
            color@.z == chosen(hit@, bs.take(i as int), number(SKY_B)),
        decreases spheres.len() - i,
    {
        let this: Vec3 = shade_of(&spheres[i]);
        proof {
            assert(rs.take(i + 1).drop_last() =~= rs.take(i as int));
            assert(gs.take(i + 1).drop_last() =~= gs.take(i as int));
            assert(bs.take(i + 1).drop_last() =~= bs.take(i as int));
            assert(rs.take(i + 1).last() == this@.x);
            assert(gs.take(i + 1).last() == this@.y);
            assert(bs.take(i + 1).last() == this@.z);
        }
        color = Vec3::if_else(&is_hit(&hit, i), this, color);
        i = i + 1;
    }
    proof {
        assert(rs.take(i as int) =~= rs);
        assert(gs.take(i as int) =~= gs);
        assert(bs.take(i as int) =~= bs);
    }
    plan.with_vector(
        "final_r",
        "final_g",
        "final_b",
        Vec3 { x: clamp(color.x), y: clamp(color.y), z: clamp(color.z) },
    );
}

/// The columns of the result: the pixel's place and its final colour.
pub fn to_pixel_output() -> (projection: Projection)
    ensures
        projection@ == pixel_columns("final_r"@, "final_g"@, "final_b"@),
{
    Projection::pixels("final_r", "final_g", "final_b")
}

/// All columns of the scene, for an image of that size.
pub open spec fn scene_steps(
    width: nat,
    height: nat,
    camera: Camera,
    spheres: Seq<Sphere>,
) -> Steps {
    ray_steps(width, height, camera) + intersect_steps(spheres) + seq![
        nearest_step(spheres),
        index_step(spheres),
    ] + all_normal_steps(spheres) + color_steps(spheres)
}

/// All columns of the scene, for an image of that size.
pub fn scene_plan(width: u32, height: u32, camera: Camera, spheres: &Vec<Sphere>) -> (plan: Plan)
    requires
        spheres.len() > 0,
    ensures
        plan@ == scene_steps(width as nat, height as nat, camera, spheres@),
        forall|r: Reals, row: IdealRow, x: real, y: real|
            is_view(r, width as nat, height as nat, camera, spheres@) && #[trigger] is_pixel(
                r,
                row,
                x,
                y,
            ) ==> shows_spheres(
                r,
                r.run(plan@, row),
                width as nat,
                height as nat,
                camera,
                spheres@,
                x,
                y,
            ),
{
    let mut plan: Plan = Plan::new();
    pixels_to_rays(&mut plan, width, height, camera);
    intersect_spheres(&mut plan, spheres);
    find_nearest_hit(&mut plan, spheres);
    compute_hit_sphere_index(&mut plan, spheres);
    compute_all_normals(&mut plan, spheres);
    compute_final_color(&mut plan, spheres);
    assert(plan@ =~= scene_steps(width as nat, height as nat, camera, spheres@));
    proof {
        let (w, h, all) = (width as nat, height as nat, spheres@);
        assert forall|r: Reals, row: IdealRow, x: real, y: real|
            is_view(r, w, h, camera, all) && #[trigger] is_pixel(
                r,
                row,
                x,
                y,
            ) implies shows_spheres(r, r.run(plan@, row), w, h, camera, all, x, y) by {
            law_several_spheres(r, w, h, camera, all, row, x, y);
        }
    }
    plan
}

/// The camera of the scene.
pub open spec fn scene_camera() -> Camera {
    Camera {
        viewport_width: Number { bits: VIEWPORT_WIDTH },
        viewport_height: Number { bits: VIEWPORT_HEIGHT },
        focal_length: Number { bits: FOCAL_LENGTH },
    }
}

/// The camera of the scene.
pub fn camera() -> (camera: Camera)
    ensures
        camera == scene_camera(),
{
    Camera {
        viewport_width: Number::of(VIEWPORT_WIDTH),
        viewport_height: Number::of(VIEWPORT_HEIGHT),
        focal_length: Number::of(FOCAL_LENGTH),
    }
}

/// The spheres of the scene.
///
/// - `red`: large, in the centre, at (0.0, 0.0, -1.5), of radius 0.5, coloured (1.0, 0.2, 0.2)
/// - `green`: small, to the left, slightly in front, at (-0.7, 0.0, -1.0), of radius 0.25, coloured (0.2, 1.0, 0.2)
/// - `blue`: medium, to the right, at (0.6, -0.2, -1.2), of radius 0.35, coloured (0.2, 0.2, 1.0)
/// - `yellow`: tiny, overlapping with red, at (0.2, 0.3, -1.0), of radius 0.15, coloured (1.0, 1.0, 0.2)
/// - `ground`: large, as a floor, at (0.0, -100.5, -1.0), of radius 100.0, coloured (0.5, 0.5, 0.5)
pub open spec fn is_the_scene(spheres: Seq<Sphere>) -> bool {
    &&& spheres.len() == 5
    &&& spheres[0].name@ == "red"@
    &&& spheres[0].is_at(ZERO, ZERO, 0xbff8_0000_0000_0000, HALF)
    &&& spheres[0].has_color(ONE, 0x3fc9_9999_9999_999a, 0x3fc9_9999_9999_999a)
    &&& spheres[1].name@ == "green"@
    &&& spheres[1].is_at(0xbfe6_6666_6666_6666, ZERO, 0xbff0_0000_0000_0000, 0x3fd0_0000_0000_0000)
    &&& spheres[1].has_color(0x3fc9_9999_9999_999a, ONE, 0x3fc9_9999_9999_999a)
    &&& spheres[2].name@ == "blue"@
    &&& spheres[2].is_at(0x3fe3_3333_3333_3333, 0xbfc9_9999_9999_999a, 0xbff3_3333_3333_3333, 0x3fd6_6666_6666_6666)
    &&& spheres[2].has_color(0x3fc9_9999_9999_999a, 0x3fc9_9999_9999_999a, ONE)
    &&& spheres[3].name@ == "yellow"@
    &&& spheres[3].is_at(0x3fc9_9999_9999_999a, 0x3fd3_3333_3333_3333, 0xbff0_0000_0000_0000, 0x3fc3_3333_3333_3333)
    &&& spheres[3].has_color(ONE, ONE, 0x3fc9_9999_9999_999a)
    &&& spheres[4].name@ == "ground"@
    &&& spheres[4].is_at(ZERO, 0xc059_2000_0000_0000, 0xbff0_0000_0000_0000, 0x4059_0000_0000_0000)
    &&& spheres[4].has_color(HALF, HALF, HALF)
}

/// The spheres of the scene.
pub fn spheres() -> (spheres: Vec<Sphere>)
    ensures
        is_the_scene(spheres@),
{
    vec![
        Sphere::new(
            "red",
            Number::of(ZERO),
            Number::of(ZERO),
            Number::of(0xbff8_0000_0000_0000),
            Number::of(HALF),
        ).with_color(
            Number::of(ONE),
            Number::of(0x3fc9_9999_9999_999a),
            Number::of(0x3fc9_9999_9999_999a),
        ),
        Sphere::new(
            "green",
            Number::of(0xbfe6_6666_6666_6666),
            Number::of(ZERO),
            Number::of(0xbff0_0000_0000_0000),
            Number::of(0x3fd0_0000_0000_0000),
        ).with_color(
            Number::of(0x3fc9_9999_9999_999a),
            Number::of(ONE),
            Number::of(0x3fc9_9999_9999_999a),
        ),
        Sphere::new(
            "blue",
            Number::of(0x3fe3_3333_3333_3333),
            Number::of(0xbfc9_9999_9999_999a),
            Number::of(0xbff3_3333_3333_3333),
            Number::of(0x3fd6_6666_6666_6666),
        ).with_color(
            Number::of(0x3fc9_9999_9999_999a),
            Number::of(0x3fc9_9999_9999_999a),
            Number::of(ONE),
        ),
        Sphere::new(
            "yellow",
            Number::of(0x3fc9_9999_9999_999a),
            Number::of(0x3fd3_3333_3333_3333),
            Number::of(0xbff0_0000_0000_0000),
            Number::of(0x3fc3_3333_3333_3333),
        ).with_color(
            Number::of(ONE),
            Number::of(ONE),
            Number::of(0x3fc9_9999_9999_999a),
        ),
        Sphere::new(
            "ground",
            Number::of(ZERO),
            Number::of(0xc059_2000_0000_0000),
            Number::of(0xbff0_0000_0000_0000),
            Number::of(0x4059_0000_0000_0000),
        ).with_color(
            Number::of(HALF),
            Number::of(HALF),
            Number::of(HALF),
        ),
    ]
}

/// Whether that is what the scene with several spheres asks for.
pub open spec fn is_rendering(rendering: Rendering) -> bool {
    &&& rendering.query@ == grid_query(WIDTH as nat, HEIGHT as nat)
    &&& (exists|spheres: Seq<Sphere>| #[trigger]
        is_the_scene(spheres) && rendering.plan@ == scene_steps(
            WIDTH as nat,
            HEIGHT as nat,
            scene_camera(),
            spheres,
        ))
    &&& rendering.projection matches Some(projection) && projection@ == pixel_columns(
        "final_r"@,
        "final_g"@,
        "final_b"@,
    )
    &&& rendering.width == WIDTH
    &&& rendering.height == HEIGHT
    &&& rendering.path@ == "multi_sphere.ppm"@
}

/// The scene with several spheres.
pub fn render() -> (rendering: Rendering)
    ensures
        is_rendering(rendering),
{
    let spheres: Vec<Sphere> = spheres();
    Rendering {
        query: pixel_grid(WIDTH, HEIGHT),
        plan: scene_plan(WIDTH, HEIGHT, camera(), &spheres),
        projection: Some(to_pixel_output()),
        width: WIDTH,
        height: HEIGHT,
        path: "multi_sphere.ppm".to_owned(),
    }
}

} // verus!

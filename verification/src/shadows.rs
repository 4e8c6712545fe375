//! Spheres that cast shadows.
//!
//! From each point that the camera sees, a shadow ray goes to the light. Where a
//! sphere is in its way the point lies in shadow and has the ambient light only.
use crate::formula::{Formula, Node, col, column, num, number};
use crate::ideal::{IdealRow, Reals};
use crate::number::{HALF, Number, ONE, THOUSANDTH, TWO, ZERO};
use crate::plan::{Plan, Projection, Rendering, Steps, pixel_columns, vector_steps};
use crate::portrait::is_pixel;
use crate::shadows_portrait::{is_view, law_lit_spheres, shows_lit_spheres};
use crate::text::join;
use crate::trace::{
    Ball, Camera, Side, Solid, add_meeting_ahead, ahead_before, ahead_step,
    any_present, at, brightness, brightness_at, camera_direction, camera_origin,
    chosen, clamp, clamped, grid_query, hit_index, hit_normal, hit_sphere, is_hit, meet, meeting,
    nearest, nearest_hit, normal_of_hit, only_ahead_before, pixel_grid, pixels_to_rays, point_at,
    ray_steps, sky, sky_channel, sphere_columns, surface, surface_channel,
};
use crate::vector::{Triple, Vec3, columns, numbers};
use vstd::prelude::*;

verus! {

// Image settings
pub const WIDTH: u32 = 800;

pub const HEIGHT: u32 = 600;

// Camera settings
/// Two times the width of the image over its height: 2.6666666666666665.
pub const VIEWPORT_WIDTH: u64 = 0x4005_5555_5555_5555;

pub const VIEWPORT_HEIGHT: u64 = TWO;

pub const FOCAL_LENGTH: u64 = ONE;

/// How far off the surface a shadow ray starts, so as not to meet the surface itself.
pub const SHADOW_BIAS: u64 = THOUSANDTH;

// The sky at the bottom of the image: 135, 206, 250
pub const HORIZON_R: u64 = 0x4060_e000_0000_0000;

pub const HORIZON_G: u64 = 0x4069_c000_0000_0000;

pub const HORIZON_B: u64 = 0x406f_4000_0000_0000;

/// The ambient light of the scene: 0.15.
pub const AMBIENT: u64 = 0x3fc3_3333_3333_3333;

/// A point light source.
#[derive(Clone, Copy, Debug, PartialEq, Eq, Structural)]
pub struct Light {
    pub x: Number,
    pub y: Number,
    pub z: Number,
    pub intensity: Number,
}

impl Light {
    /// A light at that place.
    pub fn new(x: Number, y: Number, z: Number, intensity: Number) -> (light: Light)
        ensures
            light == (Light { x, y, z, intensity }),
    {
        Light { x, y, z, intensity }
    }

    /// The place of the light.
    pub open spec fn position(self) -> Triple {
        numbers(self.x.bits, self.y.bits, self.z.bits)
    }
}

/// A sphere in the scene.
#[derive(Clone, Debug, PartialEq, Eq)]
pub struct Sphere {
    pub name: String,
    pub center_x: Number,
    pub center_y: Number,
    pub center_z: Number,
    pub radius: Number,
    pub color_r: Number,
    pub color_g: Number,
    pub color_b: Number,
}

impl Sphere {
    /// Whether the colour is the one given.
    pub open spec fn has_color(self, r: u64, g: u64, b: u64) -> bool {
        self.color_r.bits == r && self.color_g.bits == g && self.color_b.bits == b
    }

    /// Whether place and size are the ones given.
    pub open spec fn is_at(self, x: u64, y: u64, z: u64, radius: u64) -> bool {
        &&& self.center_x.bits == x
        &&& self.center_y.bits == y
        &&& self.center_z.bits == z
        &&& self.radius.bits == radius
    }

    /// A white sphere.
    pub fn new(name: &str, cx: Number, cy: Number, cz: Number, radius: Number) -> (sphere: Sphere)
        ensures
            sphere.name@ == name@,
            sphere.is_at(cx.bits, cy.bits, cz.bits, radius.bits),
            sphere.has_color(ONE, ONE, ONE),
    {
        Sphere {
            name: name.to_owned(),
            center_x: cx,
            center_y: cy,
            center_z: cz,
            radius,
            color_r: Number::of(ONE),
            color_g: Number::of(ONE),
            color_b: Number::of(ONE),
        }
    }

    /// The same sphere in another colour.
    pub fn with_color(self, r: Number, g: Number, b: Number) -> (sphere: Sphere)
        ensures
            sphere == (Sphere { color_r: r, color_g: g, color_b: b, ..self }),
    {
        Sphere { color_r: r, color_g: g, color_b: b, ..self }
    }
}

impl Solid for Sphere {
    open spec fn label(&self) -> Seq<char> {
        self.name@
    }

    open spec fn shape(&self) -> Ball {
        Ball {
            center_x: self.center_x,
            center_y: self.center_y,
            center_z: self.center_z,
            radius: self.radius,
        }
    }

    fn name(&self) -> (name: &str) {
        self.name.as_str()
    }

    fn ball(&self) -> (ball: Ball) {
        Ball {
            center_x: self.center_x,
            center_y: self.center_y,
            center_z: self.center_z,
            radius: self.radius,
        }
    }
}

/// The column of the parameter at which the camera's ray meets a sphere ahead.
pub open spec fn intersect_step(sphere: Sphere) -> (Seq<char>, Node) {
    ahead_step(sphere, camera_origin(), camera_direction(), "t_"@)
}

/// Adds the parameter at which the camera's ray meets the sphere, missing where
/// it passes by or the sphere lies behind.
pub fn intersect_sphere(plan: &mut Plan, sphere: &Sphere)
    ensures
        final(plan)@ == old(plan)@.push(intersect_step(*sphere)),
{
    let origin: Vec3 = Vec3::columns("origin_x", "origin_y", "origin_z");
    let direction: Vec3 = Vec3::columns("dir_x", "dir_y", "dir_z");
    add_meeting_ahead(plan, sphere, origin, direction, "t_");
}

/// The columns of all parameters at which the camera's ray meets a sphere ahead.
pub open spec fn intersect_steps(spheres: Seq<Sphere>) -> Steps {
    Seq::new(spheres.len(), |i: int| intersect_step(spheres[i]))
}

/// Adds the parameters at which the camera's ray meets the spheres.
pub fn intersect_spheres(plan: &mut Plan, spheres: &Vec<Sphere>)
    ensures
        final(plan)@ == old(plan)@ + intersect_steps(spheres@),
{
    let mut i: usize = 0;
    assert(plan@ =~= old(plan)@ + intersect_steps(spheres@).take(0));
    while i < spheres.len()
        invariant
            i <= spheres.len(),
            plan@ == old(plan)@ + intersect_steps(spheres@).take(i as int),
        decreases spheres.len() - i,
    {
        intersect_sphere(plan, &spheres[i]);
        i = i + 1;
        assert(plan@ =~= old(plan)@ + intersect_steps(spheres@).take(i as int));
    }
    assert(intersect_steps(spheres@).take(i as int) =~= intersect_steps(spheres@));
}

/// The column of the smallest parameter.
pub open spec fn nearest_step(spheres: Seq<Sphere>) -> (Seq<char>, Node) {
    ("t_nearest"@, nearest(sphere_columns(spheres, "t_"@)))
}

/// Adds the smallest of the parameters, missing where no sphere is hit.
pub fn find_nearest_hit(plan: &mut Plan, spheres: &Vec<Sphere>)
    requires
        spheres.len() > 0,
    ensures
        final(plan)@ == old(plan)@.push(nearest_step(spheres@)),
{
    plan.with_column("t_nearest", nearest_hit(spheres, "t_"));
}

/// The column of the index of the sphere that is hit.
pub open spec fn index_step(spheres: Seq<Sphere>) -> (Seq<char>, Node) {
    ("hit_sphere"@, hit_index(sphere_columns(spheres, "t_"@), column("t_nearest"@)))
}

/// Adds the index of the sphere that is hit, missing where none is.
pub fn compute_hit_sphere_index(plan: &mut Plan, spheres: &Vec<Sphere>)
    ensures
        final(plan)@ == old(plan)@.push(index_step(spheres@)),
{
    plan.with_column("hit_sphere", hit_sphere(spheres, "t_", "t_nearest"));
}

/// The point that the camera sees.
pub open spec fn hit_point() -> Triple {
    columns("hit_x"@, "hit_y"@, "hit_z"@)
}

/// The normal at that point.
pub open spec fn surface_normal() -> Triple {
    columns("normal_x"@, "normal_y"@, "normal_z"@)
}

/// The columns of the point that the camera sees and of its normal.
pub open spec fn point_steps(spheres: Seq<Sphere>) -> Steps {
    vector_steps(
        "hit_x"@,
        "hit_y"@,
        "hit_z"@,
        point_at(camera_origin(), camera_direction(), column("t_nearest"@)),
    ) + vector_steps(
        "normal_x"@,
        "normal_y"@,
        "normal_z"@,
        hit_normal(spheres, column("hit_sphere"@), hit_point()),
    )
}

/// Adds the point that the camera sees, and the normal there of the sphere that is hit.
pub fn compute_hit_point_and_normal(plan: &mut Plan, spheres: &Vec<Sphere>)
    ensures
        final(plan)@ == old(plan)@ + point_steps(spheres@),
{
    let origin: Vec3 = Vec3::columns("origin_x", "origin_y", "origin_z");
    let direction: Vec3 = Vec3::columns("dir_x", "dir_y", "dir_z");
    plan.with_vector("hit_x", "hit_y", "hit_z", at(origin, direction, &col("t_nearest")));
    let hit: Vec3 = Vec3::columns("hit_x", "hit_y", "hit_z");
    plan.with_vector(
        "normal_x",
        "normal_y",
        "normal_z",
        normal_of_hit(spheres, &col("hit_sphere"), &hit),
    );
    assert(plan@ =~= old(plan)@ + point_steps(spheres@));
}

/// The origin of the shadow ray.
pub open spec fn shadow_origin() -> Triple {
    columns("shadow_ox"@, "shadow_oy"@, "shadow_oz"@)
}

/// The direction of the shadow ray.
pub open spec fn shadow_direction() -> Triple {
    columns("shadow_dx"@, "shadow_dy"@, "shadow_dz"@)
}

/// The columns of the shadow ray, which starts just off the surface, and of the
/// distance to the light.
pub open spec fn shadow_ray_steps(light: Light) -> Steps {
    vector_steps(
        "shadow_ox"@,
        "shadow_oy"@,
        "shadow_oz"@,
        hit_point().plus(surface_normal().times(number(SHADOW_BIAS))),
    ) + vector_steps(
        "shadow_dx"@,
        "shadow_dy"@,
        "shadow_dz"@,
        light.position().minus(shadow_origin()),
    ) + seq![("light_dist"@, shadow_direction().length())]
}

/// Adds the shadow ray from the point that the camera sees towards the light.
pub fn compute_shadow_ray(plan: &mut Plan, light: &Light)
    ensures
        final(plan)@ == old(plan)@ + shadow_ray_steps(*light),
{
    let hit: Vec3 = Vec3::columns("hit_x", "hit_y", "hit_z");
    let normal: Vec3 = Vec3::columns("normal_x", "normal_y", "normal_z");
    plan.with_vector(
        "shadow_ox",
        "shadow_oy",
        "shadow_oz",
        hit.plus(normal.times(&num(SHADOW_BIAS))),
    );
    let origin: Vec3 = Vec3::columns("shadow_ox", "shadow_oy", "shadow_oz");
    plan.with_vector(
        "shadow_dx",
        "shadow_dy",
        "shadow_dz",
        Vec3::numbers(light.x, light.y, light.z).minus(origin),
    );
    let direction: Vec3 = Vec3::columns("shadow_dx", "shadow_dy", "shadow_dz");
    plan.with_column("light_dist", direction.length());
    assert(plan@ =~= old(plan)@ + shadow_ray_steps(*light));
}

/// The column of the parameter at which the shadow ray meets a sphere ahead, missing
/// unless that is before the light. The ray's direction is the way to the light, which
/// it therefore reaches at 1.
pub open spec fn shadow_step(sphere: Sphere) -> (Seq<char>, Node) {
    (
        "shadow_t_"@ + sphere.name@,
        ahead_before(
            meeting(shadow_origin(), shadow_direction(), sphere.shape(), Side::Near),
            number(ONE),
        ),
    )
}

/// Adds the parameter at which the shadow ray meets the sphere, missing unless
/// that is ahead and before the light.
pub fn shadow_intersect_sphere(plan: &mut Plan, sphere: &Sphere)
    ensures
        final(plan)@ == old(plan)@.push(shadow_step(*sphere)),
{
    let origin: Vec3 = Vec3::columns("shadow_ox", "shadow_oy", "shadow_oz");
    let direction: Vec3 = Vec3::columns("shadow_dx", "shadow_dy", "shadow_dz");
    let t: Formula = meet(origin, direction, sphere.ball(), Side::Near);
    plan.with_column(
        join("shadow_t_", sphere.name()).as_str(),
        only_ahead_before(t, num(ONE)),
    );
}

/// The columns of all parameters at which the shadow ray meets a sphere.
pub open spec fn shadow_steps(spheres: Seq<Sphere>) -> Steps {
    Seq::new(spheres.len(), |i: int| shadow_step(spheres[i]))
}

/// Adds the parameters at which the shadow ray meets the spheres.
pub fn shadow_intersect_spheres(plan: &mut Plan, spheres: &Vec<Sphere>)
    ensures
        final(plan)@ == old(plan)@ + shadow_steps(spheres@),
{
    let mut i: usize = 0;
    assert(plan@ =~= old(plan)@ + shadow_steps(spheres@).take(0));
    while i < spheres.len()
        invariant
            i <= spheres.len(),
            plan@ == old(plan)@ + shadow_steps(spheres@).take(i as int),
        decreases spheres.len() - i,
    {
        shadow_intersect_sphere(plan, &spheres[i]);
        i = i + 1;
        assert(plan@ =~= old(plan)@ + shadow_steps(spheres@).take(i as int));
    }
    assert(shadow_steps(spheres@).take(i as int) =~= shadow_steps(spheres@));
}

/// The column that tells whether the point lies in shadow: the camera sees a
/// sphere there, and the shadow ray meets any sphere.
pub open spec fn in_shadow_step(spheres: Seq<Sphere>) -> (Seq<char>, Node) {
    (
        "in_shadow"@,
        column("t_nearest"@).is_not_null().case(
            any_present(sphere_columns(spheres, "shadow_t_"@)),
            Node::Truth(false),
        ),
    )
}

/// Adds whether the point lies in shadow.
pub fn compute_in_shadow(plan: &mut Plan, spheres: &Vec<Sphere>)
    ensures
        final(plan)@ == old(plan)@.push(in_shadow_step(spheres@)),
{
    let ghost ts = sphere_columns(spheres@, "shadow_t_"@);
    let mut blocked: Formula = Formula::Truth(false);
    let mut i: usize = 0;
    assert(ts.take(0) =~= Seq::empty());
    while i < spheres.len()
        invariant
            i <= spheres.len(),
            ts == sphere_columns(spheres@, "shadow_t_"@),
            blocked@ == any_present(ts.take(i as int)),
        decreases spheres.len() - i,
    {
        let t: Formula = col(join("shadow_t_", spheres[i].name()).as_str());
        proof {
            assert(ts.take(i + 1).drop_last() =~= ts.take(i as int));
            assert(ts.take(i + 1).last() == t@);
        }
        blocked = blocked.or(t.is_not_null());
        i = i + 1;
    }
    assert(ts.take(i as int) =~= ts);
    plan.with_column(
        "in_shadow",
        col("t_nearest").is_not_null().case(blocked, Formula::Truth(false)),
    );
}

/// The column of the brightness of the point that the camera sees.
pub open spec fn lighting_step(light: Light, ambient: Number) -> (Seq<char>, Node) {
    (
        "brightness"@,
        brightness(
            light.position(),
            light.intensity.bits,
            ambient.bits,
            hit_point(),
            surface_normal(),
            column("in_shadow"@),
        ),
    )
}

/// Adds the brightness of the point that the camera sees.
pub fn compute_lighting(plan: &mut Plan, light: &Light, ambient: Number)
    ensures
        final(plan)@ == old(plan)@.push(lighting_step(*light, ambient)),
{
    let bright: Formula = brightness_at(
        Vec3::numbers(light.x, light.y, light.z),
        light.intensity,
        ambient,
        Vec3::columns("hit_x", "hit_y", "hit_z"),
        Vec3::columns("normal_x", "normal_y", "normal_z"),
        col("in_shadow"),
    );
    plan.with_column("brightness", bright);
}

/// The colour of the pixel: that of the sphere that is hit, as bright as it is
/// lit, or the sky.
pub open spec fn final_color(spheres: Seq<Sphere>) -> Triple {
    let hit = column("hit_sphere"@);
    let bright = column("brightness"@);
    let n = spheres.len();
    Triple {
        x: clamped(
            chosen(
                hit,
                Seq::new(n, |i: int| surface(spheres[i].color_r.bits, bright)),
                sky(HEIGHT as nat, HORIZON_R),
            ),
        ),
        y: clamped(
            chosen(
                hit,
                Seq::new(n, |i: int| surface(spheres[i].color_g.bits, bright)),
                sky(HEIGHT as nat, HORIZON_G),
            ),
        ),
        z: clamped(
            chosen(
                hit,
                Seq::new(n, |i: int| surface(spheres[i].color_b.bits, bright)),
                sky(HEIGHT as nat, HORIZON_B),
            ),
        ),
    }
}

/// The columns of the final colour.
pub open spec fn color_steps(spheres: Seq<Sphere>) -> Steps {
    vector_steps("final_r"@, "final_g"@, "final_b"@, final_color(spheres))
}

/// Adds the colour of the pixel: that of the sphere that is hit, as bright as it
/// is lit, or the sky.
pub fn compute_final_color(plan: &mut Plan, spheres: &Vec<Sphere>)
    ensures
        final(plan)@ == old(plan)@ + color_steps(spheres@),
{
    let hit: Formula = col("hit_sphere");
    let bright: Formula = col("brightness");
    let ghost n = spheres@.len();
    let ghost rs = Seq::new(n, |i: int| surface(spheres@[i].color_r.bits, bright@));
    let ghost gs = Seq::new(n, |i: int| surface(spheres@[i].color_g.bits, bright@));
    let ghost bs = Seq::new(n, |i: int| surface(spheres@[i].color_b.bits, bright@));
    let mut color: Vec3 = Vec3 {
        x: sky_channel(HEIGHT, HORIZON_R),
        y: sky_channel(HEIGHT, HORIZON_G),
        z: sky_channel(HEIGHT, HORIZON_B),
    };
    let mut i: usize = 0;
    proof {
        assert(rs.take(0) =~= Seq::empty());
        assert(gs.take(0) =~= Seq::empty());
        assert(bs.take(0) =~= Seq::empty());
    }
    while i < spheres.len()
        invariant
            i <= spheres.len(),
            n == spheres@.len(),
            rs == Seq::new(n, |i: int| surface(spheres@[i].color_r.bits, bright@)),
            gs == Seq::new(n, |i: int| surface(spheres@[i].color_g.bits, bright@)),
            bs == Seq::new(n, |i: int| surface(spheres@[i].color_b.bits, bright@)),
            color@.x == chosen(hit@, rs.take(i as int), sky(HEIGHT as nat, HORIZON_R)),
            color@.y == chosen(hit@, gs.take(i as int), sky(HEIGHT as nat, HORIZON_G)),
            color@.z == chosen(hit@, bs.take(i as int), sky(HEIGHT as nat, HORIZON_B)),
        decreases spheres.len() - i,
    {
        let sphere: &Sphere = &spheres[i];
        let this: Vec3 = Vec3 {
            x: surface_channel(sphere.color_r, &bright),
            y: surface_channel(sphere.color_g, &bright),
            z: surface_channel(sphere.color_b, &bright),
        };
        proof {
            assert(rs.take(i + 1).drop_last() =~= rs.take(i as int));
            assert(gs.take(i + 1).drop_last() =~= gs.take(i as int));
            assert(bs.take(i + 1).drop_last() =~= bs.take(i as int));
            assert(rs.take(i + 1).last() == this@.x);
            assert(gs.take(i + 1).last() == this@.y);
            assert(bs.take(i + 1).last() == this@.z);
        }
        color = Vec3::if_else(&is_hit(&hit, i), this, color);
        i = i + 1;
    }
    proof {
        assert(rs.take(i as int) =~= rs);
        assert(gs.take(i as int) =~= gs);
        assert(bs.take(i as int) =~= bs);
    }
    plan.with_vector(
        "final_r",
        "final_g",
        "final_b",
        Vec3 { x: clamp(color.x), y: clamp(color.y), z: clamp(color.z) },
    );
}

/// The columns of the result: the pixel's place and its final colour.
pub fn to_pixel_output() -> (projection: Projection)
    ensures
        projection@ == pixel_columns("final_r"@, "final_g"@, "final_b"@),
{
    Projection::pixels("final_r", "final_g", "final_b")
}

/// All columns of the scene, for an image of that size.
pub open spec fn scene_steps(
    width: nat,
    height: nat,
    camera: Camera,
    spheres: Seq<Sphere>,
    light: Light,
    ambient: Number,
) -> Steps {
    ray_steps(width, height, camera) + intersect_steps(spheres) + seq![
        nearest_step(spheres),
        index_step(spheres),
    ] + point_steps(spheres) + shadow_ray_steps(light) + shadow_steps(spheres) + seq![
        in_shadow_step(spheres),
        lighting_step(light, ambient),
    ] + color_steps(spheres)
}

/// All columns of the scene, for an image of that size.
pub fn scene_plan(
    width: u32,
    height: u32,
    camera: Camera,
    spheres: &Vec<Sphere>,
    light: &Light,
    ambient: Number,
) -> (plan: Plan)
    requires
        spheres.len() > 0,
    ensures
        plan@ == scene_steps(width as nat, height as nat, camera, spheres@, *light, ambient),
        forall|r: Reals, row: IdealRow, x: real, y: real|
            is_view(r, width as nat, height as nat, camera, spheres@) && #[trigger] is_pixel(
                r,
                row,
                x,
                y,
            ) ==> shows_lit_spheres(
                r,
                r.run(plan@, row),
                width as nat,
                height as nat,
                camera,
                spheres@,
                *light,
                ambient,
                x,
                y,
            ),
{
    let mut plan: Plan = Plan::new();
    pixels_to_rays(&mut plan, width, height, camera);
    intersect_spheres(&mut plan, spheres);
    find_nearest_hit(&mut plan, spheres);
    compute_hit_sphere_index(&mut plan, spheres);
    compute_hit_point_and_normal(&mut plan, spheres);
    compute_shadow_ray(&mut plan, light);
    shadow_intersect_spheres(&mut plan, spheres);
    compute_in_shadow(&mut plan, spheres);
    compute_lighting(&mut plan, light, ambient);
    compute_final_color(&mut plan, spheres);
    assert(plan@ =~= scene_steps(
        width as nat,
        height as nat,
        camera,
        spheres@,
        *light,
        ambient,
    ));
    proof {
        let (w, h, all) = (width as nat, height as nat, spheres@);
        assert forall|r: Reals, row: IdealRow, x: real, y: real|
            is_view(r, w, h, camera, all) && #[trigger] is_pixel(
                r,
                row,
                x,
                y,
            ) implies shows_lit_spheres(
            r,
            r.run(plan@, row),
            w,
            h,
            camera,
            all,
            *light,
            ambient,
            x,
            y,
        ) by {
            law_lit_spheres(r, w, h, camera, all, *light, ambient, row, x, y);
        }
    }
    plan
}

/// The camera of the scene.
pub open spec fn scene_camera() -> Camera {
    Camera {
        viewport_width: Number { bits: VIEWPORT_WIDTH },
        viewport_height: Number { bits: VIEWPORT_HEIGHT },
        focal_length: Number { bits: FOCAL_LENGTH },
    }
}

/// The camera of the scene.
pub fn camera() -> (camera: Camera)
    ensures
        camera == scene_camera(),
{
    Camera {
        viewport_width: Number::of(VIEWPORT_WIDTH),
        viewport_height: Number::of(VIEWPORT_HEIGHT),
        focal_length: Number::of(FOCAL_LENGTH),
    }
}

/// The light of the scene: above and to the left, at (-2, 3, 1), of intensity 1.
pub open spec fn the_light() -> Light {
    Light {
        x: Number { bits: 0xc000_0000_0000_0000 },
        y: Number { bits: 0x4008_0000_0000_0000 },
        z: Number { bits: ONE },
        intensity: Number { bits: ONE },
    }
}

/// The light of the scene.
pub fn light() -> (light: Light)
    ensures
        light == the_light(),
{
    Light::new(
        Number::of(0xc000_0000_0000_0000),
        Number::of(0x4008_0000_0000_0000),
        Number::of(ONE),
        Number::of(ONE),
    )
}

/// The spheres of the scene.
///
/// - `red`: large, casts its shadow on the ground, at (0.0, 0.0, -1.5), of radius 0.5, coloured (0.9, 0.2, 0.2)
/// - `green`: to the left, at (-0.9, -0.1, -1.0), of radius 0.35, coloured (0.2, 0.8, 0.2)
/// - `blue`: to the right, partly in the shadow of red, at (0.7, -0.2, -1.8), of radius 0.3, coloured (0.2, 0.3, 0.9)
/// - `yellow`: small, in front, at (-0.2, -0.35, -0.6), of radius 0.15, coloured (0.95, 0.9, 0.1)
/// - `ground`: the floor, at (0.0, -100.5, -1.0), of radius 100.0, coloured (0.4, 0.4, 0.4)
pub open spec fn is_the_scene(spheres: Seq<Sphere>) -> bool {
    &&& spheres.len() == 5
    &&& spheres[0].name@ == "red"@
    &&& spheres[0].is_at(ZERO, ZERO, 0xbff8_0000_0000_0000, HALF)
    &&& spheres[0].has_color(0x3fec_cccc_cccc_cccd, 0x3fc9_9999_9999_999a, 0x3fc9_9999_9999_999a)
    &&& spheres[1].name@ == "green"@
    &&& spheres[1].is_at(0xbfec_cccc_cccc_cccd, 0xbfb9_9999_9999_999a, 0xbff0_0000_0000_0000, 0x3fd6_6666_6666_6666)
    &&& spheres[1].has_color(0x3fc9_9999_9999_999a, 0x3fe9_9999_9999_999a, 0x3fc9_9999_9999_999a)
    &&& spheres[2].name@ == "blue"@
    &&& spheres[2].is_at(0x3fe6_6666_6666_6666, 0xbfc9_9999_9999_999a, 0xbffc_cccc_cccc_cccd, 0x3fd3_3333_3333_3333)
    &&& spheres[2].has_color(0x3fc9_9999_9999_999a, 0x3fd3_3333_3333_3333, 0x3fec_cccc_cccc_cccd)
    &&& spheres[3].name@ == "yellow"@
    &&& spheres[3].is_at(0xbfc9_9999_9999_999a, 0xbfd6_6666_6666_6666, 0xbfe3_3333_3333_3333, 0x3fc3_3333_3333_3333)
    &&& spheres[3].has_color(0x3fee_6666_6666_6666, 0x3fec_cccc_cccc_cccd, 0x3fb9_9999_9999_999a)
    &&& spheres[4].name@ == "ground"@
    &&& spheres[4].is_at(ZERO, 0xc059_2000_0000_0000, 0xbff0_0000_0000_0000, 0x4059_0000_0000_0000)
    &&& spheres[4].has_color(0x3fd9_9999_9999_999a, 0x3fd9_9999_9999_999a, 0x3fd9_9999_9999_999a)
}

/// The spheres of the scene.
pub fn spheres() -> (spheres: Vec<Sphere>)
    ensures
        is_the_scene(spheres@),
{
    vec![
        Sphere::new(
            "red",
            Number::of(ZERO),
            Number::of(ZERO),
            Number::of(0xbff8_0000_0000_0000),
            Number::of(HALF),
        ).with_color(
            Number::of(0x3fec_cccc_cccc_cccd),
            Number::of(0x3fc9_9999_9999_999a),
            Number::of(0x3fc9_9999_9999_999a),
        ),
        Sphere::new(
            "green",
            Number::of(0xbfec_cccc_cccc_cccd),
            Number::of(0xbfb9_9999_9999_999a),
            Number::of(0xbff0_0000_0000_0000),
            Number::of(0x3fd6_6666_6666_6666),
        ).with_color(
            Number::of(0x3fc9_9999_9999_999a),
            Number::of(0x3fe9_9999_9999_999a),
            Number::of(0x3fc9_9999_9999_999a),
        ),
        Sphere::new(
            "blue",
            Number::of(0x3fe6_6666_6666_6666),
            Number::of(0xbfc9_9999_9999_999a),
            Number::of(0xbffc_cccc_cccc_cccd),
            Number::of(0x3fd3_3333_3333_3333),
        ).with_color(
            Number::of(0x3fc9_9999_9999_999a),
            Number::of(0x3fd3_3333_3333_3333),
            Number::of(0x3fec_cccc_cccc_cccd),
        ),
        Sphere::new(
            "yellow",
            Number::of(0xbfc9_9999_9999_999a),
            Number::of(0xbfd6_6666_6666_6666),
            Number::of(0xbfe3_3333_3333_3333),
            Number::of(0x3fc3_3333_3333_3333),
        ).with_color(
            Number::of(0x3fee_6666_6666_6666),
            Number::of(0x3fec_cccc_cccc_cccd),
            Number::of(0x3fb9_9999_9999_999a),
        ),
        Sphere::new(
            "ground",
            Number::of(ZERO),
            Number::of(0xc059_2000_0000_0000),
            Number::of(0xbff0_0000_0000_0000),
            Number::of(0x4059_0000_0000_0000),
        ).with_color(
            Number::of(0x3fd9_9999_9999_999a),
            Number::of(0x3fd9_9999_9999_999a),
            Number::of(0x3fd9_9999_9999_999a),
        ),
    ]
}

/// Whether that is what the scene with shadows asks for.
pub open spec fn is_rendering(rendering: Rendering) -> bool {
    &&& rendering.query@ == grid_query(WIDTH as nat, HEIGHT as nat)
    &&& (exists|spheres: Seq<Sphere>| #[trigger]
        is_the_scene(spheres) && rendering.plan@ == scene_steps(
            WIDTH as nat,
            HEIGHT as nat,
            scene_camera(),
            spheres,
            the_light(),
            Number { bits: AMBIENT },
        ))
    &&& rendering.projection matches Some(projection) && projection@ == pixel_columns(
        "final_r"@,
        "final_g"@,
        "final_b"@,
    )
    &&& rendering.width == WIDTH
    &&& rendering.height == HEIGHT
    &&& rendering.path@ == "shadows.ppm"@
}

/// The scene with shadows.
pub fn render() -> (rendering: Rendering)
    ensures
        is_rendering(rendering),
{
    let spheres: Vec<Sphere> = spheres();
    Rendering {
        query: pixel_grid(WIDTH, HEIGHT),
        plan: scene_plan(WIDTH, HEIGHT, camera(), &spheres, &light(), Number::of(AMBIENT)),
        projection: Some(to_pixel_output()),
        width: WIDTH,
        height: HEIGHT,
        path: "shadows.ppm".to_owned(),
    }
}

} // verus!

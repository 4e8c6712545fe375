//! A glass sphere among others: refraction in and out of it, and reflection.
//!
//! A ray enters the glass at the front (air to glass), travels through it, leaves
//! it at the back (glass to air) and goes on to what is seen through the glass.
//! Snell's law gives the directions, Schlick's approximation how much of the
//! light is reflected at the front instead.
use crate::formula::{Formula, Node, col, column, lit, num, number};
use crate::glass_portrait::{glasshouse, law_glass_camera, looks_through};
use crate::ideal::{IdealRow, Reals};
use crate::number::{FIVE, HALF, Number, ONE, THOUSANDTH, TWO, ZERO, less};
use crate::plan::{Plan, Projection, Rendering, Steps, pixel_columns, vector_steps};
use crate::portrait::is_pixel;
use crate::text::join;
use crate::trace::{
    Ball, Camera, Side, Solid, ahead, ahead_before, any_present, at, brightness, brightness_at,
    chosen, clamp, clamped, direction_through_pixel, grid_query, hit_index, hit_normal, hit_sphere,
    is_hit, meet, meeting, nearest, nearest_hit, normal_of_hit, only_ahead, only_ahead_before,
    pixel_grid, point_at, sky, sky_channel, sphere_columns, surface, surface_channel,
    view_direction,
};
use crate::vector::{Triple, Vec3, columns, numbers};
use vstd::prelude::*;

verus! {

// Image settings
pub const WIDTH: u32 = 400;

pub const HEIGHT: u32 = 300;

// Camera settings
/// Two times the width of the image over its height: 2.6666666666666665.
pub const VIEWPORT_WIDTH: u64 = 0x4005_5555_5555_5555;

pub const VIEWPORT_HEIGHT: u64 = TWO;

pub const FOCAL_LENGTH: u64 = ONE;

/// How far off the surface a shadow ray starts.
pub const SHADOW_BIAS: u64 = THOUSANDTH;

/// How far off the surface a reflected or refracted ray starts.
pub const RAY_BIAS: u64 = THOUSANDTH;

// Refractive indices: 1 for air
/// The refractive index of glass: 1.5.
pub const GLASS_IOR: u64 = 0x3ff8_0000_0000_0000;

/// The index of air over that of glass: 0.6666666666666666.
pub const AIR_OVER_GLASS: u64 = 0x3fe5_5555_5555_5555;

/// The index of glass over that of air: 1.5.
pub const GLASS_OVER_AIR: u64 = 0x3ff8_0000_0000_0000;

/// How much light glass reflects at a right angle, the square of
/// (1 - 1.5) / (1 + 1.5): 0.04000000000000001.
pub const STRAIGHT_REFLECTANCE: u64 = 0x3fa4_7ae1_47ae_147c;

// The sky at the bottom of the image: 135, 206, 250
pub const HORIZON_R: u64 = 0x4060_e000_0000_0000;

pub const HORIZON_G: u64 = 0x4069_c000_0000_0000;

pub const HORIZON_B: u64 = 0x406f_4000_0000_0000;

/// The ambient light of the scene: 0.15.
pub const AMBIENT: u64 = 0x3fc3_3333_3333_3333;

/// A point light source.
#[derive(Clone, Copy, Debug, PartialEq, Eq, Structural)]
pub struct Light {
    pub x: Number,
    pub y: Number,
    pub z: Number,
    pub intensity: Number,
}

impl Light {
    /// A light at that place.
    pub fn new(x: Number, y: Number, z: Number, intensity: Number) -> (light: Light)
        ensures
            light == (Light { x, y, z, intensity }),
    {
        Light { x, y, z, intensity }
    }

    /// The place of the light.
    pub open spec fn position(self) -> Triple {
        numbers(self.x.bits, self.y.bits, self.z.bits)
    }
}

/// A sphere with the properties of its material.
#[derive(Clone, Debug, PartialEq, Eq)]
pub struct Sphere {
    pub name: String,
    pub center_x: Number,
    pub center_y: Number,
    pub center_z: Number,
    pub radius: Number,
    pub color_r: Number,
    pub color_g: Number,
    pub color_b: Number,
    pub reflectivity: Number,
    pub refractive_index: Number,
}

impl Sphere {
    /// Whether the colour is the one given.
    pub open spec fn has_color(self, r: u64, g: u64, b: u64) -> bool {
        self.color_r.bits == r && self.color_g.bits == g && self.color_b.bits == b
    }

    /// Whether place and size are the ones given.
    pub open spec fn is_at(self, x: u64, y: u64, z: u64, radius: u64) -> bool {
        &&& self.center_x.bits == x
        &&& self.center_y.bits == y
        &&& self.center_z.bits == z
        &&& self.radius.bits == radius
    }

    /// Whether the properties of the material are the ones given.
    pub open spec fn has_material(self, reflectivity: u64, refractive_index: u64) -> bool {
        self.reflectivity.bits == reflectivity && self.refractive_index.bits == refractive_index
    }

    /// A white, dull sphere that light does not pass.
    pub fn new(name: &str, cx: Number, cy: Number, cz: Number, radius: Number) -> (sphere: Sphere)
        ensures
            sphere.name@ == name@,
            sphere.is_at(cx.bits, cy.bits, cz.bits, radius.bits),
            sphere.has_color(ONE, ONE, ONE),
            sphere.has_material(ZERO, ZERO),
    {
        Sphere {
            name: name.to_owned(),
            center_x: cx,
            center_y: cy,
            center_z: cz,
            radius,
            color_r: Number::of(ONE),
            color_g: Number::of(ONE),
            color_b: Number::of(ONE),
            reflectivity: Number::of(ZERO),
            refractive_index: Number::of(ZERO),
        }
    }

    /// The same sphere in another colour.
    pub fn with_color(self, r: Number, g: Number, b: Number) -> (sphere: Sphere)
        ensures
            sphere == (Sphere { color_r: r, color_g: g, color_b: b, ..self }),
    {
        Sphere { color_r: r, color_g: g, color_b: b, ..self }
    }

    /// The same sphere with a reflectivity, brought into the range from 0 to 1.
    pub fn with_reflectivity(self, r: Number) -> (sphere: Sphere)
        ensures
            sphere == (Sphere {
                reflectivity: Number {
                    bits: if less(r.bits, ZERO) {
                        ZERO
                    } else if less(ONE, r.bits) {
                        ONE
                    } else {
                        r.bits
                    },
                },
                ..self
            }),
    {
        Sphere { reflectivity: r.clamped_to_unit(), ..self }
    }

    /// The same sphere of glass with that refractive index, without reflectivity.
    pub fn with_glass(self, ior: Number) -> (sphere: Sphere)
        ensures
            sphere == (Sphere {
                refractive_index: ior,
                reflectivity: Number { bits: ZERO },
                ..self
            }),
    {
        Sphere { refractive_index: ior, reflectivity: Number::of(ZERO), ..self }
    }

    /// Whether light passes: the refractive index is greater than 0.
    pub open spec fn transparent(self) -> bool {
        less(ZERO, self.refractive_index.bits)
    }

    /// Whether light passes.
    pub fn is_transparent(&self) -> (transparent: bool)
        ensures
            transparent == self.transparent(),
    {
        self.refractive_index.is_positive()
    }
}

impl Solid for Sphere {
    open spec fn label(&self) -> Seq<char> {
        self.name@
    }

    open spec fn shape(&self) -> Ball {
        Ball {
            center_x: self.center_x,
            center_y: self.center_y,
            center_z: self.center_z,
            radius: self.radius,
        }
    }

    fn name(&self) -> (name: &str) {
        self.name.as_str()
    }

    fn ball(&self) -> (ball: Ball) {
        Ball {
            center_x: self.center_x,
            center_y: self.center_y,
            center_z: self.center_z,
            radius: self.radius,
        }
    }
}

// ---------------------------------------------------------------------------
// Rays
// ---------------------------------------------------------------------------

/// The camera of the scene.
pub open spec fn scene_camera() -> Camera {
    Camera {
        viewport_width: Number { bits: VIEWPORT_WIDTH },
        viewport_height: Number { bits: VIEWPORT_HEIGHT },
        focal_length: Number { bits: FOCAL_LENGTH },
    }
}

/// The columns of the camera's rays, of length one.
pub open spec fn ray_steps(width: nat, height: nat) -> Steps {
    vector_steps("ray_ox"@, "ray_oy"@, "ray_oz"@, numbers(ZERO, ZERO, ZERO)) + vector_steps(
        "ray_dx"@,
        "ray_dy"@,
        "ray_dz"@,
        view_direction(width, height, scene_camera()).normalized(),
    )
}

/// Adds the camera's rays.
pub fn pixels_to_rays(plan: &mut Plan, width: u32, height: u32)
    ensures
        final(plan)@ == old(plan)@ + ray_steps(width as nat, height as nat),
{
    let camera = Camera {
        viewport_width: Number::of(VIEWPORT_WIDTH),
        viewport_height: Number::of(VIEWPORT_HEIGHT),
        focal_length: Number::of(FOCAL_LENGTH),
    };
    plan.with_vector(
        "ray_ox",
        "ray_oy",
        "ray_oz",
        Vec3::numbers(Number::of(ZERO), Number::of(ZERO), Number::of(ZERO)),
    );
    plan.with_vector(
        "ray_dx",
        "ray_dy",
        "ray_dz",
        direction_through_pixel(width, height, camera).normalized(),
    );
    assert(plan@ =~= old(plan)@ + ray_steps(width as nat, height as nat));
}

/// The origin of the ray of that name.
pub open spec fn ray_origin(prefix: Seq<char>) -> Triple {
    columns(prefix + "_ox"@, prefix + "_oy"@, prefix + "_oz"@)
}

/// The direction of the ray of that name.
pub open spec fn ray_direction(prefix: Seq<char>) -> Triple {
    columns(prefix + "_dx"@, prefix + "_dy"@, prefix + "_dz"@)
}

/// The origin of the ray of that name.
fn origin_of(prefix: &str) -> (origin: Vec3)
    ensures
        origin@ == ray_origin(prefix@),
{
    Vec3::columns(
        join(prefix, "_ox").as_str(),
        join(prefix, "_oy").as_str(),
        join(prefix, "_oz").as_str(),
    )
}

/// The direction of the ray of that name.
fn direction_of(prefix: &str) -> (direction: Vec3)
    ensures
        direction@ == ray_direction(prefix@),
{
    Vec3::columns(
        join(prefix, "_dx").as_str(),
        join(prefix, "_dy").as_str(),
        join(prefix, "_dz").as_str(),
    )
}

/// The smallest parameter at which a ray meets a sphere ahead: where it enters or,
/// from inside, where it leaves; missing where it passes by or the sphere lies behind.
pub open spec fn first_ahead(origin: Triple, direction: Triple, ball: Ball) -> Node {
    let near = meeting(origin, direction, ball, Side::Near);
    let far = meeting(origin, direction, ball, Side::Far);
    near.gt(number(THOUSANDTH)).case(near, ahead(far))
}

/// The column of the smallest parameter at which a ray meets a sphere ahead.
pub open spec fn intersect_step(
    sphere: Sphere,
    ray_prefix: Seq<char>,
    result_prefix: Seq<char>,
) -> (Seq<char>, Node) {
    (
        result_prefix + "_t_"@ + sphere.name@,
        first_ahead(ray_origin(ray_prefix), ray_direction(ray_prefix), sphere.shape()),
    )
}

/// Adds the smallest parameter at which a ray meets the sphere ahead, missing where
/// it passes by or the sphere lies behind.
pub fn intersect_sphere_generic(
    plan: &mut Plan,
    sphere: &Sphere,
    ray_prefix: &str,
    result_prefix: &str,
)
    ensures
        final(plan)@ == old(plan)@.push(intersect_step(*sphere, ray_prefix@, result_prefix@)),
{
    let origin: Vec3 = origin_of(ray_prefix);
    let direction: Vec3 = direction_of(ray_prefix);
    let far: Formula = meet(origin.copy(), direction.copy(), sphere.ball(), Side::Far);
    let near: Formula = meet(origin, direction, sphere.ball(), Side::Near);
    let t: Formula = near.copy().gt(num(THOUSANDTH)).case(near, only_ahead(far));
    plan.with_column(join(join(result_prefix, "_t_").as_str(), sphere.name()).as_str(), t);
}

/// The columns of the parameters at which a ray meets the spheres ahead.
pub open spec fn intersect_steps(
    spheres: Seq<Sphere>,
    ray_prefix: Seq<char>,
    result_prefix: Seq<char>,
) -> Steps {
    Seq::new(spheres.len(), |i: int| intersect_step(spheres[i], ray_prefix, result_prefix))
}

/// Adds the parameters at which a ray meets the spheres ahead.
pub fn intersect_spheres(
    plan: &mut Plan,
    spheres: &Vec<Sphere>,
    ray_prefix: &str,
    result_prefix: &str,
)
    ensures
        final(plan)@ == old(plan)@ + intersect_steps(spheres@, ray_prefix@, result_prefix@),
{
    let ghost steps = intersect_steps(spheres@, ray_prefix@, result_prefix@);
    let mut i: usize = 0;
    assert(plan@ =~= old(plan)@ + steps.take(0));
    while i < spheres.len()
        invariant
            i <= spheres.len(),
            steps == intersect_steps(spheres@, ray_prefix@, result_prefix@),
            plan@ == old(plan)@ + steps.take(i as int),
        decreases spheres.len() - i,
    {
        intersect_sphere_generic(plan, &spheres[i], ray_prefix, result_prefix);
        i = i + 1;
        assert(plan@ =~= old(plan)@ + steps.take(i as int));
    }
    assert(steps.take(i as int) =~= steps);
}

/// The column of the parameter at which a ray from inside leaves the sphere.
pub open spec fn exit_step(
    sphere: Sphere,
    ray_prefix: Seq<char>,
    result_prefix: Seq<char>,
) -> (Seq<char>, Node) {
    (
        result_prefix + "_exit_t"@,
        ahead(
            meeting(ray_origin(ray_prefix), ray_direction(ray_prefix), sphere.shape(), Side::Far),
        ),
    )
}

/// Adds the parameter at which a ray from inside leaves the sphere.
pub fn intersect_sphere_from_inside(
    plan: &mut Plan,
    sphere: &Sphere,
    ray_prefix: &str,
    result_prefix: &str,
)
    ensures
        final(plan)@ == old(plan)@.push(exit_step(*sphere, ray_prefix@, result_prefix@)),
{
    let t: Formula = meet(
        origin_of(ray_prefix),
        direction_of(ray_prefix),
        sphere.ball(),
        Side::Far,
    );
    plan.with_column(join(result_prefix, "_exit_t").as_str(), only_ahead(t));
}

/// The column of the smallest parameter.
pub open spec fn nearest_step(spheres: Seq<Sphere>, result_prefix: Seq<char>) -> (Seq<char>, Node) {
    (
        result_prefix + "_t_nearest"@,
        nearest(sphere_columns(spheres, result_prefix + "_t_"@)),
    )
}

/// Adds the smallest of the parameters, missing where no sphere is hit.
pub fn find_nearest_hit_generic(plan: &mut Plan, spheres: &Vec<Sphere>, result_prefix: &str)
    requires
        spheres.len() > 0,
    ensures
        final(plan)@ == old(plan)@.push(nearest_step(spheres@, result_prefix@)),
{
    let t: Formula = nearest_hit(spheres, join(result_prefix, "_t_").as_str());
    plan.with_column(join(result_prefix, "_t_nearest").as_str(), t);
}

/// The column of the index of the sphere that is hit.
pub open spec fn index_step(spheres: Seq<Sphere>, result_prefix: Seq<char>) -> (Seq<char>, Node) {
    (
        result_prefix + "_hit_idx"@,
        hit_index(
            sphere_columns(spheres, result_prefix + "_t_"@),
            column(result_prefix + "_t_nearest"@),
        ),
    )
}

/// Adds the index of the sphere that is hit, missing where none is.
pub fn compute_hit_index_generic(plan: &mut Plan, spheres: &Vec<Sphere>, result_prefix: &str)
    ensures
        final(plan)@ == old(plan)@.push(index_step(spheres@, result_prefix@)),
{
    let index: Formula = hit_sphere(
        spheres,
        join(result_prefix, "_t_").as_str(),
        join(result_prefix, "_t_nearest").as_str(),
    );
    plan.with_column(join(result_prefix, "_hit_idx").as_str(), index);
}

// ---------------------------------------------------------------------------
// What the camera sees
// ---------------------------------------------------------------------------

/// The camera's ray: its direction.
pub open spec fn camera_direction() -> Triple {
    columns("ray_dx"@, "ray_dy"@, "ray_dz"@)
}

/// The point that the camera sees.
pub open spec fn hit_point() -> Triple {
    columns("hit_x"@, "hit_y"@, "hit_z"@)
}

/// The normal at that point.
pub open spec fn surface_normal() -> Triple {
    columns("normal_x"@, "normal_y"@, "normal_z"@)
}

/// The refractive indices of the spheres.
pub open spec fn refractive_indices(spheres: Seq<Sphere>) -> Seq<Node> {
    Seq::new(spheres.len(), |i: int| number(spheres[i].refractive_index.bits))
}

/// The columns of the point that the camera sees, its normal, and the refractive
/// index of the sphere that is hit.
pub open spec fn primary_hit_steps(spheres: Seq<Sphere>) -> Steps {
    let hit = column("primary_hit_idx"@);
    vector_steps(
        "hit_x"@,
        "hit_y"@,
        "hit_z"@,
        point_at(
            columns("ray_ox"@, "ray_oy"@, "ray_oz"@),
            camera_direction(),
            column("primary_t_nearest"@),
        ),
    ) + vector_steps(
        "normal_x"@,
        "normal_y"@,
        "normal_z"@,
        hit_normal(spheres, hit, hit_point()),
    ) + seq![("hit_ior"@, chosen(hit, refractive_indices(spheres), number(ZERO)))]
}

/// Adds the point that the camera sees, its normal, and the refractive index of
/// the sphere that is hit.
pub fn compute_primary_hit(plan: &mut Plan, spheres: &Vec<Sphere>)
    ensures
        final(plan)@ == old(plan)@ + primary_hit_steps(spheres@),
{
    let hit: Formula = col("primary_hit_idx");
    let point: Vec3 = at(
        Vec3::columns("ray_ox", "ray_oy", "ray_oz"),
        Vec3::columns("ray_dx", "ray_dy", "ray_dz"),
        &col("primary_t_nearest"),
    );
    plan.with_vector("hit_x", "hit_y", "hit_z", point);
    let seen: Vec3 = Vec3::columns("hit_x", "hit_y", "hit_z");
    plan.with_vector(
        "normal_x",
        "normal_y",
        "normal_z",
        normal_of_hit(spheres, &hit, &seen),
    );
    let ghost options = refractive_indices(spheres@);
    let mut ior: Formula = num(ZERO);
    let mut i: usize = 0;
    assert(options.take(0) =~= Seq::empty());
    while i < spheres.len()
        invariant
            i <= spheres.len(),
            options == refractive_indices(spheres@),
            ior@ == chosen(hit@, options.take(i as int), number(ZERO)),
        decreases spheres.len() - i,
    {
        proof {
            assert(options.take(i + 1).drop_last() =~= options.take(i as int));
            assert(options.take(i + 1).last() == number(spheres@[i as int].refractive_index.bits));
        }
        ior = is_hit(&hit, i).case(lit(spheres[i].refractive_index), ior);
        i = i + 1;
    }
    assert(options.take(i as int) =~= options);
    plan.with_column("hit_ior", ior);
    assert(plan@ =~= old(plan)@ + primary_hit_steps(spheres@));
}

/// The direction of a ray reflected at a surface with that normal.
pub open spec fn reflected(incident: Triple, normal: Triple) -> Triple {
    incident.minus(normal.scaled(number(TWO).times(incident.dot(normal))))
}

/// The direction of a ray reflected at a surface with that normal.
fn reflect(incident: Vec3, normal: Vec3) -> (direction: Vec3)
    ensures
        direction@ == reflected(incident@, normal@),
{
    let factor: Formula = num(TWO).times(incident.dot(&normal));
    incident.minus(normal.scaled(&factor))
}

/// The columns of the ray that is reflected where the camera's ray arrives.
pub open spec fn reflection_steps() -> Steps {
    vector_steps(
        "reflect_ox"@,
        "reflect_oy"@,
        "reflect_oz"@,
        hit_point().plus(surface_normal().times(number(RAY_BIAS))),
    ) + vector_steps(
        "reflect_dx"@,
        "reflect_dy"@,
        "reflect_dz"@,
        reflected(camera_direction(), surface_normal()),
    )
}

/// Adds the ray that is reflected where the camera's ray arrives.
pub fn compute_reflection_ray(plan: &mut Plan)
    ensures
        final(plan)@ == old(plan)@ + reflection_steps(),
{
    let incident: Vec3 = Vec3::columns("ray_dx", "ray_dy", "ray_dz");
    let normal: Vec3 = Vec3::columns("normal_x", "normal_y", "normal_z");
    let hit: Vec3 = Vec3::columns("hit_x", "hit_y", "hit_z");
    plan.with_vector(
        "reflect_ox",
        "reflect_oy",
        "reflect_oz",
        hit.plus(normal.copy().times(&num(RAY_BIAS))),
    );
    plan.with_vector("reflect_dx", "reflect_dy", "reflect_dz", reflect(incident, normal));
    assert(plan@ =~= old(plan)@ + reflection_steps());
}

// ---------------------------------------------------------------------------
// Through the glass
// ---------------------------------------------------------------------------

/// The cosine of the angle between a ray and the normal, without its sign.
pub open spec fn incidence(incident: Triple, normal: Triple) -> Node {
    let cos = number(ZERO).minus(incident.dot(normal));
    cos.lt(number(ZERO)).case(number(ZERO).minus(cos), cos)
}

/// The square of the sine of the refracted angle, by Snell's law.
pub open spec fn refracted_sine_squared(eta: u64, cos_i: Node) -> Node {
    number(eta).times(number(eta)).times(number(ONE).minus(cos_i.times(cos_i)))
}

/// The cosine of the refracted angle; 0 where there is none.
pub open spec fn refracted_cosine(eta: u64, cos_i: Node) -> Node {
    let squared = number(ONE).minus(refracted_sine_squared(eta, cos_i));
    squared.lt(number(ZERO)).case(number(ZERO), squared).sqrt()
}

/// The direction of a ray refracted at a surface with that normal, of length one.
/// The normal points to the side that the ray comes from.
pub open spec fn refracted(eta: u64, incident: Triple, normal: Triple) -> Triple {
    let cos_i = incidence(incident, normal);
    let factor = number(eta).times(cos_i).minus(refracted_cosine(eta, cos_i));
    incident.scaled(number(eta)).plus(normal.scaled(factor)).normalized()
}

/// The cosine of the angle between a ray and the normal, without its sign.
fn incidence_of(incident: &Vec3, normal: &Vec3) -> (cos: Formula)
    ensures
        cos@ == incidence(incident@, normal@),
{
    let cos: Formula = num(ZERO).minus(incident.dot(normal));
    cos.copy().lt(num(ZERO)).case(num(ZERO).minus(cos.copy()), cos)
}

/// The square of the sine of the refracted angle, by Snell's law.
fn sine_squared(eta: u64, cos_i: &Formula) -> (sine: Formula)
    ensures
        sine@ == refracted_sine_squared(eta, cos_i@),
{
    num(eta).times(num(eta)).times(num(ONE).minus(cos_i.copy().times(cos_i.copy())))
}

/// The direction of a ray refracted at a surface with that normal, of length one.
fn refract(eta: u64, incident: &Vec3, normal: &Vec3) -> (direction: Vec3)
    ensures
        direction@ == refracted(eta, incident@, normal@),
{
    let cos_i: Formula = incidence_of(incident, normal);
    let squared: Formula = num(ONE).minus(sine_squared(eta, &cos_i));
    let cos_t: Formula = squared.copy().lt(num(ZERO)).case(num(ZERO), squared).sqrt();
    let factor: Formula = num(eta).times(cos_i).minus(cos_t);
    let bent: Vec3 = incident.copy().scaled(&num(eta)).plus(normal.copy().scaled(&factor));
    bent.normalized()
}

/// How much of the light is reflected where a ray arrives at glass, by Schlick's
/// approximation: from 0 to 1.
pub open spec fn reflectance(cos_i: Node) -> Node {
    let base = number(STRAIGHT_REFLECTANCE);
    let sum = base.plus(
        number(ONE).minus(base).times(number(ONE).minus(cos_i).power(number(FIVE))),
    );
    sum.lt(number(ZERO)).case(number(ZERO), sum.gt(number(ONE)).case(number(ONE), sum))
}

/// How much of the light is reflected where a ray arrives at glass.
fn reflectance_at(cos_i: Formula) -> (share: Formula)
    ensures
        share@ == reflectance(cos_i@),
{
    let bend: Formula = num(ONE).minus(cos_i).power(num(FIVE));
    let sum: Formula = num(STRAIGHT_REFLECTANCE).plus(
        num(ONE).minus(num(STRAIGHT_REFLECTANCE)).times(bend),
    );
    let upper: Formula = sum.copy().gt(num(ONE)).case(num(ONE), sum.copy());
    sum.lt(num(ZERO)).case(num(ZERO), upper)
}

/// The columns of the ray inside the glass, which starts just under the surface,
/// and of the share of the light that does not enter.
pub open spec fn entry_steps() -> Steps {
    vector_steps(
        "internal_ox"@,
        "internal_oy"@,
        "internal_oz"@,
        hit_point().minus(surface_normal().times(number(RAY_BIAS))),
    ) + vector_steps(
        "internal_dx"@,
        "internal_dy"@,
        "internal_dz"@,
        refracted(AIR_OVER_GLASS, camera_direction(), surface_normal()),
    ) + seq![("fresnel"@, reflectance(incidence(camera_direction(), surface_normal())))]
}

/// Adds the ray inside the glass and the share of the light that does not enter.
pub fn compute_refraction_entry(plan: &mut Plan)
    ensures
        final(plan)@ == old(plan)@ + entry_steps(),
{
    let incident: Vec3 = Vec3::columns("ray_dx", "ray_dy", "ray_dz");
    let normal: Vec3 = Vec3::columns("normal_x", "normal_y", "normal_z");
    let hit: Vec3 = Vec3::columns("hit_x", "hit_y", "hit_z");
    plan.with_vector(
        "internal_ox",
        "internal_oy",
        "internal_oz",
        hit.minus(normal.copy().times(&num(RAY_BIAS))),
    );
    plan.with_vector(
        "internal_dx",
        "internal_dy",
        "internal_dz",
        refract(AIR_OVER_GLASS, &incident, &normal),
    );
    plan.with_column("fresnel", reflectance_at(incidence_of(&incident, &normal)));
    assert(plan@ =~= old(plan)@ + entry_steps());
}

/// The direction of the ray inside the glass.
pub open spec fn internal_direction() -> Triple {
    columns("internal_dx"@, "internal_dy"@, "internal_dz"@)
}

/// The point at which that ray leaves the glass.
pub open spec fn exit_point() -> Triple {
    columns("exit_x"@, "exit_y"@, "exit_z"@)
}

/// The outward normal at that point.
pub open spec fn exit_normal() -> Triple {
    columns("exit_normal_x"@, "exit_normal_y"@, "exit_normal_z"@)
}

/// The columns of the point at which the ray leaves the glass, and of its normal.
pub open spec fn exit_point_steps(glass: Sphere) -> Steps {
    vector_steps(
        "exit_x"@,
        "exit_y"@,
        "exit_z"@,
        point_at(
            columns("internal_ox"@, "internal_oy"@, "internal_oz"@),
            internal_direction(),
            column("internal_exit_t"@),
        ),
    ) + vector_steps(
        "exit_normal_x"@,
        "exit_normal_y"@,
        "exit_normal_z"@,
        glass.shape().normal_at(exit_point()),
    )
}

/// Adds the point at which the ray leaves the glass, and its normal.
pub fn compute_glass_exit_point(plan: &mut Plan, glass_sphere: &Sphere)
    ensures
        final(plan)@ == old(plan)@ + exit_point_steps(*glass_sphere),
{
    let point: Vec3 = at(
        Vec3::columns("internal_ox", "internal_oy", "internal_oz"),
        Vec3::columns("internal_dx", "internal_dy", "internal_dz"),
        &col("internal_exit_t"),
    );
    plan.with_vector("exit_x", "exit_y", "exit_z", point);
    let exit: Vec3 = Vec3::columns("exit_x", "exit_y", "exit_z");
    plan.with_vector(
        "exit_normal_x",
        "exit_normal_y",
        "exit_normal_z",
        glass_sphere.ball().normal(exit),
    );
    assert(plan@ =~= old(plan)@ + exit_point_steps(*glass_sphere));
}

/// The inward normal where the ray leaves the glass.
pub open spec fn inward_normal() -> Triple {
    numbers(ZERO, ZERO, ZERO).minus(exit_normal())
}

/// Whether the ray arrives at so flat an angle that it cannot leave the glass.
pub open spec fn is_totally_reflected() -> Node {
    refracted_sine_squared(
        GLASS_OVER_AIR,
        incidence(internal_direction(), inward_normal()),
    ).gt(number(ONE))
}

/// The columns of the ray that goes on behind the glass, which starts just off
/// the surface: refracted, or reflected where it cannot leave.
pub open spec fn refraction_exit_steps() -> Steps {
    vector_steps(
        "refract_ox"@,
        "refract_oy"@,
        "refract_oz"@,
        exit_point().plus(exit_normal().times(number(RAY_BIAS))),
    ) + vector_steps(
        "refract_dx"@,
        "refract_dy"@,
        "refract_dz"@,
        Triple::if_else(
            is_totally_reflected(),
            reflected(internal_direction(), inward_normal()),
            refracted(GLASS_OVER_AIR, internal_direction(), inward_normal()),
        ),
    ) + seq![("total_internal_reflection"@, is_totally_reflected())]
}

/// Adds the ray that goes on behind the glass.
pub fn compute_refraction_exit(plan: &mut Plan)
    ensures
        final(plan)@ == old(plan)@ + refraction_exit_steps(),
{
    let incident: Vec3 = Vec3::columns("internal_dx", "internal_dy", "internal_dz");
    let outward: Vec3 = Vec3::columns("exit_normal_x", "exit_normal_y", "exit_normal_z");
    let inward: Vec3 = Vec3::numbers(
        Number::of(ZERO),
        Number::of(ZERO),
        Number::of(ZERO),
    ).minus(outward.copy());
    let cos_i: Formula = incidence_of(&incident, &inward);
    let total: Formula = sine_squared(GLASS_OVER_AIR, &cos_i).gt(num(ONE));
    let bent: Vec3 = refract(GLASS_OVER_AIR, &incident, &inward);
    let direction: Vec3 = Vec3::if_else(&total, reflect(incident, inward), bent);
    let exit: Vec3 = Vec3::columns("exit_x", "exit_y", "exit_z");
    plan.with_vector(
        "refract_ox",
        "refract_oy",
        "refract_oz",
        exit.plus(outward.times(&num(RAY_BIAS))),
    );
    plan.with_vector("refract_dx", "refract_dy", "refract_dz", direction);
    plan.with_column("total_internal_reflection", total);
    assert(plan@ =~= old(plan)@ + refraction_exit_steps());
}

/// The columns of the point at which the ray of that name arrives, and of its normal.
pub open spec fn arrival_steps(spheres: Seq<Sphere>, prefix: Seq<char>) -> Steps {
    vector_steps(
        prefix + "_hit_x"@,
        prefix + "_hit_y"@,
        prefix + "_hit_z"@,
        point_at(ray_origin(prefix), ray_direction(prefix), column(prefix + "_t_nearest"@)),
    ) + vector_steps(
        prefix + "_normal_x"@,
        prefix + "_normal_y"@,
        prefix + "_normal_z"@,
        hit_normal(
            spheres,
            column(prefix + "_hit_idx"@),
            columns(prefix + "_hit_x"@, prefix + "_hit_y"@, prefix + "_hit_z"@),
        ),
    )
}

/// Adds the point at which the ray of that name arrives, and its normal.
fn compute_arrival(plan: &mut Plan, spheres: &Vec<Sphere>, prefix: &str)
    ensures
        final(plan)@ == old(plan)@ + arrival_steps(spheres@, prefix@),
{
    let x: String = join(prefix, "_hit_x");
    let y: String = join(prefix, "_hit_y");
    let z: String = join(prefix, "_hit_z");
    let t: Formula = col(join(prefix, "_t_nearest").as_str());
    plan.with_vector(
        x.as_str(),
        y.as_str(),
        z.as_str(),
        at(origin_of(prefix), direction_of(prefix), &t),
    );
    let point: Vec3 = Vec3::columns(x.as_str(), y.as_str(), z.as_str());
    let normal: Vec3 = normal_of_hit(
        spheres,
        &col(join(prefix, "_hit_idx").as_str()),
        &point,
    );
    plan.with_vector(
        join(prefix, "_normal_x").as_str(),
        join(prefix, "_normal_y").as_str(),
        join(prefix, "_normal_z").as_str(),
        normal,
    );
    assert(plan@ =~= old(plan)@ + arrival_steps(spheres@, prefix@));
}

/// Adds the point at which the refracted ray arrives, and its normal.
pub fn compute_refract_hit(plan: &mut Plan, spheres: &Vec<Sphere>)
    ensures
        final(plan)@ == old(plan)@ + arrival_steps(spheres@, "refract"@),
{
    compute_arrival(plan, spheres, "refract");
}

/// Adds the point at which the reflected ray arrives, and its normal.
pub fn compute_reflect_hit(plan: &mut Plan, spheres: &Vec<Sphere>)
    ensures
        final(plan)@ == old(plan)@ + arrival_steps(spheres@, "reflect"@),
{
    compute_arrival(plan, spheres, "reflect");
}

// ---------------------------------------------------------------------------
// Shadows and light
// ---------------------------------------------------------------------------

/// The spheres that cast a shadow: those that light does not pass.
pub open spec fn opaque(spheres: Seq<Sphere>) -> Seq<Sphere> {
    spheres.filter(|sphere: Sphere| !sphere.transparent())
}

/// The vector in the columns `prefix` followed by `_x`, `_y` and `_z`.
pub open spec fn vector_in(prefix: Seq<char>) -> Triple {
    columns(prefix + "_x"@, prefix + "_y"@, prefix + "_z"@)
}

/// The vector in the columns `prefix` followed by `_x`, `_y` and `_z`.
fn vector_of(prefix: &str) -> (v: Vec3)
    ensures
        v@ == vector_in(prefix@),
{
    Vec3::columns(
        join(prefix, "_x").as_str(),
        join(prefix, "_y").as_str(),
        join(prefix, "_z").as_str(),
    )
}

/// The columns of the shadow ray, from just off the surface to the light, and of
/// the distance of the light.
pub open spec fn shadow_ray_steps(
    light: Light,
    prefix: Seq<char>,
    hit_prefix: Seq<char>,
) -> Steps {
    let point = vector_in(hit_prefix);
    let to_light = light.position().minus(point);
    vector_steps(
        prefix + "shadow_ox"@,
        prefix + "shadow_oy"@,
        prefix + "shadow_oz"@,
        point.plus(vector_in(prefix + "normal"@).times(number(SHADOW_BIAS))),
    ) + vector_steps(
        prefix + "shadow_dx"@,
        prefix + "shadow_dy"@,
        prefix + "shadow_dz"@,
        to_light.normalized(),
    ) + seq![(prefix + "light_dist"@, to_light.length())]
}

/// The column of the parameter at which the shadow ray meets a sphere before it
/// arrives at the light.
pub open spec fn shadow_step(sphere: Sphere, prefix: Seq<char>) -> (Seq<char>, Node) {
    (
        prefix + "shadow_t_"@ + sphere.name@,
        ahead_before(
            meeting(
                ray_origin(prefix + "shadow"@),
                ray_direction(prefix + "shadow"@),
                sphere.shape(),
                Side::Near,
            ),
            column(prefix + "light_dist"@),
        ),
    )
}

/// Those columns for the spheres that cast a shadow.
pub open spec fn shadow_steps(spheres: Seq<Sphere>, prefix: Seq<char>) -> Steps {
    opaque(spheres).map_values(|sphere: Sphere| shadow_step(sphere, prefix))
}

/// The column that says whether a sphere is between the point and the light.
pub open spec fn in_shadow_step(spheres: Seq<Sphere>, prefix: Seq<char>) -> (Seq<char>, Node) {
    (
        prefix + "in_shadow"@,
        any_present(sphere_columns(opaque(spheres), prefix + "shadow_t_"@)),
    )
}

/// The columns that say whether the point of that name lies in shadow. Light
/// passes through glass.
pub open spec fn point_shadow_steps(
    spheres: Seq<Sphere>,
    light: Light,
    prefix: Seq<char>,
    hit_prefix: Seq<char>,
) -> Steps {
    shadow_ray_steps(light, prefix, hit_prefix) + shadow_steps(spheres, prefix) + seq![
        in_shadow_step(spheres, prefix),
    ]
}

/// Adds the shadow ray and the distance of the light.
fn compute_shadow_ray(plan: &mut Plan, light: &Light, prefix: &str, hit_prefix: &str)
    ensures
        final(plan)@ == old(plan)@ + shadow_ray_steps(*light, prefix@, hit_prefix@),
{
    let point: Vec3 = vector_of(hit_prefix);
    let normal: Vec3 = vector_of(join(prefix, "normal").as_str());
    plan.with_vector(
        join(prefix, "shadow_ox").as_str(),
        join(prefix, "shadow_oy").as_str(),
        join(prefix, "shadow_oz").as_str(),
        point.copy().plus(normal.times(&num(SHADOW_BIAS))),
    );
    let to_light: Vec3 = Vec3::numbers(light.x, light.y, light.z).minus(point);
    let distance: Formula = to_light.length();
    plan.with_vector(
        join(prefix, "shadow_dx").as_str(),
        join(prefix, "shadow_dy").as_str(),
        join(prefix, "shadow_dz").as_str(),
        to_light.normalized(),
    );
    plan.with_column(join(prefix, "light_dist").as_str(), distance);
    assert(plan@ =~= old(plan)@ + shadow_ray_steps(*light, prefix@, hit_prefix@));
}

/// The opaque ones among one sphere more.
proof fn lemma_opaque_next(spheres: Seq<Sphere>, i: int)
    requires
        0 <= i < spheres.len(),
    ensures
        spheres[i].transparent() ==> opaque(spheres.take(i + 1)) == opaque(spheres.take(i)),
        !spheres[i].transparent() ==> opaque(spheres.take(i + 1)) == opaque(spheres.take(i)).push(
            spheres[i],
        ),
{
    reveal(Seq::filter);
    assert(spheres.take(i + 1).drop_last() =~= spheres.take(i));
}

/// Adds the columns that say whether the point of that name lies in shadow.
pub fn compute_shadows(
    plan: &mut Plan,
    spheres: &Vec<Sphere>,
    light: &Light,
    prefix: &str,
    hit_prefix: &str,
)
    ensures
        final(plan)@ == old(plan)@ + point_shadow_steps(spheres@, *light, prefix@, hit_prefix@),
{
    compute_shadow_ray(plan, light, prefix, hit_prefix);
    let ghost base = plan@;
    let ghost columns_of = prefix@ + "shadow_t_"@;
    let ray: String = join(prefix, "shadow");
    let names: String = join(prefix, "shadow_t_");
    let distance: String = join(prefix, "light_dist");
    let mut in_shadow: Formula = Formula::Truth(false);
    let mut i: usize = 0;
    proof {
        reveal(Seq::filter);
        assert(spheres@.take(0) =~= Seq::empty());
        assert(sphere_columns(opaque(spheres@.take(0)), columns_of) =~= Seq::empty());
        assert(plan@ =~= base + shadow_steps(spheres@.take(0), prefix@));
    }
    while i < spheres.len()
        invariant
            i <= spheres.len(),
            columns_of == prefix@ + "shadow_t_"@,
            ray@ == prefix@ + "shadow"@,
            names@ == columns_of,
            distance@ == prefix@ + "light_dist"@,
            plan@ == base + shadow_steps(spheres@.take(i as int), prefix@),
            in_shadow@ == any_present(sphere_columns(opaque(spheres@.take(i as int)), columns_of)),
        decreases spheres.len() - i,
    {
        let sphere: &Sphere = &spheres[i];
        proof {
            lemma_opaque_next(spheres@, i as int);
        }
        if !sphere.is_transparent() {
            let t: Formula = meet(
                origin_of(ray.as_str()),
                direction_of(ray.as_str()),
                sphere.ball(),
                Side::Near,
            );
            let name: String = join(names.as_str(), sphere.name());
            plan.with_column(name.as_str(), only_ahead_before(t, col(distance.as_str())));
            in_shadow = in_shadow.or(col(name.as_str()).is_not_null());
            proof {
                let before = opaque(spheres@.take(i as int));
                let now = opaque(spheres@.take(i + 1));
                assert(sphere_columns(now, columns_of).drop_last() =~= sphere_columns(
                    before,
                    columns_of,
                ));
                assert(plan@ =~= base + shadow_steps(spheres@.take(i + 1), prefix@));
            }
        }
        i = i + 1;
    }
    assert(spheres@.take(i as int) =~= spheres@);
    plan.with_column(join(prefix, "in_shadow").as_str(), in_shadow);
    assert(plan@ =~= old(plan)@ + point_shadow_steps(spheres@, *light, prefix@, hit_prefix@));
}

/// The column of how bright a point is.
pub open spec fn lighting_step(
    light: Light,
    ambient: Number,
    hit_prefix: Seq<char>,
    normal_prefix: Seq<char>,
    shadow_col: Seq<char>,
    result_col: Seq<char>,
) -> (Seq<char>, Node) {
    (
        result_col,
        brightness(
            light.position(),
            light.intensity.bits,
            ambient.bits,
            vector_in(hit_prefix),
            vector_in(normal_prefix),
            column(shadow_col),
        ),
    )
}

/// Adds how bright a point is.
pub fn compute_lighting_for_hit(
    plan: &mut Plan,
    light: &Light,
    ambient: Number,
    hit_prefix: &str,
    normal_prefix: &str,
    shadow_col: &str,
    result_col: &str,
)
    ensures
        final(plan)@ == old(plan)@.push(
            lighting_step(
                *light,
                ambient,
                hit_prefix@,
                normal_prefix@,
                shadow_col@,
                result_col@,
            ),
        ),
{
    let bright: Formula = brightness_at(
        Vec3::numbers(light.x, light.y, light.z),
        light.intensity,
        ambient,
        vector_of(hit_prefix),
        vector_of(normal_prefix),
        col(shadow_col),
    );
    plan.with_column(result_col, bright);
}

// ---------------------------------------------------------------------------
// Colour
// ---------------------------------------------------------------------------

/// The colour of the sky, white at the top of the image.
pub open spec fn sky_color() -> Triple {
    Triple {
        x: sky(HEIGHT as nat, HORIZON_R),
        y: sky(HEIGHT as nat, HORIZON_G),
        z: sky(HEIGHT as nat, HORIZON_B),
    }
}

/// The colour of a sphere lit with that brightness.
pub open spec fn surface_color(sphere: Sphere, bright: Node) -> Triple {
    Triple {
        x: surface(sphere.color_r.bits, bright),
        y: surface(sphere.color_g.bits, bright),
        z: surface(sphere.color_b.bits, bright),
    }
}

/// The colour of the sphere whose index is `hit`, lit with that brightness. Where
/// there is none it is the sky's; with `opaque_only`, where light passes the sphere too.
pub open spec fn color_of_hit(
    spheres: Seq<Sphere>,
    hit: Node,
    bright: Node,
    opaque_only: bool,
) -> Triple
    decreases spheres.len(),
{
    if spheres.len() == 0 {
        sky_color()
    } else {
        let before = color_of_hit(spheres.drop_last(), hit, bright, opaque_only);
        if opaque_only && spheres.last().transparent() {
            before
        } else {
            Triple::if_else(
                hit.equals(Node::Index((spheres.len() - 1) as i32)),
                surface_color(spheres.last(), bright),
                before,
            )
        }
    }
}

/// The reflectivities of the spheres.
pub open spec fn reflectivities(spheres: Seq<Sphere>) -> Seq<Node> {
    Seq::new(spheres.len(), |i: int| number(spheres[i].reflectivity.bits))
}

/// A mixture of two colours: `share` of the first, the rest of the second.
pub open spec fn glass_color(reflected: Triple, refracted: Triple, share: Node) -> Triple {
    reflected.times(share).plus(refracted.times(number(ONE).minus(share)))
}

/// A mixture of two colours: `share` of the second, the rest of the first.
pub open spec fn opaque_color(surface: Triple, reflected: Triple, share: Node) -> Triple {
    surface.times(number(ONE).minus(share)).plus(reflected.times(share))
}

/// The colour that the camera sees: that of the sky where no sphere is hit; on
/// glass what is reflected and what is seen through it, in the ratio that
/// `fresnel` gives; elsewhere the surface and what it reflects.
pub open spec fn seen_color(spheres: Seq<Sphere>) -> Triple {
    let hit = column("primary_hit_idx"@);
    let surface = color_of_hit(spheres, hit, column("primary_brightness"@), true);
    let reflection = color_of_hit(
        spheres,
        column("reflect_hit_idx"@),
        column("reflect_brightness"@),
        false,
    );
    let behind = color_of_hit(
        spheres,
        column("refract_hit_idx"@),
        column("refract_brightness"@),
        false,
    );
    let reflectivity = chosen(hit, reflectivities(spheres), number(ZERO));
    Triple::if_else(
        column("primary_t_nearest"@).is_not_null(),
        Triple::if_else(
            column("hit_ior"@).gt(number(ZERO)),
            glass_color(reflection, behind, column("fresnel"@)),
            opaque_color(surface, reflection, reflectivity),
        ),
        sky_color(),
    )
}

/// The columns of the final colour, each from 0 to 255.
pub open spec fn color_steps(spheres: Seq<Sphere>) -> Steps {
    let seen = seen_color(spheres);
    vector_steps(
        "final_r"@,
        "final_g"@,
        "final_b"@,
        Triple { x: clamped(seen.x), y: clamped(seen.y), z: clamped(seen.z) },
    )
}

/// The colour of the sky.
fn color_of_sky() -> (color: Vec3)
    ensures
        color@ == sky_color(),
{
    Vec3 {
        x: sky_channel(HEIGHT, HORIZON_R),
        y: sky_channel(HEIGHT, HORIZON_G),
        z: sky_channel(HEIGHT, HORIZON_B),
    }
}

/// The colour of the sphere whose index is `hit`.
fn hit_color(
    spheres: &Vec<Sphere>,
    hit: &Formula,
    bright: &Formula,
    opaque_only: bool,
) -> (color: Vec3)
    ensures
        color@ == color_of_hit(spheres@, hit@, bright@, opaque_only),
{
    let mut color: Vec3 = color_of_sky();
    let mut i: usize = 0;
    while i < spheres.len()
        invariant
            i <= spheres.len(),
            color@ == color_of_hit(spheres@.take(i as int), hit@, bright@, opaque_only),
        decreases spheres.len() - i,
    {
        let sphere: &Sphere = &spheres[i];
        assert(spheres@.take(i + 1).drop_last() =~= spheres@.take(i as int));
        if !(opaque_only && sphere.is_transparent()) {
            let this: Vec3 = Vec3 {
                x: surface_channel(sphere.color_r, bright),
                y: surface_channel(sphere.color_g, bright),
                z: surface_channel(sphere.color_b, bright),
            };
            color = Vec3::if_else(&is_hit(hit, i), this, color);
        }
        i = i + 1;
    }
    assert(spheres@.take(i as int) =~= spheres@);
    color
}

/// The reflectivity of the sphere whose index is `hit`, 0 where there is none.
fn hit_reflectivity(spheres: &Vec<Sphere>, hit: &Formula) -> (reflectivity: Formula)
    ensures
        reflectivity@ == chosen(hit@, reflectivities(spheres@), number(ZERO)),
{
    let ghost options = reflectivities(spheres@);
    let mut reflectivity: Formula = num(ZERO);
    let mut i: usize = 0;
    assert(options.take(0) =~= Seq::empty());
    while i < spheres.len()
        invariant
            i <= spheres.len(),
            options == reflectivities(spheres@),
            reflectivity@ == chosen(hit@, options.take(i as int), number(ZERO)),
        decreases spheres.len() - i,
    {
        proof {
            assert(options.take(i + 1).drop_last() =~= options.take(i as int));
            assert(options.take(i + 1).last() == number(spheres@[i as int].reflectivity.bits));
        }
        reflectivity = is_hit(hit, i).case(lit(spheres[i].reflectivity), reflectivity);
        i = i + 1;
    }
    assert(options.take(i as int) =~= options);
    reflectivity
}

/// Adds the final colour.
pub fn compute_final_color(plan: &mut Plan, spheres: &Vec<Sphere>)
    ensures
        final(plan)@ == old(plan)@ + color_steps(spheres@),
{
    let hit: Formula = col("primary_hit_idx");
    let surface: Vec3 = hit_color(spheres, &hit, &col("primary_brightness"), true);
    let reflection: Vec3 = hit_color(
        spheres,
        &col("reflect_hit_idx"),
        &col("reflect_brightness"),
        false,
    );
    let behind: Vec3 = hit_color(
        spheres,
        &col("refract_hit_idx"),
        &col("refract_brightness"),
        false,
    );
    let reflectivity: Formula = hit_reflectivity(spheres, &hit);
    let share: Formula = col("fresnel");
    let glass: Vec3 = reflection.copy().times(&share).plus(
        behind.times(&num(ONE).minus(share.copy())),
    );
    let opaque: Vec3 = surface.times(&num(ONE).minus(reflectivity.copy())).plus(
        reflection.times(&reflectivity),
    );
    let of_hit: Vec3 = Vec3::if_else(&col("hit_ior").gt(num(ZERO)), glass, opaque);
    let seen: Vec3 = Vec3::if_else(
        &col("primary_t_nearest").is_not_null(),
        of_hit,
        color_of_sky(),
    );
    plan.with_vector(
        "final_r",
        "final_g",
        "final_b",
        Vec3 { x: clamp(seen.x), y: clamp(seen.y), z: clamp(seen.z) },
    );
}

/// The columns of the result: the pixel's place and its final colour.
pub fn to_pixel_output() -> (projection: Projection)
    ensures
        projection@ == pixel_columns("final_r"@, "final_g"@, "final_b"@),
{
    Projection::pixels("final_r", "final_g", "final_b")
}

// ---------------------------------------------------------------------------
// The scene
// ---------------------------------------------------------------------------

/// The columns that say what a ray meets: where each sphere, which is the nearest.
pub open spec fn trace_steps(
    spheres: Seq<Sphere>,
    ray_prefix: Seq<char>,
    result_prefix: Seq<char>,
) -> Steps {
    intersect_steps(spheres, ray_prefix, result_prefix) + seq![
        nearest_step(spheres, result_prefix),
        index_step(spheres, result_prefix),
    ]
}

/// Adds what a ray meets.
fn trace(plan: &mut Plan, spheres: &Vec<Sphere>, ray_prefix: &str, result_prefix: &str)
    requires
        spheres.len() > 0,
    ensures
        final(plan)@ == old(plan)@ + trace_steps(spheres@, ray_prefix@, result_prefix@),
{
    intersect_spheres(plan, spheres, ray_prefix, result_prefix);
    find_nearest_hit_generic(plan, spheres, result_prefix);
    compute_hit_index_generic(plan, spheres, result_prefix);
    assert(plan@ =~= old(plan)@ + trace_steps(spheres@, ray_prefix@, result_prefix@));
}

/// The columns of the camera's rays, what they meet, and how they go on from there.
pub open spec fn ray_path_steps(
    width: nat,
    height: nat,
    spheres: Seq<Sphere>,
    glass: Sphere,
) -> Steps {
    ray_steps(width, height) + trace_steps(spheres, "ray"@, "primary"@) + primary_hit_steps(spheres)
        + reflection_steps() + entry_steps() + seq![exit_step(glass, "internal"@, "internal"@)]
        + exit_point_steps(glass) + refraction_exit_steps() + trace_steps(
        spheres,
        "reflect"@,
        "reflect"@,
    ) + arrival_steps(spheres, "reflect"@) + trace_steps(spheres, "refract"@, "refract"@)
        + arrival_steps(spheres, "refract"@)
}

/// The columns of the light on the three points that make up a pixel.
pub open spec fn light_steps(spheres: Seq<Sphere>, light: Light, ambient: Number) -> Steps {
    point_shadow_steps(spheres, light, ""@, "hit"@) + point_shadow_steps(
        spheres,
        light,
        "reflect_"@,
        "reflect_hit"@,
    ) + point_shadow_steps(spheres, light, "refract_"@, "refract_hit"@) + seq![
        lighting_step(
            light,
            ambient,
            "hit"@,
            "normal"@,
            "in_shadow"@,
            "primary_brightness"@,
        ),
        lighting_step(
            light,
            ambient,
            "reflect_hit"@,
            "reflect_normal"@,
            "reflect_in_shadow"@,
            "reflect_brightness"@,
        ),
        lighting_step(
            light,
            ambient,
            "refract_hit"@,
            "refract_normal"@,
            "refract_in_shadow"@,
            "refract_brightness"@,
        ),
    ]
}

/// All columns of the scene, for an image of that size.
pub open spec fn scene_steps(
    width: nat,
    height: nat,
    spheres: Seq<Sphere>,
    glass: Sphere,
    light: Light,
    ambient: Number,
) -> Steps {
    ray_path_steps(width, height, spheres, glass) + light_steps(spheres, light, ambient)
        + color_steps(spheres)
}

/// Adds the camera's rays, what they meet, and how they go on from there.
fn add_ray_paths(
    plan: &mut Plan,
    width: u32,
    height: u32,
    spheres: &Vec<Sphere>,
    glass_sphere: &Sphere,
)
    requires
        spheres.len() > 0,
    ensures
        final(plan)@ == old(plan)@ + ray_path_steps(
            width as nat,
            height as nat,
            spheres@,
            *glass_sphere,
        ),
{
    pixels_to_rays(plan, width, height);
    trace(plan, spheres, "ray", "primary");
    compute_primary_hit(plan, spheres);
    compute_reflection_ray(plan);
    compute_refraction_entry(plan);
    intersect_sphere_from_inside(plan, glass_sphere, "internal", "internal");
    compute_glass_exit_point(plan, glass_sphere);
    compute_refraction_exit(plan);
    trace(plan, spheres, "reflect", "reflect");
    compute_reflect_hit(plan, spheres);
    trace(plan, spheres, "refract", "refract");
    compute_refract_hit(plan, spheres);
    assert(plan@ =~= old(plan)@ + ray_path_steps(
        width as nat,
        height as nat,
        spheres@,
        *glass_sphere,
    ));
}

/// Adds the light on the three points that make up a pixel.
fn add_light(plan: &mut Plan, spheres: &Vec<Sphere>, light: &Light, ambient: Number)
    ensures
        final(plan)@ == old(plan)@ + light_steps(spheres@, *light, ambient),
{
    compute_shadows(plan, spheres, light, "", "hit");
    compute_shadows(plan, spheres, light, "reflect_", "reflect_hit");
    compute_shadows(plan, spheres, light, "refract_", "refract_hit");
    compute_lighting_for_hit(
        plan,
        light,
        ambient,
        "hit",
        "normal",
        "in_shadow",
        "primary_brightness",
    );
    compute_lighting_for_hit(
        plan,
        light,
        ambient,
        "reflect_hit",
        "reflect_normal",
        "reflect_in_shadow",
        "reflect_brightness",
    );
    compute_lighting_for_hit(
        plan,
        light,
        ambient,
        "refract_hit",
        "refract_normal",
        "refract_in_shadow",
        "refract_brightness",
    );
    assert(plan@ =~= old(plan)@ + light_steps(spheres@, *light, ambient));
}

/// All columns of the scene, for an image of that size. `glass_sphere` is the one
/// that the refracted rays go through.
pub fn scene_plan(
    width: u32,
    height: u32,
    spheres: &Vec<Sphere>,
    glass_sphere: &Sphere,
    light: &Light,
    ambient: Number,
) -> (plan: Plan)
    requires
        spheres.len() > 0,
    ensures
        plan@ == scene_steps(
            width as nat,
            height as nat,
            spheres@,
            *glass_sphere,
            *light,
            ambient,
        ),
        forall|r: Reals, row: IdealRow, x: real, y: real|
            glasshouse(
                width as nat,
                height as nat,
                spheres@,
                *glass_sphere,
                *light,
                ambient,
            ).is_view(r) && #[trigger] is_pixel(r, row, x, y) ==> looks_through(
                r,
                r.run(plan@, row),
                width as nat,
                height as nat,
                x,
                y,
            ),
{
    let mut plan: Plan = Plan::new();
    add_ray_paths(&mut plan, width, height, spheres, glass_sphere);
    add_light(&mut plan, spheres, light, ambient);
    compute_final_color(&mut plan, spheres);
    assert(plan@ =~= scene_steps(
        width as nat,
        height as nat,
        spheres@,
        *glass_sphere,
        *light,
        ambient,
    ));
    proof {
        let s = glasshouse(
            width as nat,
            height as nat,
            spheres@,
            *glass_sphere,
            *light,
            ambient,
        );
        assert forall|r: Reals, row: IdealRow, x: real, y: real|
            s.is_view(r) && #[trigger] is_pixel(r, row, x, y) implies looks_through(
            r,
            r.run(plan@, row),
            width as nat,
            height as nat,
            x,
            y,
        ) by {
            law_glass_camera(r, s, row, x, y);
        }
    }
    plan
}

/// The light of the scene: above and to the left, at (-3, 3, 1), of intensity 1.
pub open spec fn the_light() -> Light {
    Light {
        x: Number { bits: 0xc008_0000_0000_0000 },
        y: Number { bits: 0x4008_0000_0000_0000 },
        z: Number { bits: ONE },
        intensity: Number { bits: ONE },
    }
}

/// The light of the scene.
pub fn light() -> (light: Light)
    ensures
        light == the_light(),
{
    Light::new(
        Number::of(0xc008_0000_0000_0000),
        Number::of(0x4008_0000_0000_0000),
        Number::of(ONE),
        Number::of(ONE),
    )
}

/// Whether that is the glass sphere of the scene: `glass`, white, at
/// (0.0, 0.0, -1.2), of radius 0.5 and refractive index 1.5.
pub open spec fn is_the_glass(sphere: Sphere) -> bool {
    &&& sphere.name@ == "glass"@
    &&& sphere.is_at(ZERO, ZERO, 0xbff3_3333_3333_3333, HALF)
    &&& sphere.has_color(ONE, ONE, ONE)
    &&& sphere.has_material(ZERO, GLASS_IOR)
}

/// The glass sphere of the scene.
pub fn glass_sphere() -> (sphere: Sphere)
    ensures
        is_the_glass(sphere),
{
    Sphere::new(
        "glass",
        Number::of(ZERO),
        Number::of(ZERO),
        Number::of(0xbff3_3333_3333_3333),
        Number::of(HALF),
    ).with_glass(Number::of(GLASS_IOR))
}

/// The spheres of the scene.
///
/// - `glass`, as above
/// - `red`: behind and to the right, at (0.8, -0.1, -2.0), of radius 0.4, coloured (0.9, 0.1, 0.1), reflectivity 0.1
/// - `blue`: to the left, at (-0.8, -0.2, -1.5), of radius 0.35, coloured (0.1, 0.2, 0.9), reflectivity 0.2
/// - `yellow`: behind, at (0.0, 0.1, -2.5), of radius 0.5, coloured (0.9, 0.8, 0.1), reflectivity 0.1
/// - `ground`: the floor, at (0.0, -100.5, -1.0), of radius 100.0, coloured (0.4, 0.4, 0.45), reflectivity 0.2
pub open spec fn is_the_scene(spheres: Seq<Sphere>) -> bool {
    &&& spheres.len() == 5
    &&& is_the_glass(spheres[0])
    &&& spheres[1].name@ == "red"@
    &&& spheres[1].is_at(
        0x3fe9_9999_9999_999a,
        0xbfb9_9999_9999_999a,
        0xc000_0000_0000_0000,
        0x3fd9_9999_9999_999a,
    )
    &&& spheres[1].has_color(
        0x3fec_cccc_cccc_cccd,
        0x3fb9_9999_9999_999a,
        0x3fb9_9999_9999_999a,
    )
    &&& spheres[1].has_material(0x3fb9_9999_9999_999a, ZERO)
    &&& spheres[2].name@ == "blue"@
    &&& spheres[2].is_at(
        0xbfe9_9999_9999_999a,
        0xbfc9_9999_9999_999a,
        0xbff8_0000_0000_0000,
        0x3fd6_6666_6666_6666,
    )
    &&& spheres[2].has_color(
        0x3fb9_9999_9999_999a,
        0x3fc9_9999_9999_999a,
        0x3fec_cccc_cccc_cccd,
    )
    &&& spheres[2].has_material(0x3fc9_9999_9999_999a, ZERO)
    &&& spheres[3].name@ == "yellow"@
    &&& spheres[3].is_at(
        ZERO,
        0x3fb9_9999_9999_999a,
        0xc004_0000_0000_0000,
        HALF,
    )
    &&& spheres[3].has_color(
        0x3fec_cccc_cccc_cccd,
        0x3fe9_9999_9999_999a,
        0x3fb9_9999_9999_999a,
    )
    &&& spheres[3].has_material(0x3fb9_9999_9999_999a, ZERO)
    &&& spheres[4].name@ == "ground"@
    &&& spheres[4].is_at(
        ZERO,
        0xc059_2000_0000_0000,
        0xbff0_0000_0000_0000,
        0x4059_0000_0000_0000,
    )
    &&& spheres[4].has_color(
        0x3fd9_9999_9999_999a,
        0x3fd9_9999_9999_999a,
        0x3fdc_cccc_cccc_cccd,
    )
    &&& spheres[4].has_material(0x3fc9_9999_9999_999a, ZERO)
}

/// The spheres of the scene.
pub fn spheres() -> (spheres: Vec<Sphere>)
    ensures
        is_the_scene(spheres@),
{
    vec![
        glass_sphere(),
        Sphere::new(
            "red",
            Number::of(0x3fe9_9999_9999_999a),
            Number::of(0xbfb9_9999_9999_999a),
            Number::of(0xc000_0000_0000_0000),
            Number::of(0x3fd9_9999_9999_999a),
        ).with_color(
            Number::of(0x3fec_cccc_cccc_cccd),
            Number::of(0x3fb9_9999_9999_999a),
            Number::of(0x3fb9_9999_9999_999a),
        ).with_reflectivity(Number::of(0x3fb9_9999_9999_999a)),
        Sphere::new(
            "blue",
            Number::of(0xbfe9_9999_9999_999a),
            Number::of(0xbfc9_9999_9999_999a),
            Number::of(0xbff8_0000_0000_0000),
            Number::of(0x3fd6_6666_6666_6666),
        ).with_color(
            Number::of(0x3fb9_9999_9999_999a),
            Number::of(0x3fc9_9999_9999_999a),
            Number::of(0x3fec_cccc_cccc_cccd),
        ).with_reflectivity(Number::of(0x3fc9_9999_9999_999a)),
        Sphere::new(
            "yellow",
            Number::of(ZERO),
            Number::of(0x3fb9_9999_9999_999a),
            Number::of(0xc004_0000_0000_0000),
            Number::of(HALF),
        ).with_color(
            Number::of(0x3fec_cccc_cccc_cccd),
            Number::of(0x3fe9_9999_9999_999a),
            Number::of(0x3fb9_9999_9999_999a),
        ).with_reflectivity(Number::of(0x3fb9_9999_9999_999a)),
        Sphere::new(
            "ground",
            Number::of(ZERO),
            Number::of(0xc059_2000_0000_0000),
            Number::of(0xbff0_0000_0000_0000),
            Number::of(0x4059_0000_0000_0000),
        ).with_color(
            Number::of(0x3fd9_9999_9999_999a),
            Number::of(0x3fd9_9999_9999_999a),
            Number::of(0x3fdc_cccc_cccc_cccd),
        ).with_reflectivity(Number::of(0x3fc9_9999_9999_999a)),
    ]
}

/// Whether that is what the scene with refraction asks for.
pub open spec fn is_rendering(rendering: Rendering) -> bool {
    &&& rendering.query@ == grid_query(WIDTH as nat, HEIGHT as nat)
    &&& (exists|spheres: Seq<Sphere>| #[trigger]
        is_the_scene(spheres) && rendering.plan@ == scene_steps(
            WIDTH as nat,
            HEIGHT as nat,
            spheres,
            spheres[0],
            the_light(),
            Number { bits: AMBIENT },
        ))
    &&& rendering.projection matches Some(projection) && projection@ == pixel_columns(
        "final_r"@,
        "final_g"@,
        "final_b"@,
    )
    &&& rendering.width == WIDTH
    &&& rendering.height == HEIGHT
    &&& rendering.path@ == "refraction.ppm"@
}

/// The scene with refraction.
pub fn render() -> (rendering: Rendering)
    ensures
        is_rendering(rendering),
{
    let spheres: Vec<Sphere> = spheres();
    Rendering {
        query: pixel_grid(WIDTH, HEIGHT),
        plan: scene_plan(WIDTH, HEIGHT, &spheres, &spheres[0], &light(), Number::of(AMBIENT)),
        projection: Some(to_pixel_output()),
        width: WIDTH,
        height: HEIGHT,
        path: "refraction.ppm".to_owned(),
    }
}

} // verus!

//! A single sphere, coloured by the direction of its surface.
use crate::formula::{Formula, Node, col, column, num, number};
use crate::ideal::{IdealRow, Reals};
use crate::number::{CHANNEL_MAX, HALF, Number, ONE, TWO, ZERO};
use crate::plan::{Plan, Projection, Rendering, Steps, pixel_columns, vector_steps};
use crate::portrait::{is_pixel, is_single_view, law_single_sphere, shows_sphere};
use crate::text::join;
use crate::trace::{
    Ball, Camera, Side, at, camera_direction, camera_origin, grid_query, meet, meeting, pixel_grid,
    pixels_to_rays, point_at, ray_steps,
};
use crate::vector::{Triple, Vec3};
use vstd::prelude::*;

verus! {

// Image settings
pub const WIDTH: u32 = 800;

pub const HEIGHT: u32 = 600;

// Camera settings
/// Two times the width of the image over its height: 2.6666666666666665.
pub const VIEWPORT_WIDTH: u64 = 0x4005_5555_5555_5555;

pub const VIEWPORT_HEIGHT: u64 = TWO;

pub const FOCAL_LENGTH: u64 = ONE;

// Background: 128, 178, 255
pub const BACKGROUND_R: u64 = 0x4060_0000_0000_0000;

pub const BACKGROUND_G: u64 = 0x4066_4000_0000_0000;

pub const BACKGROUND_B: u64 = CHANNEL_MAX;

/// A sphere in the scene.
#[derive(Clone, Copy, Debug, PartialEq, Eq, Structural)]
pub struct Sphere {
    pub center_x: Number,
    pub center_y: Number,
    pub center_z: Number,
    pub radius: Number,
    pub color_r: Number,
    pub color_g: Number,
    pub color_b: Number,
}

impl Sphere {
    /// A red sphere.
    pub fn new(cx: Number, cy: Number, cz: Number, radius: Number) -> (sphere: Sphere)
        ensures
            sphere == (Sphere {
                center_x: cx,
                center_y: cy,
                center_z: cz,
                radius,
                color_r: Number { bits: ONE },
                color_g: Number { bits: ZERO },
                color_b: Number { bits: ZERO },
            }),
    {
        Sphere {
            center_x: cx,
            center_y: cy,
            center_z: cz,
            radius,
            color_r: Number::of(ONE),
            color_g: Number::of(ZERO),
            color_b: Number::of(ZERO),
        }
    }

    /// The same sphere in another colour.
    pub fn with_color(self, r: Number, g: Number, b: Number) -> (sphere: Sphere)
        ensures
            sphere == (Sphere { color_r: r, color_g: g, color_b: b, ..self }),
    {
        Sphere { color_r: r, color_g: g, color_b: b, ..self }
    }

    /// Where the sphere is and how large.
    pub open spec fn shape(self) -> Ball {
        Ball {
            center_x: self.center_x,
            center_y: self.center_y,
            center_z: self.center_z,
            radius: self.radius,
        }
    }

    /// Where the sphere is and how large.
    pub fn ball(&self) -> (ball: Ball)
        ensures
            ball == self.shape(),
    {
        Ball {
            center_x: self.center_x,
            center_y: self.center_y,
            center_z: self.center_z,
            radius: self.radius,
        }
    }
}

/// The column of the parameter at which the camera's ray meets the sphere.
pub open spec fn intersect_steps(sphere: Sphere, t_column: Seq<char>) -> Steps {
    seq![(t_column, meeting(camera_origin(), camera_direction(), sphere.shape(), Side::Near))]
}

/// Adds the parameter at which the camera's ray meets the sphere, missing where
/// it passes by.
pub fn intersect_sphere(plan: &mut Plan, sphere: &Sphere, t_column: &str)
    ensures
        final(plan)@ == old(plan)@ + intersect_steps(*sphere, t_column@),
{
    let origin: Vec3 = Vec3::columns("origin_x", "origin_y", "origin_z");
    let direction: Vec3 = Vec3::columns("dir_x", "dir_y", "dir_z");
    plan.with_column(t_column, meet(origin, direction, sphere.ball(), Side::Near));
    assert(plan@ =~= old(plan)@ + intersect_steps(*sphere, t_column@));
}

/// The columns of the normal at the point with parameter `t_column`.
pub open spec fn normal_steps(sphere: Sphere, t_column: Seq<char>, prefix: Seq<char>) -> Steps {
    vector_steps(
        prefix + "_normal_x"@,
        prefix + "_normal_y"@,
        prefix + "_normal_z"@,
        sphere.shape().normal_at(point_at(camera_origin(), camera_direction(), column(t_column))),
    )
}

/// Adds the normal at the point with parameter `t_column`.
pub fn compute_normal(plan: &mut Plan, sphere: &Sphere, t_column: &str, prefix: &str)
    ensures
        final(plan)@ == old(plan)@ + normal_steps(*sphere, t_column@, prefix@),
{
    let origin: Vec3 = Vec3::columns("origin_x", "origin_y", "origin_z");
    let direction: Vec3 = Vec3::columns("dir_x", "dir_y", "dir_z");
    let hit: Vec3 = at(origin, direction, &col(t_column));
    plan.with_vector(
        join(prefix, "_normal_x").as_str(),
        join(prefix, "_normal_y").as_str(),
        join(prefix, "_normal_z").as_str(),
        sphere.ball().normal(hit),
    );
}

/// Whether the parameter is that of a point in front of the camera.
pub open spec fn in_front(t_column: Seq<char>) -> Node {
    column(t_column).is_not_null().and(column(t_column).gt(number(ZERO)))
}

/// A channel: a component of the normal, from -1 to 1, spread over 0 to 255, or
/// the background where nothing is hit.
pub open spec fn normal_channel(
    t_column: Seq<char>,
    component: Seq<char>,
    background: u64,
) -> Node {
    in_front(t_column).case(
        column(component).plus(number(ONE)).times(number(HALF)).times(number(CHANNEL_MAX)),
        number(background),
    )
}

/// The columns of the colour by the normal.
pub open spec fn color_steps(t_column: Seq<char>, prefix: Seq<char>) -> Steps {
    vector_steps(
        prefix + "_r"@,
        prefix + "_g"@,
        prefix + "_b"@,
        Triple {
            x: normal_channel(t_column, prefix + "_normal_x"@, BACKGROUND_R),
            y: normal_channel(t_column, prefix + "_normal_y"@, BACKGROUND_G),
            z: normal_channel(t_column, prefix + "_normal_z"@, BACKGROUND_B),
        },
    )
}

/// A channel of the colour by the normal.
fn normal_to_channel(t_column: &str, component: &str, background: u64) -> (expr: Formula)
    ensures
        expr@ == normal_channel(t_column@, component@, background),
{
    let hit: Formula = col(t_column).is_not_null().and(col(t_column).gt(num(ZERO)));
    let shade: Formula = col(component).plus(num(ONE)).times(num(HALF)).times(num(CHANNEL_MAX));
    hit.case(shade, num(background))
}

/// Adds the colour by the normal: the direction of the surface as red, green and blue.
pub fn normal_to_color(plan: &mut Plan, t_column: &str, prefix: &str)
    ensures
        final(plan)@ == old(plan)@ + color_steps(t_column@, prefix@),
{
    let color: Vec3 = Vec3 {
        x: normal_to_channel(t_column, join(prefix, "_normal_x").as_str(), BACKGROUND_R),
        y: normal_to_channel(t_column, join(prefix, "_normal_y").as_str(), BACKGROUND_G),
        z: normal_to_channel(t_column, join(prefix, "_normal_z").as_str(), BACKGROUND_B),
    };
    plan.with_vector(
        join(prefix, "_r").as_str(),
        join(prefix, "_g").as_str(),
        join(prefix, "_b").as_str(),
        color,
    );
}

/// The columns of the result: the pixel's place, and its colour from three columns.
pub fn to_pixel_output(r_col: &str, g_col: &str, b_col: &str) -> (projection: Projection)
    ensures
        projection@ == pixel_columns(r_col@, g_col@, b_col@),
{
    Projection::pixels(r_col, g_col, b_col)
}

/// All columns of the scene, for an image of that size.
pub open spec fn scene_steps(width: nat, height: nat, camera: Camera, sphere: Sphere) -> Steps {
    ray_steps(width, height, camera) + intersect_steps(sphere, "t"@) + normal_steps(
        sphere,
        "t"@,
        "s0"@,
    ) + color_steps("t"@, "s0"@)
}

/// All columns of the scene, for an image of that size.
pub fn scene_plan(width: u32, height: u32, camera: Camera, sphere: &Sphere) -> (plan: Plan)
    ensures
        plan@ == scene_steps(width as nat, height as nat, camera, *sphere),
        forall|r: Reals, row: IdealRow, x: real, y: real|
            is_single_view(r, camera, *sphere) && #[trigger] is_pixel(r, row, x, y)
                ==> shows_sphere(
                r,
                r.run(plan@, row),
                width as nat,
                height as nat,
                camera,
                *sphere,
                x,
                y,
            ),
{
    let mut plan: Plan = Plan::new();
    pixels_to_rays(&mut plan, width, height, camera);
    intersect_sphere(&mut plan, sphere, "t");
    compute_normal(&mut plan, sphere, "t", "s0");
    normal_to_color(&mut plan, "t", "s0");
    assert(plan@ =~= scene_steps(width as nat, height as nat, camera, *sphere));
    proof {
        let (w, h) = (width as nat, height as nat);
        assert forall|r: Reals, row: IdealRow, x: real, y: real|
            is_single_view(r, camera, *sphere) && #[trigger] is_pixel(
                r,
                row,
                x,
                y,
            ) implies shows_sphere(r, r.run(plan@, row), w, h, camera, *sphere, x, y) by {
            law_single_sphere(r, w, h, camera, *sphere, row, x, y);
        }
    }
    plan
}

/// The camera of the scene.
pub open spec fn scene_camera() -> Camera {
    Camera {
        viewport_width: Number { bits: VIEWPORT_WIDTH },
        viewport_height: Number { bits: VIEWPORT_HEIGHT },
        focal_length: Number { bits: FOCAL_LENGTH },
    }
}

/// The camera of the scene.
pub fn camera() -> (camera: Camera)
    ensures
        camera == scene_camera(),
{
    Camera {
        viewport_width: Number::of(VIEWPORT_WIDTH),
        viewport_height: Number::of(VIEWPORT_HEIGHT),
        focal_length: Number::of(FOCAL_LENGTH),
    }
}

/// The sphere of the scene: red, at (0, 0, -1), of radius 0.5.
pub open spec fn the_sphere() -> Sphere {
    Sphere {
        center_x: Number { bits: ZERO },
        center_y: Number { bits: ZERO },
        center_z: Number { bits: 0xbff0_0000_0000_0000 },
        radius: Number { bits: HALF },
        color_r: Number { bits: ONE },
        color_g: Number { bits: ZERO },
        color_b: Number { bits: ZERO },
    }
}

/// The sphere of the scene.
pub fn sphere() -> (sphere: Sphere)
    ensures
        sphere == the_sphere(),
{
    Sphere::new(
        Number::of(ZERO),
        Number::of(ZERO),
        Number::of(0xbff0_0000_0000_0000),
        Number::of(HALF),
    )
}

/// Whether that is what the scene with a single sphere asks for.
pub open spec fn is_rendering(rendering: Rendering) -> bool {
    &&& rendering.query@ == grid_query(WIDTH as nat, HEIGHT as nat)
    &&& rendering.plan@ == scene_steps(WIDTH as nat, HEIGHT as nat, scene_camera(), the_sphere())
    &&& rendering.projection matches Some(projection) && projection@ == pixel_columns(
        "s0_r"@,
        "s0_g"@,
        "s0_b"@,
    )
    &&& rendering.width == WIDTH
    &&& rendering.height == HEIGHT
    &&& rendering.path@ == "dataframe_sphere.ppm"@
}

/// The scene with a single sphere.
pub fn render() -> (rendering: Rendering)
    ensures
        is_rendering(rendering),
{
    Rendering {
        query: pixel_grid(WIDTH, HEIGHT),
        plan: scene_plan(WIDTH, HEIGHT, camera(), &sphere()),
        projection: Some(to_pixel_output("s0_r", "s0_g", "s0_b")),
        width: WIDTH,
        height: HEIGHT,
        path: "dataframe_sphere.ppm".to_owned(),
    }
}

} // verus!

//! What a pixel shows of a glass sphere among others, among real numbers.
use crate::choice::{law_any, law_choice, law_within_channel, may_be_given, within_channel};
use crate::formula::{Node, Operator, column, number};
use crate::geometry::{along_ray, is_exit, law_meeting, lemma_quotient, spot, touches};
use crate::glass_names::{
    brightness_steps, has_clear_names, lemma_glass_names, lemma_primary_joins, lemma_reflect_joins,
    lemma_refract_joins,
};
use crate::ideal::{
    Ideal, IdealRow, Reals, holds, law_ideal_columns_hold, lemma_holds_split, lemma_ideal_binary,
    lemma_ideal_case, lemma_ideal_is_not_null, magnitude, product,
};
use crate::number::{INFINITY, Number, ONE, THOUSANDTH, ZERO};
use crate::optics::{
    Arrow, are_given, arrow, is_given, is_unit, law_glass_mixture, law_reflection_mirrors,
    law_share, law_snell, lemma_dot_commutes, lemma_incidence, lemma_real_binary, lemma_real_case,
    lemma_real_dot, lemma_real_minus, lemma_real_number, lemma_real_plus, lemma_real_times,
    lemma_times_sum, mirrored, real_of, schlick, seen_behind, seen_in_mirror, sine_squared,
};
use crate::portrait::{
    has_arrow, is_pixel, lemma_normal_from_center, lemma_point_on_ray, lemma_some_way, lemma_view,
    nowhere, way_to_pixel,
};
use crate::refraction::{
    AIR_OVER_GLASS, FOCAL_LENGTH, GLASS_OVER_AIR, HEIGHT, HORIZON_B, HORIZON_G, HORIZON_R, Light,
    RAY_BIAS, SHADOW_BIAS, STRAIGHT_REFLECTANCE, Sphere, VIEWPORT_HEIGHT, VIEWPORT_WIDTH,
    arrival_steps, camera_direction, color_of_hit, color_steps, entry_steps, exit_normal,
    exit_point, exit_point_steps, exit_step, first_ahead, glass_color, hit_point, in_shadow_step,
    incidence, index_step, internal_direction, intersect_step, intersect_steps, inward_normal,
    is_totally_reflected, light_steps, lighting_step, nearest_step, opaque, opaque_color,
    point_shadow_steps, primary_hit_steps, ray_direction, ray_origin, ray_path_steps, ray_steps,
    reflected, reflection_steps, reflectivities, refracted, refracted_sine_squared,
    refraction_exit_steps, refractive_indices, scene_camera, scene_steps, seen_color,
    shadow_ray_steps, shadow_step, shadow_steps, sky_color, surface_color, surface_normal,
    trace_steps, vector_in,
};
use crate::refraction_soundness::{by_name, law_refraction_is_sound};
use crate::shadows_portrait::{
    brightness_of, cosine_to, is_entry_before, law_brightness, lemma_entry_before,
    lemma_normal_of_hit, lemma_positive_root, lemma_sky, lemma_surface_of, sky_of, surface_of,
};
use crate::soundness::pixel_table;
use crate::spheres_portrait::{is_seen, is_smallest, lemma_seen};
use crate::trace::{
    Ball, Camera, Side, Solid, ahead, any_present, brightness, chosen, clamped, hit_normal, meeting,
    point_at, sphere_columns, view_direction,
};
use crate::vector::{Triple, columns, numbers};
use crate::visibility::lemma_opaque_contains;
use vstd::prelude::*;

verus! {

/// All that the scene with glass is made from.
pub struct Glasshouse {
    pub width: nat,
    pub height: nat,
    pub spheres: Seq<Sphere>,
    pub glass: Sphere,
    pub light: Light,
    pub ambient: Number,
}

/// The scene made from those.
pub open spec fn glasshouse(
    width: nat,
    height: nat,
    spheres: Seq<Sphere>,
    glass: Sphere,
    light: Light,
    ambient: Number,
) -> Glasshouse {
    Glasshouse { width, height, spheres, glass, light, ambient }
}

impl Glasshouse {
    /// What becomes of the row of a pixel.
    pub open spec fn drawn(self, r: Reals, row: IdealRow) -> IdealRow {
        r.run(
            scene_steps(
                self.width,
                self.height,
                self.spheres,
                self.glass,
                self.light,
                self.ambient,
            ),
            row,
        )
    }

    /// What the scene asks of its inputs: an image and a list that are not too large,
    /// and spheres of some size with clear names.
    pub open spec fn is_view(self, r: Reals) -> bool {
        &&& r.is_faithful()
        &&& self.width <= u32::MAX
        &&& self.height <= u32::MAX
        &&& 0 < self.spheres.len() <= i32::MAX
        &&& has_clear_names(self.spheres)
        &&& (r.number)(self.glass.radius.bits) != 0 as real
        &&& forall|i: int|
            0 <= i < self.spheres.len() ==> (r.number)((#[trigger] self.spheres[i]).radius.bits)
                != 0 as real
    }
}

/// The columns of the scene hold what their formulas say, part by part.
#[verifier::spinoff_prover]
proof fn lemma_glass_holds(r: Reals, s: Glasshouse, row: IdealRow)
    requires
        s.spheres.len() > 0,
        has_clear_names(s.spheres),
    ensures
        ({
            let a = s.drawn(r, row);
            &&& r.value(column("x"@), a) == r.value(column("x"@), row)
            &&& r.value(column("y"@), a) == r.value(column("y"@), row)
            &&& holds(r, ray_path_steps(s.width, s.height, s.spheres, s.glass), a)
            &&& holds(r, light_steps(s.spheres, s.light, s.ambient), a)
            &&& holds(r, color_steps(s.spheres), a)
        }),
{
    let steps = scene_steps(s.width, s.height, s.spheres, s.glass, s.light, s.ambient);
    let a = s.drawn(r, row);
    law_refraction_is_sound(s.width, s.height, s.spheres, s.glass, s.light, s.ambient);
    lemma_glass_names(s.width, s.height, s.spheres, s.glass, s.light, s.ambient);
    law_ideal_columns_hold(r, steps, row, pixel_table(), by_name());
    assert(pixel_table().contains("x"@) && pixel_table().contains("y"@));
    let path = ray_path_steps(s.width, s.height, s.spheres, s.glass);
    let lights = light_steps(s.spheres, s.light, s.ambient);
    assert(holds(r, steps, a));
    lemma_holds_split(r, path + lights, color_steps(s.spheres), a);
    lemma_holds_split(r, path, lights, a);
}

#[verifier::spinoff_prover]
proof fn lemma_path_holds(r: Reals, s: Glasshouse, a: IdealRow)
    requires
        holds(r, ray_path_steps(s.width, s.height, s.spheres, s.glass), a),
    ensures
        holds(r, ray_steps(s.width, s.height), a),
        holds(r, trace_steps(s.spheres, "ray"@, "primary"@), a),
        holds(r, primary_hit_steps(s.spheres), a),
        holds(r, reflection_steps(), a),
        holds(r, entry_steps(), a),
        holds(r, seq![exit_step(s.glass, "internal"@, "internal"@)], a),
        holds(r, exit_point_steps(s.glass), a),
        holds(r, refraction_exit_steps(), a),
        holds(r, trace_steps(s.spheres, "reflect"@, "reflect"@), a),
        holds(r, arrival_steps(s.spheres, "reflect"@), a),
        holds(r, trace_steps(s.spheres, "refract"@, "refract"@), a),
        holds(r, arrival_steps(s.spheres, "refract"@), a),
{
    let s1 = ray_steps(s.width, s.height);
    let s2 = trace_steps(s.spheres, "ray"@, "primary"@);
    let s3 = primary_hit_steps(s.spheres);
    let s4 = reflection_steps();
    let s5 = entry_steps();
    let s6 = seq![exit_step(s.glass, "internal"@, "internal"@)];
    let s7 = exit_point_steps(s.glass);
    let s8 = refraction_exit_steps();
    let s9 = trace_steps(s.spheres, "reflect"@, "reflect"@);
    let s10 = arrival_steps(s.spheres, "reflect"@);
    let s11 = trace_steps(s.spheres, "refract"@, "refract"@);
    let s12 = arrival_steps(s.spheres, "refract"@);
    let front = s1 + s2 + s3 + s4 + s5 + s6 + s7 + s8;
    lemma_holds_split(r, front + s9 + s10 + s11, s12, a);
    lemma_holds_split(r, front + s9 + s10, s11, a);
    lemma_holds_split(r, front + s9, s10, a);
    lemma_holds_split(r, front, s9, a);
    lemma_holds_split(r, s1 + s2 + s3 + s4 + s5 + s6 + s7, s8, a);
    lemma_holds_split(r, s1 + s2 + s3 + s4 + s5 + s6, s7, a);
    lemma_holds_split(r, s1 + s2 + s3 + s4 + s5, s6, a);
    lemma_holds_split(r, s1 + s2 + s3 + s4, s5, a);
    lemma_holds_split(r, s1 + s2 + s3, s4, a);
    lemma_holds_split(r, s1 + s2, s3, a);
    lemma_holds_split(r, s1, s2, a);
}

#[verifier::spinoff_prover]
proof fn lemma_light_holds(r: Reals, s: Glasshouse, a: IdealRow)
    requires
        holds(r, light_steps(s.spheres, s.light, s.ambient), a),
    ensures
        holds(r, point_shadow_steps(s.spheres, s.light, ""@, "hit"@), a),
        holds(r, point_shadow_steps(s.spheres, s.light, "reflect_"@, "reflect_hit"@), a),
        holds(r, point_shadow_steps(s.spheres, s.light, "refract_"@, "refract_hit"@), a),
        holds(r, brightness_steps(s.light, s.ambient), a),
{
    let s1 = point_shadow_steps(s.spheres, s.light, ""@, "hit"@);
    let s2 = point_shadow_steps(s.spheres, s.light, "reflect_"@, "reflect_hit"@);
    let s3 = point_shadow_steps(s.spheres, s.light, "refract_"@, "refract_hit"@);
    let s4 = brightness_steps(s.light, s.ambient);
    lemma_holds_split(r, s1 + s2 + s3, s4, a);
    lemma_holds_split(r, s1 + s2, s3, a);
    lemma_holds_split(r, s1, s2, a);
}

// ---------------------------------------------------------------------------
// Directions
// ---------------------------------------------------------------------------

/// Whether a vector of length one points along a way.
pub open spec fn is_direction(r: Reals, unit: Arrow, way: Arrow) -> bool {
    &&& is_unit(unit)
    &&& unit.scaled((r.sqrt)(way.dot(way))) == way
}

#[verifier::spinoff_prover]
proof fn lemma_regroup(k: real, x: real, y: real)
    ensures
        product(product(k, x), y) == product(k, product(x, y)),
{
    reveal(product);
    assert((k * x) * y == k * (x * y)) by (nonlinear_arith);
}

#[verifier::spinoff_prover]
proof fn lemma_scaled_dot(k: real, u: Arrow, w: Arrow)
    ensures
        u.scaled(k).dot(w) == product(k, u.dot(w)),
{
    lemma_regroup(k, u.x, w.x);
    lemma_regroup(k, u.y, w.y);
    lemma_regroup(k, u.z, w.z);
    lemma_times_sum(k, product(u.x, w.x), product(u.y, w.y), product(u.z, w.z));
}

#[verifier::spinoff_prover]
proof fn lemma_cancel(k: real, x: real)
    requires
        k > 0 as real,
        product(k, product(k, x)) == product(k, k),
    ensures
        x == 1 as real,
{
    reveal(product);
    assert(x == 1 as real) by (nonlinear_arith)
        requires
            k > 0 as real,
            k * (k * x) == k * k,
    ;
}

/// What is brought to length one is a direction.
#[verifier::spinoff_prover]
proof fn lemma_direction(r: Reals, way: Triple, row: IdealRow)
    requires
        r.is_faithful(),
        are_given(r, way, row),
        arrow(r, way, row).dot(arrow(r, way, row)) > 0 as real,
    ensures
        are_given(r, way.normalized(), row),
        is_direction(r, arrow(r, way.normalized(), row), arrow(r, way, row)),
        is_given(r, way.length(), row),
        real_of(r, way.length(), row) == (r.sqrt)(arrow(r, way, row).dot(arrow(r, way, row))),
        real_of(r, way.length(), row) > 0 as real,
{
    let length = way.length();
    let v = arrow(r, way, row);
    lemma_real_dot(r, way, way, row);
    let k = (r.sqrt)(v.dot(v));
    assert(r.value(way.dot(way).sqrt(), row) == Ideal::Number(k));
    assert(k >= 0 as real && product(k, k) == v.dot(v));
    lemma_positive_root(k, v.dot(v));
    lemma_real_binary(r, way.x, Operator::Over, length, row);
    lemma_real_binary(r, way.y, Operator::Over, length, row);
    lemma_real_binary(r, way.z, Operator::Over, length, row);
    let u = arrow(r, way.normalized(), row);
    lemma_quotient(k, v.x);
    lemma_quotient(k, v.y);
    lemma_quotient(k, v.z);
    assert(u.scaled(k) == v);
    lemma_scaled_dot(k, u, v);
    lemma_dot_commutes(u, v);
    lemma_scaled_dot(k, u, u);
    lemma_cancel(k, u.dot(u));
}

/// The camera of the scene, from the numbers that it is made from.
pub open spec fn the_camera() -> Camera {
    Camera {
        viewport_width: Number { bits: VIEWPORT_WIDTH },
        viewport_height: Number { bits: VIEWPORT_HEIGHT },
        focal_length: Number { bits: FOCAL_LENGTH },
    }
}

/// What a row holds of the ray of its pixel: it starts where the camera is, and has the
/// direction of the way to the pixel on the viewport, with length one.
pub open spec fn looks_through(
    r: Reals,
    a: IdealRow,
    width: nat,
    height: nat,
    x: real,
    y: real,
) -> bool {
    let way = way_to_pixel(r, width, height, the_camera(), x, y);
    let d = arrow(r, columns("ray_dx"@, "ray_dy"@, "ray_dz"@), a);
    &&& is_pixel(r, a, x, y)
    &&& has_arrow(r, a, "ray_ox"@, "ray_oy"@, "ray_oz"@, nowhere())
    &&& has_arrow(r, a, "ray_dx"@, "ray_dy"@, "ray_dz"@, d)
    &&& is_direction(r, d, way)
}

/// The camera looks through each pixel.
#[verifier::spinoff_prover]
pub proof fn law_glass_camera(r: Reals, s: Glasshouse, row: IdealRow, x: real, y: real)
    requires
        s.is_view(r),
        is_pixel(r, row, x, y),
    ensures
        looks_through(r, s.drawn(r, row), s.width, s.height, x, y),
{
    let a = s.drawn(r, row);
    let steps = ray_steps(s.width, s.height);
    lemma_glass_holds(r, s, row);
    lemma_path_holds(r, s, a);
    let v = view_direction(s.width, s.height, scene_camera());
    lemma_view(r, s.width, s.height, scene_camera(), a, x, y);
    lemma_some_way(arrow(r, v, a));
    lemma_direction(r, v, a);
    lemma_real_number(r, ZERO, a);
    assert(steps[0] == ("ray_ox"@, number(ZERO)));
    assert(steps[1] == ("ray_oy"@, number(ZERO)));
    assert(steps[2] == ("ray_oz"@, number(ZERO)));
    assert(steps[3] == ("ray_dx"@, v.normalized().x));
    assert(steps[4] == ("ray_dy"@, v.normalized().y));
    assert(steps[5] == ("ray_dz"@, v.normalized().z));
}

// ---------------------------------------------------------------------------
// What a ray meets
// ---------------------------------------------------------------------------

/// Whether that is where a ray first meets the surface of a sphere ahead of its
/// origin, from outside or from inside; nothing if it does not.
pub open spec fn is_first_ahead(
    r: Reals,
    o: Arrow,
    d: Arrow,
    center: Arrow,
    radius: real,
    found: Ideal,
) -> bool {
    let least = (r.number)(THOUSANDTH);
    match found {
        Ideal::Number(t) => {
            &&& t > least
            &&& touches(o, d, center, radius, t)
            &&& forall|s: real| #[trigger]
                touches(o, d, center, radius, s) && s > least ==> t <= s
        },
        Ideal::Missing => forall|s: real| #[trigger]
            touches(o, d, center, radius, s) ==> s <= least,
        _ => false,
    }
}

#[verifier::spinoff_prover]
proof fn lemma_first_ahead(
    r: Reals,
    origin: Triple,
    direction: Triple,
    ball: Ball,
    row: IdealRow,
)
    requires
        r.is_faithful(),
        are_given(r, origin, row),
        are_given(r, direction, row),
        arrow(r, direction, row).dot(arrow(r, direction, row)) > 0 as real,
    ensures
        is_first_ahead(
            r,
            arrow(r, origin, row),
            arrow(r, direction, row),
            spot(r, ball.center_x, ball.center_y, ball.center_z),
            (r.number)(ball.radius.bits),
            r.value(first_ahead(origin, direction, ball), row),
        ),
{
    let near = meeting(origin, direction, ball, Side::Near);
    let far = meeting(origin, direction, ball, Side::Far);
    let least = number(THOUSANDTH);
    law_meeting(r, origin, direction, ball, row);
    lemma_real_number(r, THOUSANDTH, row);
    lemma_ideal_binary(r, near, Operator::Greater, least, row);
    lemma_ideal_binary(r, far, Operator::Greater, least, row);
    assert(r.value(Node::NullNumber, row) == Ideal::Missing);
    lemma_ideal_case(r, far.gt(least), far, Node::NullNumber, row);
    lemma_ideal_case(r, near.gt(least), near, ahead(far), row);
}

/// The parameters of the spheres for a ray, in order.
pub open spec fn parameters(
    r: Reals,
    spheres: Seq<Sphere>,
    result: Seq<char>,
    a: IdealRow,
) -> Seq<Ideal> {
    Seq::new(spheres.len(), |i: int| r.value(column(result + "_t_"@ + spheres[i].name@), a))
}

/// What the plan for a ray finds, under any names.
#[verifier::spinoff_prover]
pub proof fn law_any_trace(
    r: Reals,
    spheres: Seq<Sphere>,
    ray: Seq<char>,
    result: Seq<char>,
    a: IdealRow,
)
    requires
        r.is_faithful(),
        0 < spheres.len() <= i32::MAX,
        holds(r, trace_steps(spheres, ray, result), a),
        are_given(r, ray_origin(ray), a),
        are_given(r, ray_direction(ray), a),
        arrow(r, ray_direction(ray), a).dot(arrow(r, ray_direction(ray), a)) > 0 as real,
    ensures
        ({
            let (o, d) = (arrow(r, ray_origin(ray), a), arrow(r, ray_direction(ray), a));
            let near = r.value(column(result + "_t_nearest"@), a);
            let ts = parameters(r, spheres, result, a);
            &&& forall|i: int|
                0 <= i < spheres.len() ==> is_first_ahead(
                    r,
                    o,
                    d,
                    spot(
                        r,
                        (#[trigger] spheres[i]).center_x,
                        spheres[i].center_y,
                        spheres[i].center_z,
                    ),
                    (r.number)(spheres[i].radius.bits),
                    r.value(column(result + "_t_"@ + spheres[i].name@), a),
                )
            &&& is_smallest(ts, near)
            &&& is_seen(r, ts, near, r.value(column(result + "_hit_idx"@), a))
        }),
{
    let met = intersect_steps(spheres, ray, result);
    let seen = seq![nearest_step(spheres, result), index_step(spheres, result)];
    lemma_holds_split(r, met, seen, a);
    let (o, d) = (ray_origin(ray), ray_direction(ray));
    assert forall|i: int| 0 <= i < spheres.len() implies is_first_ahead(
        r,
        arrow(r, o, a),
        arrow(r, d, a),
        spot(r, (#[trigger] spheres[i]).center_x, spheres[i].center_y, spheres[i].center_z),
        (r.number)(spheres[i].radius.bits),
        r.value(column(result + "_t_"@ + spheres[i].name@), a),
    ) by {
        assert(met[i] == intersect_step(spheres[i], ray, result));
        lemma_first_ahead(r, o, d, spheres[i].shape(), a);
    }
    assert forall|i: int| 0 <= i < spheres.len() implies may_be_given(
        r.value(column(result + "_t_"@ + (#[trigger] spheres[i]).label()), a),
    ) by {
        assert(spheres[i].label() == spheres[i].name@);
    }
    assert(seen[0] == nearest_step(spheres, result));
    assert(seen[1] == index_step(spheres, result));
    lemma_seen(r, spheres, result + "_t_"@, column(result + "_t_nearest"@), a);
    assert(parameters(r, spheres, result, a) =~= Seq::new(
        spheres.len(),
        |i: int| r.value(column(result + "_t_"@ + spheres[i].label()), a),
    ));
}

/// Whether those are the names of a ray of the scene and of what it meets: the camera's
/// ray, the one that is reflected, or the one behind the glass.
pub open spec fn is_ray(ray: Seq<char>, result: Seq<char>) -> bool {
    ||| ray == "ray"@ && result == "primary"@
    ||| ray == "reflect"@ && result == "reflect"@
    ||| ray == "refract"@ && result == "refract"@
}

/// For each ray that is there, the parameter of a sphere is where the ray first meets
/// it ahead, the nearest is the smallest of them, and the sphere that is hit the last
/// that is close to that.
#[verifier::spinoff_prover]
pub proof fn law_glass_trace(
    r: Reals,
    s: Glasshouse,
    row: IdealRow,
    ray: Seq<char>,
    result: Seq<char>,
)
    requires
        s.is_view(r),
        is_ray(ray, result),
        ({
            let a = s.drawn(r, row);
            let d = arrow(r, columns(ray + "_dx"@, ray + "_dy"@, ray + "_dz"@), a);
            &&& are_given(r, columns(ray + "_ox"@, ray + "_oy"@, ray + "_oz"@), a)
            &&& are_given(r, columns(ray + "_dx"@, ray + "_dy"@, ray + "_dz"@), a)
            &&& d.dot(d) > 0 as real
        }),
    ensures
        ({
            let a = s.drawn(r, row);
            let o = arrow(r, columns(ray + "_ox"@, ray + "_oy"@, ray + "_oz"@), a);
            let d = arrow(r, columns(ray + "_dx"@, ray + "_dy"@, ray + "_dz"@), a);
            let near = r.value(column(result + "_t_nearest"@), a);
            let ts = parameters(r, s.spheres, result, a);
            &&& forall|i: int|
                0 <= i < s.spheres.len() ==> is_first_ahead(
                    r,
                    o,
                    d,
                    spot(
                        r,
                        (#[trigger] s.spheres[i]).center_x,
                        s.spheres[i].center_y,
                        s.spheres[i].center_z,
                    ),
                    (r.number)(s.spheres[i].radius.bits),
                    r.value(column(result + "_t_"@ + s.spheres[i].name@), a),
                )
            &&& is_smallest(ts, near)
            &&& is_seen(r, ts, near, r.value(column(result + "_hit_idx"@), a))
        }),
{
    let a = s.drawn(r, row);
    lemma_glass_holds(r, s, row);
    lemma_path_holds(r, s, a);
    law_any_trace(r, s.spheres, ray, result, a);
}

// ---------------------------------------------------------------------------
// Where the camera's ray arrives
// ---------------------------------------------------------------------------

/// What is known of a point that a ray hits and of the normal there, from the ray, the
/// nearest parameter and the sphere that is hit: the point is that of the ray, and the
/// normal points from the centre of the sphere and has length one.
pub open spec fn is_arrival(
    r: Reals,
    spheres: Seq<Sphere>,
    o: Arrow,
    d: Arrow,
    t: real,
    hit: Ideal,
    point: Arrow,
    normal: Arrow,
) -> bool {
    &&& point == along_ray(o, d, t)
    &&& match hit {
        Ideal::Index(k) => 0 <= k < spheres.len() && normal.scaled(
            (r.number)(spheres[k as int].radius.bits),
        ) == point.minus(
            spot(
                r,
                spheres[k as int].center_x,
                spheres[k as int].center_y,
                spheres[k as int].center_z,
            ),
        ),
        _ => normal == nowhere(),
    }
}

#[verifier::spinoff_prover]
proof fn lemma_arrival(
    r: Reals,
    spheres: Seq<Sphere>,
    origin: Triple,
    direction: Triple,
    t: Node,
    hit: Node,
    seen: Triple,
    above: Triple,
    a: IdealRow,
)
    requires
        r.is_faithful(),
        spheres.len() <= i32::MAX,
        forall|i: int|
            0 <= i < spheres.len() ==> (r.number)((#[trigger] spheres[i]).radius.bits)
                != 0 as real,
        are_given(r, origin, a),
        are_given(r, direction, a),
        is_given(r, t, a),
        match r.value(hit, a) {
            Ideal::Index(k) => 0 <= k < spheres.len(),
            Ideal::Missing => true,
            _ => false,
        },
        r.value(seen.x, a) == r.value(point_at(origin, direction, t).x, a),
        r.value(seen.y, a) == r.value(point_at(origin, direction, t).y, a),
        r.value(seen.z, a) == r.value(point_at(origin, direction, t).z, a),
        r.value(above.x, a) == r.value(hit_normal(spheres, hit, seen).x, a),
        r.value(above.y, a) == r.value(hit_normal(spheres, hit, seen).y, a),
        r.value(above.z, a) == r.value(hit_normal(spheres, hit, seen).z, a),
    ensures
        are_given(r, seen, a),
        are_given(r, above, a),
        is_arrival(
            r,
            spheres,
            arrow(r, origin, a),
            arrow(r, direction, a),
            real_of(r, t, a),
            r.value(hit, a),
            arrow(r, seen, a),
            arrow(r, above, a),
        ),
{
    lemma_point_on_ray(r, origin, direction, t, a);
    lemma_normal_of_hit(r, spheres, hit, seen, a);
    lemma_real_number(r, ZERO, a);
    match r.value(hit, a) {
        Ideal::Index(k) => {
            lemma_normal_from_center(r, spheres[k as int].shape(), seen, a);
        },
        _ => {},
    }
}

/// Where the camera sees a sphere: the point, its normal, and the refractive index of
/// the sphere, which is zero where none is seen.
#[verifier::spinoff_prover]
pub proof fn law_glass_hit(r: Reals, s: Glasshouse, row: IdealRow, x: real, y: real)
    requires
        s.is_view(r),
        is_pixel(r, row, x, y),
    ensures
        ({
            let a = s.drawn(r, row);
            let d = arrow(r, columns("ray_dx"@, "ray_dy"@, "ray_dz"@), a);
            let point = arrow(r, columns("hit_x"@, "hit_y"@, "hit_z"@), a);
            let normal = arrow(r, columns("normal_x"@, "normal_y"@, "normal_z"@), a);
            let hit = r.value(column("primary_hit_idx"@), a);
            &&& r.value(column("primary_t_nearest"@), a) matches Ideal::Number(t) ==> {
                &&& has_arrow(r, a, "hit_x"@, "hit_y"@, "hit_z"@, point)
                &&& has_arrow(r, a, "normal_x"@, "normal_y"@, "normal_z"@, normal)
                &&& is_arrival(r, s.spheres, nowhere(), d, t, hit, point, normal)
            }
            &&& r.value(column("hit_ior"@), a) == Ideal::Number(
                match hit {
                    Ideal::Index(k) => (r.number)(s.spheres[k as int].refractive_index.bits),
                    _ => 0 as real,
                },
            )
        }),
{
    let a = s.drawn(r, row);
    law_glass_camera(r, s, row, x, y);
    lemma_primary_joins();
    lemma_glass_holds(r, s, row);
    lemma_path_holds(r, s, a);
    law_glass_trace(r, s, row, "ray"@, "primary"@);
    let (o, d) = (columns("ray_ox"@, "ray_oy"@, "ray_oz"@), camera_direction());
    let (t, hit) = (column("primary_t_nearest"@), column("primary_hit_idx"@));
    let steps = primary_hit_steps(s.spheres);
    let point = point_at(o, d, t);
    let normal = hit_normal(s.spheres, hit, hit_point());
    assert(steps[0] == ("hit_x"@, point.x));
    assert(steps[1] == ("hit_y"@, point.y));
    assert(steps[2] == ("hit_z"@, point.z));
    assert(steps[3] == ("normal_x"@, normal.x));
    assert(steps[4] == ("normal_y"@, normal.y));
    assert(steps[5] == ("normal_z"@, normal.z));
    let indices = refractive_indices(s.spheres);
    assert(steps[6] == ("hit_ior"@, chosen(hit, indices, number(ZERO))));
    law_choice(r, hit, indices, number(ZERO), a);
    lemma_real_number(r, ZERO, a);
    match r.value(hit, a) {
        Ideal::Index(k) => {
            lemma_real_number(r, s.spheres[k as int].refractive_index.bits, a);
        },
        _ => {},
    }
    if r.value(t, a) is Number {
        lemma_arrival(r, s.spheres, o, d, t, hit, hit_point(), surface_normal(), a);
    }
}

/// The ray that is reflected starts a little above the point that is seen and is the
/// mirror image of the camera's ray.
#[verifier::spinoff_prover]
pub proof fn law_glass_reflection(r: Reals, s: Glasshouse, row: IdealRow)
    requires
        s.is_view(r),
        are_given(r, columns("ray_dx"@, "ray_dy"@, "ray_dz"@), s.drawn(r, row)),
        are_given(r, columns("hit_x"@, "hit_y"@, "hit_z"@), s.drawn(r, row)),
        are_given(r, columns("normal_x"@, "normal_y"@, "normal_z"@), s.drawn(r, row)),
    ensures
        ({
            let a = s.drawn(r, row);
            let d = arrow(r, columns("ray_dx"@, "ray_dy"@, "ray_dz"@), a);
            let point = arrow(r, columns("hit_x"@, "hit_y"@, "hit_z"@), a);
            let normal = arrow(r, columns("normal_x"@, "normal_y"@, "normal_z"@), a);
            &&& has_arrow(
                r,
                a,
                "reflect_ox"@,
                "reflect_oy"@,
                "reflect_oz"@,
                point.plus(normal.scaled((r.number)(RAY_BIAS))),
            )
            &&& has_arrow(
                r,
                a,
                "reflect_dx"@,
                "reflect_dy"@,
                "reflect_dz"@,
                mirrored(d, normal),
            )
        }),
{
    let a = s.drawn(r, row);
    lemma_glass_holds(r, s, row);
    lemma_path_holds(r, s, a);
    let (d, p, n) = (camera_direction(), hit_point(), surface_normal());
    let bias = number(RAY_BIAS);
    let steps = reflection_steps();
    let (start, turned) = (p.plus(n.times(bias)), reflected(d, n));
    assert(steps[0] == ("reflect_ox"@, start.x));
    assert(steps[1] == ("reflect_oy"@, start.y));
    assert(steps[2] == ("reflect_oz"@, start.z));
    assert(steps[3] == ("reflect_dx"@, turned.x));
    assert(steps[4] == ("reflect_dy"@, turned.y));
    assert(steps[5] == ("reflect_dz"@, turned.z));
    lemma_real_number(r, RAY_BIAS, a);
    lemma_real_times(r, n, bias, a);
    lemma_real_plus(r, p, n.times(bias), a);
    law_reflection_mirrors(r, d, n, a);
}

/// Whether a direction is that of a ray after refraction: of length one, to the other
/// side of the surface, with the cosine that Snell's law gives, and along the surface
/// the part of the ray that arrives times the ratio of the refractive indices.
pub open spec fn is_refracted(eta: real, arriving: Arrow, normal: Arrow, on: Arrow) -> bool {
    &&& is_unit(on)
    &&& on.dot(normal) <= 0 as real
    &&& product(on.dot(normal), on.dot(normal)) == 1 as real - sine_squared(
        eta,
        -arriving.dot(normal),
    )
    &&& on.along(normal) == arriving.along(normal).scaled(eta)
}

/// The ray in the glass starts a little below the point that is seen and is the
/// refracted ray of the camera; the share of the light that is reflected instead is
/// that of Schlick's approximation.
#[verifier::spinoff_prover]
pub proof fn law_glass_entry(r: Reals, s: Glasshouse, row: IdealRow)
    requires
        s.is_view(r),
        (0 as real) <= (r.number)(STRAIGHT_REFLECTANCE) <= 1 as real,
        are_given(r, columns("ray_dx"@, "ray_dy"@, "ray_dz"@), s.drawn(r, row)),
        are_given(r, columns("hit_x"@, "hit_y"@, "hit_z"@), s.drawn(r, row)),
        are_given(r, columns("normal_x"@, "normal_y"@, "normal_z"@), s.drawn(r, row)),
        is_unit(arrow(r, columns("ray_dx"@, "ray_dy"@, "ray_dz"@), s.drawn(r, row))),
        is_unit(arrow(r, columns("normal_x"@, "normal_y"@, "normal_z"@), s.drawn(r, row))),
    ensures
        ({
            let a = s.drawn(r, row);
            let d = arrow(r, columns("ray_dx"@, "ray_dy"@, "ray_dz"@), a);
            let point = arrow(r, columns("hit_x"@, "hit_y"@, "hit_z"@), a);
            let normal = arrow(r, columns("normal_x"@, "normal_y"@, "normal_z"@), a);
            let on = arrow(r, columns("internal_dx"@, "internal_dy"@, "internal_dz"@), a);
            let eta = (r.number)(AIR_OVER_GLASS);
            &&& has_arrow(
                r,
                a,
                "internal_ox"@,
                "internal_oy"@,
                "internal_oz"@,
                point.minus(normal.scaled((r.number)(RAY_BIAS))),
            )
            &&& d.dot(normal) <= 0 as real && sine_squared(eta, -d.dot(normal)) <= 1 as real ==> {
                &&& has_arrow(r, a, "internal_dx"@, "internal_dy"@, "internal_dz"@, on)
                &&& is_refracted(eta, d, normal, on)
            }
            &&& r.value(column("fresnel"@), a) == Ideal::Number(
                schlick((r.number)(STRAIGHT_REFLECTANCE), magnitude(d.dot(normal))),
            )
        }),
{
    let a = s.drawn(r, row);
    lemma_glass_holds(r, s, row);
    lemma_path_holds(r, s, a);
    let (d, p, n) = (camera_direction(), hit_point(), surface_normal());
    let bias = number(RAY_BIAS);
    let steps = entry_steps();
    let (start, on) = (p.minus(n.times(bias)), refracted(AIR_OVER_GLASS, d, n));
    assert(steps[0] == ("internal_ox"@, start.x));
    assert(steps[1] == ("internal_oy"@, start.y));
    assert(steps[2] == ("internal_oz"@, start.z));
    assert(steps[3] == ("internal_dx"@, on.x));
    assert(steps[4] == ("internal_dy"@, on.y));
    assert(steps[5] == ("internal_dz"@, on.z));
    assert(steps[6].0 == "fresnel"@);
    lemma_real_number(r, RAY_BIAS, a);
    lemma_real_times(r, n, bias, a);
    lemma_real_minus(r, p, n.times(bias), a);
    law_share(r, a);
    let (i, u) = (arrow(r, d, a), arrow(r, n, a));
    if i.dot(u) <= 0 as real && sine_squared((r.number)(AIR_OVER_GLASS), -i.dot(u)) <= 1 as real {
        law_snell(r, AIR_OVER_GLASS, d, n, a);
    }
}

/// The ray in the glass leaves it where it last meets its surface; the normal there
/// points from the centre of the glass and has length one.
#[verifier::spinoff_prover]
pub proof fn law_glass_exit(r: Reals, s: Glasshouse, row: IdealRow)
    requires
        s.is_view(r),
        ({
            let a = s.drawn(r, row);
            let d = arrow(r, columns("internal_dx"@, "internal_dy"@, "internal_dz"@), a);
            &&& are_given(r, columns("internal_ox"@, "internal_oy"@, "internal_oz"@), a)
            &&& are_given(r, columns("internal_dx"@, "internal_dy"@, "internal_dz"@), a)
            &&& d.dot(d) > 0 as real
        }),
    ensures
        ({
            let a = s.drawn(r, row);
            let o = arrow(r, columns("internal_ox"@, "internal_oy"@, "internal_oz"@), a);
            let d = arrow(r, columns("internal_dx"@, "internal_dy"@, "internal_dz"@), a);
            let point = arrow(r, columns("exit_x"@, "exit_y"@, "exit_z"@), a);
            let normal = arrow(
                r,
                columns("exit_normal_x"@, "exit_normal_y"@, "exit_normal_z"@),
                a,
            );
            let center = spot(r, s.glass.center_x, s.glass.center_y, s.glass.center_z);
            let radius = (r.number)(s.glass.radius.bits);
            match r.value(column("internal_exit_t"@), a) {
                Ideal::Number(t) => {
                    &&& t > (r.number)(THOUSANDTH)
                    &&& is_exit(o, d, center, radius, Ideal::Number(t))
                    &&& has_arrow(r, a, "exit_x"@, "exit_y"@, "exit_z"@, along_ray(o, d, t))
                    &&& has_arrow(
                        r,
                        a,
                        "exit_normal_x"@,
                        "exit_normal_y"@,
                        "exit_normal_z"@,
                        normal,
                    )
                    &&& normal.scaled(radius) == point.minus(center)
                },
                Ideal::Missing => forall|t: real|
                    t > (r.number)(THOUSANDTH) ==> !#[trigger] is_exit(
                        o,
                        d,
                        center,
                        radius,
                        Ideal::Number(t),
                    ),
                _ => false,
            }
        }),
{
    let a = s.drawn(r, row);
    lemma_primary_joins();
    lemma_glass_holds(r, s, row);
    lemma_path_holds(r, s, a);
    let o = columns("internal_ox"@, "internal_oy"@, "internal_oz"@);
    let d = internal_direction();
    let ball = s.glass.shape();
    let far = meeting(o, d, ball, Side::Far);
    let least = number(THOUSANDTH);
    let first = seq![exit_step(s.glass, "internal"@, "internal"@)];
    assert(first[0] == ("internal_exit_t"@, ahead(far)));
    law_meeting(r, o, d, ball, a);
    lemma_real_number(r, THOUSANDTH, a);
    lemma_ideal_binary(r, far, Operator::Greater, least, a);
    assert(r.value(Node::NullNumber, a) == Ideal::Missing);
    lemma_ideal_case(r, far.gt(least), far, Node::NullNumber, a);
    let t = column("internal_exit_t"@);
    let steps = exit_point_steps(s.glass);
    let (point, normal) = (point_at(o, d, t), ball.normal_at(exit_point()));
    assert(steps[0] == ("exit_x"@, point.x));
    assert(steps[1] == ("exit_y"@, point.y));
    assert(steps[2] == ("exit_z"@, point.z));
    assert(steps[3] == ("exit_normal_x"@, normal.x));
    assert(steps[4] == ("exit_normal_y"@, normal.y));
    assert(steps[5] == ("exit_normal_z"@, normal.z));
    if r.value(t, a) is Number {
        lemma_point_on_ray(r, o, d, t, a);
        lemma_normal_from_center(r, ball, exit_point(), a);
    } else {
        let (u, v) = (arrow(r, o, a), arrow(r, d, a));
        let center = spot(r, ball.center_x, ball.center_y, ball.center_z);
        let radius = (r.number)(ball.radius.bits);
        assert forall|q: real| q > (r.number)(THOUSANDTH) implies !#[trigger] is_exit(
            u,
            v,
            center,
            radius,
            Ideal::Number(q),
        ) by {
            lemma_one_exit(u, v, center, radius, r.value(far, a), q);
        }
    }
}

/// A ray leaves a sphere once.
proof fn lemma_one_exit(o: Arrow, d: Arrow, center: Arrow, radius: real, found: Ideal, s: real)
    requires
        is_exit(o, d, center, radius, found),
    ensures
        is_exit(o, d, center, radius, Ideal::Number(s)) ==> found == Ideal::Number(s),
{
}

/// The opposite direction.
pub open spec fn turned_round(v: Arrow) -> Arrow {
    nowhere().minus(v)
}

/// Behind the glass the ray starts a little above the point where it leaves. Where it
/// arrives there at too flat an angle it is the mirror image of the ray in the glass,
/// else its refracted ray.
#[verifier::spinoff_prover]
pub proof fn law_glass_leaves(r: Reals, s: Glasshouse, row: IdealRow)
    requires
        s.is_view(r),
        are_given(r, columns("internal_dx"@, "internal_dy"@, "internal_dz"@), s.drawn(r, row)),
        are_given(r, columns("exit_x"@, "exit_y"@, "exit_z"@), s.drawn(r, row)),
        are_given(
            r,
            columns("exit_normal_x"@, "exit_normal_y"@, "exit_normal_z"@),
            s.drawn(r, row),
        ),
    ensures
        ({
            let a = s.drawn(r, row);
            let d = arrow(r, columns("internal_dx"@, "internal_dy"@, "internal_dz"@), a);
            let point = arrow(r, columns("exit_x"@, "exit_y"@, "exit_z"@), a);
            let outward = arrow(
                r,
                columns("exit_normal_x"@, "exit_normal_y"@, "exit_normal_z"@),
                a,
            );
            let inward = turned_round(outward);
            let on = arrow(r, columns("refract_dx"@, "refract_dy"@, "refract_dz"@), a);
            let eta = (r.number)(GLASS_OVER_AIR);
            let total = sine_squared(eta, magnitude(d.dot(inward))) > 1 as real;
            &&& has_arrow(
                r,
                a,
                "refract_ox"@,
                "refract_oy"@,
                "refract_oz"@,
                point.plus(outward.scaled((r.number)(RAY_BIAS))),
            )
            &&& r.value(column("total_internal_reflection"@), a) == Ideal::Truth(total)
            &&& total ==> has_arrow(
                r,
                a,
                "refract_dx"@,
                "refract_dy"@,
                "refract_dz"@,
                mirrored(d, inward),
            )
            &&& !total && is_unit(d) && is_unit(inward) && d.dot(inward) <= 0 as real ==> {
                &&& has_arrow(r, a, "refract_dx"@, "refract_dy"@, "refract_dz"@, on)
                &&& is_refracted(eta, d, inward, on)
            }
        }),
{
    let a = s.drawn(r, row);
    lemma_glass_holds(r, s, row);
    lemma_path_holds(r, s, a);
    let (d, p, n) = (internal_direction(), exit_point(), exit_normal());
    let zeros = numbers(ZERO, ZERO, ZERO);
    let inward = inward_normal();
    let bias = number(RAY_BIAS);
    lemma_real_number(r, RAY_BIAS, a);
    lemma_real_times(r, n, bias, a);
    lemma_real_plus(r, p, n.times(bias), a);
    lemma_real_number(r, ZERO, a);
    lemma_real_number(r, ONE, a);
    assert(arrow(r, zeros, a) == nowhere());
    lemma_real_minus(r, zeros, n, a);
    assert(arrow(r, inward, a) == turned_round(arrow(r, n, a)));
    let cos = incidence(d, inward);
    lemma_incidence(r, d, inward, a);
    lemma_sine(r, GLASS_OVER_AIR, cos, a);
    let sine = refracted_sine_squared(GLASS_OVER_AIR, cos);
    lemma_real_binary(r, sine, Operator::Greater, number(ONE), a);
    let total = is_totally_reflected();
    assert(total == sine.gt(number(ONE)));
    let start = p.plus(n.times(bias));
    let back = reflected(d, inward);
    let on = refracted(GLASS_OVER_AIR, d, inward);
    let steps = refraction_exit_steps();
    assert(steps[0] == ("refract_ox"@, start.x));
    assert(steps[1] == ("refract_oy"@, start.y));
    assert(steps[2] == ("refract_oz"@, start.z));
    assert(steps[3] == ("refract_dx"@, total.case(back.x, on.x)));
    assert(steps[4] == ("refract_dy"@, total.case(back.y, on.y)));
    assert(steps[5] == ("refract_dz"@, total.case(back.z, on.z)));
    assert(steps[6] == ("total_internal_reflection"@, total));
    lemma_real_case(r, total, back.x, on.x, a);
    lemma_real_case(r, total, back.y, on.y, a);
    lemma_real_case(r, total, back.z, on.z, a);
    law_reflection_mirrors(r, d, inward, a);
    let (i, u) = (arrow(r, d, a), arrow(r, inward, a));
    if r.value(total, a) == Ideal::Truth(false) && is_unit(i) && is_unit(u) && i.dot(u)
        <= 0 as real {
        assert(magnitude(i.dot(u)) == -i.dot(u));
        law_snell(r, GLASS_OVER_AIR, d, inward, a);
    }
}

#[verifier::spinoff_prover]
proof fn lemma_sine(r: Reals, eta: u64, cos: Node, row: IdealRow)
    requires
        r.is_faithful(),
        is_given(r, cos, row),
    ensures
        r.value(refracted_sine_squared(eta, cos), row) == Ideal::Number(
            sine_squared((r.number)(eta), real_of(r, cos, row)),
        ),
{
    let (one, e) = (number(ONE), number(eta));
    let rest = one.minus(cos.times(cos));
    lemma_real_number(r, ONE, row);
    lemma_real_number(r, eta, row);
    lemma_real_binary(r, cos, Operator::Times, cos, row);
    lemma_real_binary(r, one, Operator::Minus, cos.times(cos), row);
    lemma_real_binary(r, e, Operator::Times, e, row);
    lemma_real_binary(r, e.times(e), Operator::Times, rest, row);
}

/// Where the reflected ray, or that behind the glass, arrives: the point and its
/// normal.
#[verifier::spinoff_prover]
pub proof fn law_glass_arrival(r: Reals, s: Glasshouse, row: IdealRow, ray: Seq<char>)
    requires
        s.is_view(r),
        ray == "reflect"@ || ray == "refract"@,
        ({
            let a = s.drawn(r, row);
            let d = arrow(r, columns(ray + "_dx"@, ray + "_dy"@, ray + "_dz"@), a);
            &&& are_given(r, columns(ray + "_ox"@, ray + "_oy"@, ray + "_oz"@), a)
            &&& are_given(r, columns(ray + "_dx"@, ray + "_dy"@, ray + "_dz"@), a)
            &&& d.dot(d) > 0 as real
        }),
    ensures
        ({
            let a = s.drawn(r, row);
            let o = arrow(r, columns(ray + "_ox"@, ray + "_oy"@, ray + "_oz"@), a);
            let d = arrow(r, columns(ray + "_dx"@, ray + "_dy"@, ray + "_dz"@), a);
            let (x, y, z) = (ray + "_hit_x"@, ray + "_hit_y"@, ray + "_hit_z"@);
            let (u, v, w) = (ray + "_normal_x"@, ray + "_normal_y"@, ray + "_normal_z"@);
            let point = arrow(r, columns(x, y, z), a);
            let normal = arrow(r, columns(u, v, w), a);
            let hit = r.value(column(ray + "_hit_idx"@), a);
            r.value(column(ray + "_t_nearest"@), a) matches Ideal::Number(t) ==> {
                &&& has_arrow(r, a, x, y, z, point)
                &&& has_arrow(r, a, u, v, w, normal)
                &&& is_arrival(r, s.spheres, o, d, t, hit, point, normal)
            }
        }),
{
    let a = s.drawn(r, row);
    lemma_glass_holds(r, s, row);
    lemma_path_holds(r, s, a);
    law_glass_trace(r, s, row, ray, ray);
    let (o, d) = (ray_origin(ray), ray_direction(ray));
    let (t, hit) = (column(ray + "_t_nearest"@), column(ray + "_hit_idx"@));
    let seen = columns(ray + "_hit_x"@, ray + "_hit_y"@, ray + "_hit_z"@);
    let above = columns(ray + "_normal_x"@, ray + "_normal_y"@, ray + "_normal_z"@);
    let steps = arrival_steps(s.spheres, ray);
    let point = point_at(o, d, t);
    let normal = hit_normal(s.spheres, hit, seen);
    assert(steps[0] == (ray + "_hit_x"@, point.x));
    assert(steps[1] == (ray + "_hit_y"@, point.y));
    assert(steps[2] == (ray + "_hit_z"@, point.z));
    assert(steps[3] == (ray + "_normal_x"@, normal.x));
    assert(steps[4] == (ray + "_normal_y"@, normal.y));
    assert(steps[5] == (ray + "_normal_z"@, normal.z));
    if r.value(t, a) is Number {
        lemma_arrival(r, s.spheres, o, d, t, hit, seen, above, a);
    }
}

// ---------------------------------------------------------------------------
// Light and shadow
// ---------------------------------------------------------------------------

/// Whether a sphere lets light pass: its refractive index is a number above zero.
pub open spec fn lets_light_pass(sphere: Sphere) -> bool {
    0 < sphere.refractive_index.bits <= INFINITY
}

proof fn lemma_transparent(sphere: Sphere)
    ensures
        sphere.transparent() == lets_light_pass(sphere),
{
}

/// Whether those are the prefixes of a point of the scene: the one that the camera
/// sees, the one that the reflected ray meets, or the one behind the glass.
pub open spec fn is_point(prefix: Seq<char>, hit: Seq<char>) -> bool {
    ||| prefix == ""@ && hit == "hit"@
    ||| prefix == "reflect_"@ && hit == "reflect_hit"@
    ||| prefix == "refract_"@ && hit == "refract_hit"@
}

/// The names of the columns of a shadow ray.
proof fn lemma_shadow_names(prefix: Seq<char>)
    ensures
        prefix + "shadow"@ + "_ox"@ == prefix + "shadow_ox"@,
        prefix + "shadow"@ + "_oy"@ == prefix + "shadow_oy"@,
        prefix + "shadow"@ + "_oz"@ == prefix + "shadow_oz"@,
        prefix + "shadow"@ + "_dx"@ == prefix + "shadow_dx"@,
        prefix + "shadow"@ + "_dy"@ == prefix + "shadow_dy"@,
        prefix + "shadow"@ + "_dz"@ == prefix + "shadow_dz"@,
        prefix + "normal"@ + "_x"@ == prefix + "normal_x"@,
        prefix + "normal"@ + "_y"@ == prefix + "normal_y"@,
        prefix + "normal"@ + "_z"@ == prefix + "normal_z"@,
{
    reveal_strlit("shadow");
    reveal_strlit("normal");
    reveal_strlit("_ox");
    reveal_strlit("_oy");
    reveal_strlit("_oz");
    reveal_strlit("_dx");
    reveal_strlit("_dy");
    reveal_strlit("_dz");
    reveal_strlit("_x");
    reveal_strlit("_y");
    reveal_strlit("_z");
    reveal_strlit("shadow_ox");
    reveal_strlit("shadow_oy");
    reveal_strlit("shadow_oz");
    reveal_strlit("shadow_dx");
    reveal_strlit("shadow_dy");
    reveal_strlit("shadow_dz");
    reveal_strlit("normal_x");
    reveal_strlit("normal_y");
    reveal_strlit("normal_z");
    assert(prefix + "shadow"@ + "_ox"@ =~= prefix + "shadow_ox"@);
    assert(prefix + "shadow"@ + "_oy"@ =~= prefix + "shadow_oy"@);
    assert(prefix + "shadow"@ + "_oz"@ =~= prefix + "shadow_oz"@);
    assert(prefix + "shadow"@ + "_dx"@ =~= prefix + "shadow_dx"@);
    assert(prefix + "shadow"@ + "_dy"@ =~= prefix + "shadow_dy"@);
    assert(prefix + "shadow"@ + "_dz"@ =~= prefix + "shadow_dz"@);
    assert(prefix + "normal"@ + "_x"@ =~= prefix + "normal_x"@);
    assert(prefix + "normal"@ + "_y"@ =~= prefix + "normal_y"@);
    assert(prefix + "normal"@ + "_z"@ =~= prefix + "normal_z"@);
}

/// What is known of the way from a point to the light.
pub open spec fn is_way_to_light(
    r: Reals,
    s: Glasshouse,
    a: IdealRow,
    prefix: Seq<char>,
    point: Arrow,
    normal: Arrow,
) -> bool {
    let way = spot(r, s.light.x, s.light.y, s.light.z).minus(point);
    let distance = (r.sqrt)(way.dot(way));
    let start = point.plus(normal.scaled((r.number)(SHADOW_BIAS)));
    let (u, v, w) = (prefix + "shadow_dx"@, prefix + "shadow_dy"@, prefix + "shadow_dz"@);
    let d = arrow(r, columns(u, v, w), a);
    &&& has_arrow(
        r,
        a,
        prefix + "shadow_ox"@,
        prefix + "shadow_oy"@,
        prefix + "shadow_oz"@,
        start,
    )
    &&& has_arrow(r, a, u, v, w, d)
    &&& is_direction(r, d, way)
    &&& r.value(column(prefix + "light_dist"@), a) == Ideal::Number(distance)
    &&& forall|i: int|
        0 <= i < s.spheres.len() && !lets_light_pass(#[trigger] s.spheres[i]) ==> is_entry_before(
            r,
            start,
            d,
            spot(r, s.spheres[i].center_x, s.spheres[i].center_y, s.spheres[i].center_z),
            (r.number)(s.spheres[i].radius.bits),
            distance,
            r.value(column(prefix + "shadow_t_"@ + s.spheres[i].name@), a),
        )
    &&& r.value(column(prefix + "in_shadow"@), a) == Ideal::Truth(
        exists|i: int|
            0 <= i < s.spheres.len() && !lets_light_pass(#[trigger] s.spheres[i]) && r.value(
                column(prefix + "shadow_t_"@ + s.spheres[i].name@),
                a,
            ) !is Missing,
    )
}

/// For each point that is there, the shadow ray starts a little above it, points to
/// the light, and is blocked by the spheres that let no light pass and that it enters
/// before the light; the point lies in shadow if there is one.
#[verifier::spinoff_prover]
pub proof fn law_glass_shadow(
    r: Reals,
    s: Glasshouse,
    row: IdealRow,
    prefix: Seq<char>,
    hit: Seq<char>,
)
    requires
        s.is_view(r),
        is_point(prefix, hit),
        ({
            let a = s.drawn(r, row);
            let point = columns(hit + "_x"@, hit + "_y"@, hit + "_z"@);
            let way = spot(r, s.light.x, s.light.y, s.light.z).minus(arrow(r, point, a));
            &&& are_given(r, point, a)
            &&& are_given(
                r,
                columns(prefix + "normal_x"@, prefix + "normal_y"@, prefix + "normal_z"@),
                a,
            )
            &&& way.dot(way) > 0 as real
        }),
    ensures
        ({
            let a = s.drawn(r, row);
            is_way_to_light(
                r,
                s,
                a,
                prefix,
                arrow(r, columns(hit + "_x"@, hit + "_y"@, hit + "_z"@), a),
                arrow(
                    r,
                    columns(prefix + "normal_x"@, prefix + "normal_y"@, prefix + "normal_z"@),
                    a,
                ),
            )
        }),
{
    let a = s.drawn(r, row);
    lemma_glass_holds(r, s, row);
    lemma_light_holds(r, s, a);
    law_any_shadow_ray(r, s, a, prefix, hit);
    law_any_shadow(r, s, a, prefix);
}

/// The shadow ray from any point, under any names.
#[verifier::spinoff_prover]
pub proof fn law_any_shadow_ray(
    r: Reals,
    s: Glasshouse,
    a: IdealRow,
    prefix: Seq<char>,
    hit: Seq<char>,
)
    requires
        r.is_faithful(),
        holds(r, point_shadow_steps(s.spheres, s.light, prefix, hit), a),
        are_given(r, vector_in(hit), a),
        are_given(
            r,
            columns(prefix + "normal_x"@, prefix + "normal_y"@, prefix + "normal_z"@),
            a,
        ),
        ({
            let way = spot(r, s.light.x, s.light.y, s.light.z).minus(arrow(r, vector_in(hit), a));
            way.dot(way) > 0 as real
        }),
    ensures
        ({
            let point = arrow(r, vector_in(hit), a);
            let way = spot(r, s.light.x, s.light.y, s.light.z).minus(point);
            let normal = arrow(
                r,
                columns(prefix + "normal_x"@, prefix + "normal_y"@, prefix + "normal_z"@),
                a,
            );
            let (u, v, w) = (prefix + "shadow_dx"@, prefix + "shadow_dy"@, prefix + "shadow_dz"@);
            let d = arrow(r, columns(u, v, w), a);
            &&& has_arrow(
                r,
                a,
                prefix + "shadow_ox"@,
                prefix + "shadow_oy"@,
                prefix + "shadow_oz"@,
                point.plus(normal.scaled((r.number)(SHADOW_BIAS))),
            )
            &&& has_arrow(r, a, u, v, w, d)
            &&& is_direction(r, d, way)
            &&& r.value(column(prefix + "light_dist"@), a) == Ideal::Number(
                (r.sqrt)(way.dot(way)),
            )
            &&& holds(r, shadow_steps(s.spheres, prefix), a)
            &&& holds(r, seq![in_shadow_step(s.spheres, prefix)], a)
        }),
{
    let ray = shadow_ray_steps(s.light, prefix, hit);
    let blocked = shadow_steps(s.spheres, prefix);
    lemma_holds_split(r, ray + blocked, seq![in_shadow_step(s.spheres, prefix)], a);
    lemma_holds_split(r, ray, blocked, a);
    lemma_shadow_names(prefix);
    let (p, n, bias) = (vector_in(hit), vector_in(prefix + "normal"@), number(SHADOW_BIAS));
    let start = p.plus(n.times(bias));
    let way = s.light.position().minus(p);
    lemma_real_number(r, SHADOW_BIAS, a);
    lemma_real_times(r, n, bias, a);
    lemma_real_plus(r, p, n.times(bias), a);
    lemma_real_number(r, s.light.x.bits, a);
    lemma_real_number(r, s.light.y.bits, a);
    lemma_real_number(r, s.light.z.bits, a);
    lemma_real_minus(r, s.light.position(), p, a);
    lemma_direction(r, way, a);
    assert(ray[0] == (prefix + "shadow_ox"@, start.x));
    assert(ray[1] == (prefix + "shadow_oy"@, start.y));
    assert(ray[2] == (prefix + "shadow_oz"@, start.z));
    assert(ray[3] == (prefix + "shadow_dx"@, way.normalized().x));
    assert(ray[4] == (prefix + "shadow_dy"@, way.normalized().y));
    assert(ray[5] == (prefix + "shadow_dz"@, way.normalized().z));
    assert(ray[6] == (prefix + "light_dist"@, way.length()));
}

/// What blocks any shadow ray, under any names.
#[verifier::spinoff_prover]
pub proof fn law_any_shadow(
    r: Reals,
    s: Glasshouse,
    a: IdealRow,
    prefix: Seq<char>,
)
    requires
        r.is_faithful(),
        has_clear_names(s.spheres),
        holds(r, shadow_steps(s.spheres, prefix), a),
        holds(r, seq![in_shadow_step(s.spheres, prefix)], a),
        are_given(
            r,
            columns(prefix + "shadow_ox"@, prefix + "shadow_oy"@, prefix + "shadow_oz"@),
            a,
        ),
        are_given(
            r,
            columns(prefix + "shadow_dx"@, prefix + "shadow_dy"@, prefix + "shadow_dz"@),
            a,
        ),
        is_given(r, column(prefix + "light_dist"@), a),
        is_unit(
            arrow(
                r,
                columns(prefix + "shadow_dx"@, prefix + "shadow_dy"@, prefix + "shadow_dz"@),
                a,
            ),
        ),
    ensures
        ({
            let start = arrow(
                r,
                columns(prefix + "shadow_ox"@, prefix + "shadow_oy"@, prefix + "shadow_oz"@),
                a,
            );
            let d = arrow(
                r,
                columns(prefix + "shadow_dx"@, prefix + "shadow_dy"@, prefix + "shadow_dz"@),
                a,
            );
            &&& forall|i: int|
                0 <= i < s.spheres.len() && !lets_light_pass(#[trigger] s.spheres[i])
                    ==> is_entry_before(
                    r,
                    start,
                    d,
                    spot(r, s.spheres[i].center_x, s.spheres[i].center_y, s.spheres[i].center_z),
                    (r.number)(s.spheres[i].radius.bits),
                    real_of(r, column(prefix + "light_dist"@), a),
                    r.value(column(prefix + "shadow_t_"@ + s.spheres[i].name@), a),
                )
            &&& r.value(column(prefix + "in_shadow"@), a) == Ideal::Truth(
                exists|i: int|
                    0 <= i < s.spheres.len() && !lets_light_pass(#[trigger] s.spheres[i])
                        && r.value(column(prefix + "shadow_t_"@ + s.spheres[i].name@), a)
                        !is Missing,
            )
        }),
{
    let kept = opaque(s.spheres);
    let blocked = shadow_steps(s.spheres, prefix);
    let last = seq![in_shadow_step(s.spheres, prefix)];
    lemma_shadow_names(prefix);
    let (o, d) = (ray_origin(prefix + "shadow"@), ray_direction(prefix + "shadow"@));
    let (start, way) = (arrow(r, o, a), arrow(r, d, a));
    let far = column(prefix + "light_dist"@);
    assert forall|i: int|
        0 <= i < s.spheres.len() && !lets_light_pass(
            #[trigger] s.spheres[i],
        ) implies is_entry_before(
        r,
        start,
        way,
        spot(r, s.spheres[i].center_x, s.spheres[i].center_y, s.spheres[i].center_z),
        (r.number)(s.spheres[i].radius.bits),
        real_of(r, far, a),
        r.value(column(prefix + "shadow_t_"@ + s.spheres[i].name@), a),
    ) by {
        let sphere = s.spheres[i];
        lemma_transparent(sphere);
        assert(s.spheres.contains(sphere));
        lemma_opaque_contains(s.spheres, sphere);
        let k = choose|k: int| 0 <= k < kept.len() && kept[k] == sphere;
        assert(blocked[k] == shadow_step(sphere, prefix));
        let ball = sphere.shape();
        law_meeting(r, o, d, ball, a);
        lemma_entry_before(
            r,
            start,
            way,
            spot(r, ball.center_x, ball.center_y, ball.center_z),
            (r.number)(ball.radius.bits),
            meeting(o, d, ball, Side::Near),
            far,
            a,
        );
    }
    let ts = sphere_columns(kept, prefix + "shadow_t_"@);
    assert(last[0] == (prefix + "in_shadow"@, any_present(ts)));
    law_any(r, ts, a);
    if exists|k: int| 0 <= k < ts.len() && r.value(#[trigger] ts[k], a) !is Missing {
        let k = choose|k: int| 0 <= k < ts.len() && r.value(#[trigger] ts[k], a) !is Missing;
        lemma_transparent(kept[k]);
        lemma_opaque_contains(s.spheres, kept[k]);
        assert(kept.contains(kept[k]));
        let i = choose|i: int| 0 <= i < s.spheres.len() && s.spheres[i] == kept[k];
        assert(ts[k] == column(prefix + "shadow_t_"@ + s.spheres[i].name@));
        assert(!lets_light_pass(s.spheres[i]));
    }
    if exists|i: int|
        0 <= i < s.spheres.len() && !lets_light_pass(#[trigger] s.spheres[i]) && r.value(
            column(prefix + "shadow_t_"@ + s.spheres[i].name@),
            a,
        ) !is Missing {
        let i = choose|i: int|
            0 <= i < s.spheres.len() && !lets_light_pass(#[trigger] s.spheres[i]) && r.value(
                column(prefix + "shadow_t_"@ + s.spheres[i].name@),
                a,
            ) !is Missing;
        lemma_transparent(s.spheres[i]);
        assert(s.spheres.contains(s.spheres[i]));
        lemma_opaque_contains(s.spheres, s.spheres[i]);
        let k = choose|k: int| 0 <= k < kept.len() && kept[k] == s.spheres[i];
        assert(r.value(ts[k], a) !is Missing);
    }
}

/// Whether those are the names for a point of the scene and for its brightness.
pub open spec fn is_lit_point(prefix: Seq<char>, hit: Seq<char>, result: Seq<char>) -> bool {
    ||| prefix == ""@ && hit == "hit"@ && result == "primary_brightness"@
    ||| prefix == "reflect_"@ && hit == "reflect_hit"@ && result == "reflect_brightness"@
    ||| prefix == "refract_"@ && hit == "refract_hit"@ && result == "refract_brightness"@
}

/// The brightness of each point that is there: the ambient light and, outside shadow,
/// the light's intensity times the cosine between the normal and the way to the light.
#[verifier::spinoff_prover]
pub proof fn law_glass_brightness(
    r: Reals,
    s: Glasshouse,
    row: IdealRow,
    prefix: Seq<char>,
    hit: Seq<char>,
    result: Seq<char>,
)
    requires
        s.is_view(r),
        is_lit_point(prefix, hit, result),
        ({
            let a = s.drawn(r, row);
            let point = columns(hit + "_x"@, hit + "_y"@, hit + "_z"@);
            let way = spot(r, s.light.x, s.light.y, s.light.z).minus(arrow(r, point, a));
            &&& are_given(r, point, a)
            &&& are_given(
                r,
                columns(prefix + "normal_x"@, prefix + "normal_y"@, prefix + "normal_z"@),
                a,
            )
            &&& way.dot(way) > 0 as real
        }),
    ensures
        ({
            let a = s.drawn(r, row);
            let point = arrow(r, columns(hit + "_x"@, hit + "_y"@, hit + "_z"@), a);
            let normal = arrow(
                r,
                columns(prefix + "normal_x"@, prefix + "normal_y"@, prefix + "normal_z"@),
                a,
            );
            let way = spot(r, s.light.x, s.light.y, s.light.z).minus(point);
            r.value(column(result), a) == Ideal::Number(
                brightness_of(
                    (r.number)(s.ambient.bits),
                    (r.number)(s.light.intensity.bits),
                    cosine_to(r, normal, way),
                    r.value(column(prefix + "in_shadow"@), a) == Ideal::Truth(true),
                ),
            )
        }),
{
    let a = s.drawn(r, row);
    law_glass_shadow(r, s, row, prefix, hit);
    lemma_glass_holds(r, s, row);
    lemma_light_holds(r, s, a);
    lemma_shadow_names(prefix);
    lemma_primary_joins();
    lemma_reflect_joins();
    lemma_refract_joins();
    let steps = brightness_steps(s.light, s.ambient);
    let (point, normal) = (vector_in(hit), vector_in(prefix + "normal"@));
    let shadow = column(prefix + "in_shadow"@);
    lemma_real_number(r, s.light.x.bits, a);
    lemma_real_number(r, s.light.y.bits, a);
    lemma_real_number(r, s.light.z.bits, a);
    law_brightness(
        r,
        s.light.position(),
        s.light.intensity.bits,
        s.ambient.bits,
        point,
        normal,
        shadow,
        a,
    );
    let lit = brightness(
        s.light.position(),
        s.light.intensity.bits,
        s.ambient.bits,
        point,
        normal,
        shadow,
    );
    lemma_prefixes_differ();
    if prefix == ""@ {
        assert(steps[0] == (result, lit));
    } else if prefix == "reflect_"@ {
        assert(steps[1] == (result, lit));
    } else {
        assert(steps[2] == (result, lit));
    }
}

proof fn lemma_prefixes_differ()
    ensures
        "reflect_"@ != "refract_"@,
        "reflect_"@ != ""@,
        "refract_"@ != ""@,
{
    reveal_strlit("");
    reveal_strlit("reflect_");
    reveal_strlit("refract_");
    assert("reflect_"@[3] == 'l' && "refract_"@[3] == 'r');
    assert(""@.len() == 0);
}

// ---------------------------------------------------------------------------
// Colours
// ---------------------------------------------------------------------------

/// The colour of the sky at a height of the image.
pub open spec fn sky_at(r: Reals, y: real) -> Arrow {
    Arrow {
        x: sky_of(r, 300, HORIZON_R, y),
        y: sky_of(r, 300, HORIZON_G, y),
        z: sky_of(r, 300, HORIZON_B, y),
    }
}

/// The colour of a sphere in that light.
pub open spec fn color_in_light(r: Reals, sphere: Sphere, bright: real) -> Arrow {
    Arrow {
        x: surface_of((r.number)(sphere.color_r.bits), bright),
        y: surface_of((r.number)(sphere.color_g.bits), bright),
        z: surface_of((r.number)(sphere.color_b.bits), bright),
    }
}

/// The colour of what a ray meets: that of the sphere with the index in its light, or
/// the sky's.
pub open spec fn color_met(
    r: Reals,
    spheres: Seq<Sphere>,
    hit: Ideal,
    bright: Ideal,
    y: real,
) -> Arrow {
    match hit {
        Ideal::Index(k) => color_in_light(r, spheres[k as int], bright->Number_0),
        _ => sky_at(r, y),
    }
}

#[verifier::spinoff_prover]
proof fn lemma_sky_color(r: Reals, a: IdealRow, y: real)
    requires
        r.is_faithful(),
        r.value(column("y"@), a) == Ideal::Number(y),
    ensures
        are_given(r, sky_color(), a),
        arrow(r, sky_color(), a) == sky_at(r, y),
{
    lemma_sky(r, HEIGHT as nat, HORIZON_R, a, y);
    lemma_sky(r, HEIGHT as nat, HORIZON_G, a, y);
    lemma_sky(r, HEIGHT as nat, HORIZON_B, a, y);
}

/// The colour of what is met, as the formula finds it among the spheres.
#[verifier::spinoff_prover]
proof fn lemma_color_met(
    r: Reals,
    spheres: Seq<Sphere>,
    hit: Node,
    bright: Node,
    opaque_only: bool,
    a: IdealRow,
    y: real,
)
    requires
        r.is_faithful(),
        spheres.len() <= i32::MAX,
        r.value(column("y"@), a) == Ideal::Number(y),
        match r.value(hit, a) {
            Ideal::Index(k) => 0 <= k < spheres.len() ==> is_given(r, bright, a) && !(opaque_only
                && spheres[k as int].transparent()),
            Ideal::Missing => true,
            _ => false,
        },
    ensures
        are_given(r, color_of_hit(spheres, hit, bright, opaque_only), a),
        arrow(r, color_of_hit(spheres, hit, bright, opaque_only), a) == (match r.value(hit, a) {
            Ideal::Index(k) => if 0 <= k < spheres.len() {
                color_in_light(r, spheres[k as int], real_of(r, bright, a))
            } else {
                sky_at(r, y)
            },
            _ => sky_at(r, y),
        }),
    decreases spheres.len(),
{
    lemma_sky_color(r, a, y);
    if spheres.len() > 0 {
        let k = spheres.len() - 1;
        let start = spheres.drop_last();
        match r.value(hit, a) {
            Ideal::Index(j) => {
                if 0 <= j < k {
                    assert(start[j as int] == spheres[j as int]);
                }
            },
            _ => {},
        }
        lemma_color_met_start(r, spheres, hit, bright, opaque_only, a, y);
        let last = spheres.last();
        assert(last == spheres[k]);
        let this = hit.equals(Node::Index(k as i32));
        let own = surface_color(last, bright);
        let before = color_of_hit(start, hit, bright, opaque_only);
        assert(r.value(Node::Index(k as i32), a) == Ideal::Index(k as i32));
        lemma_ideal_binary(r, hit, Operator::Equal, Node::Index(k as i32), a);
        lemma_real_case(r, this, own.x, before.x, a);
        lemma_real_case(r, this, own.y, before.y, a);
        lemma_real_case(r, this, own.z, before.z, a);
        if r.value(hit, a) == Ideal::Index(k as i32) {
            lemma_surface_of(r, last.color_r.bits, bright, a);
            lemma_surface_of(r, last.color_g.bits, bright, a);
            lemma_surface_of(r, last.color_b.bits, bright, a);
        } else {
            lemma_color_met(r, start, hit, bright, opaque_only, a, y);
        }
    }
}

/// How the colour for some spheres is made from that for all but the last.
proof fn lemma_color_met_start(
    r: Reals,
    spheres: Seq<Sphere>,
    hit: Node,
    bright: Node,
    opaque_only: bool,
    a: IdealRow,
    y: real,
)
    requires
        spheres.len() > 0,
    ensures
        ({
            let before = color_of_hit(spheres.drop_last(), hit, bright, opaque_only);
            color_of_hit(spheres, hit, bright, opaque_only) == if opaque_only
                && spheres.last().transparent() {
                before
            } else {
                Triple::if_else(
                    hit.equals(Node::Index((spheres.len() - 1) as i32)),
                    surface_color(spheres.last(), bright),
                    before,
                )
            }
        }),
{
}

/// A mixture of two colours: the first in that share, the rest of the second.
pub open spec fn mixture(first: Arrow, share: real, second: Arrow) -> Arrow {
    first.scaled(share).plus(second.scaled(1 as real - share))
}

/// A colour with each channel within its range.
pub open spec fn within_channels(color: Arrow) -> Arrow {
    Arrow {
        x: within_channel(color.x),
        y: within_channel(color.y),
        z: within_channel(color.z),
    }
}

/// The final colour. Where nothing is seen it is the sky's. Where glass is seen it is
/// what the glass reflects in the share that it reflects, the rest what is behind it.
/// Where another sphere is seen it is what the sphere reflects in the share of its
/// reflectivity, the rest its own colour in its light.
#[verifier::spinoff_prover]
pub proof fn law_glass_color(r: Reals, s: Glasshouse, row: IdealRow, y: real)
    requires
        s.is_view(r),
        r.value(column("y"@), row) == Ideal::Number(y),
        ({
            let a = s.drawn(r, row);
            &&& is_index(s, r.value(column("primary_hit_idx"@), a))
            &&& is_index(s, r.value(column("reflect_hit_idx"@), a))
            &&& is_index(s, r.value(column("refract_hit_idx"@), a))
            &&& r.value(column("reflect_hit_idx"@), a) is Index ==> is_given(
                r,
                column("reflect_brightness"@),
                a,
            )
            &&& r.value(column("refract_hit_idx"@), a) is Index ==> is_given(
                r,
                column("refract_brightness"@),
                a,
            )
        }),
    ensures
        ({
            let a = s.drawn(r, row);
            let hit = r.value(column("primary_hit_idx"@), a);
            let bright = r.value(column("primary_brightness"@), a);
            let reflection = color_met(
                r,
                s.spheres,
                r.value(column("reflect_hit_idx"@), a),
                r.value(column("reflect_brightness"@), a),
                y,
            );
            let behind = color_met(
                r,
                s.spheres,
                r.value(column("refract_hit_idx"@), a),
                r.value(column("refract_brightness"@), a),
                y,
            );
            let seen = r.value(column("primary_t_nearest"@), a) !is Missing;
            let (red, green, blue) = ("final_r"@, "final_g"@, "final_b"@);
            &&& !seen ==> has_arrow(r, a, red, green, blue, within_channels(sky_at(r, y)))
            &&& seen && (r.value(column("hit_ior"@), a) matches Ideal::Number(ior) && ior
                > 0 as real) ==> (r.value(column("fresnel"@), a) matches Ideal::Number(share)
                ==> has_arrow(
                r,
                a,
                red,
                green,
                blue,
                within_channels(mixture(reflection, share, behind)),
            ))
            &&& seen && (r.value(column("hit_ior"@), a) matches Ideal::Number(ior) && ior
                <= 0 as real) ==> (hit matches Ideal::Index(k) ==> (bright matches Ideal::Number(
                light,
            ) ==> !lets_light_pass(s.spheres[k as int]) ==> has_arrow(
                r,
                a,
                red,
                green,
                blue,
                within_channels(
                    mixture(
                        reflection,
                        (r.number)(s.spheres[k as int].reflectivity.bits),
                        color_in_light(r, s.spheres[k as int], light),
                    ),
                ),
            )))
        }),
{
    let a = s.drawn(r, row);
    lemma_glass_holds(r, s, row);
    let steps = color_steps(s.spheres);
    let color = seen_color(s.spheres);
    assert(steps[0] == ("final_r"@, clamped(color.x)));
    assert(steps[1] == ("final_g"@, clamped(color.y)));
    assert(steps[2] == ("final_b"@, clamped(color.z)));
    let seen = r.value(column("primary_t_nearest"@), a) !is Missing;
    let ior = r.value(column("hit_ior"@), a);
    if !seen {
        lemma_shows_sky(r, s, a, y);
        lemma_clamped_color(r, color, a);
    } else if ior is Number && ior->Number_0 > 0 as real {
        if is_given(r, column("fresnel"@), a) {
            lemma_shows_glass(r, s, a, y);
            lemma_clamped_color(r, color, a);
        }
    } else if ior is Number {
        let hit = r.value(column("primary_hit_idx"@), a);
        if hit is Index && is_given(r, column("primary_brightness"@), a) && !lets_light_pass(
            s.spheres[hit->Index_0 as int],
        ) {
            lemma_shows_surface(r, s, a, y);
            lemma_clamped_color(r, color, a);
        }
    }
}

/// Whether a value is the index of a sphere or missing.
pub open spec fn is_index(s: Glasshouse, value: Ideal) -> bool {
    match value {
        Ideal::Index(k) => 0 <= k < s.spheres.len(),
        Ideal::Missing => true,
        _ => false,
    }
}

#[verifier::spinoff_prover]
proof fn lemma_clamped_color(r: Reals, color: Triple, a: IdealRow)
    requires
        r.is_faithful(),
        are_given(r, color, a),
    ensures
        ({
            let c = within_channels(arrow(r, color, a));
            &&& r.value(clamped(color.x), a) == Ideal::Number(c.x)
            &&& r.value(clamped(color.y), a) == Ideal::Number(c.y)
            &&& r.value(clamped(color.z), a) == Ideal::Number(c.z)
        }),
{
    law_within_channel(r, color.x, a);
    law_within_channel(r, color.y, a);
    law_within_channel(r, color.z, a);
}

/// The three colours that the final one is chosen from.
spec fn glass_part(spheres: Seq<Sphere>) -> Triple {
    glass_color(seen_in_mirror(spheres), seen_behind(spheres), column("fresnel"@))
}

spec fn surface_part(spheres: Seq<Sphere>) -> Triple {
    let hit = column("primary_hit_idx"@);
    opaque_color(
        color_of_hit(spheres, hit, column("primary_brightness"@), true),
        seen_in_mirror(spheres),
        chosen(hit, reflectivities(spheres), number(ZERO)),
    )
}

proof fn lemma_seen_color(r: Reals, spheres: Seq<Sphere>, a: IdealRow)
    requires
        r.is_faithful(),
        r.value(column("primary_t_nearest"@), a) is Missing || is_given(r, column("hit_ior"@), a),
    ensures
        ({
            let color = seen_color(spheres);
            let part = if r.value(column("primary_t_nearest"@), a) is Missing {
                sky_color()
            } else if real_of(r, column("hit_ior"@), a) > 0 as real {
                glass_part(spheres)
            } else {
                surface_part(spheres)
            };
            &&& r.value(color.x, a) == r.value(part.x, a)
            &&& r.value(color.y, a) == r.value(part.y, a)
            &&& r.value(color.z, a) == r.value(part.z, a)
        }),
{
    let is_there = column("primary_t_nearest"@).is_not_null();
    let is_glass = column("hit_ior"@).gt(number(ZERO));
    let (glass, other) = (glass_part(spheres), surface_part(spheres));
    let sphere = Triple::if_else(is_glass, glass, other);
    assert(seen_color(spheres) == Triple::if_else(is_there, sphere, sky_color()));
    lemma_real_number(r, ZERO, a);
    lemma_ideal_is_not_null(r, column("primary_t_nearest"@), a);
    lemma_ideal_binary(r, column("hit_ior"@), Operator::Greater, number(ZERO), a);
    lemma_real_case(r, is_glass, glass.x, other.x, a);
    lemma_real_case(r, is_glass, glass.y, other.y, a);
    lemma_real_case(r, is_glass, glass.z, other.z, a);
    lemma_real_case(r, is_there, sphere.x, sky_color().x, a);
    lemma_real_case(r, is_there, sphere.y, sky_color().y, a);
    lemma_real_case(r, is_there, sphere.z, sky_color().z, a);
}

#[verifier::spinoff_prover]
proof fn lemma_shows_sky(r: Reals, s: Glasshouse, a: IdealRow, y: real)
    requires
        r.is_faithful(),
        r.value(column("y"@), a) == Ideal::Number(y),
        r.value(column("primary_t_nearest"@), a) is Missing,
    ensures
        are_given(r, seen_color(s.spheres), a),
        arrow(r, seen_color(s.spheres), a) == sky_at(r, y),
{
    lemma_seen_color(r, s.spheres, a);
    lemma_sky_color(r, a, y);
}

#[verifier::spinoff_prover]
proof fn lemma_shows_glass(r: Reals, s: Glasshouse, a: IdealRow, y: real)
    requires
        r.is_faithful(),
        s.spheres.len() <= i32::MAX,
        r.value(column("y"@), a) == Ideal::Number(y),
        r.value(column("primary_t_nearest"@), a) !is Missing,
        is_given(r, column("hit_ior"@), a),
        real_of(r, column("hit_ior"@), a) > 0 as real,
        is_given(r, column("fresnel"@), a),
        is_index(s, r.value(column("reflect_hit_idx"@), a)),
        is_index(s, r.value(column("refract_hit_idx"@), a)),
        r.value(column("reflect_hit_idx"@), a) is Index ==> is_given(
            r,
            column("reflect_brightness"@),
            a,
        ),
        r.value(column("refract_hit_idx"@), a) is Index ==> is_given(
            r,
            column("refract_brightness"@),
            a,
        ),
    ensures
        are_given(r, seen_color(s.spheres), a),
        arrow(r, seen_color(s.spheres), a) == mixture(
            color_met(
                r,
                s.spheres,
                r.value(column("reflect_hit_idx"@), a),
                r.value(column("reflect_brightness"@), a),
                y,
            ),
            real_of(r, column("fresnel"@), a),
            color_met(
                r,
                s.spheres,
                r.value(column("refract_hit_idx"@), a),
                r.value(column("refract_brightness"@), a),
                y,
            ),
        ),
{
    lemma_seen_color(r, s.spheres, a);
    let (u, v) = (column("reflect_hit_idx"@), column("refract_hit_idx"@));
    lemma_color_met(r, s.spheres, u, column("reflect_brightness"@), false, a, y);
    lemma_color_met(r, s.spheres, v, column("refract_brightness"@), false, a, y);
    law_glass_mixture(
        r,
        seen_in_mirror(s.spheres),
        seen_behind(s.spheres),
        column("fresnel"@),
        a,
    );
}

#[verifier::spinoff_prover]
proof fn lemma_shows_surface(r: Reals, s: Glasshouse, a: IdealRow, y: real)
    requires
        r.is_faithful(),
        s.spheres.len() <= i32::MAX,
        r.value(column("y"@), a) == Ideal::Number(y),
        r.value(column("primary_t_nearest"@), a) !is Missing,
        is_given(r, column("hit_ior"@), a),
        real_of(r, column("hit_ior"@), a) <= 0 as real,
        r.value(column("primary_hit_idx"@), a) is Index,
        is_index(s, r.value(column("primary_hit_idx"@), a)),
        !lets_light_pass(s.spheres[r.value(column("primary_hit_idx"@), a)->Index_0 as int]),
        is_given(r, column("primary_brightness"@), a),
        is_index(s, r.value(column("reflect_hit_idx"@), a)),
        r.value(column("reflect_hit_idx"@), a) is Index ==> is_given(
            r,
            column("reflect_brightness"@),
            a,
        ),
    ensures
        ({
            let sphere = s.spheres[r.value(column("primary_hit_idx"@), a)->Index_0 as int];
            &&& are_given(r, seen_color(s.spheres), a)
            &&& arrow(r, seen_color(s.spheres), a) == mixture(
                color_met(
                    r,
                    s.spheres,
                    r.value(column("reflect_hit_idx"@), a),
                    r.value(column("reflect_brightness"@), a),
                    y,
                ),
                (r.number)(sphere.reflectivity.bits),
                color_in_light(r, sphere, real_of(r, column("primary_brightness"@), a)),
            )
        }),
{
    let hit = column("primary_hit_idx"@);
    let k = r.value(hit, a)->Index_0;
    let sphere = s.spheres[k as int];
    let bright = column("primary_brightness"@);
    lemma_transparent(sphere);
    lemma_seen_color(r, s.spheres, a);
    lemma_color_met(r, s.spheres, hit, bright, true, a, y);
    lemma_color_met(
        r,
        s.spheres,
        column("reflect_hit_idx"@),
        column("reflect_brightness"@),
        false,
        a,
        y,
    );
    let shares = reflectivities(s.spheres);
    law_choice(r, hit, shares, number(ZERO), a);
    assert(shares[k as int] == number(sphere.reflectivity.bits));
    lemma_real_number(r, sphere.reflectivity.bits, a);
    let share = chosen(hit, shares, number(ZERO));
    let surface = color_of_hit(s.spheres, hit, bright, true);
    let reflection = seen_in_mirror(s.spheres);
    let rest = number(ONE).minus(share);
    lemma_real_number(r, ONE, a);
    lemma_real_binary(r, number(ONE), Operator::Minus, share, a);
    lemma_real_times(r, surface, rest, a);
    lemma_real_times(r, reflection, share, a);
    lemma_real_plus(r, surface.times(rest), reflection.times(share), a);
}

/// The brightness of any point, under any names.
#[verifier::spinoff_prover]
pub proof fn law_any_lighting(
    r: Reals,
    light: Light,
    ambient: Number,
    hit: Seq<char>,
    normal: Seq<char>,
    shadow: Seq<char>,
    result: Seq<char>,
    a: IdealRow,
)
    requires
        r.is_faithful(),
        are_given(r, columns(hit + "_x"@, hit + "_y"@, hit + "_z"@), a),
        are_given(r, columns(normal + "_x"@, normal + "_y"@, normal + "_z"@), a),
        r.value(column(shadow), a) is Truth,
        ({
            let point = arrow(r, columns(hit + "_x"@, hit + "_y"@, hit + "_z"@), a);
            let way = spot(r, light.x, light.y, light.z).minus(point);
            way.dot(way) > 0 as real
        }),
    ensures
        ({
            let step = lighting_step(light, ambient, hit, normal, shadow, result);
            let point = arrow(r, columns(hit + "_x"@, hit + "_y"@, hit + "_z"@), a);
            let n = arrow(r, columns(normal + "_x"@, normal + "_y"@, normal + "_z"@), a);
            let way = spot(r, light.x, light.y, light.z).minus(point);
            &&& step.0 == result
            &&& r.value(step.1, a) == Ideal::Number(
                brightness_of(
                    (r.number)(ambient.bits),
                    (r.number)(light.intensity.bits),
                    cosine_to(r, n, way),
                    r.value(column(shadow), a)->Truth_0,
                ),
            )
        }),
{
    lemma_real_number(r, light.x.bits, a);
    lemma_real_number(r, light.y.bits, a);
    lemma_real_number(r, light.z.bits, a);
    law_brightness(
        r,
        light.position(),
        light.intensity.bits,
        ambient.bits,
        vector_in(hit),
        vector_in(normal),
        column(shadow),
        a,
    );
}

/// Where any ray leaves a sphere, under any names.
#[verifier::spinoff_prover]
pub proof fn law_any_exit(
    r: Reals,
    sphere: Sphere,
    ray: Seq<char>,
    result: Seq<char>,
    a: IdealRow,
)
    requires
        r.is_faithful(),
        are_given(r, columns(ray + "_ox"@, ray + "_oy"@, ray + "_oz"@), a),
        are_given(r, columns(ray + "_dx"@, ray + "_dy"@, ray + "_dz"@), a),
        ({
            let d = arrow(r, columns(ray + "_dx"@, ray + "_dy"@, ray + "_dz"@), a);
            d.dot(d) > 0 as real
        }),
    ensures
        ({
            let step = exit_step(sphere, ray, result);
            let o = arrow(r, columns(ray + "_ox"@, ray + "_oy"@, ray + "_oz"@), a);
            let d = arrow(r, columns(ray + "_dx"@, ray + "_dy"@, ray + "_dz"@), a);
            let center = spot(r, sphere.center_x, sphere.center_y, sphere.center_z);
            let radius = (r.number)(sphere.radius.bits);
            &&& step.0 == result + "_exit_t"@
            &&& match r.value(step.1, a) {
                Ideal::Number(t) => t > (r.number)(THOUSANDTH) && is_exit(
                    o,
                    d,
                    center,
                    radius,
                    Ideal::Number(t),
                ),
                Ideal::Missing => forall|t: real|
                    t > (r.number)(THOUSANDTH) ==> !#[trigger] is_exit(
                        o,
                        d,
                        center,
                        radius,
                        Ideal::Number(t),
                    ),
                _ => false,
            }
        }),
{
    let (o, d) = (ray_origin(ray), ray_direction(ray));
    let ball = sphere.shape();
    let far = meeting(o, d, ball, Side::Far);
    let least = number(THOUSANDTH);
    law_meeting(r, o, d, ball, a);
    lemma_real_number(r, THOUSANDTH, a);
    lemma_ideal_binary(r, far, Operator::Greater, least, a);
    assert(r.value(Node::NullNumber, a) == Ideal::Missing);
    lemma_ideal_case(r, far.gt(least), far, Node::NullNumber, a);
    if r.value(exit_step(sphere, ray, result).1, a) is Missing {
        let (u, v) = (arrow(r, o, a), arrow(r, d, a));
        let center = spot(r, ball.center_x, ball.center_y, ball.center_z);
        let radius = (r.number)(ball.radius.bits);
        assert forall|q: real| q > (r.number)(THOUSANDTH) implies !#[trigger] is_exit(
            u,
            v,
            center,
            radius,
            Ideal::Number(q),
        ) by {
            lemma_one_exit(u, v, center, radius, r.value(far, a), q);
        }
    }
}

} // verus!

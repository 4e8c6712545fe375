//! What a pixel shows of spheres in the light of a lamp, among real numbers.
use crate::choice::{law_any, law_choice, law_within_channel, may_be_given, within_channel};
use crate::formula::{Node, Operator, column, number};
use crate::geometry::{along_ray, is_entry, law_meeting, lemma_quotient, spot};
use crate::ideal::{
    Ideal, IdealRow, Reals, holds, law_ideal_columns_hold, lemma_holds_split, law_whole_is_read,
    lemma_ideal_binary, lemma_ideal_case, lemma_ideal_is_not_null, product, quotient,
};
use crate::meaning::{has_own_names, lemma_ranked_append, lemma_ranked_own, ranked};
use crate::number::{CHANNEL_MAX, Number, ONE, THOUSANDTH, ZERO, whole_bits};
use crate::optics::{
    Arrow, are_given, arrow, is_given, lemma_by_zero, lemma_real_binary, lemma_real_case,
    lemma_real_dot, lemma_real_minus, lemma_real_number, lemma_real_plus, lemma_real_times,
    lemma_times_sum, real_of,
};
use crate::portrait::{
    axis, has_arrow, is_pixel, lemma_camera_rays, lemma_normal_from_center, lemma_point_on_ray,
    lemma_some_way, nowhere, tint, way_to_pixel,
};
use crate::shadows::{
    HEIGHT, HORIZON_B, HORIZON_G, HORIZON_R, Light, SHADOW_BIAS, Sphere, color_steps, final_color,
    hit_point, in_shadow_step, index_step, intersect_step, intersect_steps, lighting_step,
    nearest_step, point_steps, scene_steps, shadow_direction, shadow_origin, shadow_ray_steps,
    shadow_step, shadow_steps, surface_normal,
};
use crate::soundness::{hit_and_shadow, law_shadows_is_sound, pixel_table};
use crate::spheres_portrait::{
    is_entry_ahead, is_seen, is_smallest, lemma_entry_ahead, lemma_one_entry, lemma_seen,
};
use crate::trace::{
    Camera, Side, Solid, ahead_before, any_present, brightness, camera_direction, camera_origin,
    chosen, clamped, hit_normal, meeting, point_at, ray_steps, sky, sphere_columns, surface,
};
use crate::vector::{Triple, columns};
use crate::visibility::told_apart;
use vstd::prelude::*;

verus! {

// ---------------------------------------------------------------------------
// Light
// ---------------------------------------------------------------------------

/// The brightness of a point: the ambient light and, outside shadow and on the side
/// towards the light, the light's intensity times the cosine of the angle between the
/// normal and the way to the light; at most one.
pub open spec fn brightness_of(
    ambient: real,
    intensity: real,
    cosine: real,
    in_shadow: bool,
) -> real {
    let lit = if !in_shadow && cosine > 0 as real {
        ambient + product(cosine, intensity)
    } else {
        ambient
    };
    if lit > 1 as real {
        1 as real
    } else {
        lit
    }
}

/// The cosine of the angle between a normal and a way, from their product and the
/// length of the way.
pub open spec fn cosine_to(r: Reals, normal: Arrow, way: Arrow) -> real {
    quotient(normal.dot(way), (r.sqrt)(way.dot(way)))
}

#[verifier::spinoff_prover]
proof fn lemma_shared_factor(n: real, v: real, k: real)
    requires
        k > 0 as real,
    ensures
        product(k, product(n, quotient(v, k))) == product(n, v),
{
    lemma_quotient(k, v);
    let q = quotient(v, k);
    lemma_swap(k, n, q);
}

#[verifier::spinoff_prover]
proof fn lemma_swap(k: real, n: real, q: real)
    ensures
        product(k, product(n, q)) == product(n, product(k, q)),
{
    reveal(product);
    assert(k * (n * q) == n * (k * q)) by (nonlinear_arith);
}

#[verifier::spinoff_prover]
proof fn lemma_only_quotient(k: real, x: real, y: real)
    requires
        k > 0 as real,
        product(k, x) == y,
    ensures
        x == quotient(y, k),
{
    reveal(product);
    reveal(quotient);
    assert(x == y / k) by (nonlinear_arith)
        requires
            k > 0 as real,
            k * x == y,
    ;
}

#[verifier::spinoff_prover]
pub(crate) proof fn lemma_positive_root(s: real, k: real)
    requires
        s >= 0 as real,
        product(s, s) == k,
        k > 0 as real,
    ensures
        s > 0 as real,
{
    reveal(product);
    assert(s > 0 as real) by (nonlinear_arith)
        requires
            s >= 0 as real,
            s * s > 0 as real,
    ;
}

/// The product of a normal with the direction of a way.
#[verifier::spinoff_prover]
proof fn lemma_cosine(r: Reals, normal: Triple, way: Triple, row: IdealRow)
    requires
        r.is_faithful(),
        are_given(r, normal, row),
        are_given(r, way, row),
        arrow(r, way, row).dot(arrow(r, way, row)) > 0 as real,
    ensures
        r.value(normal.dot(way.normalized()), row) == Ideal::Number(
            cosine_to(r, arrow(r, normal, row), arrow(r, way, row)),
        ),
{
    let length = way.length();
    let (n, v) = (arrow(r, normal, row), arrow(r, way, row));
    lemma_real_dot(r, way, way, row);
    let k = (r.sqrt)(v.dot(v));
    assert(r.value(way.dot(way).sqrt(), row) == Ideal::Number(k));
    assert(k >= 0 as real && product(k, k) == v.dot(v));
    lemma_positive_root(k, v.dot(v));
    lemma_real_binary(r, way.x, Operator::Over, length, row);
    lemma_real_binary(r, way.y, Operator::Over, length, row);
    lemma_real_binary(r, way.z, Operator::Over, length, row);
    let unit = way.normalized();
    lemma_real_dot(r, normal, unit, row);
    let u = arrow(r, unit, row);
    lemma_shared_factor(n.x, v.x, k);
    lemma_shared_factor(n.y, v.y, k);
    lemma_shared_factor(n.z, v.z, k);
    lemma_times_sum(k, product(n.x, u.x), product(n.y, u.y), product(n.z, u.z));
    lemma_only_quotient(k, n.dot(u), n.dot(v));
}

/// Whether a point, its normal and the light are given, it is known whether the point
/// lies in shadow, and it is not where the light is.
pub open spec fn is_lightable(
    r: Reals,
    light: Triple,
    point: Triple,
    normal: Triple,
    in_shadow: Node,
    row: IdealRow,
) -> bool {
    let way = arrow(r, light, row).minus(arrow(r, point, row));
    &&& r.is_faithful()
    &&& are_given(r, light, row)
    &&& are_given(r, point, row)
    &&& are_given(r, normal, row)
    &&& r.value(in_shadow, row) is Truth
    &&& way.dot(way) > 0 as real
}

/// The brightness of a point whose normal and place are given.
#[verifier::spinoff_prover]
pub proof fn law_brightness(
    r: Reals,
    light: Triple,
    intensity: u64,
    ambient: u64,
    point: Triple,
    normal: Triple,
    in_shadow: Node,
    row: IdealRow,
)
    requires
        is_lightable(r, light, point, normal, in_shadow, row),
    ensures
        r.value(brightness(light, intensity, ambient, point, normal, in_shadow), row)
            == Ideal::Number(
            brightness_of(
                (r.number)(ambient),
                (r.number)(intensity),
                cosine_to(
                    r,
                    arrow(r, normal, row),
                    arrow(r, light, row).minus(arrow(r, point, row)),
                ),
                r.value(in_shadow, row)->Truth_0,
            ),
        ),
{
    let way = light.minus(point);
    let cos = normal.dot(way.normalized());
    let (zero, one, power) = (number(ZERO), number(ONE), number(intensity));
    lemma_real_minus(r, light, point, row);
    lemma_cosine(r, normal, way, row);
    lemma_real_number(r, ZERO, row);
    lemma_real_number(r, ONE, row);
    lemma_real_number(r, intensity, row);
    lemma_real_number(r, ambient, row);
    lemma_real_binary(r, cos, Operator::Greater, zero, row);
    lemma_real_binary(r, cos, Operator::Times, power, row);
    let diffuse = cos.gt(zero).case(cos.times(power), zero);
    lemma_real_case(r, cos.gt(zero), cos.times(power), zero, row);
    let more = in_shadow.case(zero, diffuse);
    lemma_real_case(r, in_shadow, zero, diffuse, row);
    let total = number(ambient).plus(more);
    lemma_real_binary(r, number(ambient), Operator::Plus, more, row);
    lemma_real_binary(r, total, Operator::Greater, one, row);
    lemma_real_case(r, total.gt(one), one, total, row);
}

/// A light without intensity adds nothing.
#[verifier::spinoff_prover]
pub proof fn law_no_light(ambient: real, cosine: real, in_shadow: bool)
    ensures
        brightness_of(ambient, 0 as real, cosine, in_shadow) == (if ambient > 1 as real {
            1 as real
        } else {
            ambient
        }),
{
    lemma_by_zero(cosine);
}

/// A channel of the sky: 255 at the top of an image of that height, the horizon's at
/// its bottom.
pub open spec fn sky_of(r: Reals, height: nat, horizon: u64, y: real) -> real {
    let down = quotient(y, height as int as real);
    product(255 as real, 1 as real - down) + product((r.number)(horizon), down)
}

#[verifier::spinoff_prover]
pub(crate) proof fn lemma_sky(r: Reals, height: nat, horizon: u64, row: IdealRow, y: real)
    requires
        r.is_faithful(),
        height <= u32::MAX,
        r.value(column("y"@), row) == Ideal::Number(y),
    ensures
        r.value(sky(height, horizon), row) == Ideal::Number(sky_of(r, height, horizon, y)),
{
    let (h, one, full) = (number(whole_bits(height)), number(ONE), number(CHANNEL_MAX));
    let blend = column("y"@).over(h);
    law_whole_is_read(r, height);
    lemma_real_number(r, whole_bits(height), row);
    lemma_real_number(r, ONE, row);
    lemma_real_number(r, CHANNEL_MAX, row);
    lemma_real_number(r, horizon, row);
    lemma_real_binary(r, column("y"@), Operator::Over, h, row);
    lemma_real_binary(r, one, Operator::Minus, blend, row);
    lemma_real_binary(r, full, Operator::Times, one.minus(blend), row);
    lemma_real_binary(r, number(horizon), Operator::Times, blend, row);
    lemma_real_binary(
        r,
        full.times(one.minus(blend)),
        Operator::Plus,
        number(horizon).times(blend),
        row,
    );
}

/// A channel of a surface in that light.
pub open spec fn surface_of(color: real, bright: real) -> real {
    product(product(color, 255 as real), bright)
}

#[verifier::spinoff_prover]
pub(crate) proof fn lemma_surface_of(r: Reals, color: u64, bright: Node, row: IdealRow)
    requires
        r.is_faithful(),
        is_given(r, bright, row),
    ensures
        r.value(surface(color, bright), row) == Ideal::Number(
            surface_of((r.number)(color), real_of(r, bright, row)),
        ),
{
    let (c, full) = (number(color), number(CHANNEL_MAX));
    lemma_real_number(r, color, row);
    lemma_real_number(r, CHANNEL_MAX, row);
    lemma_real_binary(r, c, Operator::Times, full, row);
    lemma_real_binary(r, c.times(full), Operator::Times, bright, row);
}

/// Whether that is where a ray enters a sphere ahead of its origin and before a limit;
/// nothing if it does not.
pub open spec fn is_entry_before(
    r: Reals,
    o: Arrow,
    d: Arrow,
    center: Arrow,
    radius: real,
    limit: real,
    found: Ideal,
) -> bool {
    match found {
        Ideal::Number(t) => {
            &&& t > (r.number)(THOUSANDTH)
            &&& t < limit
            &&& is_entry(o, d, center, radius, found)
        },
        Ideal::Missing => forall|t: real|
            t > (r.number)(THOUSANDTH) && t < limit ==> !#[trigger] is_entry(
                o,
                d,
                center,
                radius,
                Ideal::Number(t),
            ),
        _ => false,
    }
}

#[verifier::spinoff_prover]
pub(crate) proof fn lemma_entry_before(
    r: Reals,
    o: Arrow,
    d: Arrow,
    center: Arrow,
    radius: real,
    t: Node,
    limit: Node,
    row: IdealRow,
)
    requires
        r.is_faithful(),
        is_entry(o, d, center, radius, r.value(t, row)),
        is_given(r, limit, row),
    ensures
        is_entry_before(
            r,
            o,
            d,
            center,
            radius,
            real_of(r, limit, row),
            r.value(ahead_before(t, limit), row),
        ),
{
    let least = number(THOUSANDTH);
    lemma_real_number(r, THOUSANDTH, row);
    lemma_ideal_binary(r, t, Operator::Greater, least, row);
    lemma_ideal_binary(r, t, Operator::Less, limit, row);
    lemma_ideal_binary(r, t.gt(least), Operator::And, t.lt(limit), row);
    assert(r.value(Node::NullNumber, row) == Ideal::Missing);
    lemma_ideal_case(r, t.gt(least).and(t.lt(limit)), t, Node::NullNumber, row);
    if r.value(ahead_before(t, limit), row) is Missing {
        assert forall|s: real|
            s > (r.number)(THOUSANDTH) && s < real_of(r, limit, row) implies !#[trigger] is_entry(
            o,
            d,
            center,
            radius,
            Ideal::Number(s),
        ) by {
            lemma_one_entry(o, d, center, radius, r.value(t, row), s);
        }
    }
}

/// The normal of the sphere with an index.
#[verifier::spinoff_prover]
pub(crate) proof fn lemma_normal_of_hit<S: Solid>(
    r: Reals,
    spheres: Seq<S>,
    hit: Node,
    point: Triple,
    row: IdealRow,
)
    requires
        spheres.len() <= i32::MAX,
        r.value(hit, row) is Index || r.value(hit, row) is Missing,
    ensures
        ({
            let found = hit_normal(spheres, hit, point);
            match r.value(hit, row) {
                Ideal::Index(k) => 0 <= k < spheres.len() ==> {
                    let own = spheres[k as int].shape().normal_at(point);
                    &&& r.value(found.x, row) == r.value(own.x, row)
                    &&& r.value(found.y, row) == r.value(own.y, row)
                    &&& r.value(found.z, row) == r.value(own.z, row)
                },
                _ => {
                    &&& r.value(found.x, row) == r.value(number(ZERO), row)
                    &&& r.value(found.y, row) == r.value(number(ZERO), row)
                    &&& r.value(found.z, row) == r.value(number(ZERO), row)
                },
            }
        }),
{
    let normal = |i: int| spheres[i].shape().normal_at(point);
    let xs = Seq::new(spheres.len(), |i: int| normal(i).x);
    let ys = Seq::new(spheres.len(), |i: int| normal(i).y);
    let zs = Seq::new(spheres.len(), |i: int| normal(i).z);
    law_choice(r, hit, xs, number(ZERO), row);
    law_choice(r, hit, ys, number(ZERO), row);
    law_choice(r, hit, zs, number(ZERO), row);
    let found = hit_normal(spheres, hit, point);
    assert(found.x == chosen(hit, xs, number(ZERO)));
    assert(found.y == chosen(hit, ys, number(ZERO)));
    assert(found.z == chosen(hit, zs, number(ZERO)));
}

// ---------------------------------------------------------------------------
// The names
// ---------------------------------------------------------------------------

/// Whether the names of the spheres are different and none leads to the name of
/// another column.
pub open spec fn has_clear_names(spheres: Seq<Sphere>) -> bool {
    &&& told_apart(spheres)
    &&& forall|i: int| 0 <= i < spheres.len() ==> (#[trigger] spheres[i]).name@ != "nearest"@
}

/// The place of each column, by the letters of its name.
spec fn rank() -> spec_fn(Seq<char>) -> int {
    |name: Seq<char>|
        if name.len() >= 2 && name[0] == 't' && name[1] == '_' {
            if name == "t_nearest"@ {
                7
            } else {
                6
            }
        } else if name.len() >= 9 && name[0] == 's' {
            if name[7] == 't' {
                22
            } else if name[7] == 'o' {
                15 + axis(name.last())
            } else {
                18 + axis(name.last())
            }
        } else if name.len() == 8 {
            if name[0] == 'o' {
                axis(name.last())
            } else {
                12 + axis(name.last())
            }
        } else if name.len() == 5 {
            if name[0] == 'd' {
                3 + axis(name.last())
            } else {
                9 + axis(name.last())
            }
        } else if name.len() == 10 {
            if name[0] == 'h' {
                8
            } else if name[0] == 'l' {
                21
            } else {
                24
            }
        } else if name.len() == 9 {
            23
        } else if name.len() == 7 {
            25 + tint(name.last())
        } else {
            -1
        }
}

proof fn lemma_ranks()
    ensures
        rank()("x"@) == -1,
        rank()("y"@) == -1,
        rank()("origin_x"@) == 0,
        rank()("origin_y"@) == 1,
        rank()("origin_z"@) == 2,
        rank()("dir_x"@) == 3,
        rank()("dir_y"@) == 4,
        rank()("dir_z"@) == 5,
        rank()("t_nearest"@) == 7,
        rank()("hit_sphere"@) == 8,
        rank()("hit_x"@) == 9,
        rank()("hit_y"@) == 10,
        rank()("hit_z"@) == 11,
        rank()("normal_x"@) == 12,
        rank()("normal_y"@) == 13,
        rank()("normal_z"@) == 14,
        rank()("shadow_ox"@) == 15,
        rank()("shadow_oy"@) == 16,
        rank()("shadow_oz"@) == 17,
        rank()("shadow_dx"@) == 18,
        rank()("shadow_dy"@) == 19,
        rank()("shadow_dz"@) == 20,
        rank()("light_dist"@) == 21,
        rank()("in_shadow"@) == 23,
        rank()("brightness"@) == 24,
        rank()("final_r"@) == 25,
        rank()("final_g"@) == 26,
        rank()("final_b"@) == 27,
{
    reveal_strlit("x");
    reveal_strlit("y");
    reveal_strlit("origin_x");
    reveal_strlit("origin_y");
    reveal_strlit("origin_z");
    reveal_strlit("dir_x");
    reveal_strlit("dir_y");
    reveal_strlit("dir_z");
    reveal_strlit("t_nearest");
    reveal_strlit("hit_sphere");
    reveal_strlit("hit_x");
    reveal_strlit("hit_y");
    reveal_strlit("hit_z");
    reveal_strlit("normal_x");
    reveal_strlit("normal_y");
    reveal_strlit("normal_z");
    reveal_strlit("shadow_ox");
    reveal_strlit("shadow_oy");
    reveal_strlit("shadow_oz");
    reveal_strlit("shadow_dx");
    reveal_strlit("shadow_dy");
    reveal_strlit("shadow_dz");
    reveal_strlit("light_dist");
    reveal_strlit("in_shadow");
    reveal_strlit("brightness");
    reveal_strlit("final_r");
    reveal_strlit("final_g");
    reveal_strlit("final_b");
}

proof fn lemma_rank_of_parameter(name: Seq<char>)
    requires
        name != "nearest"@,
    ensures
        rank()("t_"@ + name) == 6,
{
    reveal_strlit("t_");
    reveal_strlit("t_nearest");
    reveal_strlit("nearest");
    let long = "t_"@ + name;
    assert(long[0] == 't' && long[1] == '_');
    if long == "t_nearest"@ {
        assert(name =~= long.skip(2));
        assert("nearest"@ =~= "t_nearest"@.skip(2));
    }
}

proof fn lemma_rank_of_shadow(name: Seq<char>)
    ensures
        rank()("shadow_t_"@ + name) == 22,
{
    reveal_strlit("shadow_t_");
    let long = "shadow_t_"@ + name;
    assert(long[0] == 's' && long[7] == 't');
}

/// The columns of the scene have names of their own.
#[verifier::spinoff_prover]
proof fn lemma_names(
    width: nat,
    height: nat,
    camera: Camera,
    spheres: Seq<Sphere>,
    light: Light,
    ambient: Number,
)
    requires
        has_clear_names(spheres),
    ensures
        has_own_names(
            scene_steps(width, height, camera, spheres, light, ambient),
            pixel_table(),
        ),
{
    let rays = ray_steps(width, height, camera);
    let met = intersect_steps(spheres);
    let seen = seq![nearest_step(spheres), index_step(spheres)];
    let points = point_steps(spheres);
    let shadow_ray = shadow_ray_steps(light);
    let blocked = shadow_steps(spheres);
    let lights = seq![in_shadow_step(spheres), lighting_step(light, ambient)];
    let colors = color_steps(spheres);
    lemma_ranks();
    assert(ranked(rays, rank(), 0, 6)) by {
        assert(rays[0].0 == "origin_x"@);
        assert(rays[1].0 == "origin_y"@);
        assert(rays[2].0 == "origin_z"@);
        assert(rays[3].0 == "dir_x"@);
        assert(rays[4].0 == "dir_y"@);
        assert(rays[5].0 == "dir_z"@);
        assert forall|i: int| 0 <= i < rays.len() implies rank()((#[trigger] rays[i]).0) == 0
            + i by {
            assert(i == 0 || i == 1 || i == 2 || i == 3 || i == 4 || i == 5);
        }
    }
    assert(ranked(met, rank(), 6, 7)) by {
        assert forall|i: int| 0 <= i < met.len() implies rank()((#[trigger] met[i]).0) == 6 by {
            lemma_rank_of_parameter(spheres[i].name@);
        }
        assert forall|i: int, j: int| 0 <= i < j < met.len() implies (#[trigger] met[i]).0 != (
        #[trigger] met[j]).0 by {
            assert(spheres[i].label() != spheres[j].label());
            assert(met[i].0.skip("t_"@.len() as int) =~= spheres[i].name@);
            assert(met[j].0.skip("t_"@.len() as int) =~= spheres[j].name@);
        }
    }
    assert(ranked(seen, rank(), 7, 9)) by {
        assert(seen[0].0 == "t_nearest"@);
        assert(seen[1].0 == "hit_sphere"@);
        assert forall|i: int| 0 <= i < seen.len() implies rank()((#[trigger] seen[i]).0) == 7
            + i by {
            assert(i == 0 || i == 1);
        }
    }
    assert(ranked(points, rank(), 9, 15)) by {
        assert(points[0].0 == "hit_x"@);
        assert(points[1].0 == "hit_y"@);
        assert(points[2].0 == "hit_z"@);
        assert(points[3].0 == "normal_x"@);
        assert(points[4].0 == "normal_y"@);
        assert(points[5].0 == "normal_z"@);
        assert forall|i: int| 0 <= i < points.len() implies rank()((#[trigger] points[i]).0) == 9
            + i by {
            assert(i == 0 || i == 1 || i == 2 || i == 3 || i == 4 || i == 5);
        }
    }
    assert(ranked(shadow_ray, rank(), 15, 22)) by {
        assert(shadow_ray[0].0 == "shadow_ox"@);
        assert(shadow_ray[1].0 == "shadow_oy"@);
        assert(shadow_ray[2].0 == "shadow_oz"@);
        assert(shadow_ray[3].0 == "shadow_dx"@);
        assert(shadow_ray[4].0 == "shadow_dy"@);
        assert(shadow_ray[5].0 == "shadow_dz"@);
        assert(shadow_ray[6].0 == "light_dist"@);
        assert forall|i: int| 0 <= i < shadow_ray.len() implies rank()((#[trigger] shadow_ray[i]).0) == 15
            + i by {
            assert(i == 0 || i == 1 || i == 2 || i == 3 || i == 4 || i == 5 || i == 6);
        }
    }
    assert(ranked(blocked, rank(), 22, 23)) by {
        assert forall|i: int| 0 <= i < blocked.len() implies rank()((#[trigger] blocked[i]).0) == 22 by {
            lemma_rank_of_shadow(spheres[i].name@);
        }
        assert forall|i: int, j: int| 0 <= i < j < blocked.len() implies (#[trigger] blocked[i]).0 != (
        #[trigger] blocked[j]).0 by {
            assert(spheres[i].label() != spheres[j].label());
            assert(blocked[i].0.skip("shadow_t_"@.len() as int) =~= spheres[i].name@);
            assert(blocked[j].0.skip("shadow_t_"@.len() as int) =~= spheres[j].name@);
        }
    }
    assert(ranked(lights, rank(), 23, 25)) by {
        assert(lights[0].0 == "in_shadow"@);
        assert(lights[1].0 == "brightness"@);
        assert forall|i: int| 0 <= i < lights.len() implies rank()((#[trigger] lights[i]).0) == 23
            + i by {
            assert(i == 0 || i == 1);
        }
    }
    assert(ranked(colors, rank(), 25, 28)) by {
        assert(colors[0].0 == "final_r"@);
        assert(colors[1].0 == "final_g"@);
        assert(colors[2].0 == "final_b"@);
        assert forall|i: int| 0 <= i < colors.len() implies rank()((#[trigger] colors[i]).0) == 25
            + i by {
            assert(i == 0 || i == 1 || i == 2);
        }
    }
    lemma_ranked_append(rays, met, rank(), 0, 6, 7);
    lemma_ranked_append(rays + met, seen, rank(), 0, 7, 9);
    lemma_ranked_append(rays + met + seen, points, rank(), 0, 9, 15);
    lemma_ranked_append(rays + met + seen + points, shadow_ray, rank(), 0, 15, 22);
    let all = rays + met + seen + points + shadow_ray;
    lemma_ranked_append(all, blocked, rank(), 0, 22, 23);
    lemma_ranked_append(all + blocked, lights, rank(), 0, 23, 25);
    lemma_ranked_append(all + blocked + lights, colors, rank(), 0, 25, 28);
    lemma_ranked_own(
        scene_steps(width, height, camera, spheres, light, ambient),
        pixel_table(),
        rank(),
        0,
        28,
    );
}

/// The columns of the scene hold what their formulas say.
#[verifier::spinoff_prover]
proof fn lemma_holds(
    r: Reals,
    width: nat,
    height: nat,
    camera: Camera,
    spheres: Seq<Sphere>,
    light: Light,
    ambient: Number,
    row: IdealRow,
)
    requires
        spheres.len() > 0,
        has_clear_names(spheres),
    ensures
        ({
            let a = r.run(scene_steps(width, height, camera, spheres, light, ambient), row);
            let rays = ray_steps(width, height, camera);
            let (points, shadow_ray) = (point_steps(spheres), shadow_ray_steps(light));
            let color = final_color(spheres);
            &&& r.value(column("x"@), a) == r.value(column("x"@), row)
            &&& r.value(column("y"@), a) == r.value(column("y"@), row)
            &&& forall|i: int|
                0 <= i < 6 ==> r.value(column((#[trigger] rays[i]).0), a) == r.value(rays[i].1, a)
            &&& forall|i: int|
                0 <= i < spheres.len() ==> r.value(
                    column("t_"@ + (#[trigger] spheres[i]).name@),
                    a,
                ) == r.value(intersect_step(spheres[i]).1, a)
            &&& forall|i: int|
                0 <= i < spheres.len() ==> r.value(
                    column("shadow_t_"@ + (#[trigger] spheres[i]).name@),
                    a,
                ) == r.value(shadow_step(spheres[i]).1, a)
            &&& forall|i: int|
                0 <= i < 6 ==> r.value(column((#[trigger] points[i]).0), a) == r.value(
                    points[i].1,
                    a,
                )
            &&& forall|i: int|
                0 <= i < 7 ==> r.value(column((#[trigger] shadow_ray[i]).0), a) == r.value(
                    shadow_ray[i].1,
                    a,
                )
            &&& r.value(column("t_nearest"@), a) == r.value(nearest_step(spheres).1, a)
            &&& r.value(column("hit_sphere"@), a) == r.value(index_step(spheres).1, a)
            &&& r.value(column("in_shadow"@), a) == r.value(in_shadow_step(spheres).1, a)
            &&& r.value(column("brightness"@), a) == r.value(lighting_step(light, ambient).1, a)
            &&& r.value(column("final_r"@), a) == r.value(color.x, a)
            &&& r.value(column("final_g"@), a) == r.value(color.y, a)
            &&& r.value(column("final_b"@), a) == r.value(color.z, a)
        }),
{
    let steps = scene_steps(width, height, camera, spheres, light, ambient);
    let a = r.run(steps, row);
    let n: int = spheres.len() as int;
    law_shadows_is_sound(width, height, camera, spheres, light, ambient);
    lemma_names(width, height, camera, spheres, light, ambient);
    law_ideal_columns_hold(r, steps, row, pixel_table(), hit_and_shadow());
    assert(pixel_table().contains("x"@) && pixel_table().contains("y"@));
    let rays = ray_steps(width, height, camera);
    let met = intersect_steps(spheres);
    let seen = seq![nearest_step(spheres), index_step(spheres)];
    let (points, shadow_ray) = (point_steps(spheres), shadow_ray_steps(light));
    let blocked = shadow_steps(spheres);
    let lights = seq![in_shadow_step(spheres), lighting_step(light, ambient)];
    let colors = color_steps(spheres);
    let start = rays + met + seen + points + shadow_ray;
    assert(holds(r, steps, a));
    lemma_holds_split(r, start + blocked + lights, colors, a);
    lemma_holds_split(r, start + blocked, lights, a);
    lemma_holds_split(r, start, blocked, a);
    lemma_holds_split(r, rays + met + seen + points, shadow_ray, a);
    lemma_holds_split(r, rays + met + seen, points, a);
    lemma_holds_split(r, rays + met, seen, a);
    lemma_holds_split(r, rays, met, a);
    assert forall|i: int| 0 <= i < n implies r.value(
        column("t_"@ + (#[trigger] spheres[i]).name@),
        a,
    ) == r.value(intersect_step(spheres[i]).1, a) by {
        assert(met[i] == intersect_step(spheres[i]));
    }
    assert(seen[0] == nearest_step(spheres) && seen[1] == index_step(spheres));
    assert forall|i: int| 0 <= i < n implies r.value(
        column("shadow_t_"@ + (#[trigger] spheres[i]).name@),
        a,
    ) == r.value(shadow_step(spheres[i]).1, a) by {
        assert(blocked[i] == shadow_step(spheres[i]));
    }
    assert(lights[0] == in_shadow_step(spheres) && lights[1] == lighting_step(light, ambient));
    assert(colors[0].0 == "final_r"@ && colors[1].0 == "final_g"@ && colors[2].0 == "final_b"@);
}

// ---------------------------------------------------------------------------
// The scene
// ---------------------------------------------------------------------------

/// What the scene asks of its inputs: an image and a list that are not too large, a
/// camera that looks somewhere, and spheres of some size with clear names.
pub open spec fn is_view(
    r: Reals,
    width: nat,
    height: nat,
    camera: Camera,
    spheres: Seq<Sphere>,
) -> bool {
    &&& r.is_faithful()
    &&& width <= u32::MAX
    &&& height <= u32::MAX
    &&& 0 < spheres.len() <= i32::MAX
    &&& has_clear_names(spheres)
    &&& (r.number)(camera.focal_length.bits) != 0 as real
    &&& forall|i: int|
        0 <= i < spheres.len() ==> (r.number)((#[trigger] spheres[i]).radius.bits) != 0 as real
}

/// What a row holds of the ray of its pixel and of where that enters the spheres.
pub open spec fn are_met(
    r: Reals,
    a: IdealRow,
    width: nat,
    height: nat,
    camera: Camera,
    spheres: Seq<Sphere>,
    x: real,
    y: real,
) -> bool {
    let way = way_to_pixel(r, width, height, camera, x, y);
    &&& is_pixel(r, a, x, y)
    &&& has_arrow(r, a, "origin_x"@, "origin_y"@, "origin_z"@, nowhere())
    &&& has_arrow(r, a, "dir_x"@, "dir_y"@, "dir_z"@, way)
    &&& forall|i: int|
        0 <= i < spheres.len() ==> is_entry_ahead(
            r,
            nowhere(),
            way,
            spot(
                r,
                (#[trigger] spheres[i]).center_x,
                spheres[i].center_y,
                spheres[i].center_z,
            ),
            (r.number)(spheres[i].radius.bits),
            r.value(column("t_"@ + spheres[i].name@), a),
        )
}

/// The camera looks through each pixel, and the parameter of each sphere is where that
/// ray enters it ahead.
#[verifier::spinoff_prover]
pub proof fn law_lit_spheres_are_met(
    r: Reals,
    width: nat,
    height: nat,
    camera: Camera,
    spheres: Seq<Sphere>,
    light: Light,
    ambient: Number,
    row: IdealRow,
    x: real,
    y: real,
)
    requires
        is_view(r, width, height, camera, spheres),
        is_pixel(r, row, x, y),
    ensures
        are_met(
            r,
            r.run(scene_steps(width, height, camera, spheres, light, ambient), row),
            width,
            height,
            camera,
            spheres,
            x,
            y,
        ),
{
    let a = r.run(scene_steps(width, height, camera, spheres, light, ambient), row);
    let way = way_to_pixel(r, width, height, camera, x, y);
    lemma_holds(r, width, height, camera, spheres, light, ambient, row);
    lemma_camera_rays(r, width, height, camera, a, x, y);
    lemma_some_way(way);
    let (o, d) = (camera_origin(), camera_direction());
    assert forall|i: int| 0 <= i < spheres.len() implies is_entry_ahead(
        r,
        nowhere(),
        way,
        spot(r, (#[trigger] spheres[i]).center_x, spheres[i].center_y, spheres[i].center_z),
        (r.number)(spheres[i].radius.bits),
        r.value(column("t_"@ + spheres[i].name@), a),
    ) by {
        let ball = spheres[i].shape();
        law_meeting(r, o, d, ball, a);
        lemma_entry_ahead(
            r,
            nowhere(),
            way,
            spot(r, ball.center_x, ball.center_y, ball.center_z),
            (r.number)(ball.radius.bits),
            meeting(o, d, ball, Side::Near),
            a,
        );
    }
}

/// The parameters of the spheres in a row, in order.
pub open spec fn parameters(r: Reals, spheres: Seq<Sphere>, a: IdealRow) -> Seq<Ideal> {
    Seq::new(spheres.len(), |i: int| r.value(column("t_"@ + spheres[i].name@), a))
}

/// What a row holds of the sphere that is seen.
pub open spec fn has_nearest(
    r: Reals,
    a: IdealRow,
    spheres: Seq<Sphere>,
) -> bool {
    let ts = parameters(r, spheres, a);
    let near = r.value(column("t_nearest"@), a);
    &&& is_smallest(ts, near)
    &&& is_seen(r, ts, near, r.value(column("hit_sphere"@), a))
}

/// The nearest parameter is the smallest of those of the spheres, and the sphere that
/// is hit the last that is close to it.
#[verifier::spinoff_prover]
pub proof fn law_nearest_lit_sphere(
    r: Reals,
    width: nat,
    height: nat,
    camera: Camera,
    spheres: Seq<Sphere>,
    light: Light,
    ambient: Number,
    row: IdealRow,
    x: real,
    y: real,
)
    requires
        is_view(r, width, height, camera, spheres),
        is_pixel(r, row, x, y),
    ensures
        has_nearest(
            r,
            r.run(scene_steps(width, height, camera, spheres, light, ambient), row),
            spheres,
        ),
{
    let a = r.run(scene_steps(width, height, camera, spheres, light, ambient), row);
    law_lit_spheres_are_met(r, width, height, camera, spheres, light, ambient, row, x, y);
    lemma_holds(r, width, height, camera, spheres, light, ambient, row);
    assert forall|i: int| 0 <= i < spheres.len() implies may_be_given(
        r.value(column("t_"@ + (#[trigger] spheres[i]).label()), a),
    ) by {
        assert(spheres[i].label() == spheres[i].name@);
    }
    lemma_seen(r, spheres, "t_"@, column("t_nearest"@), a);
    assert(parameters(r, spheres, a) =~= Seq::new(
        spheres.len(),
        |i: int| r.value(column("t_"@ + spheres[i].label()), a),
    ));
}

/// What a row holds of the point that is seen.
pub open spec fn has_point(
    r: Reals,
    a: IdealRow,
    width: nat,
    height: nat,
    camera: Camera,
    spheres: Seq<Sphere>,
    x: real,
    y: real,
) -> bool {
    let way = way_to_pixel(r, width, height, camera, x, y);
    let normal = arrow(r, columns("normal_x"@, "normal_y"@, "normal_z"@), a);
    let hit = r.value(column("hit_sphere"@), a);
    &&& r.value(column("t_nearest"@), a) matches Ideal::Number(t) ==> {
        let point = along_ray(nowhere(), way, t);
        &&& has_arrow(r, a, "hit_x"@, "hit_y"@, "hit_z"@, point)
        &&& has_arrow(r, a, "normal_x"@, "normal_y"@, "normal_z"@, normal)
        &&& hit matches Ideal::Index(k) ==> 0 <= k < spheres.len() && normal.scaled(
            (r.number)(spheres[k as int].radius.bits),
        ) == point.minus(
            spot(
                r,
                spheres[k as int].center_x,
                spheres[k as int].center_y,
                spheres[k as int].center_z,
            ),
        )
    }
    &&& hit is Missing ==> has_arrow(
        r,
        a,
        "normal_x"@,
        "normal_y"@,
        "normal_z"@,
        nowhere(),
    )
}

/// Where a sphere is seen, the point is that of the ray at the nearest parameter, and
/// the normal there points from the centre of the sphere and has length one; where
/// none is seen the normal is nothing.
#[verifier::spinoff_prover]
pub proof fn law_lit_point(
    r: Reals,
    width: nat,
    height: nat,
    camera: Camera,
    spheres: Seq<Sphere>,
    light: Light,
    ambient: Number,
    row: IdealRow,
    x: real,
    y: real,
)
    requires
        is_view(r, width, height, camera, spheres),
        is_pixel(r, row, x, y),
    ensures
        has_point(
            r,
            r.run(scene_steps(width, height, camera, spheres, light, ambient), row),
            width,
            height,
            camera,
            spheres,
            x,
            y,
        ),
{
    let a = r.run(scene_steps(width, height, camera, spheres, light, ambient), row);
    let (o, d) = (camera_origin(), camera_direction());
    let (t, hit) = (column("t_nearest"@), column("hit_sphere"@));
    lemma_holds(r, width, height, camera, spheres, light, ambient, row);
    lemma_camera_rays(r, width, height, camera, a, x, y);
    law_nearest_lit_sphere(r, width, height, camera, spheres, light, ambient, row, x, y);
    let points = point_steps(spheres);
    let point = point_at(o, d, t);
    let found = hit_normal(spheres, hit, hit_point());
    assert(points[0] == ("hit_x"@, point.x));
    assert(points[1] == ("hit_y"@, point.y));
    assert(points[2] == ("hit_z"@, point.z));
    assert(points[3] == ("normal_x"@, found.x));
    assert(points[4] == ("normal_y"@, found.y));
    assert(points[5] == ("normal_z"@, found.z));
    lemma_normal_of_hit(r, spheres, hit, hit_point(), a);
    lemma_real_number(r, ZERO, a);
    if r.value(t, a) is Number {
        lemma_point_on_ray(r, o, d, t, a);
        match r.value(hit, a) {
            Ideal::Index(k) => {
                lemma_normal_from_center(r, spheres[k as int].shape(), hit_point(), a);
            },
            _ => {},
        }
    }
}

/// What a row holds of the way from that point to the light.
pub open spec fn has_way_to_light(
    r: Reals,
    a: IdealRow,
    light: Light,
) -> bool {
    let point = arrow(r, columns("hit_x"@, "hit_y"@, "hit_z"@), a);
    let normal = arrow(r, columns("normal_x"@, "normal_y"@, "normal_z"@), a);
    let start = point.plus(normal.scaled((r.number)(SHADOW_BIAS)));
    let way = spot(r, light.x, light.y, light.z).minus(start);
    r.value(column("t_nearest"@), a) is Number ==> {
        &&& has_arrow(r, a, "shadow_ox"@, "shadow_oy"@, "shadow_oz"@, start)
        &&& has_arrow(r, a, "shadow_dx"@, "shadow_dy"@, "shadow_dz"@, way)
        &&& r.value(column("light_dist"@), a) == Ideal::Number((r.sqrt)(way.dot(way)))
    }
}

/// Where a sphere is seen, the shadow ray starts a little above the point, along the
/// normal, and its direction is the whole way from there to the light.
#[verifier::spinoff_prover]
pub proof fn law_way_to_light(
    r: Reals,
    width: nat,
    height: nat,
    camera: Camera,
    spheres: Seq<Sphere>,
    light: Light,
    ambient: Number,
    row: IdealRow,
    x: real,
    y: real,
)
    requires
        is_view(r, width, height, camera, spheres),
        is_pixel(r, row, x, y),
    ensures
        has_way_to_light(
            r,
            r.run(scene_steps(width, height, camera, spheres, light, ambient), row),
            light,
        ),
{
    let a = r.run(scene_steps(width, height, camera, spheres, light, ambient), row);
    lemma_holds(r, width, height, camera, spheres, light, ambient, row);
    law_lit_point(r, width, height, camera, spheres, light, ambient, row, x, y);
    if r.value(column("t_nearest"@), a) is Number {
        let (p, n, bias) = (hit_point(), surface_normal(), number(SHADOW_BIAS));
        let steps = shadow_ray_steps(light);
        let start = p.plus(n.times(bias));
        let way = light.position().minus(shadow_origin());
        assert(steps[0] == ("shadow_ox"@, start.x));
        assert(steps[1] == ("shadow_oy"@, start.y));
        assert(steps[2] == ("shadow_oz"@, start.z));
        assert(steps[3] == ("shadow_dx"@, way.x));
        assert(steps[4] == ("shadow_dy"@, way.y));
        assert(steps[5] == ("shadow_dz"@, way.z));
        assert(steps[6] == ("light_dist"@, shadow_direction().length()));
        lemma_real_number(r, SHADOW_BIAS, a);
        lemma_real_times(r, n, bias, a);
        lemma_real_plus(r, p, n.times(bias), a);
        lemma_real_number(r, light.x.bits, a);
        lemma_real_number(r, light.y.bits, a);
        lemma_real_number(r, light.z.bits, a);
        lemma_real_minus(r, light.position(), shadow_origin(), a);
        lemma_real_dot(r, shadow_direction(), shadow_direction(), a);
    }
}

/// What a row holds of what blocks the light.
pub open spec fn has_shadow(
    r: Reals,
    a: IdealRow,
    spheres: Seq<Sphere>,
) -> bool {
    let start = arrow(r, columns("shadow_ox"@, "shadow_oy"@, "shadow_oz"@), a);
    let way = arrow(r, columns("shadow_dx"@, "shadow_dy"@, "shadow_dz"@), a);
    let seen = r.value(column("t_nearest"@), a) is Number;
    &&& seen && way.dot(way) > 0 as real ==> forall|i: int|
        0 <= i < spheres.len() ==> is_entry_before(
            r,
            start,
            way,
            spot(
                r,
                (#[trigger] spheres[i]).center_x,
                spheres[i].center_y,
                spheres[i].center_z,
            ),
            (r.number)(spheres[i].radius.bits),
            1 as real,
            r.value(column("shadow_t_"@ + spheres[i].name@), a),
        )
    &&& r.value(column("in_shadow"@), a) == Ideal::Truth(
        seen && exists|i: int|
            0 <= i < spheres.len() && r.value(
                column("shadow_t_"@ + (#[trigger] spheres[i]).name@),
                a,
            ) !is Missing,
    )
}

/// Where a sphere is seen, another blocks the light if the shadow ray enters it before
/// the light, which it reaches at 1; the point lies in shadow if any does. Where none
/// is seen nothing lies in shadow.
#[verifier::spinoff_prover]
pub proof fn law_what_blocks_the_light(
    r: Reals,
    width: nat,
    height: nat,
    camera: Camera,
    spheres: Seq<Sphere>,
    light: Light,
    ambient: Number,
    row: IdealRow,
    x: real,
    y: real,
)
    requires
        is_view(r, width, height, camera, spheres),
        is_pixel(r, row, x, y),
    ensures
        has_shadow(
            r,
            r.run(scene_steps(width, height, camera, spheres, light, ambient), row),
            spheres,
        ),
{
    let a = r.run(scene_steps(width, height, camera, spheres, light, ambient), row);
    lemma_holds(r, width, height, camera, spheres, light, ambient, row);
    law_nearest_lit_sphere(r, width, height, camera, spheres, light, ambient, row, x, y);
    law_way_to_light(r, width, height, camera, spheres, light, ambient, row, x, y);
    let (o, d) = (shadow_origin(), shadow_direction());
    let (start, way) = (arrow(r, o, a), arrow(r, d, a));
    let t = column("t_nearest"@);
    lemma_real_number(r, ONE, a);
    if r.value(t, a) is Number && way.dot(way) > 0 as real {
        assert forall|i: int| 0 <= i < spheres.len() implies is_entry_before(
            r,
            start,
            way,
            spot(r, (#[trigger] spheres[i]).center_x, spheres[i].center_y, spheres[i].center_z),
            (r.number)(spheres[i].radius.bits),
            1 as real,
            r.value(column("shadow_t_"@ + spheres[i].name@), a),
        ) by {
            let ball = spheres[i].shape();
            law_meeting(r, o, d, ball, a);
            lemma_entry_before(
                r,
                start,
                way,
                spot(r, ball.center_x, ball.center_y, ball.center_z),
                (r.number)(ball.radius.bits),
                meeting(o, d, ball, Side::Near),
                number(ONE),
                a,
            );
        }
    }
    let ts = sphere_columns(spheres, "shadow_t_"@);
    law_any(r, ts, a);
    lemma_ideal_is_not_null(r, t, a);
    lemma_ideal_case(
        r,
        t.is_not_null(),
        any_present(ts),
        Node::Truth(false),
        a,
    );
    assert forall|i: int| 0 <= i < spheres.len() implies (#[trigger] ts[i]) == column(
        "shadow_t_"@ + spheres[i].name@,
    ) by {}
    if exists|i: int| 0 <= i < ts.len() && r.value(#[trigger] ts[i], a) !is Missing {
        let i = choose|i: int| 0 <= i < ts.len() && r.value(#[trigger] ts[i], a) !is Missing;
        assert(r.value(column("shadow_t_"@ + spheres[i].name@), a) !is Missing);
    }
    if exists|i: int|
        0 <= i < spheres.len() && r.value(column("shadow_t_"@ + (#[trigger] spheres[i]).name@), a)
            !is Missing {
        let i = choose|i: int|
            0 <= i < spheres.len() && r.value(
                column("shadow_t_"@ + (#[trigger] spheres[i]).name@),
                a,
            ) !is Missing;
        assert(r.value(ts[i], a) !is Missing);
    }
}

/// What a row holds of the brightness.
pub open spec fn has_brightness(
    r: Reals,
    a: IdealRow,
    light: Light,
    ambient: Number,
) -> bool {
    let point = arrow(r, columns("hit_x"@, "hit_y"@, "hit_z"@), a);
    let normal = arrow(r, columns("normal_x"@, "normal_y"@, "normal_z"@), a);
    let way = spot(r, light.x, light.y, light.z).minus(point);
    r.value(column("t_nearest"@), a) is Number && way.dot(way) > 0 as real ==> r.value(
        column("brightness"@),
        a,
    ) == Ideal::Number(
        brightness_of(
            (r.number)(ambient.bits),
            (r.number)(light.intensity.bits),
            cosine_to(r, normal, way),
            r.value(column("in_shadow"@), a) == Ideal::Truth(true),
        ),
    )
}

/// The brightness of the point that is seen: the ambient light and, outside shadow, the
/// light's intensity times the cosine between the normal and the way to the light.
#[verifier::spinoff_prover]
pub proof fn law_brightness_of_point(
    r: Reals,
    width: nat,
    height: nat,
    camera: Camera,
    spheres: Seq<Sphere>,
    light: Light,
    ambient: Number,
    row: IdealRow,
    x: real,
    y: real,
)
    requires
        is_view(r, width, height, camera, spheres),
        is_pixel(r, row, x, y),
    ensures
        has_brightness(
            r,
            r.run(scene_steps(width, height, camera, spheres, light, ambient), row),
            light,
            ambient,
        ),
{
    let a = r.run(scene_steps(width, height, camera, spheres, light, ambient), row);
    lemma_holds(r, width, height, camera, spheres, light, ambient, row);
    law_lit_point(r, width, height, camera, spheres, light, ambient, row, x, y);
    law_what_blocks_the_light(r, width, height, camera, spheres, light, ambient, row, x, y);
    let point = arrow(r, hit_point(), a);
    let way = spot(r, light.x, light.y, light.z).minus(point);
    lemma_real_number(r, light.x.bits, a);
    lemma_real_number(r, light.y.bits, a);
    lemma_real_number(r, light.z.bits, a);
    if r.value(column("t_nearest"@), a) is Number && way.dot(way) > 0 as real {
        law_brightness(
            r,
            light.position(),
            light.intensity.bits,
            ambient.bits,
            hit_point(),
            surface_normal(),
            column("in_shadow"@),
            a,
        );
    }
}

/// What a row holds of the colour.
pub open spec fn is_colored(
    r: Reals,
    a: IdealRow,
    spheres: Seq<Sphere>,
    y: real,
) -> bool {
    match r.value(column("hit_sphere"@), a) {
        Ideal::Index(k) => 0 <= k < spheres.len() && (r.value(column("brightness"@), a)
            matches Ideal::Number(bright) ==> has_arrow(
            r,
            a,
            "final_r"@,
            "final_g"@,
            "final_b"@,
            Arrow {
                x: within_channel(
                    surface_of((r.number)(spheres[k as int].color_r.bits), bright),
                ),
                y: within_channel(
                    surface_of((r.number)(spheres[k as int].color_g.bits), bright),
                ),
                z: within_channel(
                    surface_of((r.number)(spheres[k as int].color_b.bits), bright),
                ),
            },
        )),
        _ => has_arrow(
            r,
            a,
            "final_r"@,
            "final_g"@,
            "final_b"@,
            Arrow {
                x: within_channel(sky_of(r, 600, HORIZON_R, y)),
                y: within_channel(sky_of(r, 600, HORIZON_G, y)),
                z: within_channel(sky_of(r, 600, HORIZON_B, y)),
            },
        ),
    }
}

/// The colour of a pixel is that of the sphere that is seen, in the light at that
/// point; where none is seen it is the sky's.
#[verifier::spinoff_prover]
pub proof fn law_lit_color(
    r: Reals,
    width: nat,
    height: nat,
    camera: Camera,
    spheres: Seq<Sphere>,
    light: Light,
    ambient: Number,
    row: IdealRow,
    x: real,
    y: real,
)
    requires
        is_view(r, width, height, camera, spheres),
        is_pixel(r, row, x, y),
    ensures
        is_colored(
            r,
            r.run(scene_steps(width, height, camera, spheres, light, ambient), row),
            spheres,
            y,
        ),
{
    let a = r.run(scene_steps(width, height, camera, spheres, light, ambient), row);
    let (hit, bright) = (column("hit_sphere"@), column("brightness"@));
    let n = spheres.len();
    lemma_holds(r, width, height, camera, spheres, light, ambient, row);
    law_nearest_lit_sphere(r, width, height, camera, spheres, light, ambient, row, x, y);
    let reds = Seq::new(n, |i: int| surface(spheres[i].color_r.bits, bright));
    let greens = Seq::new(n, |i: int| surface(spheres[i].color_g.bits, bright));
    let blues = Seq::new(n, |i: int| surface(spheres[i].color_b.bits, bright));
    let (red, green) = (sky(HEIGHT as nat, HORIZON_R), sky(HEIGHT as nat, HORIZON_G));
    let blue = sky(HEIGHT as nat, HORIZON_B);
    law_choice(r, hit, reds, red, a);
    law_choice(r, hit, greens, green, a);
    law_choice(r, hit, blues, blue, a);
    lemma_sky(r, HEIGHT as nat, HORIZON_R, a, y);
    lemma_sky(r, HEIGHT as nat, HORIZON_G, a, y);
    lemma_sky(r, HEIGHT as nat, HORIZON_B, a, y);
    match r.value(hit, a) {
        Ideal::Index(k) => {
            if r.value(bright, a) is Number {
                lemma_surface_of(r, spheres[k as int].color_r.bits, bright, a);
                lemma_surface_of(r, spheres[k as int].color_g.bits, bright, a);
                lemma_surface_of(r, spheres[k as int].color_b.bits, bright, a);
                law_within_channel(r, chosen(hit, reds, red), a);
                law_within_channel(r, chosen(hit, greens, green), a);
                law_within_channel(r, chosen(hit, blues, blue), a);
            }
        },
        _ => {
            law_within_channel(r, chosen(hit, reds, red), a);
            law_within_channel(r, chosen(hit, greens, green), a);
            law_within_channel(r, chosen(hit, blues, blue), a);
        },
    }
    assert(final_color(spheres).x == clamped(chosen(hit, reds, red)));
    assert(final_color(spheres).y == clamped(chosen(hit, greens, green)));
    assert(final_color(spheres).z == clamped(chosen(hit, blues, blue)));
}

/// What a row holds of spheres in the light.
pub open spec fn shows_lit_spheres(
    r: Reals,
    a: IdealRow,
    width: nat,
    height: nat,
    camera: Camera,
    spheres: Seq<Sphere>,
    light: Light,
    ambient: Number,
    x: real,
    y: real,
) -> bool {
    &&& are_met(r, a, width, height, camera, spheres, x, y)
    &&& has_nearest(r, a, spheres)
    &&& has_point(r, a, width, height, camera, spheres, x, y)
    &&& has_way_to_light(r, a, light)
    &&& has_shadow(r, a, spheres)
    &&& has_brightness(r, a, light, ambient)
    &&& is_colored(r, a, spheres, y)
}

/// What a pixel shows of spheres in the light.
pub proof fn law_lit_spheres(
    r: Reals,
    width: nat,
    height: nat,
    camera: Camera,
    spheres: Seq<Sphere>,
    light: Light,
    ambient: Number,
    row: IdealRow,
    x: real,
    y: real,
)
    requires
        is_view(r, width, height, camera, spheres),
        is_pixel(r, row, x, y),
    ensures
        shows_lit_spheres(
            r,
            r.run(scene_steps(width, height, camera, spheres, light, ambient), row),
            width,
            height,
            camera,
            spheres,
            light,
            ambient,
            x,
            y,
        ),
{
    law_lit_spheres_are_met(r, width, height, camera, spheres, light, ambient, row, x, y);
    law_nearest_lit_sphere(r, width, height, camera, spheres, light, ambient, row, x, y);
    law_lit_point(r, width, height, camera, spheres, light, ambient, row, x, y);
    law_way_to_light(r, width, height, camera, spheres, light, ambient, row, x, y);
    law_what_blocks_the_light(r, width, height, camera, spheres, light, ambient, row, x, y);
    law_brightness_of_point(r, width, height, camera, spheres, light, ambient, row, x, y);
    law_lit_color(r, width, height, camera, spheres, light, ambient, row, x, y);
}

} // verus!

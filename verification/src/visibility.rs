//! What an image shows: which sphere is seen, what lies in shadow, how bright a
//! point is.
//!
//! The laws hold whatever the operations on numbers give; where one needs
//! something of them, it says so.
use crate::formula::{Node, column, number};
use crate::meaning::{
    Arithmetic, Row, Sort, Sorts, Value, agree, below, fits, group_sorts, group_values, is_number,
    is_sound, law_run_fits, law_value_depends_on_columns, law_value_is_of_sort, lemma_run_append,
    lemma_run_leaves, lemma_value_case, lemma_value_stays, names, sort_of, table,
};
use crate::multi_sphere;
use crate::number::{CHANNEL_MAX, FIVE, Number, ONE, TEN_THOUSANDTH, THOUSANDTH, ZERO};
use crate::plan::{Steps, vector_steps};
use crate::refraction;
use crate::refraction_soundness::{
    by_name, law_refraction_is_sound, lemma_color_of_hit, lemma_mixture,
};
use crate::shadows;
use crate::soundness::{
    hit_and_shadow, is_vector, law_multi_sphere_is_sound, law_shadows_is_sound, lemma_ahead_before,
    lemma_columns, lemma_meeting, pixel_table,
};
use crate::trace::{
    Ball, Camera, Side, Solid, ahead, ahead_before, any_present, brightness, chosen, clamped, closer,
    hit_index, is_nearest, meeting, nearest, quadratic, ray_steps, sky, sphere_columns, surface,
};
use crate::vector::Triple;
use vstd::prelude::*;

verus! {

/// Whether a value is a number or missing.
pub open spec fn is_number_or_missing(value: Value) -> bool {
    value is Number || value is Missing
}

/// The smaller of two numbers, where a missing one does not count.
proof fn lemma_closer(m: Arithmetic, a: Node, b: Node, row: Row)
    requires
        is_number_or_missing(m.value(a, row)),
        is_number_or_missing(m.value(b, row)),
    ensures
        m.value(closer(a, b), row) == (match (m.value(a, row), m.value(b, row)) {
            (Value::Number(x), Value::Number(y)) => Value::Number(
                if below(y, x) {
                    y
                } else {
                    x
                },
            ),
            (Value::Number(x), _) => Value::Number(x),
            (_, other) => other,
        }),
{
    broadcast use group_values;

}

/// The nearest of some parameters is missing exactly if all are. Else it is one of
/// them, and none is smaller.
pub proof fn law_nearest_is_smallest(m: Arithmetic, ts: Seq<Node>, row: Row)
    requires
        ts.len() > 0,
        forall|i: int| 0 <= i < ts.len() ==> is_number_or_missing(m.value(#[trigger] ts[i], row)),
    ensures
        match m.value(nearest(ts), row) {
            Value::Missing => forall|i: int|
                0 <= i < ts.len() ==> m.value(#[trigger] ts[i], row) is Missing,
            Value::Number(t) => {
                &&& exists|i: int|
                    0 <= i < ts.len() && m.value(#[trigger] ts[i], row) == Value::Number(t)
                &&& forall|i: int|
                    0 <= i < ts.len() ==> (m.value(#[trigger] ts[i], row) matches Value::Number(
                        other,
                    ) ==> !below(other, t))
            },
            _ => false,
        },
    decreases ts.len(),
{
    if ts.len() == 1 {
        assert(nearest(ts) == ts[0]);
        assert(is_number_or_missing(m.value(ts[0], row)));
    } else {
        let before = ts.drop_last();
        let last = ts.last();
        assert(last == ts[ts.len() - 1]);
        assert forall|i: int| 0 <= i < before.len() implies is_number_or_missing(
            m.value(#[trigger] before[i], row),
        ) by {
            assert(before[i] == ts[i]);
        }
        law_nearest_is_smallest(m, before, row);
        lemma_closer(m, nearest(before), last, row);
        assert forall|i: int| 0 <= i < ts.len() - 1 implies #[trigger] ts[i] == before[i] by {}
        match m.value(nearest(ts), row) {
            Value::Number(t) => {
                if m.value(last, row) == Value::Number(t) {
                    assert(m.value(ts[ts.len() - 1], row) == Value::Number(t));
                } else {
                    let i = choose|i: int|
                        0 <= i < before.len() && m.value(#[trigger] before[i], row)
                            == Value::Number(t);
                    assert(m.value(ts[i], row) == Value::Number(t));
                }
            },
            _ => {},
        }
    }
}

/// Whether parameter `i` is there and within a ten-thousandth of `t`.
pub open spec fn is_close(m: Arithmetic, ts: Seq<Node>, i: int, t: Value, row: Row) -> bool {
    match (m.value(ts[i], row), t) {
        (Value::Number(a), Value::Number(b)) => below((m.abs)((m.minus)(a, b)), TEN_THOUSANDTH),
        _ => false,
    }
}

proof fn lemma_is_nearest(m: Arithmetic, t: Node, near: Node, row: Row)
    requires
        is_number_or_missing(m.value(t, row)),
        is_number_or_missing(m.value(near, row)),
    ensures
        (m.value(is_nearest(t, near), row) == Value::Truth(true)) == (match (
            m.value(t, row),
            m.value(near, row),
        ) {
            (Value::Number(a), Value::Number(b)) => below((m.abs)((m.minus)(a, b)), TEN_THOUSANDTH),
            _ => false,
        }),
{
    broadcast use group_values;

}

/// The sphere that is hit is the last whose parameter is close to the nearest; none
/// is hit exactly if no parameter is.
pub proof fn law_hit_is_close(m: Arithmetic, ts: Seq<Node>, near: Node, row: Row)
    requires
        ts.len() <= i32::MAX,
        forall|i: int| 0 <= i < ts.len() ==> is_number_or_missing(m.value(#[trigger] ts[i], row)),
        is_number_or_missing(m.value(near, row)),
    ensures
        match m.value(hit_index(ts, near), row) {
            Value::Missing => forall|i: int|
                0 <= i < ts.len() ==> !#[trigger] is_close(m, ts, i, m.value(near, row), row),
            Value::Index(k) => {
                &&& 0 <= k < ts.len()
                &&& is_close(m, ts, k as int, m.value(near, row), row)
                &&& forall|i: int|
                    k < i < ts.len() ==> !#[trigger] is_close(m, ts, i, m.value(near, row), row)
            },
            _ => false,
        },
    decreases ts.len(),
{
    broadcast use group_values;

    if ts.len() > 0 {
        let before = ts.drop_last();
        let last = ts.last();
        let t = m.value(near, row);
        assert(last == ts[ts.len() - 1]);
        assert forall|i: int| 0 <= i < before.len() implies is_number_or_missing(
            m.value(#[trigger] before[i], row),
        ) by {
            assert(before[i] == ts[i]);
        }
        law_hit_is_close(m, before, near, row);
        lemma_is_nearest(m, last, near, row);
        assert forall|i: int| 0 <= i < before.len() implies #[trigger] is_close(m, ts, i, t, row)
            == is_close(m, before, i, t, row) by {
            assert(before[i] == ts[i]);
        }
        let k = ts.len() - 1;
        assert((m.value(is_nearest(last, near), row) == Value::Truth(true)) == is_close(
            m,
            ts,
            k,
            t,
            row,
        ));
        assert(m.value(Node::Index(k as i32), row) == Value::Index(k as i32));
        assert(m.value(hit_index(ts, near), row) == if is_close(m, ts, k, t, row) {
            Value::Index(k as i32)
        } else {
            m.value(hit_index(before, near), row)
        });
    }
}

/// Where any sphere is met, one is hit: if each parameter that is there, less itself,
/// is near zero.
pub proof fn law_something_is_hit(m: Arithmetic, ts: Seq<Node>, row: Row)
    requires
        0 < ts.len() <= i32::MAX,
        forall|i: int| 0 <= i < ts.len() ==> is_number_or_missing(m.value(#[trigger] ts[i], row)),
        forall|i: int|
            0 <= i < ts.len() ==> (m.value(#[trigger] ts[i], row) matches Value::Number(t)
                ==> below((m.abs)((m.minus)(t, t)), TEN_THOUSANDTH)),
    ensures
        m.value(hit_index(ts, nearest(ts)), row) is Missing <==> forall|i: int|
            0 <= i < ts.len() ==> m.value(#[trigger] ts[i], row) is Missing,
{
    law_nearest_is_smallest(m, ts, row);
    law_hit_is_close(m, ts, nearest(ts), row);
    match m.value(nearest(ts), row) {
        Value::Number(t) => {
            let i = choose|i: int|
                0 <= i < ts.len() && m.value(#[trigger] ts[i], row) == Value::Number(t);
            assert(below((m.abs)((m.minus)(t, t)), TEN_THOUSANDTH));
            assert(is_close(m, ts, i, Value::Number(t), row));
        },
        _ => {
            assert forall|i: int| 0 <= i < ts.len() implies !#[trigger] is_close(
                m,
                ts,
                i,
                m.value(nearest(ts), row),
                row,
            ) by {
                assert(m.value(ts[i], row) is Missing);
            }
        },
    }
}

/// The nearest sphere is hit: where no parameter but the smallest is close to it, the
/// sphere that is hit has the smallest parameter.
pub proof fn law_nearest_is_hit(m: Arithmetic, ts: Seq<Node>, row: Row)
    requires
        0 < ts.len() <= i32::MAX,
        forall|i: int| 0 <= i < ts.len() ==> is_number_or_missing(m.value(#[trigger] ts[i], row)),
        forall|i: int|
            0 <= i < ts.len() ==> (m.value(#[trigger] ts[i], row) matches Value::Number(t)
                ==> below((m.abs)((m.minus)(t, t)), TEN_THOUSANDTH)),
        forall|i: int|
            0 <= i < ts.len() && #[trigger] is_close(m, ts, i, m.value(nearest(ts), row), row)
                ==> m.value(ts[i], row) == m.value(nearest(ts), row),
    ensures
        match m.value(hit_index(ts, nearest(ts)), row) {
            Value::Missing => forall|i: int|
                0 <= i < ts.len() ==> m.value(#[trigger] ts[i], row) is Missing,
            Value::Index(k) => {
                &&& 0 <= k < ts.len()
                &&& m.value(ts[k as int], row) matches Value::Number(t) && forall|i: int|
                    0 <= i < ts.len() ==> (m.value(#[trigger] ts[i], row) matches Value::Number(
                        other,
                    ) ==> !below(other, t))
            },
            _ => false,
        },
{
    law_something_is_hit(m, ts, row);
    law_nearest_is_smallest(m, ts, row);
    law_hit_is_close(m, ts, nearest(ts), row);
}

/// The choice by an index is the option with that index; without one it is the
/// other value.
pub proof fn law_chosen_by_index(
    m: Arithmetic,
    hit: Node,
    options: Seq<Node>,
    otherwise: Node,
    row: Row,
)
    requires
        options.len() <= i32::MAX,
        m.value(hit, row) is Index || m.value(hit, row) is Missing,
    ensures
        m.value(chosen(hit, options, otherwise), row) == (match m.value(hit, row) {
            Value::Index(k) => if 0 <= k < options.len() {
                m.value(options[k as int], row)
            } else {
                m.value(otherwise, row)
            },
            _ => m.value(otherwise, row),
        }),
    decreases options.len(),
{
    broadcast use group_values;

    if options.len() > 0 {
        let k = options.len() - 1;
        law_chosen_by_index(m, hit, options.drop_last(), otherwise, row);
        assert(m.value(Node::Index(k as i32), row) == Value::Index(k as i32));
        assert(options.last() == options[k]);
    }
}

/// Whether any of some values is there.
pub proof fn law_any_present(m: Arithmetic, ts: Seq<Node>, row: Row)
    ensures
        m.value(any_present(ts), row) == Value::Truth(
            exists|i: int| 0 <= i < ts.len() && m.value(#[trigger] ts[i], row) !is Missing,
        ),
    decreases ts.len(),
{
    broadcast use group_values;

    if ts.len() > 0 {
        let before = ts.drop_last();
        law_any_present(m, before, row);
        assert forall|i: int| 0 <= i < ts.len() - 1 implies #[trigger] ts[i] == before[i] by {}
        assert(ts.last() == ts[ts.len() - 1]);
        if exists|i: int| 0 <= i < before.len() && m.value(#[trigger] before[i], row) !is Missing {
            let i = choose|i: int|
                0 <= i < before.len() && m.value(#[trigger] before[i], row) !is Missing;
            assert(m.value(ts[i], row) !is Missing);
        }
    }
}

/// A parameter counts only where it lies ahead.
pub proof fn law_ahead(m: Arithmetic, t: Node, row: Row)
    requires
        is_number_or_missing(m.value(t, row)),
    ensures
        match m.value(ahead(t), row) {
            Value::Number(a) => m.value(t, row) == Value::Number(a) && below(
                THOUSANDTH,
                a,
            ),
            Value::Missing => m.value(t, row) matches Value::Number(a) ==> !below(
                THOUSANDTH,
                a,
            ),
            _ => false,
        },
{
    broadcast use group_values;

    assert(m.value(Node::NullNumber, row) == Value::Missing);
}

/// Whether a value is a number ahead of a ray's origin.
pub open spec fn is_ahead(value: Value) -> bool {
    value matches Value::Number(t) && below(THOUSANDTH, t)
}

/// Where a ray first meets a sphere is one of the two parameters at which it meets it,
/// lies ahead, and no smaller one does; it is missing exactly if neither lies ahead.
pub proof fn law_first_ahead(
    m: Arithmetic,
    origin: Triple,
    direction: Triple,
    ball: Ball,
    row: Row,
)
    requires
        is_number_or_missing(m.value(meeting(origin, direction, ball, Side::Near), row)),
        is_number_or_missing(m.value(meeting(origin, direction, ball, Side::Far), row)),
        match (
            m.value(meeting(origin, direction, ball, Side::Near), row),
            m.value(meeting(origin, direction, ball, Side::Far), row),
        ) {
            (Value::Number(near), Value::Number(far)) => !below(far, near),
            _ => true,
        },
    ensures
        ({
            let near = m.value(meeting(origin, direction, ball, Side::Near), row);
            let far = m.value(meeting(origin, direction, ball, Side::Far), row);
            match m.value(refraction::first_ahead(origin, direction, ball), row) {
                Value::Number(t) => {
                    &&& is_ahead(Value::Number(t))
                    &&& near == Value::Number(t) || far == Value::Number(t)
                    &&& is_ahead(near) ==> !below(near->Number_0, t)
                    &&& is_ahead(far) ==> !below(far->Number_0, t)
                },
                Value::Missing => !is_ahead(near) && !is_ahead(far),
                _ => false,
            }
        }),
{
    broadcast use group_values;

    law_ahead(m, meeting(origin, direction, ball, Side::Far), row);
}

/// Whether a value is a channel, from 0 to 255, or missing.
pub open spec fn is_channel_or_missing(value: Value) -> bool {
    match value {
        Value::Number(c) => !below(c, ZERO) && !below(CHANNEL_MAX, c),
        Value::Missing => true,
        _ => false,
    }
}

/// A channel is brought into the range from 0 to 255, and stays as it is within it.
pub proof fn law_clamped_in_range(m: Arithmetic, value: Node, row: Row)
    requires
        is_number_or_missing(m.value(value, row)),
    ensures
        is_channel_or_missing(m.value(clamped(value), row)),
        m.value(clamped(value), row) is Missing <==> m.value(value, row) is Missing,
        is_channel_or_missing(m.value(value, row)) ==> m.value(clamped(value), row) == m.value(
            value,
            row,
        ),
{
    broadcast use group_values;

}

/// A point in shadow has the ambient light only.
pub proof fn law_shadow_leaves_ambient(
    m: Arithmetic,
    light: Triple,
    intensity: u64,
    ambient: u64,
    point: Triple,
    normal: Triple,
    in_shadow: Node,
    row: Row,
)
    requires
        m.value(in_shadow, row) == Value::Truth(true),
    ensures
        ({
            let lit = (m.plus)(ambient, ZERO);
            m.value(brightness(light, intensity, ambient, point, normal, in_shadow), row)
                == Value::Number(
                if below(ONE, lit) {
                    ONE
                } else {
                    lit
                },
            )
        }),
{
    broadcast use group_values;

}

/// No point is brighter than one.
pub proof fn law_brightness_at_most_one(
    m: Arithmetic,
    light: Triple,
    intensity: u64,
    ambient: u64,
    point: Triple,
    normal: Triple,
    in_shadow: Node,
    row: Row,
)
    ensures
        m.value(brightness(light, intensity, ambient, point, normal, in_shadow), row)
            matches Value::Number(b) ==> !below(ONE, b),
{
    broadcast use group_values;

}

/// A ray that passes by meets nothing.
pub proof fn law_passing_by(
    m: Arithmetic,
    origin: Triple,
    direction: Triple,
    ball: Ball,
    side: Side,
    row: Row,
)
    requires
        m.value(quadratic(origin, direction, ball).discriminant(), row) matches Value::Number(d)
            && below(d, ZERO),
    ensures
        m.value(meeting(origin, direction, ball, side), row) is Missing,
{
    broadcast use group_values;

    assert(m.value(Node::NullNumber, row) == Value::Missing);
}

// ---------------------------------------------------------------------------
// Glass
// ---------------------------------------------------------------------------

/// Where a ray arrives at the inside of the glass at so flat an angle that it cannot
/// leave, it goes on in the reflected direction; elsewhere in the refracted one.
pub proof fn law_total_reflection(m: Arithmetic, row: Row)
    ensures
        ({
            let incident = refraction::internal_direction();
            let normal = refraction::inward_normal();
            let goes_on = refraction::refraction_exit_steps();
            let back = refraction::reflected(incident, normal);
            let on = refraction::refracted(refraction::GLASS_OVER_AIR, incident, normal);
            let direction = if m.value(refraction::is_totally_reflected(), row) == Value::Truth(
                true,
            ) {
                back
            } else {
                on
            };
            &&& goes_on[3].0 == "refract_dx"@ && m.value(goes_on[3].1, row) == m.value(
                direction.x,
                row,
            )
            &&& goes_on[4].0 == "refract_dy"@ && m.value(goes_on[4].1, row) == m.value(
                direction.y,
                row,
            )
            &&& goes_on[5].0 == "refract_dz"@ && m.value(goes_on[5].1, row) == m.value(
                direction.z,
                row,
            )
        }),
{
    broadcast use group_values;

    let incident = refraction::internal_direction();
    let normal = refraction::inward_normal();
    let total = refraction::is_totally_reflected();
    let back = refraction::reflected(incident, normal);
    let on = refraction::refracted(refraction::GLASS_OVER_AIR, incident, normal);
    let direction = Triple::if_else(total, back, on);
    let goes_on = refraction::refraction_exit_steps();
    assert(goes_on[3] == ("refract_dx"@, direction.x));
    assert(goes_on[4] == ("refract_dy"@, direction.y));
    assert(goes_on[5] == ("refract_dz"@, direction.z));
    lemma_value_case(m, total, back.x, on.x, row);
    lemma_value_case(m, total, back.y, on.y, row);
    lemma_value_case(m, total, back.z, on.z, row);
}

/// The share of the light that glass reflects is from 0 to 1.
pub proof fn law_reflectance_in_range(m: Arithmetic, cos: Node, row: Row)
    requires
        m.value(cos, row) is Number,
    ensures
        m.value(refraction::reflectance(cos), row) matches Value::Number(share) && !below(
            share,
            ZERO,
        ) && !below(ONE, share),
{
    broadcast use group_values;

    let base = number(refraction::STRAIGHT_REFLECTANCE);
    let bend = number(ONE).minus(cos).power(number(FIVE));
    let sum = base.plus(number(ONE).minus(base).times(bend));
    assert(m.value(number(ONE).minus(cos), row) is Number);
    assert(m.value(bend, row) is Number);
    assert(m.value(sum, row) is Number);
    let upper = sum.gt(number(ONE)).case(number(ONE), sum);
    lemma_value_case(m, sum.gt(number(ONE)), number(ONE), sum, row);
    lemma_value_case(m, sum.lt(number(ZERO)), number(ZERO), upper, row);
}

/// The reflected share for a cosine of the angle of incidence, before it is brought
/// into range: what each operation of Schlick's approximation gives, in order.
pub open spec fn reflectance_stages(m: Arithmetic, cos: u64) -> Seq<u64> {
    let base = refraction::STRAIGHT_REFLECTANCE;
    let turned = (m.minus)(ONE, cos);
    let bend = (m.power)(turned, FIVE);
    let more = (m.times)((m.minus)(ONE, base), bend);
    seq![turned, bend, more, (m.plus)(base, more)]
}

proof fn lemma_reflectance(m: Arithmetic, cos: Node, row: Row)
    requires
        m.value(cos, row) is Number,
    ensures
        ({
            let sum = reflectance_stages(m, m.value(cos, row)->Number_0)[3];
            m.value(refraction::reflectance(cos), row) == Value::Number(
                if below(sum, ZERO) {
                    ZERO
                } else if below(ONE, sum) {
                    ONE
                } else {
                    sum
                },
            )
        }),
{
    broadcast use group_values;

    let base = number(refraction::STRAIGHT_REFLECTANCE);
    let bend = number(ONE).minus(cos).power(number(FIVE));
    let sum = base.plus(number(ONE).minus(base).times(bend));
    assert(m.value(number(ONE).minus(cos), row) is Number);
    assert(m.value(bend, row) is Number);
    assert(m.value(sum, row) == Value::Number(
        reflectance_stages(m, m.value(cos, row)->Number_0)[3],
    ));
    let upper = sum.gt(number(ONE)).case(number(ONE), sum);
    lemma_value_case(m, sum.gt(number(ONE)), number(ONE), sum, row);
    lemma_value_case(m, sum.lt(number(ZERO)), number(ZERO), upper, row);
}

/// The steeper a ray arrives, the less of its light glass reflects: the share does
/// not grow with the cosine, if subtraction from one turns the order of the two
/// cosines and the other operations keep the order of what they are given.
pub proof fn law_reflectance_falls(m: Arithmetic, cos: Node, flat: Row, steep: Row)
    requires
        m.value(cos, flat) is Number,
        m.value(cos, steep) is Number,
        !below(m.value(cos, steep)->Number_0, m.value(cos, flat)->Number_0),
        ({
            let a = reflectance_stages(m, m.value(cos, flat)->Number_0);
            let b = reflectance_stages(m, m.value(cos, steep)->Number_0);
            &&& !below(m.value(cos, steep)->Number_0, m.value(cos, flat)->Number_0) ==> !below(
                a[0],
                b[0],
            )
            &&& !below(a[0], b[0]) ==> !below(a[1], b[1])
            &&& !below(a[1], b[1]) ==> !below(a[2], b[2])
            &&& !below(a[2], b[2]) ==> !below(a[3], b[3])
        }),
    ensures
        match (
            m.value(refraction::reflectance(cos), flat),
            m.value(refraction::reflectance(cos), steep),
        ) {
            (Value::Number(a), Value::Number(b)) => !below(a, b),
            _ => false,
        },
{
    lemma_reflectance(m, cos, flat);
    lemma_reflectance(m, cos, steep);
}

/// Glass reflects all the light of a ray along its surface, if the operations are
/// exact there.
pub proof fn law_all_is_reflected_along_the_surface(m: Arithmetic, cos: Node, row: Row)
    requires
        m.value(cos, row) == Value::Number(ZERO),
        (m.minus)(ONE, ZERO) == ONE,
        (m.power)(ONE, FIVE) == ONE,
        ({
            let rest = (m.minus)(ONE, refraction::STRAIGHT_REFLECTANCE);
            (m.times)(rest, ONE) == rest && (m.plus)(refraction::STRAIGHT_REFLECTANCE, rest) == ONE
        }),
    ensures
        m.value(refraction::reflectance(cos), row) == Value::Number(ONE),
{
    lemma_reflectance(m, cos, row);
}

/// Glass reflects the least share of the light of a ray that arrives straight, if the
/// operations are exact there.
pub proof fn law_least_is_reflected_straight_on(m: Arithmetic, cos: Node, row: Row)
    requires
        m.value(cos, row) == Value::Number(ONE),
        (m.minus)(ONE, ONE) == ZERO,
        (m.power)(ZERO, FIVE) == ZERO,
        (m.times)((m.minus)(ONE, refraction::STRAIGHT_REFLECTANCE), ZERO) == ZERO,
        (m.plus)(refraction::STRAIGHT_REFLECTANCE, ZERO) == refraction::STRAIGHT_REFLECTANCE,
    ensures
        m.value(refraction::reflectance(cos), row) == Value::Number(
            refraction::STRAIGHT_REFLECTANCE,
        ),
{
    lemma_reflectance(m, cos, row);
}

/// Light passes through glass: only the other spheres decide what lies in shadow.
pub proof fn law_glass_casts_no_shadow(
    spheres: Seq<refraction::Sphere>,
    light: refraction::Light,
    prefix: Seq<char>,
    hit_prefix: Seq<char>,
)
    ensures
        refraction::point_shadow_steps(spheres, light, prefix, hit_prefix)
            == refraction::point_shadow_steps(
            refraction::opaque(spheres),
            light,
            prefix,
            hit_prefix,
        ),
        forall|i: int|
            0 <= i < refraction::opaque(spheres).len() ==> !(
            #[trigger] refraction::opaque(spheres)[i]).transparent(),
{
    lemma_opaque_again(spheres);
}

/// The opaque ones among the opaque spheres are all of them.
proof fn lemma_opaque_again(spheres: Seq<refraction::Sphere>)
    ensures
        refraction::opaque(refraction::opaque(spheres)) == refraction::opaque(spheres),
        forall|i: int|
            0 <= i < refraction::opaque(spheres).len() ==> !(
            #[trigger] refraction::opaque(spheres)[i]).transparent(),
    decreases spheres.len(),
{
    reveal(Seq::filter);
    if spheres.len() > 0 {
        let before = spheres.drop_last();
        lemma_opaque_again(before);
        let kept = refraction::opaque(before);
        if !spheres.last().transparent() {
            assert(refraction::opaque(spheres) == kept.push(spheres.last()));
            assert(kept.push(spheres.last()).drop_last() =~= kept);
        }
    }
}

/// Where the camera sees no sphere it sees the sky.
pub proof fn law_sky_where_nothing_is_hit(m: Arithmetic, spheres: Seq<refraction::Sphere>, row: Row)
    requires
        m.value(column("primary_t_nearest"@), row) is Missing,
    ensures
        m.value(refraction::seen_color(spheres).x, row) == m.value(refraction::sky_color().x, row),
        m.value(refraction::seen_color(spheres).y, row) == m.value(refraction::sky_color().y, row),
        m.value(refraction::seen_color(spheres).z, row) == m.value(refraction::sky_color().z, row),
{
    broadcast use group_values;

}

/// What the camera sees in glass is the reflection and what is behind the glass,
/// mixed by the reflected share.
pub proof fn law_glass_mixes(m: Arithmetic, spheres: Seq<refraction::Sphere>, row: Row)
    requires
        m.value(column("primary_t_nearest"@), row) !is Missing,
        m.value(column("hit_ior"@), row) matches Value::Number(ior) && below(ZERO, ior),
    ensures
        ({
            let reflection = refraction::color_of_hit(
                spheres,
                column("reflect_hit_idx"@),
                column("reflect_brightness"@),
                false,
            );
            let behind = refraction::color_of_hit(
                spheres,
                column("refract_hit_idx"@),
                column("refract_brightness"@),
                false,
            );
            let mixed = refraction::glass_color(reflection, behind, column("fresnel"@));
            let seen = refraction::seen_color(spheres);
            &&& m.value(seen.x, row) == m.value(mixed.x, row)
            &&& m.value(seen.y, row) == m.value(mixed.y, row)
            &&& m.value(seen.z, row) == m.value(mixed.z, row)
        }),
{
    broadcast use group_values;

}

/// What the colour of glass is made of.
spec fn glass_columns() -> Sorts {
    map![
        "y"@ => Sort::Number,
        "reflect_hit_idx"@ => Sort::Index,
        "refract_hit_idx"@ => Sort::Index,
        "reflect_brightness"@ => Sort::Number,
        "refract_brightness"@ => Sort::Number,
        "fresnel"@ => Sort::Number,
    ]
}

/// The brightness of the surface that the camera sees, and the colours, are not among
/// the columns that the colour of glass is made of.
proof fn lemma_glass_columns(spheres: Seq<refraction::Sphere>)
    ensures
        ({
            let sorts = glass_columns();
            let reflection = refraction::color_of_hit(
                spheres,
                column("reflect_hit_idx"@),
                column("reflect_brightness"@),
                false,
            );
            let behind = refraction::color_of_hit(
                spheres,
                column("refract_hit_idx"@),
                column("refract_brightness"@),
                false,
            );
            let mixed = refraction::glass_color(reflection, behind, column("fresnel"@));
            &&& is_vector(mixed, sorts)
            &&& !sorts.contains_key("primary_brightness"@)
            &&& !sorts.contains_key("final_r"@)
            &&& !sorts.contains_key("final_g"@)
            &&& "primary_brightness"@ != "primary_t_nearest"@
            &&& "primary_brightness"@ != "hit_ior"@
            &&& "final_r"@ != "primary_t_nearest"@ && "final_r"@ != "hit_ior"@
            &&& "final_g"@ != "primary_t_nearest"@ && "final_g"@ != "hit_ior"@
            &&& "final_r"@ != "final_g"@ && "final_r"@ != "final_b"@ && "final_g"@ != "final_b"@
        }),
{
    broadcast use group_sorts;

    reveal_strlit("y");
    reveal_strlit("reflect_hit_idx");
    reveal_strlit("refract_hit_idx");
    reveal_strlit("reflect_brightness");
    reveal_strlit("refract_brightness");
    reveal_strlit("fresnel");
    reveal_strlit("primary_brightness");
    reveal_strlit("primary_t_nearest");
    reveal_strlit("hit_ior");
    reveal_strlit("final_r");
    reveal_strlit("final_g");
    reveal_strlit("final_b");
    let sorts = glass_columns();
    assert("y"@.len() == 1 && "fresnel"@.len() == 7 && "primary_t_nearest"@.len() == 17);
    assert("reflect_hit_idx"@.len() == 15 && "refract_hit_idx"@.len() == 15);
    assert("reflect_brightness"@.len() == 18 && "refract_brightness"@.len() == 18);
    assert("reflect_hit_idx"@[3] != "refract_hit_idx"@[3]);
    assert("reflect_brightness"@[3] != "refract_brightness"@[3]);
    assert("reflect_brightness"@[0] != "primary_brightness"@[0]);
    assert("refract_brightness"@[0] != "primary_brightness"@[0]);
    assert("final_r"@[1] != "fresnel"@[1]);
    assert("final_g"@[1] != "fresnel"@[1]);
    assert("final_r"@[0] != "hit_ior"@[0]);
    assert("final_g"@[0] != "hit_ior"@[0]);
    assert("final_r"@[6] != "final_g"@[6]);
    assert("final_r"@[6] != "final_b"@[6]);
    assert("final_g"@[6] != "final_b"@[6]);
    assert(sorts["reflect_hit_idx"@] is Index && sorts["refract_hit_idx"@] is Index);
    let (first, second) = (column("reflect_hit_idx"@), column("refract_hit_idx"@));
    let (bright, dark) = (column("reflect_brightness"@), column("refract_brightness"@));
    lemma_color_of_hit(spheres, first, bright, false, sorts);
    lemma_color_of_hit(spheres, second, dark, false, sorts);
    lemma_mixture(
        refraction::color_of_hit(spheres, first, bright, false),
        refraction::color_of_hit(spheres, second, dark, false),
        column("fresnel"@),
        sorts,
    );
}

/// Whether the camera sees glass in a row.
pub open spec fn sees_glass(m: Arithmetic, row: Row) -> bool {
    &&& m.value(column("primary_t_nearest"@), row) !is Missing
    &&& m.value(column("hit_ior"@), row) matches Value::Number(ior) && below(ZERO, ior)
}

/// The colour of glass is the same in rows that agree on what it is made of.
proof fn lemma_same_glass(m: Arithmetic, spheres: Seq<refraction::Sphere>, a: Row, b: Row)
    requires
        sees_glass(m, a),
        sees_glass(m, b),
        agree(a, b, glass_columns()),
    ensures
        ({
            let seen = refraction::seen_color(spheres);
            &&& m.value(clamped(seen.x), a) == m.value(clamped(seen.x), b)
            &&& m.value(clamped(seen.y), a) == m.value(clamped(seen.y), b)
            &&& m.value(clamped(seen.z), a) == m.value(clamped(seen.z), b)
        }),
{
    let reflection = refraction::color_of_hit(
        spheres,
        column("reflect_hit_idx"@),
        column("reflect_brightness"@),
        false,
    );
    let behind = refraction::color_of_hit(
        spheres,
        column("refract_hit_idx"@),
        column("refract_brightness"@),
        false,
    );
    let mixed = refraction::glass_color(reflection, behind, column("fresnel"@));
    let seen = refraction::seen_color(spheres);
    lemma_glass_columns(spheres);
    law_glass_mixes(m, spheres, a);
    law_glass_mixes(m, spheres, b);
    law_value_depends_on_columns(m, mixed.x, a, b, glass_columns());
    law_value_depends_on_columns(m, mixed.y, a, b, glass_columns());
    law_value_depends_on_columns(m, mixed.z, a, b, glass_columns());
    lemma_same_clamped(m, seen.x, a, b);
    lemma_same_clamped(m, seen.y, a, b);
    lemma_same_clamped(m, seen.z, a, b);
}

proof fn lemma_same_clamped(m: Arithmetic, value: Node, a: Row, b: Row)
    requires
        m.value(value, a) == m.value(value, b),
    ensures
        m.value(clamped(value), a) == m.value(clamped(value), b),
{
    broadcast use group_values;

}

/// The row after the three columns of a colour have been added.
proof fn lemma_run_colors(m: Arithmetic, spheres: Seq<refraction::Sphere>, row: Row)
    ensures
        ({
            let seen = refraction::seen_color(spheres);
            let one = row.insert("final_r"@, m.value(clamped(seen.x), row));
            let two = one.insert("final_g"@, m.value(clamped(seen.y), one));
            m.run(refraction::color_steps(spheres), row) == two.insert(
                "final_b"@,
                m.value(clamped(seen.z), two),
            )
        }),
{
    let steps = refraction::color_steps(spheres);
    let (one, two) = (steps.drop_last().drop_last(), steps.drop_last());
    assert(one.drop_last() =~= Seq::empty());
    assert(m.run(one.drop_last(), row) == row);
    assert(m.run(one, row) == row.insert(one.last().0, m.value(one.last().1, row)));
    assert(m.run(two, row) == m.run(one, row).insert(
        two.last().0,
        m.value(two.last().1, m.run(one, row)),
    ));
}

/// Glass has no shading of its own: where the camera sees glass, how bright the
/// surface is there makes no difference to the colour.
pub proof fn law_glass_has_no_shading(
    m: Arithmetic,
    spheres: Seq<refraction::Sphere>,
    a: Row,
    b: Row,
)
    requires
        a.remove("primary_brightness"@) == b.remove("primary_brightness"@),
        sees_glass(m, a),
    ensures
        ({
            let (c, d) = (
                m.run(refraction::color_steps(spheres), a),
                m.run(refraction::color_steps(spheres), b),
            );
            &&& c["final_r"@] == d["final_r"@]
            &&& c["final_g"@] == d["final_g"@]
            &&& c["final_b"@] == d["final_b"@]
        }),
{
    let seen = refraction::seen_color(spheres);
    let bright = "primary_brightness"@;
    lemma_glass_columns(spheres);
    lemma_run_colors(m, spheres, a);
    lemma_run_colors(m, spheres, b);
    assert forall|name: Seq<char>| name != bright implies #[trigger] a.contains_key(name)
        == b.contains_key(name) && (a.contains_key(name) ==> a[name] == b[name]) by {
        assert(a.remove(bright).contains_key(name) == b.remove(bright).contains_key(name));
        assert(a.remove(bright)[name] == b.remove(bright)[name]);
    }
    assert(b.contains_key("primary_t_nearest"@) == a.contains_key("primary_t_nearest"@));
    assert(b.contains_key("hit_ior"@) == a.contains_key("hit_ior"@));
    assert(sees_glass(m, b));
    assert(agree(a, b, glass_columns()));
    lemma_same_glass(m, spheres, a, b);
    let a1 = a.insert("final_r"@, m.value(clamped(seen.x), a));
    let b1 = b.insert("final_r"@, m.value(clamped(seen.x), b));
    assert(sees_glass(m, a1) && sees_glass(m, b1));
    assert(agree(a1, b1, glass_columns()));
    lemma_same_glass(m, spheres, a1, b1);
    let a2 = a1.insert("final_g"@, m.value(clamped(seen.y), a1));
    let b2 = b1.insert("final_g"@, m.value(clamped(seen.y), b1));
    assert(sees_glass(m, a2) && sees_glass(m, b2));
    assert(agree(a2, b2, glass_columns()));
    lemma_same_glass(m, spheres, a2, b2);
}

/// Where glass reflects all the light the colour is that of the reflection, and where
/// it reflects none that of what is behind: if one and zero are neutral for the
/// channels that occur.
pub proof fn law_neutral_shares(
    m: Arithmetic,
    reflection: Triple,
    behind: Triple,
    share: Node,
    row: Row,
)
    requires
        m.value(share, row) == Value::Number(ONE) || m.value(share, row) == Value::Number(ZERO),
        (m.minus)(ONE, ONE) == ZERO,
        (m.minus)(ONE, ZERO) == ONE,
        is_neutral(m, m.value(reflection.x, row), m.value(behind.x, row)),
        is_neutral(m, m.value(reflection.y, row), m.value(behind.y, row)),
        is_neutral(m, m.value(reflection.z, row), m.value(behind.z, row)),
    ensures
        ({
            let mixed = refraction::glass_color(reflection, behind, share);
            let shown = if m.value(share, row) == Value::Number(ONE) {
                reflection
            } else {
                behind
            };
            &&& m.value(mixed.x, row) == m.value(shown.x, row)
            &&& m.value(mixed.y, row) == m.value(shown.y, row)
            &&& m.value(mixed.z, row) == m.value(shown.z, row)
        }),
{
    broadcast use group_values;

}

/// Whether two values are numbers for which one and zero are neutral: times one they
/// stay, times zero they vanish, and zero adds nothing to them.
pub open spec fn is_neutral(m: Arithmetic, first: Value, second: Value) -> bool {
    match (first, second) {
        (Value::Number(a), Value::Number(b)) => {
            &&& (m.times)(a, ONE) == a && (m.times)(a, ZERO) == ZERO && (m.plus)(a, ZERO) == a
            &&& (m.times)(b, ONE) == b && (m.times)(b, ZERO) == ZERO && (m.plus)(ZERO, b) == b
        },
        _ => false,
    }
}

/// What the camera sees on any other sphere is its surface and what it reflects,
/// mixed by its reflectivity.
pub proof fn law_surface_mixes(m: Arithmetic, spheres: Seq<refraction::Sphere>, row: Row)
    requires
        m.value(column("primary_t_nearest"@), row) !is Missing,
        m.value(column("hit_ior"@), row) matches Value::Number(ior) && !below(ZERO, ior),
    ensures
        ({
            let hit = column("primary_hit_idx"@);
            let surface = refraction::color_of_hit(
                spheres,
                hit,
                column("primary_brightness"@),
                true,
            );
            let reflection = refraction::color_of_hit(
                spheres,
                column("reflect_hit_idx"@),
                column("reflect_brightness"@),
                false,
            );
            let share = chosen(hit, refraction::reflectivities(spheres), number(ZERO));
            let mixed = refraction::opaque_color(surface, reflection, share);
            let seen = refraction::seen_color(spheres);
            &&& m.value(seen.x, row) == m.value(mixed.x, row)
            &&& m.value(seen.y, row) == m.value(mixed.y, row)
            &&& m.value(seen.z, row) == m.value(mixed.z, row)
        }),
{
    broadcast use group_values;

}

/// The colour of what a ray meets is that of the sphere with the index that it hits,
/// and the sky's where it meets none.
pub proof fn law_color_of_hit(
    m: Arithmetic,
    spheres: Seq<refraction::Sphere>,
    hit: Node,
    bright: Node,
    row: Row,
)
    requires
        spheres.len() <= i32::MAX,
        m.value(hit, row) is Index || m.value(hit, row) is Missing,
    ensures
        ({
            let color = refraction::color_of_hit(spheres, hit, bright, false);
            let shown = match m.value(hit, row) {
                Value::Index(k) => if 0 <= k < spheres.len() {
                    refraction::surface_color(spheres[k as int], bright)
                } else {
                    refraction::sky_color()
                },
                _ => refraction::sky_color(),
            };
            &&& m.value(color.x, row) == m.value(shown.x, row)
            &&& m.value(color.y, row) == m.value(shown.y, row)
            &&& m.value(color.z, row) == m.value(shown.z, row)
        }),
    decreases spheres.len(),
{
    broadcast use group_values;

    if spheres.len() > 0 {
        let k = spheres.len() - 1;
        law_color_of_hit(m, spheres.drop_last(), hit, bright, row);
        assert(m.value(Node::Index(k as i32), row) == Value::Index(k as i32));
        assert(spheres.last() == spheres[k]);
        let this = hit.equals(Node::Index(k as i32));
        let before = refraction::color_of_hit(spheres.drop_last(), hit, bright, false);
        let own = refraction::surface_color(spheres.last(), bright);
        lemma_value_case(m, this, own.x, before.x, row);
        lemma_value_case(m, this, own.y, before.y, row);
        lemma_value_case(m, this, own.z, before.z, row);
        match m.value(hit, row) {
            Value::Index(j) => {
                if 0 <= j < k {
                    assert(spheres.drop_last()[j as int] == spheres[j as int]);
                }
            },
            _ => {},
        }
    }
}

// ---------------------------------------------------------------------------
// Shadows
// ---------------------------------------------------------------------------

/// A point lies in shadow exactly if the camera sees a sphere there and the way to
/// the light meets any sphere.
pub proof fn law_in_shadow(m: Arithmetic, spheres: Seq<shadows::Sphere>, row: Row)
    ensures
        ({
            let ts = sphere_columns(spheres, "shadow_t_"@);
            m.value(shadows::in_shadow_step(spheres).1, row) == Value::Truth(
                m.value(column("t_nearest"@), row) !is Missing && exists|i: int|
                    0 <= i < ts.len() && m.value(#[trigger] ts[i], row) !is Missing,
            )
        }),
{
    broadcast use group_values;

    let ts = sphere_columns(spheres, "shadow_t_"@);
    law_any_present(m, ts, row);
    assert(m.value(Node::Truth(false), row) == Value::Truth(false));
    lemma_value_case(
        m,
        column("t_nearest"@).is_not_null(),
        any_present(ts),
        Node::Truth(false),
        row,
    );
}

/// What blocks the light lies ahead of the point, at a parameter less than the limit,
/// at which the ray reaches the light.
pub proof fn law_blocks_before_light(m: Arithmetic, t: Node, limit: Node, row: Row)
    requires
        is_number_or_missing(m.value(t, row)),
        is_number_or_missing(m.value(limit, row)),
    ensures
        match m.value(ahead_before(t, limit), row) {
            Value::Number(a) => m.value(t, row) == Value::Number(a) && below(THOUSANDTH, a) && (
            m.value(limit, row) matches Value::Number(l) && below(a, l)),
            Value::Missing => !(m.value(t, row) matches Value::Number(a) && below(THOUSANDTH, a) && (
            m.value(limit, row) matches Value::Number(l) && below(a, l))),
            _ => false,
        },
{
    broadcast use group_values;

    assert(m.value(Node::NullNumber, row) == Value::Missing);
}

/// A point of the scene with glass lies in shadow exactly if the way to the light meets
/// any opaque sphere.
pub proof fn law_in_shadow_of_opaque(
    m: Arithmetic,
    spheres: Seq<refraction::Sphere>,
    prefix: Seq<char>,
    row: Row,
)
    ensures
        ({
            let ts = sphere_columns(refraction::opaque(spheres), prefix + "shadow_t_"@);
            m.value(refraction::in_shadow_step(spheres, prefix).1, row) == Value::Truth(
                exists|i: int| 0 <= i < ts.len() && m.value(#[trigger] ts[i], row) !is Missing,
            )
        }),
{
    law_any_present(m, sphere_columns(refraction::opaque(spheres), prefix + "shadow_t_"@), row);
}

/// Whether the spheres can be told apart by their names.
pub open spec fn told_apart<S: Solid>(spheres: Seq<S>) -> bool {
    forall|i: int, j: int|
        0 <= i < j < spheres.len() ==> (#[trigger] spheres[i]).label() != (
        #[trigger] spheres[j]).label()
}

/// Whether a sphere is opaque and the shadow ray of that prefix meets it before the
/// light, in a row that has the ray.
pub open spec fn blocks(
    m: Arithmetic,
    sphere: refraction::Sphere,
    prefix: Seq<char>,
    row: Row,
) -> bool {
    !sphere.transparent() && m.value(refraction::shadow_step(sphere, prefix).1, row) !is Missing
}

/// What a shadow ray is made of: its origin, its direction, and how far the light is.
spec fn shadow_columns(prefix: Seq<char>) -> Sorts {
    Map::new(
        |name: Seq<char>|
            {
                ||| name == prefix + "shadow"@ + "_ox"@
                ||| name == prefix + "shadow"@ + "_oy"@
                ||| name == prefix + "shadow"@ + "_oz"@
                ||| name == prefix + "shadow"@ + "_dx"@
                ||| name == prefix + "shadow"@ + "_dy"@
                ||| name == prefix + "shadow"@ + "_dz"@
                ||| name == prefix + "light_dist"@
            },
        |name: Seq<char>| Sort::Number,
    )
}

/// Where a shadow ray meets a sphere is not among the columns that the ray is made of.
proof fn lemma_shadow_columns(sphere: refraction::Sphere, prefix: Seq<char>)
    ensures
        sort_of(refraction::shadow_step(sphere, prefix).1, shadow_columns(prefix)) is Some,
        !shadow_columns(prefix).contains_key(refraction::shadow_step(sphere, prefix).0),
{
    broadcast use group_sorts;

    let sorts = shadow_columns(prefix);
    let ray = prefix + "shadow"@;
    let (origin, direction) = (refraction::ray_origin(ray), refraction::ray_direction(ray));
    let far = column(prefix + "light_dist"@);
    lemma_columns(ray + "_ox"@, ray + "_oy"@, ray + "_oz"@, sorts);
    lemma_columns(ray + "_dx"@, ray + "_dy"@, ray + "_dz"@, sorts);
    lemma_meeting(origin, direction, sphere.shape(), Side::Near, sorts);
    assert(sorts.contains_key(prefix + "light_dist"@));
    assert(is_number(far, sorts));
    lemma_ahead_before(meeting(origin, direction, sphere.shape(), Side::Near), far, sorts);
    reveal_strlit("shadow");
    reveal_strlit("shadow_t_");
    reveal_strlit("light_dist");
    reveal_strlit("_ox");
    reveal_strlit("_oy");
    reveal_strlit("_oz");
    reveal_strlit("_dx");
    reveal_strlit("_dy");
    reveal_strlit("_dz");
    let name = prefix + "shadow_t_"@ + sphere.name@;
    let n: int = prefix.len() as int;
    assert(name[n] == 's' && name[n + 7] == 't');
    assert((prefix + "light_dist"@)[n] == 'l');
    assert((ray + "_ox"@)[n + 7] == 'o');
    assert((ray + "_oy"@)[n + 7] == 'o');
    assert((ray + "_oz"@)[n + 7] == 'o');
    assert((ray + "_dx"@)[n + 7] == 'd');
    assert((ray + "_dy"@)[n + 7] == 'd');
    assert((ray + "_dz"@)[n + 7] == 'd');
}

/// The opaque ones among some spheres.
pub(crate) proof fn lemma_opaque_contains(spheres: Seq<refraction::Sphere>, sphere: refraction::Sphere)
    ensures
        refraction::opaque(spheres).contains(sphere) == (spheres.contains(sphere)
            && !sphere.transparent()),
    decreases spheres.len(),
{
    reveal(Seq::filter);
    if spheres.len() > 0 {
        let before = spheres.drop_last();
        let last = spheres.last();
        let kept = refraction::opaque(before);
        lemma_opaque_contains(before, sphere);
        assert(spheres =~= before.push(last));
        assert(spheres.contains(sphere) == (before.contains(sphere) || last == sphere)) by {
            lemma_push_contains(before, last, sphere);
        }
        if !last.transparent() {
            assert(refraction::opaque(spheres) == kept.push(last));
            lemma_push_contains(kept, last, sphere);
        } else {
            assert(refraction::opaque(spheres) == kept);
        }
    }
}

proof fn lemma_push_contains(
    spheres: Seq<refraction::Sphere>,
    last: refraction::Sphere,
    sphere: refraction::Sphere,
)
    ensures
        spheres.push(last).contains(sphere) == (spheres.contains(sphere) || last == sphere),
{
    let more = spheres.push(last);
    if spheres.contains(sphere) {
        let i = choose|i: int| 0 <= i < spheres.len() && spheres[i] == sphere;
        assert(more[i] == sphere);
    }
    if last == sphere {
        assert(more[spheres.len() as int] == sphere);
    }
    if more.contains(sphere) {
        let i = choose|i: int| 0 <= i < more.len() && more[i] == sphere;
        if i < spheres.len() {
            assert(spheres[i] == sphere);
        }
    }
}

/// Where the shadow ray meets a sphere does not depend on the other spheres.
proof fn lemma_meets_alone(
    m: Arithmetic,
    spheres: Seq<refraction::Sphere>,
    prefix: Seq<char>,
    i: int,
    row: Row,
)
    requires
        told_apart(refraction::opaque(spheres)),
        0 <= i < refraction::opaque(spheres).len(),
    ensures
        ({
            let step = refraction::shadow_step(refraction::opaque(spheres)[i], prefix);
            m.value(
                column(step.0),
                m.run(refraction::shadow_steps(spheres, prefix), row),
            ) == m.value(step.1, row)
        }),
{
    let steps = refraction::shadow_steps(spheres, prefix);
    let opaque = refraction::opaque(spheres);
    let step = refraction::shadow_step(opaque[i], prefix);
    assert(steps[i] == step);
    assert forall|j: int| i < j < steps.len() implies (#[trigger] steps[j]).0 != steps[i].0 by {
        let start = prefix + "shadow_t_"@;
        assert(steps[j].0 == start + opaque[j].name@);
        assert((start + opaque[j].name@).skip(start.len() as int) =~= opaque[j].name@);
        assert((start + opaque[i].name@).skip(start.len() as int) =~= opaque[i].name@);
    }
    lemma_value_stays(m, steps, i, row);
    let before = m.run(steps.take(i), row);
    assert(agree(before, row, shadow_columns(prefix))) by {
        assert forall|name: Seq<char>| #[trigger]
            shadow_columns(prefix).contains_key(name) implies before.contains_key(name)
            == row.contains_key(name) && (before.contains_key(name) ==> before[name]
            == row[name]) by {
            assert forall|j: int| 0 <= j < i implies (#[trigger] steps.take(i)[j]).0 != name by {
                lemma_shadow_columns(opaque[j], prefix);
                assert(steps[j] == refraction::shadow_step(opaque[j], prefix));
            }
            lemma_run_leaves(m, steps.take(i), row, name);
        }
    }
    lemma_shadow_columns(opaque[i], prefix);
    law_value_depends_on_columns(m, step.1, before, row, shadow_columns(prefix));
}

/// The plan that finds out what lies in shadow tells so: a point does exactly if any
/// sphere blocks the ray from there to the light.
pub proof fn law_shadow_is_cast(
    m: Arithmetic,
    spheres: Seq<refraction::Sphere>,
    light: refraction::Light,
    prefix: Seq<char>,
    hit_prefix: Seq<char>,
    row: Row,
)
    requires
        told_apart(refraction::opaque(spheres)),
    ensures
        ({
            let ray = m.run(refraction::shadow_ray_steps(light, prefix, hit_prefix), row);
            let after = m.run(
                refraction::point_shadow_steps(spheres, light, prefix, hit_prefix),
                row,
            );
            m.value(column(prefix + "in_shadow"@), after) == Value::Truth(
                exists|sphere: refraction::Sphere|
                    spheres.contains(sphere) && #[trigger] blocks(m, sphere, prefix, ray),
            )
        }),
{
    let ray_steps = refraction::shadow_ray_steps(light, prefix, hit_prefix);
    let steps = refraction::shadow_steps(spheres, prefix);
    let last = refraction::in_shadow_step(spheres, prefix);
    let all = refraction::point_shadow_steps(spheres, light, prefix, hit_prefix);
    let opaque = refraction::opaque(spheres);
    let ts = sphere_columns(opaque, prefix + "shadow_t_"@);
    let ray = m.run(ray_steps, row);
    let met = m.run(steps, ray);
    assert(all.drop_last() =~= ray_steps + steps);
    assert(all.last() == last);
    lemma_run_append(m, ray_steps, steps, row);
    assert(m.run(all, row) == met.insert(last.0, m.value(last.1, met)));
    law_in_shadow_of_opaque(m, spheres, prefix, met);
    assert forall|i: int| 0 <= i < ts.len() implies m.value(#[trigger] ts[i], met) == m.value(
        refraction::shadow_step(opaque[i], prefix).1,
        ray,
    ) by {
        lemma_meets_alone(m, spheres, prefix, i, ray);
    }
    if exists|i: int| 0 <= i < ts.len() && m.value(#[trigger] ts[i], met) !is Missing {
        let i = choose|i: int| 0 <= i < ts.len() && m.value(#[trigger] ts[i], met) !is Missing;
        lemma_opaque_contains(spheres, opaque[i]);
        assert(opaque.contains(opaque[i]));
        assert(blocks(m, opaque[i], prefix, ray));
    }
    if exists|sphere: refraction::Sphere|
        spheres.contains(sphere) && #[trigger] blocks(m, sphere, prefix, ray) {
        let sphere = choose|sphere: refraction::Sphere|
            spheres.contains(sphere) && #[trigger] blocks(m, sphere, prefix, ray);
        lemma_opaque_contains(spheres, sphere);
        let i = choose|i: int| 0 <= i < opaque.len() && opaque[i] == sphere;
        assert(m.value(ts[i], met) !is Missing);
    }
}

/// Further spheres never bring light to a point: what lies in the shadow of some of the
/// spheres lies in that of all.
pub proof fn law_more_spheres_more_shadow(
    m: Arithmetic,
    some: Seq<refraction::Sphere>,
    all: Seq<refraction::Sphere>,
    light: refraction::Light,
    prefix: Seq<char>,
    hit_prefix: Seq<char>,
    row: Row,
)
    requires
        told_apart(refraction::opaque(some)),
        told_apart(refraction::opaque(all)),
        forall|sphere: refraction::Sphere| #[trigger]
            some.contains(sphere) ==> all.contains(sphere),
        m.value(
            column(prefix + "in_shadow"@),
            m.run(refraction::point_shadow_steps(some, light, prefix, hit_prefix), row),
        ) == Value::Truth(true),
    ensures
        m.value(
            column(prefix + "in_shadow"@),
            m.run(refraction::point_shadow_steps(all, light, prefix, hit_prefix), row),
        ) == Value::Truth(true),
{
    law_shadow_is_cast(m, some, light, prefix, hit_prefix, row);
    law_shadow_is_cast(m, all, light, prefix, hit_prefix, row);
}

/// Whether the shadow ray meets a sphere before the light, in a row that has the ray.
pub open spec fn shades(m: Arithmetic, sphere: shadows::Sphere, row: Row) -> bool {
    m.value(shadows::shadow_step(sphere).1, row) !is Missing
}

/// What the shadow ray is made of.
spec fn plain_shadow_columns() -> Sorts {
    Map::new(
        |name: Seq<char>|
            {
                ||| name == "shadow_ox"@ || name == "shadow_oy"@ || name == "shadow_oz"@
                ||| name == "shadow_dx"@ || name == "shadow_dy"@ || name == "shadow_dz"@
            },
        |name: Seq<char>| Sort::Number,
    )
}

/// Where the shadow ray meets a sphere is neither among the columns that the ray is
/// made of nor the parameter of the point that the camera sees.
proof fn lemma_plain_shadow_columns(sphere: shadows::Sphere)
    ensures
        sort_of(shadows::shadow_step(sphere).1, plain_shadow_columns()) is Some,
        !plain_shadow_columns().contains_key(shadows::shadow_step(sphere).0),
        shadows::shadow_step(sphere).0 != "t_nearest"@,
{
    broadcast use group_sorts;

    let sorts = plain_shadow_columns();
    let (origin, direction) = (shadows::shadow_origin(), shadows::shadow_direction());
    lemma_columns("shadow_ox"@, "shadow_oy"@, "shadow_oz"@, sorts);
    lemma_columns("shadow_dx"@, "shadow_dy"@, "shadow_dz"@, sorts);
    lemma_meeting(origin, direction, sphere.shape(), Side::Near, sorts);
    assert(is_number(number(ONE), sorts));
    lemma_ahead_before(
        meeting(origin, direction, sphere.shape(), Side::Near),
        number(ONE),
        sorts,
    );
    reveal_strlit("shadow_t_");
    reveal_strlit("shadow_ox");
    reveal_strlit("shadow_oy");
    reveal_strlit("shadow_oz");
    reveal_strlit("shadow_dx");
    reveal_strlit("shadow_dy");
    reveal_strlit("shadow_dz");
    reveal_strlit("t_nearest");
    let name = "shadow_t_"@ + sphere.name@;
    assert(name[0] == 's' && name[7] == 't');
    assert("t_nearest"@[0] == 't');
    assert("shadow_ox"@[7] == 'o' && "shadow_oy"@[7] == 'o' && "shadow_oz"@[7] == 'o');
    assert("shadow_dx"@[7] == 'd' && "shadow_dy"@[7] == 'd' && "shadow_dz"@[7] == 'd');
}

/// Where the shadow ray meets a sphere does not depend on the other spheres.
proof fn lemma_shaded_alone(m: Arithmetic, spheres: Seq<shadows::Sphere>, i: int, row: Row)
    requires
        told_apart(spheres),
        0 <= i < spheres.len(),
    ensures
        ({
            let step = shadows::shadow_step(spheres[i]);
            m.value(column(step.0), m.run(shadows::shadow_steps(spheres), row)) == m.value(
                step.1,
                row,
            )
        }),
{
    let steps = shadows::shadow_steps(spheres);
    let step = shadows::shadow_step(spheres[i]);
    assert(steps[i] == step);
    assert forall|j: int| i < j < steps.len() implies (#[trigger] steps[j]).0 != steps[i].0 by {
        let start = "shadow_t_"@;
        assert(steps[j].0 == start + spheres[j].label());
        assert((start + spheres[j].label()).skip(start.len() as int) =~= spheres[j].label());
        assert((start + spheres[i].label()).skip(start.len() as int) =~= spheres[i].label());
    }
    lemma_value_stays(m, steps, i, row);
    let before = m.run(steps.take(i), row);
    assert(agree(before, row, plain_shadow_columns())) by {
        assert forall|name: Seq<char>| #[trigger]
            plain_shadow_columns().contains_key(name) implies before.contains_key(name)
            == row.contains_key(name) && (before.contains_key(name) ==> before[name]
            == row[name]) by {
            assert forall|j: int| 0 <= j < i implies (#[trigger] steps.take(i)[j]).0 != name by {
                lemma_plain_shadow_columns(spheres[j]);
                assert(steps[j] == shadows::shadow_step(spheres[j]));
            }
            lemma_run_leaves(m, steps.take(i), row, name);
        }
    }
    lemma_plain_shadow_columns(spheres[i]);
    law_value_depends_on_columns(m, step.1, before, row, plain_shadow_columns());
}

/// In the scene with shadows, a point that the camera sees lies in shadow exactly if
/// the shadow ray meets any sphere before the light.
pub proof fn law_sphere_shades(m: Arithmetic, spheres: Seq<shadows::Sphere>, ray: Row)
    requires
        told_apart(spheres),
    ensures
        m.value(
            column("in_shadow"@),
            m.run(
                shadows::shadow_steps(spheres) + seq![shadows::in_shadow_step(spheres)],
                ray,
            ),
        ) == Value::Truth(
            m.value(column("t_nearest"@), ray) !is Missing && exists|sphere: shadows::Sphere|
                spheres.contains(sphere) && #[trigger] shades(m, sphere, ray),
        ),
{
    let steps = shadows::shadow_steps(spheres);
    let last = shadows::in_shadow_step(spheres);
    let all = steps + seq![last];
    let ts = sphere_columns(spheres, "shadow_t_"@);
    let met = m.run(steps, ray);
    assert(all.drop_last() =~= steps);
    assert(m.run(all, ray) == met.insert(last.0, m.value(last.1, met)));
    law_in_shadow(m, spheres, met);
    assert forall|i: int| 0 <= i < steps.len() implies (#[trigger] steps[i]).0 != "t_nearest"@ by {
        lemma_plain_shadow_columns(spheres[i]);
    }
    lemma_run_leaves(m, steps, ray, "t_nearest"@);
    assert forall|i: int| 0 <= i < ts.len() implies (m.value(#[trigger] ts[i], met) !is Missing)
        == shades(m, spheres[i], ray) by {
        lemma_shaded_alone(m, spheres, i, ray);
    }
    if exists|i: int| 0 <= i < ts.len() && m.value(#[trigger] ts[i], met) !is Missing {
        let i = choose|i: int| 0 <= i < ts.len() && m.value(#[trigger] ts[i], met) !is Missing;
        assert(spheres.contains(spheres[i]));
        assert(shades(m, spheres[i], ray));
    }
    if exists|sphere: shadows::Sphere| spheres.contains(sphere) && #[trigger] shades(m, sphere, ray) {
        let sphere = choose|sphere: shadows::Sphere|
            spheres.contains(sphere) && #[trigger] shades(m, sphere, ray);
        let i = choose|i: int| 0 <= i < spheres.len() && spheres[i] == sphere;
        assert(m.value(ts[i], met) !is Missing);
    }
}

// ---------------------------------------------------------------------------
// The result
// ---------------------------------------------------------------------------

/// The first columns of a sound plan are a sound plan.
proof fn lemma_sound_start(
    steps: Steps,
    n: int,
    columns: Set<Seq<char>>,
    by_name: spec_fn(Seq<char>) -> Sort,
)
    requires
        0 <= n <= steps.len(),
        is_sound(steps, columns, by_name),
    ensures
        is_sound(steps.take(n), columns, by_name),
{
    let start = steps.take(n);
    assert forall|i: int| 0 <= i < start.len() implies sort_of(
        (#[trigger] start[i]).1,
        table(columns.union(names(start.take(i))), by_name),
    ) == Some(by_name(start[i].0)) by {
        assert(start[i] == steps[i]);
        assert(start.take(i) =~= steps.take(i));
    }
}

/// A column of a sound plan that is clamped, and not replaced later, ends up as a
/// channel or missing.
proof fn lemma_clamped_column(
    m: Arithmetic,
    steps: Steps,
    i: int,
    value: Node,
    row: Row,
    columns: Set<Seq<char>>,
    by_name: spec_fn(Seq<char>) -> Sort,
)
    requires
        is_sound(steps, columns, by_name),
        fits(row, table(columns, by_name)),
        0 <= i < steps.len(),
        steps[i].1 == clamped(value),
        forall|j: int| i < j < steps.len() ==> (#[trigger] steps[j]).0 != steps[i].0,
    ensures
        m.run(steps, row).contains_key(steps[i].0),
        is_channel_or_missing(m.run(steps, row)[steps[i].0]),
{
    let there = columns.union(names(steps.take(i)));
    let sorts = table(there, by_name);
    lemma_sound_start(steps, i, columns, by_name);
    law_run_fits(m, steps.take(i), row, columns, by_name);
    assert(sort_of(steps[i].1, sorts) is Some);
    lemma_clamped_sort(value, sorts);
    law_value_is_of_sort(m, value, m.run(steps.take(i), row), sorts);
    law_clamped_in_range(m, value, m.run(steps.take(i), row));
    lemma_value_stays(m, steps, i, row);
}

/// What is clamped is a number.
proof fn lemma_clamped_sort(value: Node, sorts: Sorts)
    requires
        sort_of(clamped(value), sorts) is Some,
    ensures
        sort_of(value, sorts) == Some(Sort::Number),
{
    let condition = value.lt(number(ZERO));
    assert(sort_of(condition, sorts) == Some(Sort::Truth));
    assert(sort_of(value, sorts) is Some);
}

/// Whether the three columns of the colour hold channels or nothing.
pub open spec fn has_channels(row: Row) -> bool {
    &&& row.contains_key("final_r"@) && is_channel_or_missing(row["final_r"@])
    &&& row.contains_key("final_g"@) && is_channel_or_missing(row["final_g"@])
    &&& row.contains_key("final_b"@) && is_channel_or_missing(row["final_b"@])
}

/// A sound plan that ends with a clamped colour ends with channels.
proof fn lemma_channels(
    m: Arithmetic,
    steps: Steps,
    before: Steps,
    color: Triple,
    row: Row,
    columns: Set<Seq<char>>,
    by_name: spec_fn(Seq<char>) -> Sort,
)
    requires
        is_sound(steps, columns, by_name),
        fits(row, table(columns, by_name)),
        steps == before + vector_steps(
            "final_r"@,
            "final_g"@,
            "final_b"@,
            Triple { x: clamped(color.x), y: clamped(color.y), z: clamped(color.z) },
        ),
    ensures
        has_channels(m.run(steps, row)),
{
    reveal_strlit("final_r");
    reveal_strlit("final_g");
    reveal_strlit("final_b");
    assert("final_r"@[6] == 'r' && "final_g"@[6] == 'g' && "final_b"@[6] == 'b');
    let n = before.len() as int;
    assert(steps[n] == ("final_r"@, clamped(color.x)));
    assert(steps[n + 1] == ("final_g"@, clamped(color.y)));
    assert(steps[n + 2] == ("final_b"@, clamped(color.z)));
    lemma_clamped_column(m, steps, n, color.x, row, columns, by_name);
    lemma_clamped_column(m, steps, n + 1, color.y, row, columns, by_name);
    lemma_clamped_column(m, steps, n + 2, color.z, row, columns, by_name);
}

/// The scene with several spheres gives channels from 0 to 255.
pub proof fn law_multi_sphere_gives_channels(
    m: Arithmetic,
    width: nat,
    height: nat,
    camera: Camera,
    spheres: Seq<multi_sphere::Sphere>,
    row: Row,
)
    requires
        spheres.len() > 0,
        fits(row, table(pixel_table(), hit_and_shadow())),
    ensures
        has_channels(m.run(multi_sphere::scene_steps(width, height, camera, spheres), row)),
{
    law_multi_sphere_is_sound(width, height, camera, spheres);
    let hit = column("hit_sphere"@);
    let n = spheres.len();
    let color = Triple {
        x: chosen(
            hit,
            Seq::new(n, |i: int| multi_sphere::shade(spheres[i]).x),
            number(multi_sphere::SKY_R),
        ),
        y: chosen(
            hit,
            Seq::new(n, |i: int| multi_sphere::shade(spheres[i]).y),
            number(multi_sphere::SKY_G),
        ),
        z: chosen(
            hit,
            Seq::new(n, |i: int| multi_sphere::shade(spheres[i]).z),
            number(multi_sphere::SKY_B),
        ),
    };
    let before = ray_steps(width, height, camera) + multi_sphere::intersect_steps(spheres) + seq![
        multi_sphere::nearest_step(spheres),
        multi_sphere::index_step(spheres),
    ] + multi_sphere::all_normal_steps(spheres);
    lemma_channels(
        m,
        multi_sphere::scene_steps(width, height, camera, spheres),
        before,
        color,
        row,
        pixel_table(),
        hit_and_shadow(),
    );
}

/// The scene with shadows gives channels from 0 to 255.
pub proof fn law_shadows_gives_channels(
    m: Arithmetic,
    width: nat,
    height: nat,
    camera: Camera,
    spheres: Seq<shadows::Sphere>,
    light: shadows::Light,
    ambient: Number,
    row: Row,
)
    requires
        spheres.len() > 0,
        fits(row, table(pixel_table(), hit_and_shadow())),
    ensures
        has_channels(
            m.run(shadows::scene_steps(width, height, camera, spheres, light, ambient), row),
        ),
{
    law_shadows_is_sound(width, height, camera, spheres, light, ambient);
    let hit = column("hit_sphere"@);
    let bright = column("brightness"@);
    let n = spheres.len();
    let sky_height = shadows::HEIGHT as nat;
    let color = Triple {
        x: chosen(
            hit,
            Seq::new(n, |i: int| surface(spheres[i].color_r.bits, bright)),
            sky(sky_height, shadows::HORIZON_R),
        ),
        y: chosen(
            hit,
            Seq::new(n, |i: int| surface(spheres[i].color_g.bits, bright)),
            sky(sky_height, shadows::HORIZON_G),
        ),
        z: chosen(
            hit,
            Seq::new(n, |i: int| surface(spheres[i].color_b.bits, bright)),
            sky(sky_height, shadows::HORIZON_B),
        ),
    };
    let before = ray_steps(width, height, camera) + shadows::intersect_steps(spheres) + seq![
        shadows::nearest_step(spheres),
        shadows::index_step(spheres),
    ] + shadows::point_steps(spheres) + shadows::shadow_ray_steps(light) + shadows::shadow_steps(
        spheres,
    ) + seq![shadows::in_shadow_step(spheres), shadows::lighting_step(light, ambient)];
    lemma_channels(
        m,
        shadows::scene_steps(width, height, camera, spheres, light, ambient),
        before,
        color,
        row,
        pixel_table(),
        hit_and_shadow(),
    );
}

/// The scene with refraction gives channels from 0 to 255.
pub proof fn law_refraction_gives_channels(
    m: Arithmetic,
    width: nat,
    height: nat,
    spheres: Seq<refraction::Sphere>,
    glass: refraction::Sphere,
    light: refraction::Light,
    ambient: Number,
    row: Row,
)
    requires
        spheres.len() > 0,
        fits(row, table(pixel_table(), by_name())),
    ensures
        has_channels(
            m.run(refraction::scene_steps(width, height, spheres, glass, light, ambient), row),
        ),
{
    law_refraction_is_sound(width, height, spheres, glass, light, ambient);
    lemma_channels(
        m,
        refraction::scene_steps(width, height, spheres, glass, light, ambient),
        refraction::ray_path_steps(width, height, spheres, glass) + refraction::light_steps(
            spheres,
            light,
            ambient,
        ),
        refraction::seen_color(spheres),
        row,
        pixel_table(),
        by_name(),
    );
}

} // verus!

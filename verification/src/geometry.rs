//! Rays and spheres among real numbers: where they meet, and that the formulas find it.
use crate::formula::{Node, Operator, number};
use crate::ideal::{Ideal, IdealRow, Reals, product, quotient};
use crate::number::{Number, ZERO};
use crate::optics::{
    Arrow, are_given, arrow, lemma_dot_commutes, lemma_real_binary, lemma_real_case, lemma_real_dot,
    lemma_real_minus, lemma_real_number, lemma_times_sum, real_of,
};
use crate::trace::{Ball, Side, meeting, quadratic};
use crate::vector::Triple;
use vstd::prelude::*;

verus! {

/// The point with those coordinates.
pub open spec fn spot(r: Reals, x: Number, y: Number, z: Number) -> Arrow {
    Arrow { x: (r.number)(x.bits), y: (r.number)(y.bits), z: (r.number)(z.bits) }
}

/// The point of a ray at a parameter.
pub open spec fn along_ray(origin: Arrow, direction: Arrow, t: real) -> Arrow {
    origin.plus(direction.scaled(t))
}

/// Whether a point is as far from the centre of a sphere as its surface is.
pub open spec fn on_surface(point: Arrow, center: Arrow, radius: real) -> bool {
    point.minus(center).dot(point.minus(center)) == product(radius, radius)
}

/// Whether a ray is on the surface of a sphere at a parameter.
pub open spec fn touches(o: Arrow, d: Arrow, center: Arrow, radius: real, t: real) -> bool {
    on_surface(along_ray(o, d, t), center, radius)
}

/// Whether that is where a ray first meets the surface of a sphere, counted from
/// behind its origin; nothing if it never does.
pub open spec fn is_entry(
    o: Arrow,
    d: Arrow,
    center: Arrow,
    radius: real,
    found: Ideal,
) -> bool {
    match found {
        Ideal::Number(t) => {
            &&& touches(o, d, center, radius, t)
            &&& forall|s: real| #[trigger] touches(o, d, center, radius, s) ==> t <= s
        },
        Ideal::Missing => forall|s: real| !#[trigger] touches(o, d, center, radius, s),
        _ => false,
    }
}

/// Whether that is where a ray last meets the surface of a sphere; nothing if it never
/// does.
pub open spec fn is_exit(o: Arrow, d: Arrow, center: Arrow, radius: real, found: Ideal) -> bool {
    match found {
        Ideal::Number(t) => {
            &&& touches(o, d, center, radius, t)
            &&& forall|s: real| #[trigger] touches(o, d, center, radius, s) ==> s <= t
        },
        Ideal::Missing => forall|s: real| !#[trigger] touches(o, d, center, radius, s),
        _ => false,
    }
}

/// Whether that is where a ray enters a sphere, or where it leaves it.
pub open spec fn is_meeting(
    r: Reals,
    o: Arrow,
    d: Arrow,
    ball: Ball,
    side: Side,
    found: Ideal,
) -> bool {
    let center = spot(r, ball.center_x, ball.center_y, ball.center_z);
    let radius = (r.number)(ball.radius.bits);
    match side {
        Side::Near => is_entry(o, d, center, radius, found),
        Side::Far => is_exit(o, d, center, radius, found),
    }
}

// ---------------------------------------------------------------------------
// The quadratic equation
// ---------------------------------------------------------------------------

#[verifier::spinoff_prover]
proof fn lemma_product_of_total(x: real, k: real, y: real, z: real)
    ensures
        product(x + product(k, y), z) == product(x, z) + product(k, product(y, z)),
{
    reveal(product);
    assert((x + k * y) * z == x * z + k * (y * z)) by (nonlinear_arith);
}

#[verifier::spinoff_prover]
proof fn lemma_dot_total(u: Arrow, k: real, v: Arrow, w: Arrow)
    ensures
        u.plus(v.scaled(k)).dot(w) == u.dot(w) + product(k, v.dot(w)),
{
    lemma_product_of_total(u.x, k, v.x, w.x);
    lemma_product_of_total(u.y, k, v.y, w.y);
    lemma_product_of_total(u.z, k, v.z, w.z);
    lemma_times_sum(k, product(v.x, w.x), product(v.y, w.y), product(v.z, w.z));
}

/// The square of the distance of a point of a ray, from the way between the origins.
#[verifier::spinoff_prover]
proof fn lemma_distance(o: Arrow, d: Arrow, center: Arrow, t: real)
    ensures
        ({
            let q = o.minus(center);
            let w = along_ray(o, d, t).minus(center);
            w.dot(w) == q.dot(q) + product(t, d.dot(q)) + product(
                t,
                d.dot(q) + product(t, d.dot(d)),
            )
        }),
{
    let q = o.minus(center);
    let w = along_ray(o, d, t).minus(center);
    assert(w == q.plus(d.scaled(t)));
    lemma_dot_total(q, t, d, w);
    lemma_dot_commutes(q, w);
    lemma_dot_commutes(d, w);
    lemma_dot_total(q, t, d, q);
    lemma_dot_total(q, t, d, d);
    lemma_dot_commutes(q, d);
}

/// The equation, its square completed.
#[verifier::spinoff_prover]
proof fn lemma_completed(a: real, h: real, qq: real, rr: real, t: real)
    requires
        a > 0 as real,
    ensures
        (qq + product(t, h) + product(t, h + product(t, a)) == rr) <==> product(
            product(a, t) + h,
            product(a, t) + h,
        ) == product(h, h) - product(a, qq - rr),
{
    reveal(product);
    let e = qq + t * h + t * (h + t * a) - rr;
    assert((a * t + h) * (a * t + h) - (h * h - a * (qq - rr)) == a * e) by (nonlinear_arith)
        requires
            e == qq + t * h + t * (h + t * a) - rr,
    ;
    assert(a * e == 0 as real <==> e == 0 as real) by (nonlinear_arith)
        requires
            a > 0 as real,
    ;
}

#[verifier::spinoff_prover]
pub(crate) proof fn lemma_quotient(a: real, x: real)
    requires
        a != 0 as real,
    ensures
        product(a, quotient(x, a)) == x,
{
    reveal(product);
    reveal(quotient);
    assert(a * (x / a) == x) by (nonlinear_arith)
        requires
            a != 0 as real,
    ;
}

/// Two numbers with the same square are the same or opposite.
#[verifier::spinoff_prover]
proof fn lemma_same_square(x: real, s: real)
    requires
        s >= 0 as real,
        product(x, x) == product(s, s),
    ensures
        x == s || x == -s,
{
    reveal(product);
    assert((x - s) * (x + s) == 0 as real) by (nonlinear_arith)
        requires
            x * x == s * s,
    ;
    assert(x - s == 0 as real || x + s == 0 as real) by (nonlinear_arith)
        requires
            (x - s) * (x + s) == 0 as real,
    ;
}

#[verifier::spinoff_prover]
proof fn lemma_order(a: real, x: real, y: real)
    requires
        a > 0 as real,
        product(a, x) <= product(a, y),
    ensures
        x <= y,
{
    reveal(product);
    assert(x <= y) by (nonlinear_arith)
        requires
            a > 0 as real,
            a * x <= a * y,
    ;
}

#[verifier::spinoff_prover]
proof fn lemma_opposite_square(s: real)
    ensures
        product(-s, -s) == product(s, s),
        product(s, s) >= 0 as real,
{
    reveal(product);
    assert((-s) * (-s) == s * s) by (nonlinear_arith);
    assert(s * s >= 0 as real) by (nonlinear_arith);
}

/// The smaller and the greater solution.
#[verifier::spinoff_prover]
proof fn lemma_solutions(
    o: Arrow,
    d: Arrow,
    center: Arrow,
    radius: real,
    s: real,
    near: real,
    far: real,
)
    requires
        d.dot(d) > 0 as real,
        s >= 0 as real,
        ({
            let q = o.minus(center);
            let (a, h) = (d.dot(d), d.dot(q));
            &&& product(s, s) == product(h, h) - product(a, q.dot(q) - product(radius, radius))
            &&& product(a, near) == -h - s
            &&& product(a, far) == -h + s
        }),
    ensures
        is_entry(o, d, center, radius, Ideal::Number(near)),
        is_exit(o, d, center, radius, Ideal::Number(far)),
        forall|t: real| #[trigger] touches(o, d, center, radius, t) ==> t == near || t == far,
{
    let q = o.minus(center);
    let (a, h, qq, rr) = (d.dot(d), d.dot(q), q.dot(q), product(radius, radius));
    lemma_opposite_square(s);
    lemma_distance(o, d, center, near);
    lemma_completed(a, h, qq, rr, near);
    lemma_distance(o, d, center, far);
    lemma_completed(a, h, qq, rr, far);
    lemma_order(a, near, far);
    assert forall|t: real| #[trigger] touches(o, d, center, radius, t) implies t == near || t
        == far by {
        lemma_distance(o, d, center, t);
        lemma_completed(a, h, qq, rr, t);
        lemma_same_square(product(a, t) + h, s);
        if product(a, t) + h == s {
            lemma_order(a, far, t);
            lemma_order(a, t, far);
        } else {
            lemma_order(a, near, t);
            lemma_order(a, t, near);
        }
    }
}

/// Without a solution the ray passes by.
#[verifier::spinoff_prover]
proof fn lemma_no_solution(o: Arrow, d: Arrow, center: Arrow, radius: real)
    requires
        d.dot(d) > 0 as real,
        ({
            let q = o.minus(center);
            let (a, h) = (d.dot(d), d.dot(q));
            product(h, h) - product(a, q.dot(q) - product(radius, radius)) < 0 as real
        }),
    ensures
        is_entry(o, d, center, radius, Ideal::Missing),
        is_exit(o, d, center, radius, Ideal::Missing),
{
    let q = o.minus(center);
    let (a, h, qq, rr) = (d.dot(d), d.dot(q), q.dot(q), product(radius, radius));
    assert forall|t: real| !#[trigger] touches(o, d, center, radius, t) by {
        lemma_distance(o, d, center, t);
        lemma_completed(a, h, qq, rr, t);
        lemma_opposite_square(product(a, t) + h);
    }
}

/// The formula finds where a ray enters a sphere and where it leaves it.
#[verifier::spinoff_prover]
pub proof fn law_meeting(
    r: Reals,
    origin: Triple,
    direction: Triple,
    ball: Ball,
    row: IdealRow,
)
    requires
        r.is_faithful(),
        are_given(r, origin, row),
        are_given(r, direction, row),
        arrow(r, direction, row).dot(arrow(r, direction, row)) > 0 as real,
    ensures
        ({
            let (o, d) = (arrow(r, origin, row), arrow(r, direction, row));
            let center = spot(r, ball.center_x, ball.center_y, ball.center_z);
            let radius = (r.number)(ball.radius.bits);
            &&& is_entry(
                o,
                d,
                center,
                radius,
                r.value(meeting(origin, direction, ball, Side::Near), row),
            )
            &&& is_exit(
                o,
                d,
                center,
                radius,
                r.value(meeting(origin, direction, ball, Side::Far), row),
            )
            &&& match (
                r.value(meeting(origin, direction, ball, Side::Near), row),
                r.value(meeting(origin, direction, ball, Side::Far), row),
            ) {
                (Ideal::Number(near), Ideal::Number(far)) => forall|t: real| #[trigger]
                    touches(o, d, center, radius, t) ==> t == near || t == far,
                (Ideal::Missing, Ideal::Missing) => true,
                _ => false,
            }
        }),
{
    let (o, d) = (arrow(r, origin, row), arrow(r, direction, row));
    let center = spot(r, ball.center_x, ball.center_y, ball.center_z);
    let radius = number(ball.radius.bits);
    let rad = (r.number)(ball.radius.bits);
    let offset = origin.minus(ball.center());
    let q = quadratic(origin, direction, ball);
    let zero = number(ZERO);
    lemma_real_number(r, ball.center_x.bits, row);
    lemma_real_number(r, ball.center_y.bits, row);
    lemma_real_number(r, ball.center_z.bits, row);
    lemma_real_number(r, ball.radius.bits, row);
    lemma_real_number(r, ZERO, row);
    lemma_real_minus(r, origin, ball.center(), row);
    assert(arrow(r, offset, row) == o.minus(center));
    lemma_real_dot(r, direction, direction, row);
    lemma_real_dot(r, direction, offset, row);
    lemma_real_dot(r, offset, offset, row);
    lemma_real_binary(r, radius, Operator::Times, radius, row);
    lemma_real_binary(r, offset.dot(offset), Operator::Minus, radius.times(radius), row);
    lemma_real_binary(r, q.half_b, Operator::Times, q.half_b, row);
    lemma_real_binary(r, q.a, Operator::Times, q.c, row);
    lemma_real_binary(r, q.half_b.times(q.half_b), Operator::Minus, q.a.times(q.c), row);
    let disc = q.discriminant();
    let k = real_of(r, disc, row);
    let (a, h) = (real_of(r, q.a, row), real_of(r, q.half_b, row));
    lemma_real_binary(r, disc, Operator::GreaterEq, zero, row);
    assert(r.value(Node::NullNumber, row) == Ideal::Missing);
    lemma_real_case(r, disc.gt_eq(zero), q.smaller(), Node::NullNumber, row);
    lemma_real_case(r, disc.gt_eq(zero), q.greater(), Node::NullNumber, row);
    if k >= 0 as real {
        let s = (r.sqrt)(k);
        assert(r.value(disc.sqrt(), row) == Ideal::Number(s));
        let opposite = zero.minus(q.half_b);
        lemma_real_binary(r, zero, Operator::Minus, q.half_b, row);
        lemma_real_binary(r, opposite, Operator::Minus, disc.sqrt(), row);
        lemma_real_binary(r, opposite, Operator::Plus, disc.sqrt(), row);
        lemma_real_binary(r, opposite.minus(disc.sqrt()), Operator::Over, q.a, row);
        lemma_real_binary(r, opposite.plus(disc.sqrt()), Operator::Over, q.a, row);
        lemma_quotient(a, -h - s);
        lemma_quotient(a, -h + s);
        lemma_solutions(o, d, center, rad, s, quotient(-h - s, a), quotient(-h + s, a));
    } else {
        lemma_no_solution(o, d, center, rad);
    }
}

} // verus!

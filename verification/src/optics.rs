//! How light is reflected and refracted, how glass shares it out, and where a shadow
//! ray reaches it.
//!
//! The laws are about real numbers: what the formulas say where nothing is rounded.
use crate::formula::{Node, Operator, column, number};
pub use crate::ideal::magnitude;
use crate::ideal::{Ideal, IdealRow, Reals, fifth, product, quotient};
use crate::number::{FIVE, ONE, TWO, ZERO};
use crate::refraction::{
    STRAIGHT_REFLECTANCE, Sphere, camera_direction, color_of_hit, entry_steps, glass_color,
    incidence, opaque_color, reflectance, reflected, reflection_steps, reflectivities, refracted,
    refracted_cosine, refracted_sine_squared, seen_color, sky_color, surface_normal,
};
use crate::trace::{chosen, point_at};
use crate::vector::Triple;
use vstd::prelude::*;

verus! {

// ---------------------------------------------------------------------------
// Vectors of real numbers
// ---------------------------------------------------------------------------

/// A vector of real numbers.
pub struct Arrow {
    pub x: real,
    pub y: real,
    pub z: real,
}

impl Arrow {
    pub open spec fn plus(self, other: Arrow) -> Arrow {
        Arrow { x: self.x + other.x, y: self.y + other.y, z: self.z + other.z }
    }

    pub open spec fn minus(self, other: Arrow) -> Arrow {
        Arrow { x: self.x - other.x, y: self.y - other.y, z: self.z - other.z }
    }

    pub open spec fn scaled(self, k: real) -> Arrow {
        Arrow { x: product(k, self.x), y: product(k, self.y), z: product(k, self.z) }
    }

    pub open spec fn dot(self, other: Arrow) -> real {
        product(self.x, other.x) + product(self.y, other.y) + product(self.z, other.z)
    }

    /// The part of the vector along a surface with that normal.
    pub open spec fn along(self, normal: Arrow) -> Arrow {
        self.minus(normal.scaled(self.dot(normal)))
    }
}

/// Whether a tree gives a number in a row.
pub open spec fn is_given(r: Reals, node: Node, row: IdealRow) -> bool {
    r.value(node, row) is Number
}

/// The number that a tree gives in a row.
pub open spec fn real_of(r: Reals, node: Node, row: IdealRow) -> real {
    r.value(node, row)->Number_0
}

/// Whether three trees give numbers in a row.
pub open spec fn are_given(r: Reals, v: Triple, row: IdealRow) -> bool {
    is_given(r, v.x, row) && is_given(r, v.y, row) && is_given(r, v.z, row)
}

/// The vector that three trees give in a row.
pub open spec fn arrow(r: Reals, v: Triple, row: IdealRow) -> Arrow {
    Arrow { x: real_of(r, v.x, row), y: real_of(r, v.y, row), z: real_of(r, v.z, row) }
}

/// Whether a vector has length one.
pub open spec fn is_unit(v: Arrow) -> bool {
    v.dot(v) == 1 as real
}

#[verifier::spinoff_prover]
pub(crate) proof fn lemma_real_binary(r: Reals, left: Node, op: Operator, right: Node, row: IdealRow)
    requires
        is_given(r, left, row),
        is_given(r, right, row),
    ensures
        r.value(left.binary(op, right), row) == r.apply(
            op,
            Ideal::Number(real_of(r, left, row)),
            Ideal::Number(real_of(r, right, row)),
        ),
{
}

#[verifier::spinoff_prover]
pub(crate) proof fn lemma_real_number(r: Reals, bits: u64, row: IdealRow)
    ensures
        r.value(number(bits), row) == Ideal::Number((r.number)(bits)),
{
}

#[verifier::spinoff_prover]
pub(crate) proof fn lemma_real_case(
    r: Reals,
    condition: Node,
    value: Node,
    otherwise: Node,
    row: IdealRow,
)
    ensures
        r.value(condition.case(value, otherwise), row) == (if r.value(condition, row)
            == Ideal::Truth(true) {
            r.value(value, row)
        } else {
            r.value(otherwise, row)
        }),
{
}

#[verifier::spinoff_prover]
pub(crate) proof fn lemma_real_plus(r: Reals, u: Triple, v: Triple, row: IdealRow)
    requires
        are_given(r, u, row),
        are_given(r, v, row),
    ensures
        are_given(r, u.plus(v), row),
        arrow(r, u.plus(v), row) == arrow(r, u, row).plus(arrow(r, v, row)),
{
    lemma_real_binary(r, u.x, Operator::Plus, v.x, row);
    lemma_real_binary(r, u.y, Operator::Plus, v.y, row);
    lemma_real_binary(r, u.z, Operator::Plus, v.z, row);
}

#[verifier::spinoff_prover]
pub(crate) proof fn lemma_real_minus(r: Reals, u: Triple, v: Triple, row: IdealRow)
    requires
        are_given(r, u, row),
        are_given(r, v, row),
    ensures
        are_given(r, u.minus(v), row),
        arrow(r, u.minus(v), row) == arrow(r, u, row).minus(arrow(r, v, row)),
{
    lemma_real_binary(r, u.x, Operator::Minus, v.x, row);
    lemma_real_binary(r, u.y, Operator::Minus, v.y, row);
    lemma_real_binary(r, u.z, Operator::Minus, v.z, row);
}

#[verifier::spinoff_prover]
pub(crate) proof fn lemma_real_scaled(r: Reals, v: Triple, k: Node, row: IdealRow)
    requires
        are_given(r, v, row),
        is_given(r, k, row),
    ensures
        are_given(r, v.scaled(k), row),
        arrow(r, v.scaled(k), row) == arrow(r, v, row).scaled(real_of(r, k, row)),
{
    lemma_real_binary(r, k, Operator::Times, v.x, row);
    lemma_real_binary(r, k, Operator::Times, v.y, row);
    lemma_real_binary(r, k, Operator::Times, v.z, row);
}

#[verifier::spinoff_prover]
pub(crate) proof fn lemma_real_times(r: Reals, v: Triple, k: Node, row: IdealRow)
    requires
        are_given(r, v, row),
        is_given(r, k, row),
    ensures
        are_given(r, v.times(k), row),
        arrow(r, v.times(k), row) == arrow(r, v, row).scaled(real_of(r, k, row)),
{
    lemma_real_binary(r, v.x, Operator::Times, k, row);
    lemma_real_binary(r, v.y, Operator::Times, k, row);
    lemma_real_binary(r, v.z, Operator::Times, k, row);
    lemma_product_commutes(real_of(r, v.x, row), real_of(r, k, row));
    lemma_product_commutes(real_of(r, v.y, row), real_of(r, k, row));
    lemma_product_commutes(real_of(r, v.z, row), real_of(r, k, row));
}

#[verifier::spinoff_prover]
pub(crate) proof fn lemma_real_dot(r: Reals, u: Triple, v: Triple, row: IdealRow)
    requires
        are_given(r, u, row),
        are_given(r, v, row),
    ensures
        is_given(r, u.dot(v), row),
        real_of(r, u.dot(v), row) == arrow(r, u, row).dot(arrow(r, v, row)),
{
    let (x, y, z) = (u.x.times(v.x), u.y.times(v.y), u.z.times(v.z));
    lemma_real_binary(r, u.x, Operator::Times, v.x, row);
    lemma_real_binary(r, u.y, Operator::Times, v.y, row);
    lemma_real_binary(r, u.z, Operator::Times, v.z, row);
    lemma_real_binary(r, x, Operator::Plus, y, row);
    lemma_real_binary(r, x.plus(y), Operator::Plus, z, row);
}

/// A vector of length one is its own direction.
#[verifier::spinoff_prover]
proof fn lemma_real_normalized(r: Reals, v: Triple, row: IdealRow)
    requires
        r.is_right(),
        are_given(r, v, row),
        is_unit(arrow(r, v, row)),
    ensures
        are_given(r, v.normalized(), row),
        arrow(r, v.normalized(), row) == arrow(r, v, row),
{
    let length = v.length();
    lemma_real_dot(r, v, v, row);
    let one = real_of(r, v.dot(v), row);
    assert(r.value(v.dot(v).sqrt(), row) == Ideal::Number((r.sqrt)(one)));
    assert((r.sqrt)(one) >= 0 as real);
    lemma_root_of_one((r.sqrt)(one));
    lemma_real_binary(r, v.x, Operator::Over, length, row);
    lemma_real_binary(r, v.y, Operator::Over, length, row);
    lemma_real_binary(r, v.z, Operator::Over, length, row);
    lemma_over_one(real_of(r, v.x, row));
    lemma_over_one(real_of(r, v.y, row));
    lemma_over_one(real_of(r, v.z, row));
}

#[verifier::spinoff_prover]
pub(crate) proof fn lemma_over_one(x: real)
    ensures
        quotient(x, 1 as real) == x,
{
    reveal(quotient);
}

// ---------------------------------------------------------------------------
// Products
// ---------------------------------------------------------------------------

#[verifier::spinoff_prover]
pub(crate) proof fn lemma_product_commutes(a: real, b: real)
    ensures
        product(a, b) == product(b, a),
{
    reveal(product);
    assert(a * b == b * a) by (nonlinear_arith);
}

#[verifier::spinoff_prover]
proof fn lemma_product_of_difference(x: real, k: real, y: real, z: real)
    ensures
        product(x - product(k, y), z) == product(x, z) - product(k, product(y, z)),
{
    reveal(product);
    assert((x - k * y) * z == x * z - k * (y * z)) by (nonlinear_arith);
}

#[verifier::spinoff_prover]
proof fn lemma_product_of_sum(a: real, x: real, b: real, y: real, z: real)
    ensures
        product(product(a, x) + product(b, y), z) == product(a, product(x, z)) + product(
            b,
            product(y, z),
        ),
{
    reveal(product);
    assert((a * x + b * y) * z == a * (x * z) + b * (y * z)) by (nonlinear_arith);
}

#[verifier::spinoff_prover]
pub(crate) proof fn lemma_times_sum(k: real, x: real, y: real, z: real)
    ensures
        product(k, x + y + z) == product(k, x) + product(k, y) + product(k, z),
{
    reveal(product);
    assert(k * (x + y + z) == k * x + k * y + k * z) by (nonlinear_arith);
}

#[verifier::spinoff_prover]
pub(crate) proof fn lemma_negative(k: real, x: real)
    ensures
        product(-k, x) == -product(k, x),
{
    reveal(product);
    assert((-k) * x == -(k * x)) by (nonlinear_arith);
}

#[verifier::spinoff_prover]
proof fn lemma_twice(k: real, x: real)
    ensures
        product(k + k, x) == product(k, x) + product(k, x),
{
    reveal(product);
    assert((k + k) * x == k * x + k * x) by (nonlinear_arith);
}

#[verifier::spinoff_prover]
pub(crate) proof fn lemma_by_one_or_two(k: real)
    ensures
        product(k, 1 as real) == k,
        product(2 as real, k) == k + k,
{
    reveal(product);
}

#[verifier::spinoff_prover]
pub(crate) proof fn lemma_dot_commutes(u: Arrow, v: Arrow)
    ensures
        u.dot(v) == v.dot(u),
{
    lemma_product_commutes(u.x, v.x);
    lemma_product_commutes(u.y, v.y);
    lemma_product_commutes(u.z, v.z);
}

#[verifier::spinoff_prover]
pub(crate) proof fn lemma_dot_difference(u: Arrow, k: real, v: Arrow, w: Arrow)
    ensures
        u.minus(v.scaled(k)).dot(w) == u.dot(w) - product(k, v.dot(w)),
{
    lemma_product_of_difference(u.x, k, v.x, w.x);
    lemma_product_of_difference(u.y, k, v.y, w.y);
    lemma_product_of_difference(u.z, k, v.z, w.z);
    lemma_times_sum(k, product(v.x, w.x), product(v.y, w.y), product(v.z, w.z));
}

#[verifier::spinoff_prover]
proof fn lemma_dot_combination(a: real, u: Arrow, b: real, v: Arrow, w: Arrow)
    ensures
        u.scaled(a).plus(v.scaled(b)).dot(w) == product(a, u.dot(w)) + product(b, v.dot(w)),
{
    lemma_product_of_sum(a, u.x, b, v.x, w.x);
    lemma_product_of_sum(a, u.y, b, v.y, w.y);
    lemma_product_of_sum(a, u.z, b, v.z, w.z);
    lemma_times_sum(a, product(u.x, w.x), product(u.y, w.y), product(u.z, w.z));
    lemma_times_sum(b, product(v.x, w.x), product(v.y, w.y), product(v.z, w.z));
}

// ---------------------------------------------------------------------------
// Reflection
// ---------------------------------------------------------------------------

/// The mirror image of a direction at a surface with that normal.
pub open spec fn mirrored(incident: Arrow, normal: Arrow) -> Arrow {
    let across = incident.dot(normal);
    incident.minus(normal.scaled(across + across))
}

/// A mirror turns the part of a direction that is across the surface, leaves the part
/// along it and the length, and undoes what it did.
#[verifier::spinoff_prover]
pub proof fn law_mirror(incident: Arrow, normal: Arrow)
    requires
        normal.dot(normal) == 1 as real,
    ensures
        ({
            let turned = mirrored(incident, normal);
            &&& turned.dot(normal) == -incident.dot(normal)
            &&& turned.along(normal) == incident.along(normal)
            &&& turned.dot(turned) == incident.dot(incident)
            &&& mirrored(turned, normal) == incident
        }),
{
    let d = incident.dot(normal);
    let k = d + d;
    let turned = mirrored(incident, normal);
    lemma_dot_difference(incident, k, normal, normal);
    lemma_by_one_or_two(k);
    assert(turned.dot(normal) == -d);
    lemma_dot_difference(incident, k, normal, turned);
    lemma_dot_commutes(incident, turned);
    lemma_dot_commutes(normal, turned);
    lemma_dot_difference(incident, k, normal, incident);
    lemma_dot_commutes(normal, incident);
    lemma_product_commutes(k, d);
    lemma_product_commutes(k, -d);
    lemma_negative(d, k);
    lemma_there_and_back(d, normal.x);
    lemma_there_and_back(d, normal.y);
    lemma_there_and_back(d, normal.z);
}

#[verifier::spinoff_prover]
proof fn lemma_there_and_back(d: real, n: real)
    ensures
        product(d + d, n) == product(d, n) + product(d, n),
        product(-d, n) == -product(d, n),
        product((-d) + (-d), n) == -product(d + d, n),
{
    lemma_twice(d, n);
    lemma_negative(d, n);
    lemma_negative(d + d, n);
    assert((-d) + (-d) == -(d + d));
}

#[verifier::spinoff_prover]
pub(crate) proof fn lemma_root_of_one(x: real)
    requires
        x >= 0 as real,
        product(x, x) == 1 as real,
    ensures
        x == 1 as real,
{
    reveal(product);
    assert(x == 1 as real) by (nonlinear_arith)
        requires
            x >= 0 as real,
            x * x == 1 as real,
    ;
}

/// A reflected ray is the mirror image of the ray that arrives.
#[verifier::spinoff_prover]
pub proof fn law_reflection_mirrors(r: Reals, incident: Triple, normal: Triple, row: IdealRow)
    requires
        r.is_right(),
        are_given(r, incident, row),
        are_given(r, normal, row),
    ensures
        are_given(r, reflected(incident, normal), row),
        arrow(r, reflected(incident, normal), row) == mirrored(
            arrow(r, incident, row),
            arrow(r, normal, row),
        ),
{
    let factor = number(TWO).times(incident.dot(normal));
    lemma_real_dot(r, incident, normal, row);
    lemma_real_number(r, TWO, row);
    lemma_real_binary(r, number(TWO), Operator::Times, incident.dot(normal), row);
    lemma_by_one_or_two(real_of(r, incident.dot(normal), row));
    lemma_real_scaled(r, normal, factor, row);
    lemma_real_minus(r, incident, normal.scaled(factor), row);
}

/// The angle of reflection is that of incidence, and the reflected ray is as long as
/// the ray that arrives.
#[verifier::spinoff_prover]
pub proof fn law_angle_of_reflection(r: Reals, incident: Triple, normal: Triple, row: IdealRow)
    requires
        r.is_right(),
        are_given(r, incident, row),
        are_given(r, normal, row),
        is_unit(arrow(r, normal, row)),
    ensures
        ({
            let (i, n) = (arrow(r, incident, row), arrow(r, normal, row));
            let turned = arrow(r, reflected(incident, normal), row);
            &&& turned.dot(n) == -i.dot(n)
            &&& turned.along(n) == i.along(n)
            &&& turned.dot(turned) == i.dot(i)
        }),
{
    law_reflection_mirrors(r, incident, normal, row);
    law_mirror(arrow(r, incident, row), arrow(r, normal, row));
}

/// A ray that is reflected twice at the same surface has its first direction again:
/// in a row whose ray is the reflected ray of another row, with the same normal, the
/// reflected ray is the ray of that other row.
#[verifier::spinoff_prover]
pub proof fn law_reflecting_twice_gives_the_ray_back(r: Reals, first: IdealRow, second: IdealRow)
    requires
        r.is_right(),
        are_given(r, camera_direction(), first),
        are_given(r, surface_normal(), first),
        is_unit(arrow(r, surface_normal(), first)),
        are_given(r, camera_direction(), second),
        are_given(r, surface_normal(), second),
        arrow(r, surface_normal(), second) == arrow(r, surface_normal(), first),
        r.value(column("ray_dx"@), second) == r.value(reflection_steps()[3].1, first),
        r.value(column("ray_dy"@), second) == r.value(reflection_steps()[4].1, first),
        r.value(column("ray_dz"@), second) == r.value(reflection_steps()[5].1, first),
    ensures
        r.value(reflection_steps()[3].1, second) == r.value(column("ray_dx"@), first),
        r.value(reflection_steps()[4].1, second) == r.value(column("ray_dy"@), first),
        r.value(reflection_steps()[5].1, second) == r.value(column("ray_dz"@), first),
{
    let (incident, normal) = (camera_direction(), surface_normal());
    let turned = reflected(incident, normal);
    assert(reflection_steps()[3].1 == turned.x);
    assert(reflection_steps()[4].1 == turned.y);
    assert(reflection_steps()[5].1 == turned.z);
    law_reflection_mirrors(r, incident, normal, first);
    law_reflection_mirrors(r, incident, normal, second);
    law_mirror(arrow(r, incident, first), arrow(r, normal, first));
}

// ---------------------------------------------------------------------------
// Refraction
// ---------------------------------------------------------------------------

/// The square of the sine of the refracted angle, from the ratio of the refractive
/// indices and the cosine of the angle of incidence.
pub open spec fn sine_squared(eta: real, cos: real) -> real {
    product(product(eta, eta), 1 as real - product(cos, cos))
}

/// The cosine of the angle of incidence is the magnitude of the product of the ray and
/// the normal.
#[verifier::spinoff_prover]
pub(crate) proof fn lemma_incidence(r: Reals, incident: Triple, normal: Triple, row: IdealRow)
    requires
        r.is_right(),
        are_given(r, incident, row),
        are_given(r, normal, row),
    ensures
        r.value(incidence(incident, normal), row) == Ideal::Number(
            magnitude(arrow(r, incident, row).dot(arrow(r, normal, row))),
        ),
{
    let zero = number(ZERO);
    let cos = zero.minus(incident.dot(normal));
    lemma_real_number(r, ZERO, row);
    lemma_real_dot(r, incident, normal, row);
    lemma_real_binary(r, zero, Operator::Minus, incident.dot(normal), row);
    lemma_real_binary(r, zero, Operator::Minus, cos, row);
    lemma_real_binary(r, cos, Operator::Less, zero, row);
    lemma_real_case(r, cos.lt(zero), zero.minus(cos), cos, row);
}

/// The cosine of the refracted angle.
#[verifier::spinoff_prover]
proof fn lemma_refracted_cosine(r: Reals, eta: u64, cos: Node, row: IdealRow)
    requires
        r.is_right(),
        is_given(r, cos, row),
        sine_squared((r.number)(eta), real_of(r, cos, row)) <= 1 as real,
    ensures
        is_given(r, refracted_cosine(eta, cos), row),
        ({
            let t = real_of(r, refracted_cosine(eta, cos), row);
            &&& t >= 0 as real
            &&& product(t, t) == 1 as real - sine_squared((r.number)(eta), real_of(r, cos, row))
        }),
{
    let (zero, one, e) = (number(ZERO), number(ONE), number(eta));
    let sine = refracted_sine_squared(eta, cos);
    let squared = one.minus(sine);
    let rest = one.minus(cos.times(cos));
    let clamped = squared.lt(zero).case(zero, squared);
    lemma_real_number(r, ZERO, row);
    lemma_real_number(r, ONE, row);
    lemma_real_number(r, eta, row);
    lemma_real_binary(r, cos, Operator::Times, cos, row);
    lemma_real_binary(r, one, Operator::Minus, cos.times(cos), row);
    lemma_real_binary(r, e, Operator::Times, e, row);
    lemma_real_binary(r, e.times(e), Operator::Times, rest, row);
    lemma_real_binary(r, one, Operator::Minus, sine, row);
    lemma_real_binary(r, squared, Operator::Less, zero, row);
    lemma_real_case(r, squared.lt(zero), zero, squared, row);
    let k = real_of(r, clamped, row);
    assert(k >= 0 as real);
    assert(r.value(clamped.sqrt(), row) == Ideal::Number((r.sqrt)(k)));
    assert((r.sqrt)(k) >= 0 as real);
}

/// The direction that Snell's law gives, from those of the ray and the normal, the
/// ratio of the refractive indices and the two cosines.
spec fn bent(i: Arrow, n: Arrow, eta: real, cos_i: real, cos_t: real) -> Arrow {
    i.scaled(eta).plus(n.scaled(product(eta, cos_i) - cos_t))
}

#[verifier::spinoff_prover]
proof fn lemma_bent_across(i: Arrow, n: Arrow, eta: real, c: real, t: real)
    requires
        n.dot(n) == 1 as real,
        i.dot(n) == -c,
    ensures
        bent(i, n, eta, c, t).dot(n) == -t,
{
    let f = product(eta, c) - t;
    lemma_dot_combination(eta, i, f, n, n);
    lemma_by_one_or_two(f);
    lemma_product_commutes(eta, -c);
    lemma_negative(c, eta);
    lemma_product_commutes(eta, c);
}

#[verifier::spinoff_prover]
proof fn lemma_bent_length(i: Arrow, n: Arrow, eta: real, c: real, t: real)
    requires
        i.dot(i) == 1 as real,
        n.dot(n) == 1 as real,
        i.dot(n) == -c,
        product(t, t) == 1 as real - sine_squared(eta, c),
    ensures
        bent(i, n, eta, c, t).dot(bent(i, n, eta, c, t)) == 1 as real,
{
    let f = product(eta, c) - t;
    let v = bent(i, n, eta, c, t);
    lemma_bent_across(i, n, eta, c, t);
    lemma_dot_combination(eta, i, f, n, v);
    lemma_dot_commutes(i, v);
    lemma_dot_commutes(n, v);
    lemma_dot_combination(eta, i, f, n, i);
    lemma_dot_commutes(n, i);
    lemma_by_one_or_two(eta);
    lemma_lengths(eta, c, t);
}

#[verifier::spinoff_prover]
proof fn lemma_lengths(e: real, c: real, t: real)
    ensures
        product(e, e + product(product(e, c) - t, -c)) + product(product(e, c) - t, -t)
            == sine_squared(e, c) + product(t, t),
{
    reveal(product);
    assert(e * (e + (e * c - t) * (-c)) + (e * c - t) * (-t) == (e * e) * (1 as real - c * c) + t
        * t) by (nonlinear_arith);
}

#[verifier::spinoff_prover]
proof fn lemma_bent_along(i: Arrow, n: Arrow, eta: real, c: real, t: real)
    requires
        n.dot(n) == 1 as real,
        i.dot(n) == -c,
    ensures
        bent(i, n, eta, c, t).along(n) == i.along(n).scaled(eta),
{
    lemma_bent_across(i, n, eta, c, t);
    lemma_along(i.x, n.x, eta, c, t);
    lemma_along(i.y, n.y, eta, c, t);
    lemma_along(i.z, n.z, eta, c, t);
}

#[verifier::spinoff_prover]
proof fn lemma_along(x: real, n: real, e: real, c: real, t: real)
    ensures
        product(e, x) + product(product(e, c) - t, n) - product(-t, n) == product(
            e,
            x - product(-c, n),
        ),
{
    reveal(product);
    assert(e * x + (e * c - t) * n - (-t) * n == e * (x - (-c) * n)) by (nonlinear_arith);
}

/// Snell's law: where the light can pass, a ray refracted at a surface goes on to the
/// other side, with a direction of length one. Its part along the surface is that of
/// the ray that arrives times the ratio of the refractive indices.
#[verifier::spinoff_prover]
pub proof fn law_snell(r: Reals, eta: u64, incident: Triple, normal: Triple, row: IdealRow)
    requires
        r.is_right(),
        are_given(r, incident, row),
        are_given(r, normal, row),
        is_unit(arrow(r, incident, row)),
        is_unit(arrow(r, normal, row)),
        arrow(r, incident, row).dot(arrow(r, normal, row)) <= 0 as real,
        sine_squared((r.number)(eta), -arrow(r, incident, row).dot(arrow(r, normal, row)))
            <= 1 as real,
    ensures
        ({
            let (i, n) = (arrow(r, incident, row), arrow(r, normal, row));
            let on = arrow(r, refracted(eta, incident, normal), row);
            &&& are_given(r, refracted(eta, incident, normal), row)
            &&& is_unit(on)
            &&& on.dot(n) <= 0 as real
            &&& product(on.dot(n), on.dot(n)) == 1 as real - sine_squared(
                (r.number)(eta),
                -i.dot(n),
            )
            &&& on.along(n) == i.along(n).scaled((r.number)(eta))
        }),
{
    let (i, n) = (arrow(r, incident, row), arrow(r, normal, row));
    let cos_i = incidence(incident, normal);
    let cos_t = refracted_cosine(eta, cos_i);
    let factor = number(eta).times(cos_i).minus(cos_t);
    let first = incident.scaled(number(eta));
    let second = normal.scaled(factor);
    let sum = first.plus(second);
    lemma_incidence(r, incident, normal, row);
    assert(real_of(r, cos_i, row) == -i.dot(n));
    lemma_refracted_cosine(r, eta, cos_i, row);
    lemma_real_number(r, eta, row);
    lemma_real_binary(r, number(eta), Operator::Times, cos_i, row);
    lemma_real_binary(r, number(eta).times(cos_i), Operator::Minus, cos_t, row);
    lemma_real_scaled(r, incident, number(eta), row);
    lemma_real_scaled(r, normal, factor, row);
    lemma_real_plus(r, first, second, row);
    let (e, c, t) = ((r.number)(eta), real_of(r, cos_i, row), real_of(r, cos_t, row));
    assert(arrow(r, sum, row) == bent(i, n, e, c, t));
    lemma_bent_across(i, n, e, c, t);
    lemma_bent_length(i, n, e, c, t);
    lemma_bent_along(i, n, e, c, t);
    lemma_real_normalized(r, sum, row);
    lemma_product_commutes(t, -t);
    lemma_negative(t, -t);
    lemma_negative(t, t);
}

// ---------------------------------------------------------------------------
// The reflected share
// ---------------------------------------------------------------------------

/// The product of two directions is at most one.
#[verifier::spinoff_prover]
pub proof fn law_cosine_at_most_one(u: Arrow, v: Arrow)
    requires
        is_unit(u),
        is_unit(v),
    ensures
        magnitude(u.dot(v)) <= 1 as real,
{
    let d = u.dot(v);
    let w = u.along(v);
    lemma_dot_difference(u, d, v, v);
    lemma_by_one_or_two(d);
    lemma_dot_difference(u, d, v, w);
    lemma_dot_commutes(u, w);
    lemma_dot_commutes(v, w);
    lemma_dot_difference(u, d, v, u);
    lemma_dot_commutes(v, u);
    lemma_by_zero(d);
    assert(w.dot(w) == 1 as real - product(d, d));
    lemma_square(w.x);
    lemma_square(w.y);
    lemma_square(w.z);
    lemma_square_at_most_one(d);
}

#[verifier::spinoff_prover]
pub(crate) proof fn lemma_by_zero(x: real)
    ensures
        product(x, 0 as real) == 0 as real,
{
    reveal(product);
}

#[verifier::spinoff_prover]
pub(crate) proof fn lemma_square(x: real)
    ensures
        product(x, x) >= 0 as real,
{
    reveal(product);
    assert(x * x >= 0 as real) by (nonlinear_arith);
}

#[verifier::spinoff_prover]
proof fn lemma_square_at_most_one(x: real)
    requires
        product(x, x) <= 1 as real,
    ensures
        magnitude(x) <= 1 as real,
{
    reveal(product);
    assert(x <= 1 as real && -x <= 1 as real) by (nonlinear_arith)
        requires
            x * x <= 1 as real,
    ;
}

#[verifier::spinoff_prover]
pub(crate) proof fn lemma_product_grows(a: real, b: real, c: real, d: real)
    requires
        0 as real <= a <= b,
        0 as real <= c <= d,
    ensures
        0 as real <= product(a, c) <= product(b, d),
{
    reveal(product);
    assert(0 as real <= a * c && a * c <= b * d) by (nonlinear_arith)
        requires
            0 as real <= a,
            a <= b,
            0 as real <= c,
            c <= d,
    ;
}

#[verifier::spinoff_prover]
proof fn lemma_fifth_grows(a: real, b: real)
    requires
        0 as real <= a <= b,
    ensures
        0 as real <= fifth(a) <= fifth(b),
{
    let (a2, b2) = (product(a, a), product(b, b));
    lemma_product_grows(a, b, a, b);
    lemma_product_grows(a2, b2, a, b);
    lemma_product_grows(product(a2, a), product(b2, b), a, b);
    lemma_product_grows(product(product(a2, a), a), product(product(b2, b), b), a, b);
}

#[verifier::spinoff_prover]
proof fn lemma_fifth_of_one_or_zero()
    ensures
        fifth(1 as real) == 1 as real,
        fifth(0 as real) == 0 as real,
{
    lemma_by_one_or_two(1 as real);
    lemma_by_zero(0 as real);
}

/// Schlick's approximation of the reflected share, from the share of a ray that
/// arrives straight and the cosine of the angle of incidence.
pub open spec fn schlick(straight: real, cos: real) -> real {
    straight + product(1 as real - straight, fifth(1 as real - cos))
}

/// The share grows as the cosine falls, from that of a ray that arrives straight to
/// one.
#[verifier::spinoff_prover]
pub proof fn law_schlick(straight: real, steep: real, flat: real)
    requires
        0 as real <= straight <= 1 as real,
        0 as real <= flat <= steep <= 1 as real,
    ensures
        straight <= schlick(straight, steep) <= schlick(straight, flat) <= 1 as real,
        schlick(straight, 0 as real) == 1 as real,
        schlick(straight, 1 as real) == straight,
{
    let rest = 1 as real - straight;
    let (a, b) = (1 as real - steep, 1 as real - flat);
    lemma_fifth_grows(a, b);
    lemma_fifth_grows(b, 1 as real);
    lemma_fifth_of_one_or_zero();
    lemma_product_grows(rest, rest, fifth(a), fifth(b));
    lemma_product_grows(rest, rest, fifth(b), 1 as real);
    lemma_by_one_or_two(rest);
    lemma_by_zero(rest);
}

/// The share of the light that glass reflects is that of Schlick's approximation.
#[verifier::spinoff_prover]
proof fn lemma_reflectance(r: Reals, cos: Node, row: IdealRow)
    requires
        r.is_right(),
        0 as real <= (r.number)(STRAIGHT_REFLECTANCE) <= 1 as real,
        is_given(r, cos, row),
        0 as real <= real_of(r, cos, row) <= 1 as real,
    ensures
        r.value(reflectance(cos), row) == Ideal::Number(
            schlick((r.number)(STRAIGHT_REFLECTANCE), real_of(r, cos, row)),
        ),
{
    let (zero, one, five) = (number(ZERO), number(ONE), number(FIVE));
    let base = number(STRAIGHT_REFLECTANCE);
    let turned = one.minus(cos);
    let bend = turned.power(five);
    let more = one.minus(base).times(bend);
    let sum = base.plus(more);
    let c = real_of(r, cos, row);
    let straight = (r.number)(STRAIGHT_REFLECTANCE);
    lemma_real_number(r, ZERO, row);
    lemma_real_number(r, ONE, row);
    lemma_real_number(r, FIVE, row);
    lemma_real_number(r, STRAIGHT_REFLECTANCE, row);
    lemma_real_binary(r, one, Operator::Minus, cos, row);
    assert(r.value(bend, row) == Ideal::Number((r.power)(1 as real - c, 5 as real)));
    lemma_real_binary(r, one, Operator::Minus, base, row);
    lemma_real_binary(r, one.minus(base), Operator::Times, bend, row);
    lemma_real_binary(r, base, Operator::Plus, more, row);
    assert(real_of(r, sum, row) == schlick(straight, c));
    law_schlick(straight, c, c);
    lemma_real_binary(r, sum, Operator::Greater, one, row);
    lemma_real_binary(r, sum, Operator::Less, zero, row);
    let upper = sum.gt(one).case(one, sum);
    lemma_real_case(r, sum.gt(one), one, sum, row);
    lemma_real_case(r, sum.lt(zero), zero, upper, row);
}

/// Where a ray of length one arrives at glass, the reflected share is that of
/// Schlick's approximation, from 0 to 1.
#[verifier::spinoff_prover]
pub proof fn law_share(r: Reals, row: IdealRow)
    requires
        r.is_right(),
        0 as real <= (r.number)(STRAIGHT_REFLECTANCE) <= 1 as real,
        are_given(r, camera_direction(), row),
        are_given(r, surface_normal(), row),
        is_unit(arrow(r, camera_direction(), row)),
        is_unit(arrow(r, surface_normal(), row)),
    ensures
        ({
            let cos = magnitude(
                arrow(r, camera_direction(), row).dot(arrow(r, surface_normal(), row)),
            );
            let share = schlick((r.number)(STRAIGHT_REFLECTANCE), cos);
            &&& 0 as real <= cos <= 1 as real
            &&& entry_steps()[6].0 == "fresnel"@
            &&& r.value(entry_steps()[6].1, row) == Ideal::Number(share)
            &&& 0 as real <= share <= 1 as real
        }),
{
    let (ray, normal) = (camera_direction(), surface_normal());
    let cos = magnitude(arrow(r, ray, row).dot(arrow(r, normal, row)));
    lemma_incidence(r, ray, normal, row);
    law_cosine_at_most_one(arrow(r, ray, row), arrow(r, normal, row));
    lemma_reflectance(r, incidence(ray, normal), row);
    law_schlick((r.number)(STRAIGHT_REFLECTANCE), cos, cos);
    assert(entry_steps()[6] == ("fresnel"@, reflectance(incidence(ray, normal))));
}

/// The steeper a ray of length one arrives, the less of its light glass reflects; of
/// one along the surface it reflects all.
#[verifier::spinoff_prover]
pub proof fn law_share_falls(r: Reals, flat: IdealRow, steep: IdealRow)
    requires
        r.is_right(),
        0 as real <= (r.number)(STRAIGHT_REFLECTANCE) <= 1 as real,
        are_given(r, camera_direction(), flat),
        are_given(r, surface_normal(), flat),
        is_unit(arrow(r, camera_direction(), flat)),
        is_unit(arrow(r, surface_normal(), flat)),
        are_given(r, camera_direction(), steep),
        are_given(r, surface_normal(), steep),
        is_unit(arrow(r, camera_direction(), steep)),
        is_unit(arrow(r, surface_normal(), steep)),
        magnitude(arrow(r, camera_direction(), flat).dot(arrow(r, surface_normal(), flat)))
            <= magnitude(
            arrow(r, camera_direction(), steep).dot(arrow(r, surface_normal(), steep)),
        ),
    ensures
        real_of(r, entry_steps()[6].1, steep) <= real_of(r, entry_steps()[6].1, flat),
        arrow(r, camera_direction(), flat).dot(arrow(r, surface_normal(), flat)) == 0 as real
            ==> real_of(r, entry_steps()[6].1, flat) == 1 as real,
{
    let (ray, normal) = (camera_direction(), surface_normal());
    law_share(r, flat);
    law_share(r, steep);
    law_schlick(
        (r.number)(STRAIGHT_REFLECTANCE),
        magnitude(arrow(r, ray, steep).dot(arrow(r, normal, steep))),
        magnitude(arrow(r, ray, flat).dot(arrow(r, normal, flat))),
    );
}

/// Glass mixes what it reflects and what is behind it by the reflected share: where
/// the share is one the colour is that of the reflection, and where it is zero that of
/// what is behind.
#[verifier::spinoff_prover]
pub proof fn law_glass_mixture(
    r: Reals,
    reflection: Triple,
    behind: Triple,
    share: Node,
    row: IdealRow,
)
    requires
        r.is_right(),
        are_given(r, reflection, row),
        are_given(r, behind, row),
        is_given(r, share, row),
    ensures
        ({
            let mixed = glass_color(reflection, behind, share);
            let k = real_of(r, share, row);
            let (a, b) = (arrow(r, reflection, row), arrow(r, behind, row));
            &&& are_given(r, mixed, row)
            &&& arrow(r, mixed, row) == a.scaled(k).plus(b.scaled(1 as real - k))
            &&& k == 1 as real ==> arrow(r, mixed, row) == a
            &&& k == 0 as real ==> arrow(r, mixed, row) == b
        }),
{
    let rest = number(ONE).minus(share);
    let (a, b) = (arrow(r, reflection, row), arrow(r, behind, row));
    lemma_real_number(r, ONE, row);
    lemma_real_binary(r, number(ONE), Operator::Minus, share, row);
    lemma_real_times(r, reflection, share, row);
    lemma_real_times(r, behind, rest, row);
    lemma_real_plus(r, reflection.times(share), behind.times(rest), row);
    lemma_unscaled(a);
    lemma_unscaled(b);
}

/// Where the camera sees glass, the colour is the reflection alone if the reflected
/// share is one, and what is behind the glass alone if it is zero.
#[verifier::spinoff_prover]
pub proof fn law_glass_at_its_limits(r: Reals, spheres: Seq<Sphere>, row: IdealRow)
    requires
        r.is_right(),
        r.value(column("primary_t_nearest"@), row) !is Missing,
        r.value(column("hit_ior"@), row) matches Ideal::Number(ior) && ior > 0 as real,
        is_given(r, column("fresnel"@), row),
        are_given(r, seen_in_mirror(spheres), row),
        are_given(r, seen_behind(spheres), row),
    ensures
        ({
            let share = real_of(r, column("fresnel"@), row);
            let seen = arrow(r, seen_color(spheres), row);
            &&& are_given(r, seen_color(spheres), row)
            &&& share == 1 as real ==> seen == arrow(r, seen_in_mirror(spheres), row)
            &&& share == 0 as real ==> seen == arrow(r, seen_behind(spheres), row)
        }),
{
    let (reflection, behind) = (seen_in_mirror(spheres), seen_behind(spheres));
    let share = column("fresnel"@);
    let mixed = glass_color(reflection, behind, share);
    let hit = column("primary_hit_idx"@);
    let surface = color_of_hit(spheres, hit, column("primary_brightness"@), true);
    let reflectivity = chosen(hit, reflectivities(spheres), number(ZERO));
    let other = opaque_color(surface, reflection, reflectivity);
    let is_there = column("primary_t_nearest"@).is_not_null();
    let is_glass = column("hit_ior"@).gt(number(ZERO));
    law_glass_mixture(r, reflection, behind, share, row);
    lemma_real_number(r, ZERO, row);
    lemma_real_binary(r, column("hit_ior"@), Operator::Greater, number(ZERO), row);
    assert(r.value(is_there, row) == Ideal::Truth(true));
    lemma_real_case(r, is_glass, mixed.x, other.x, row);
    lemma_real_case(r, is_glass, mixed.y, other.y, row);
    lemma_real_case(r, is_glass, mixed.z, other.z, row);
    let sphere = Triple::if_else(is_glass, mixed, other);
    lemma_real_case(r, is_there, sphere.x, sky_color().x, row);
    lemma_real_case(r, is_there, sphere.y, sky_color().y, row);
    lemma_real_case(r, is_there, sphere.z, sky_color().z, row);
    assert(seen_color(spheres) == Triple::if_else(is_there, sphere, sky_color()));
}

/// The colour of what the reflected ray meets.
pub open spec fn seen_in_mirror(spheres: Seq<Sphere>) -> Triple {
    color_of_hit(spheres, column("reflect_hit_idx"@), column("reflect_brightness"@), false)
}

/// The colour of what the ray behind the glass meets.
pub open spec fn seen_behind(spheres: Seq<Sphere>) -> Triple {
    color_of_hit(spheres, column("refract_hit_idx"@), column("refract_brightness"@), false)
}

#[verifier::spinoff_prover]
pub(crate) proof fn lemma_unscaled(v: Arrow)
    ensures
        v.scaled(1 as real) == v,
        v.scaled(0 as real) == (Arrow { x: 0 as real, y: 0 as real, z: 0 as real }),
{
    lemma_by_one_or_two(v.x);
    lemma_by_one_or_two(v.y);
    lemma_by_one_or_two(v.z);
    lemma_by_zero(v.x);
    lemma_by_zero(v.y);
    lemma_by_zero(v.z);
    lemma_product_commutes(1 as real, v.x);
    lemma_product_commutes(1 as real, v.y);
    lemma_product_commutes(1 as real, v.z);
    lemma_product_commutes(0 as real, v.x);
    lemma_product_commutes(0 as real, v.y);
    lemma_product_commutes(0 as real, v.z);
}

// ---------------------------------------------------------------------------
// The way to the light
// ---------------------------------------------------------------------------

/// A ray from any point whose direction is the whole way to the light, as the shadow
/// rays of `shadows` are, reaches the light at 1.
#[verifier::spinoff_prover]
pub proof fn law_light_is_at_one(r: Reals, origin: Triple, light: Triple, row: IdealRow)
    requires
        r.is_right(),
        are_given(r, origin, row),
        are_given(r, light, row),
    ensures
        arrow(r, point_at(origin, light.minus(origin), number(ONE)), row) == arrow(r, light, row),
{
    let way = light.minus(origin);
    lemma_real_number(r, ONE, row);
    lemma_real_minus(r, light, origin, row);
    lemma_real_scaled(r, way, number(ONE), row);
    lemma_real_plus(r, origin, way.scaled(number(ONE)), row);
    lemma_unscaled(arrow(r, way, row));
}

} // verus!

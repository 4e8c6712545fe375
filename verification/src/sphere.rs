//! One sphere, coloured by its normals, in a single query.
//!
//! A ray `origin + t * direction` meets the sphere `|p - center| = radius` where
//! `a t^2 + b t + c = 0` with
//! - `a = dot(direction, direction)`
//! - `b = 2 * dot(direction, origin - center)`
//! - `c = dot(origin - center, origin - center) - radius^2`
//!
//! that is, where `b^2 - 4 a c` is not negative.
use crate::formula::Operator;
use crate::number::{CHANNEL_MAX, HALF, Number, ONE, TWO, ZERO, whole_bits};
use crate::plan::{Plan, Rendering, Steps};
use crate::sql::{Sql, Term, literal, named};
use crate::template::{Value, fill, filled, pairs};
use crate::text::{decimal, push_decimal};
use vstd::prelude::*;

verus! {

pub const WIDTH: u32 = 800;

pub const HEIGHT: u32 = 600;

// Camera settings
/// The height of the viewport times the width of the image over its height.
pub const VIEWPORT_WIDTH: &'static str = "2.6666666666666665";

pub const VIEWPORT_HEIGHT: &'static str = "2";

pub const FOCAL_LENGTH: &'static str = "1";

// Sphere settings
pub const SPHERE_CENTER_X: &'static str = "0";

pub const SPHERE_CENTER_Y: &'static str = "0";

pub const SPHERE_CENTER_Z: &'static str = "-1";

pub const SPHERE_RADIUS: &'static str = "0.5";

/// The query, with a hole for each expression that it computes, under the name that
/// the result has, and for the size of the image.
pub const TEMPLATE: &'static str = "
        WITH
        -- Generate pixel grid
        pixels AS (
            SELECT
                x,
                y,
                -- Convert pixel coords to viewport coords [-1, 1]
                -- Note: y is flipped (0 at top in image, but +y is up in world)
                {vp_x} AS vp_x,
                {vp_y} AS vp_y
            FROM
                generate_series(0, {width} - 1) AS t1(x),
                generate_series(0, {height} - 1) AS t2(y)
        ),

        -- Create rays from camera origin through viewport
        rays AS (
            SELECT
                x, y,
                -- Camera at origin
                {origin_x} AS origin_x,
                {origin_y} AS origin_y,
                {origin_z} AS origin_z,
                -- Ray direction (not normalized, pointing at viewport pixel)
                {dir_x} AS dir_x,
                {dir_y} AS dir_y,
                {dir_z} AS dir_z
            FROM pixels
        ),

        -- Compute ray-sphere intersection using quadratic formula
        intersections AS (
            SELECT
                x, y,
                origin_x, origin_y, origin_z,
                dir_x, dir_y, dir_z,
                -- Vector from ray origin to sphere center (oc = origin - center)
                {oc_x} AS oc_x,
                {oc_y} AS oc_y,
                {oc_z} AS oc_z,
                -- Quadratic coefficients
                -- a = dot(dir, dir)
                {a} AS a,
                -- b = 2 * dot(dir, oc) - we'll compute half_b = dot(dir, oc) for numerical stability
                {half_b} AS half_b,
                -- c = dot(oc, oc) - radius^2
                {c} AS c
            FROM rays
        ),

        -- Determine hit/miss and compute hit point
        hits AS (
            SELECT
                x, y,
                origin_x, origin_y, origin_z,
                dir_x, dir_y, dir_z,
                a, half_b, c,
                -- discriminant = half_b^2 - a*c (using half_b form)
                {discriminant} AS discriminant,
                -- t = (-half_b - sqrt(discriminant)) / a (nearest intersection)
                {t} AS t
            FROM intersections
        ),

        -- Calculate surface normal at hit point
        normals AS (
            SELECT
                x, y, t, discriminant,
                -- Hit point P = origin + t * dir
                {hit_x} AS hit_x,
                {hit_y} AS hit_y,
                {hit_z} AS hit_z,
                -- Normal N = (P - center) / radius
                {normal_x} AS normal_x,
                {normal_y} AS normal_y,
                {normal_z} AS normal_z
            FROM hits
        ),

        -- Final color computation
        colors AS (
            SELECT
                x, y,
                {r} AS r,
                {g} AS g,
                {b} AS b
            FROM normals
        )

        SELECT
            CAST(x AS INT UNSIGNED) AS x,
            CAST(y AS INT UNSIGNED) AS y,
            r, g, b
        FROM colors
        ";

// ---------------------------------------------------------------------------
// What the query computes
// ---------------------------------------------------------------------------

/// An expression of the query and the name of its result.
#[derive(Debug, PartialEq, Eq)]
pub struct Selection {
    pub name: String,
    pub expr: Sql,
}

impl View for Selection {
    type V = (Seq<char>, Term);

    open spec fn view(&self) -> (Seq<char>, Term) {
        (self.name@, self.expr@)
    }
}

/// Expressions with the names of their results.
pub type Selected = Seq<(Seq<char>, Term)>;

/// The pattern of -1.
pub const MINUS_ONE: u64 = 0xbff0_0000_0000_0000;

// The sky: 128 and 178 halfway down, up to 127 and 77 more or less
pub const SKY_R: u64 = 0x4060_0000_0000_0000;

pub const SKY_G: u64 = 0x4066_4000_0000_0000;

pub const SKY_SPAN_R: u64 = 0x405f_c000_0000_0000;

pub const SKY_SPAN_G: u64 = 0x4053_4000_0000_0000;

/// The pattern of 2.6666666666666665.
pub const VIEWPORT_WIDTH_BITS: u64 = 0x4005_5555_5555_5555;

/// A column of the query.
pub open spec fn name(name: Seq<char>) -> Term {
    Term::Name(name)
}

/// A column as a double.
pub open spec fn double(name: Seq<char>) -> Term {
    Term::Double(Box::new(Term::Name(name)))
}

/// The whole number, as it is written.
pub open spec fn whole(n: nat) -> Term {
    Term::Literal(decimal(n), whole_bits(n))
}

pub open spec fn half() -> Term {
    Term::Literal("0.5"@, HALF)
}

pub open spec fn zero() -> Term {
    Term::Literal("0"@, ZERO)
}

pub open spec fn center_x() -> Term {
    Term::Literal(SPHERE_CENTER_X@, ZERO)
}

pub open spec fn center_y() -> Term {
    Term::Literal(SPHERE_CENTER_Y@, ZERO)
}

pub open spec fn center_z() -> Term {
    Term::Literal(SPHERE_CENTER_Z@, MINUS_ONE)
}

pub open spec fn radius() -> Term {
    Term::Literal(SPHERE_RADIUS@, HALF)
}

/// The place of a pixel on the viewport.
pub open spec fn pixels(width: nat, height: nat) -> Selected {
    seq![
        (
            "vp_x"@,
            double("x"@).over(whole(width)).minus(half()).times(
                Term::Literal(VIEWPORT_WIDTH@, VIEWPORT_WIDTH_BITS),
            ),
        ),
        (
            "vp_y"@,
            half().minus(double("y"@).over(whole(height))).times(
                Term::Literal(VIEWPORT_HEIGHT@, TWO),
            ),
        ),
    ]
}

/// The rays from the camera through the viewport.
pub open spec fn rays() -> Selected {
    let origin = Term::Literal("0.0"@, ZERO);
    seq![
        ("origin_x"@, origin),
        ("origin_y"@, origin),
        ("origin_z"@, origin),
        ("dir_x"@, name("vp_x"@)),
        ("dir_y"@, name("vp_y"@)),
        ("dir_z"@, Term::Negative(Box::new(Term::Literal(FOCAL_LENGTH@, ONE)))),
    ]
}

/// The way from the centre of the sphere to the camera.
pub open spec fn offset_x() -> Term {
    name("origin_x"@).minus(center_x())
}

pub open spec fn offset_y() -> Term {
    name("origin_y"@).minus(center_y())
}

pub open spec fn offset_z() -> Term {
    name("origin_z"@).minus(center_z())
}

/// What stands between two squares that are summed up.
pub const BELOW: &'static str = "
                ";

/// The equation of the ray and the sphere.
pub open spec fn intersections() -> Selected {
    let (x, y, z) = (name("dir_x"@), name("dir_y"@), name("dir_z"@));
    let (u, v, w) = (offset_x(), offset_y(), offset_z());
    let two = Term::Binary(
        Operator::Plus,
        Box::new(u.times(u)),
        BELOW@,
        Box::new(v.times(v)),
    );
    let squares = Term::Binary(Operator::Plus, Box::new(two), BELOW@, Box::new(w.times(w)));
    seq![
        ("oc_x"@, u),
        ("oc_y"@, v),
        ("oc_z"@, w),
        ("a"@, x.times(x).plus(y.times(y)).plus(z.times(z))),
        ("half_b"@, x.times(u).plus(y.times(v)).plus(z.times(w))),
        ("c"@, squares.minus(radius().times(radius()))),
    ]
}

/// Which solutions the equation has.
pub open spec fn discriminant() -> Term {
    name("half_b"@).times(name("half_b"@)).minus(name("a"@).times(name("c"@)))
}

/// What stands between the condition and its consequence.
pub const ON_A_LINE: &'static str = "
                    ";

/// The parameter at which the ray meets the sphere, missing where it passes by.
pub open spec fn hits() -> Selected {
    let solution = Term::Negative(Box::new(name("half_b"@))).minus(
        Term::Sqrt(Box::new(discriminant())),
    ).over(name("a"@));
    seq![
        ("discriminant"@, discriminant()),
        (
            "t"@,
            Term::Case(
                Box::new(discriminant().binary(Operator::GreaterEq, zero())),
                ON_A_LINE@,
                " "@,
                Box::new(solution),
                " "@,
                Box::new(Term::Null),
            ),
        ),
    ]
}

/// A coordinate of the point that is hit.
pub open spec fn point(origin: Seq<char>, direction: Seq<char>) -> Term {
    name(origin).plus(name("t"@).times(name(direction)))
}

/// The point that is hit, and the normal there.
pub open spec fn normals() -> Selected {
    let x = point("origin_x"@, "dir_x"@);
    let y = point("origin_y"@, "dir_y"@);
    let z = point("origin_z"@, "dir_z"@);
    seq![
        ("hit_x"@, x),
        ("hit_y"@, y),
        ("hit_z"@, z),
        ("normal_x"@, x.minus(center_x()).over(radius())),
        ("normal_y"@, y.minus(center_y()).over(radius())),
        ("normal_z"@, z.minus(center_z()).over(radius())),
    ]
}

/// Whether the sphere is hit in front of the camera.
pub open spec fn is_hit() -> Term {
    Term::IsNotNull(Box::new(name("t"@))).binary(
        Operator::And,
        name("t"@).binary(Operator::Greater, zero()),
    )
}

/// A component of the normal, from -1 to 1, spread over 0 to 255.
pub open spec fn shade(component: Seq<char>) -> Term {
    name(component).plus(Term::Literal("1.0"@, ONE)).times(half()).times(
        Term::Literal("255"@, CHANNEL_MAX),
    )
}

/// A channel of the sky: lighter above the middle of the image, darker below.
pub open spec fn sky(middle: Term, span: Term, height: nat) -> Term {
    middle.plus(span.times(half().minus(double("y"@).over(whole(height)))))
}

/// A channel: that of the normal where the sphere is hit, else that of the sky.
pub open spec fn channel(
    component: Seq<char>,
    before: Seq<char>,
    behind: Seq<char>,
    otherwise: Term,
) -> Term {
    Term::Case(
        Box::new(is_hit()),
        " "@,
        before,
        Box::new(Term::Unsigned(Box::new(shade(component)))),
        behind,
        Box::new(Term::Unsigned(Box::new(otherwise))),
    )
}

/// What stands before a channel of the surface or the sky.
pub const INDENTED: &'static str = "
                        ";

pub const ABOUT_SHADES: &'static str = "
                        -- Map normal to color: normal is in [-1,1], map to [0,1] then [0,255]
                        -- This creates a nice visualization of the surface orientation
                        ";

pub const ABOUT_SKY: &'static str = "
                        -- Background: sky blue gradient
                        ";

pub const ABOUT_BLUE: &'static str = "
                        -- Blue stays constant for sky
                        ";

/// The colour of a pixel.
pub open spec fn colors(height: nat) -> Selected {
    let red = sky(Term::Literal("128"@, SKY_R), Term::Literal("127"@, SKY_SPAN_R), height);
    let green = sky(Term::Literal("178"@, SKY_G), Term::Literal("77"@, SKY_SPAN_G), height);
    let blue = Term::Literal("255"@, CHANNEL_MAX);
    seq![
        ("r"@, channel("normal_x"@, ABOUT_SHADES@, ABOUT_SKY@, red)),
        ("g"@, channel("normal_y"@, INDENTED@, INDENTED@, green)),
        ("b"@, channel("normal_z"@, INDENTED@, ABOUT_BLUE@, blue)),
    ]
}

/// All that the query computes, in order.
pub open spec fn selected(width: nat, height: nat) -> Selected {
    pixels(width, height) + rays() + intersections() + hits() + normals() + colors(height)
}

/// What the query computes, as columns of a table.
pub open spec fn query_steps(width: nat, height: nat) -> Steps {
    steps_of(selected(width, height))
}

/// Expressions as columns of a table.
pub open spec fn steps_of(selected: Selected) -> Steps {
    selected.map_values(|selection: (Seq<char>, Term)| (selection.0, selection.1.meaning()))
}

/// What goes into the holes.
pub open spec fn scene_values(width: nat, height: nat) -> Seq<(Seq<char>, Seq<char>)> {
    seq![("width"@, decimal(width)), ("height"@, decimal(height))] + selected(
        width,
        height,
    ).map_values(|selection: (Seq<char>, Term)| (selection.0, selection.1.text()))
}

/// Adds an expression under a name.
fn select(list: &mut Vec<Selection>, name: &str, expr: Sql)
    ensures
        views(final(list)@) == views(old(list)@).push((name@, expr@)),
{
    list.push(Selection { name: name.to_owned(), expr });
    assert(views(list@) =~= views(old(list)@).push((name@, expr@)));
}

/// The expressions with their names.
pub open spec fn views(list: Seq<Selection>) -> Selected {
    list.map_values(|selection: Selection| selection@)
}

fn double_of(name: &str) -> (sql: Sql)
    ensures
        sql@ == double(name@),
{
    named(name).double()
}

fn whole_number(n: u32) -> (sql: Sql)
    ensures
        sql@ == whole(n as nat),
{
    let mut text: String = String::new();
    push_decimal(&mut text, n);
    assert(text@ =~= decimal(n as nat));
    literal(text.as_str(), Number::whole(n).bits)
}

fn one_half() -> (sql: Sql)
    ensures
        sql@ == half(),
{
    literal("0.5", HALF)
}

fn offset(origin: &str, center: &str, bits: u64) -> (sql: Sql)
    ensures
        sql@ == name(origin@).minus(Term::Literal(center@, bits)),
{
    named(origin).minus(literal(center, bits))
}

fn offset_along(axis: u8) -> (sql: Sql)
    requires
        axis < 3,
    ensures
        sql@ == (if axis == 0 {
            offset_x()
        } else if axis == 1 {
            offset_y()
        } else {
            offset_z()
        }),
{
    match axis {
        0 => offset("origin_x", SPHERE_CENTER_X, ZERO),
        1 => offset("origin_y", SPHERE_CENTER_Y, ZERO),
        _ => offset("origin_z", SPHERE_CENTER_Z, MINUS_ONE),
    }
}

fn select_pixels(list: &mut Vec<Selection>, width: u32, height: u32)
    ensures
        views(final(list)@) == views(old(list)@) + pixels(width as nat, height as nat),
{
    let x: Sql = double_of("x").over(whole_number(width)).minus(one_half());
    select(list, "vp_x", x.times(literal(VIEWPORT_WIDTH, VIEWPORT_WIDTH_BITS)));
    let y: Sql = one_half().minus(double_of("y").over(whole_number(height)));
    select(list, "vp_y", y.times(literal(VIEWPORT_HEIGHT, TWO)));
    assert(views(list@) =~= views(old(list)@) + pixels(width as nat, height as nat));
}

fn select_rays(list: &mut Vec<Selection>)
    ensures
        views(final(list)@) == views(old(list)@) + rays(),
{
    select(list, "origin_x", literal("0.0", ZERO));
    select(list, "origin_y", literal("0.0", ZERO));
    select(list, "origin_z", literal("0.0", ZERO));
    select(list, "dir_x", named("vp_x"));
    select(list, "dir_y", named("vp_y"));
    select(list, "dir_z", literal(FOCAL_LENGTH, ONE).negative());
    assert(views(list@) =~= views(old(list)@) + rays());
}

fn square(name: &str) -> (sql: Sql)
    ensures
        sql@ == Term::Name(name@).times(Term::Name(name@)),
{
    named(name).times(named(name))
}

fn select_intersections(list: &mut Vec<Selection>)
    ensures
        views(final(list)@) == views(old(list)@) + intersections(),
{
    select(list, "oc_x", offset_along(0));
    select(list, "oc_y", offset_along(1));
    select(list, "oc_z", offset_along(2));
    select(list, "a", square("dir_x").plus(square("dir_y")).plus(square("dir_z")));
    let x: Sql = named("dir_x").times(offset_along(0));
    let y: Sql = named("dir_y").times(offset_along(1));
    let z: Sql = named("dir_z").times(offset_along(2));
    select(list, "half_b", x.plus(y).plus(z));
    let two: Sql = offset_along(0).times(offset_along(0)).plus_below(
        BELOW,
        offset_along(1).times(offset_along(1)),
    );
    let squares: Sql = two.plus_below(BELOW, offset_along(2).times(offset_along(2)));
    let inside: Sql = literal(SPHERE_RADIUS, HALF).times(literal(SPHERE_RADIUS, HALF));
    select(list, "c", squares.minus(inside));
    assert(views(list@) =~= views(old(list)@) + intersections());
}

fn discriminant_of() -> (sql: Sql)
    ensures
        sql@ == discriminant(),
{
    square("half_b").minus(named("a").times(named("c")))
}

fn select_hits(list: &mut Vec<Selection>)
    ensures
        views(final(list)@) == views(old(list)@) + hits(),
{
    select(list, "discriminant", discriminant_of());
    let root: Sql = discriminant_of().sqrt();
    let solution: Sql = named("half_b").negative().minus(root).over(named("a"));
    let is_real: Sql = discriminant_of().gt_eq(literal("0", ZERO));
    select(list, "t", is_real.case(ON_A_LINE, " ", solution, " ", Sql::Null));
    assert(views(list@) =~= views(old(list)@) + hits());
}

fn point_of(origin: &str, direction: &str) -> (sql: Sql)
    ensures
        sql@ == point(origin@, direction@),
{
    named(origin).plus(named("t").times(named(direction)))
}

fn normal_of(origin: &str, direction: &str, center: &str, bits: u64) -> (sql: Sql)
    ensures
        sql@ == point(origin@, direction@).minus(Term::Literal(center@, bits)).over(radius()),
{
    point_of(origin, direction).minus(literal(center, bits)).over(literal(SPHERE_RADIUS, HALF))
}

fn select_normals(list: &mut Vec<Selection>)
    ensures
        views(final(list)@) == views(old(list)@) + normals(),
{
    select(list, "hit_x", point_of("origin_x", "dir_x"));
    select(list, "hit_y", point_of("origin_y", "dir_y"));
    select(list, "hit_z", point_of("origin_z", "dir_z"));
    select(list, "normal_x", normal_of("origin_x", "dir_x", SPHERE_CENTER_X, ZERO));
    select(list, "normal_y", normal_of("origin_y", "dir_y", SPHERE_CENTER_Y, ZERO));
    select(list, "normal_z", normal_of("origin_z", "dir_z", SPHERE_CENTER_Z, MINUS_ONE));
    assert(views(list@) =~= views(old(list)@) + normals());
}

fn channel_of(component: &str, before: &str, behind: &str, otherwise: Sql) -> (sql: Sql)
    ensures
        sql@ == channel(component@, before@, behind@, otherwise@),
{
    let hit: Sql = named("t").is_not_null().and(named("t").gt(literal("0", ZERO)));
    let shade: Sql = named(component).plus(literal("1.0", ONE)).times(one_half()).times(
        literal("255", CHANNEL_MAX),
    );
    hit.case(" ", before, shade.unsigned(), behind, otherwise.unsigned())
}

fn sky_of(middle: Sql, span: Sql, height: u32) -> (sql: Sql)
    ensures
        sql@ == sky(middle@, span@, height as nat),
{
    middle.plus(span.times(one_half().minus(double_of("y").over(whole_number(height)))))
}

fn select_colors(list: &mut Vec<Selection>, height: u32)
    ensures
        views(final(list)@) == views(old(list)@) + colors(height as nat),
{
    let red: Sql = sky_of(literal("128", SKY_R), literal("127", SKY_SPAN_R), height);
    let green: Sql = sky_of(literal("178", SKY_G), literal("77", SKY_SPAN_G), height);
    let blue: Sql = literal("255", CHANNEL_MAX);
    select(list, "r", channel_of("normal_x", ABOUT_SHADES, ABOUT_SKY, red));
    select(list, "g", channel_of("normal_y", INDENTED, INDENTED, green));
    select(list, "b", channel_of("normal_z", INDENTED, ABOUT_BLUE, blue));
    assert(views(list@) =~= views(old(list)@) + colors(height as nat));
}

/// All that the query computes, for an image of that size.
pub fn selections(width: u32, height: u32) -> (list: Vec<Selection>)
    ensures
        views(list@) == selected(width as nat, height as nat),
{
    let mut list: Vec<Selection> = Vec::new();
    select_pixels(&mut list, width, height);
    select_rays(&mut list);
    select_intersections(&mut list);
    select_hits(&mut list);
    select_normals(&mut list);
    select_colors(&mut list, height);
    assert(views(list@) =~= selected(width as nat, height as nat));
    list
}

/// A value for the holes of that name.
fn value(name: &str, text: &str) -> (value: Value)
    ensures
        value.name@ == name@,
        value.text@ == text@,
{
    Value { name: name.to_owned(), text: text.to_owned() }
}

/// The query for an image of that size: place and colour of every pixel.
pub fn query(width: u32, height: u32) -> (text: String)
    ensures
        text@ == filled(TEMPLATE@, scene_values(width as nat, height as nat)),
{
    let mut w: String = String::new();
    push_decimal(&mut w, width);
    let mut h: String = String::new();
    push_decimal(&mut h, height);
    let mut values: Vec<Value> = vec![value("width", w.as_str()), value("height", h.as_str())];
    let list: Vec<Selection> = selections(width, height);
    let ghost all = scene_values(width as nat, height as nat);
    let mut i: usize = 0;
    proof {
        assert(w@ =~= decimal(width as nat));
        assert(h@ =~= decimal(height as nat));
        assert(pairs(values@) =~= all.take(2));
    }
    while i < list.len()
        invariant
            i <= list.len(),
            all == scene_values(width as nat, height as nat),
            views(list@) == selected(width as nat, height as nat),
            pairs(values@) == all.take(2 + i),
        decreases list.len() - i,
    {
        let expr: String = list[i].expr.text();
        let ghost before = values@;
        let next: Value = value(list[i].name.as_str(), expr.as_str());
        values.push(next);
        proof {
            assert(pairs(values@) =~= pairs(before).push((next.name@, next.text@)));
            assert(views(list@)[i as int] == list[i as int]@);
            assert(all[2 + i] == (list[i as int].name@, expr@));
            assert(all.take(2 + i + 1) =~= all.take(2 + i).push(all[2 + i]));
        }
        i = i + 1;
    }
    assert(all.take(2 + i) =~= all) by {
        assert(views(list@).len() == list@.len());
    }
    fill(TEMPLATE, &values)
}

/// Whether that is what the scene with one sphere in a single query asks for.
pub open spec fn is_rendering(rendering: Rendering) -> bool {
    &&& rendering.query@ == filled(TEMPLATE@, scene_values(WIDTH as nat, HEIGHT as nat))
    &&& rendering.plan@ == Steps::empty()
    &&& rendering.projection is None
    &&& rendering.width == WIDTH
    &&& rendering.height == HEIGHT
    &&& rendering.path@ == "sphere.ppm"@
}

/// The scene with one sphere.
pub fn render() -> (rendering: Rendering)
    ensures
        is_rendering(rendering),
{
    Rendering {
        query: query(WIDTH, HEIGHT),
        plan: Plan::new(),
        projection: None,
        width: WIDTH,
        height: HEIGHT,
        path: "sphere.ppm".to_owned(),
    }
}

} // verus!

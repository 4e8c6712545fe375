//! The geometry that the scenes share: rays, spheres, and which sphere a ray
//! meets first.
use crate::formula::{Formula, Node, col, column, lit, num, number};
use crate::geometry::{is_meeting, law_meeting};
use crate::ideal::{Ideal, IdealRow, Reals};
use crate::number::{CHANNEL_MAX, HALF, Number, ONE, TEN_THOUSANDTH, THOUSANDTH, ZERO, whole_bits};
use crate::optics::{are_given, arrow};
use crate::plan::{Plan, Steps, vector_steps};
use crate::portrait::{is_pixel, lemma_view, way_to_pixel};
use crate::shadows_portrait::{
    brightness_of, cosine_to, is_lightable, law_brightness, lemma_sky, sky_of,
};
use crate::text::{decimal, join, push_decimal};
use crate::vector::{Triple, Vec3, columns, numbers};
use vstd::prelude::*;

verus! {

/// Where a sphere is and how large.
#[derive(Clone, Copy, Debug, PartialEq, Eq, Structural)]
pub struct Ball {
    pub center_x: Number,
    pub center_y: Number,
    pub center_z: Number,
    pub radius: Number,
}

/// What has a name and the shape of a sphere.
pub trait Solid {
    /// The name.
    spec fn label(&self) -> Seq<char>;

    /// The shape.
    spec fn shape(&self) -> Ball;

    /// The name.
    fn name(&self) -> (name: &str)
        ensures
            name@ == self.label(),
    ;

    /// The shape.
    fn ball(&self) -> (ball: Ball)
        ensures
            ball == self.shape(),
    ;
}

// ---------------------------------------------------------------------------
// The camera
// ---------------------------------------------------------------------------

/// The origin of the camera's rays.
pub open spec fn camera_origin() -> Triple {
    columns("origin_x"@, "origin_y"@, "origin_z"@)
}

/// The direction of the camera's rays.
pub open spec fn camera_direction() -> Triple {
    columns("dir_x"@, "dir_y"@, "dir_z"@)
}

/// The query for a table with a row for each pixel: the columns `x` and `y`.
pub open spec fn grid_query(width: nat, height: nat) -> Seq<char>
    recommends
        width > 0,
        height > 0,
{
    "SELECT CAST(x AS DOUBLE) as x, CAST(y AS DOUBLE) as y FROM generate_series(0, "@ + decimal(
        (width - 1) as nat,
    ) + ") AS t1(x), generate_series(0, "@ + decimal((height - 1) as nat) + ") AS t2(y)"@
}

/// The query for a table with a row for each pixel.
pub fn pixel_grid(width: u32, height: u32) -> (query: String)
    requires
        width > 0,
        height > 0,
    ensures
        query@ == grid_query(width as nat, height as nat),
{
    let mut query: String =
        "SELECT CAST(x AS DOUBLE) as x, CAST(y AS DOUBLE) as y FROM generate_series(0, ".to_owned();
    push_decimal(&mut query, width - 1);
    query.append(") AS t1(x), generate_series(0, ");
    push_decimal(&mut query, height - 1);
    query.append(") AS t2(y)");
    query
}

/// How the camera looks at the scene: the size of the viewport and its distance.
#[derive(Clone, Copy, Debug, PartialEq, Eq, Structural)]
pub struct Camera {
    pub viewport_width: Number,
    pub viewport_height: Number,
    pub focal_length: Number,
}

/// The direction in which the camera looks through a pixel of an image of that size.
pub open spec fn view_direction(width: nat, height: nat, camera: Camera) -> Triple {
    Triple {
        x: column("x"@).over(number(whole_bits(width))).minus(number(HALF)).times(
            number(camera.viewport_width.bits),
        ),
        y: number(HALF).minus(column("y"@).over(number(whole_bits(height)))).times(
            number(camera.viewport_height.bits),
        ),
        z: number(camera.focal_length.opposite()),
    }
}

/// The direction in which the camera looks through a pixel of an image of that size.
pub fn direction_through_pixel(width: u32, height: u32, camera: Camera) -> (direction: Vec3)
    ensures
        direction@ == view_direction(width as nat, height as nat, camera),
        forall|r: Reals, row: IdealRow, x: real, y: real|
            r.is_faithful() && #[trigger] is_pixel(r, row, x, y) ==> are_given(r, direction@, row)
                && arrow(r, direction@, row) == way_to_pixel(
                r,
                width as nat,
                height as nat,
                camera,
                x,
                y,
            ),
{
    proof {
        assert forall|r: Reals, row: IdealRow, x: real, y: real|
            r.is_faithful() && #[trigger] is_pixel(r, row, x, y) implies ({
            let v = view_direction(width as nat, height as nat, camera);
            are_given(r, v, row) && arrow(r, v, row) == way_to_pixel(
                r,
                width as nat,
                height as nat,
                camera,
                x,
                y,
            )
        }) by {
            lemma_view(r, width as nat, height as nat, camera, row, x, y);
        }
    }
    Vec3 {
        x: col("x").over(lit(Number::whole(width))).minus(num(HALF)).times(
            lit(camera.viewport_width),
        ),
        y: num(HALF).minus(col("y").over(lit(Number::whole(height)))).times(
            lit(camera.viewport_height),
        ),
        z: lit(camera.focal_length.negated()),
    }
}

/// The columns of the camera's rays: `origin_x` to `origin_z`, all zero, and
/// `dir_x` to `dir_z`.
pub open spec fn ray_steps(width: nat, height: nat, camera: Camera) -> Steps {
    vector_steps("origin_x"@, "origin_y"@, "origin_z"@, numbers(ZERO, ZERO, ZERO)) + vector_steps(
        "dir_x"@,
        "dir_y"@,
        "dir_z"@,
        view_direction(width, height, camera),
    )
}

/// Adds the columns of the camera's rays.
pub fn pixels_to_rays(plan: &mut Plan, width: u32, height: u32, camera: Camera)
    ensures
        final(plan)@ == old(plan)@ + ray_steps(width as nat, height as nat, camera),
{
    plan.with_vector(
        "origin_x",
        "origin_y",
        "origin_z",
        Vec3::numbers(Number::of(ZERO), Number::of(ZERO), Number::of(ZERO)),
    );
    plan.with_vector("dir_x", "dir_y", "dir_z", direction_through_pixel(width, height, camera));
    assert(plan@ =~= old(plan)@ + ray_steps(width as nat, height as nat, camera));
}

// ---------------------------------------------------------------------------
// Where a ray meets a sphere
// ---------------------------------------------------------------------------

impl Ball {
    /// The centre, as a vector of numbers.
    pub open spec fn center(self) -> Triple {
        numbers(self.center_x.bits, self.center_y.bits, self.center_z.bits)
    }

    /// The outward normal at a point of the surface.
    pub open spec fn normal_at(self, point: Triple) -> Triple {
        point.minus(self.center()).over(number(self.radius.bits))
    }

    /// The outward normal at a point of the surface.
    pub fn normal(&self, point: Vec3) -> (normal: Vec3)
        ensures
            normal@ == self.normal_at(point@),
    {
        point.minus(Vec3::numbers(self.center_x, self.center_y, self.center_z)).over(
            &lit(self.radius),
        )
    }
}

/// The quadratic equation `a t^2 + 2 half_b t + c = 0` for the parameters at
/// which the ray `origin + t direction` meets the sphere. Squaring the radius is
/// left to the engine.
pub struct Quadratic {
    pub a: Node,
    pub half_b: Node,
    pub c: Node,
}

/// The equation of a ray and a sphere.
pub open spec fn quadratic(origin: Triple, direction: Triple, ball: Ball) -> Quadratic {
    let offset = origin.minus(ball.center());
    Quadratic {
        a: direction.dot(direction),
        half_b: direction.dot(offset),
        c: offset.dot(offset).minus(number(ball.radius.bits).times(number(ball.radius.bits))),
    }
}

impl Quadratic {
    pub open spec fn discriminant(self) -> Node {
        self.half_b.times(self.half_b).minus(self.a.times(self.c))
    }

    /// The smaller solution.
    pub open spec fn smaller(self) -> Node {
        number(ZERO).minus(self.half_b).minus(self.discriminant().sqrt()).over(self.a)
    }

    /// The greater solution.
    pub open spec fn greater(self) -> Node {
        number(ZERO).minus(self.half_b).plus(self.discriminant().sqrt()).over(self.a)
    }

    /// `solution`, or nothing where the equation has none.
    pub open spec fn if_real(self, solution: Node) -> Node {
        self.discriminant().gt_eq(number(ZERO)).case(solution, Node::NullNumber)
    }
}

/// Which of the two points at which a line meets a sphere.
#[derive(Clone, Copy, Debug, PartialEq, Eq, Structural)]
pub enum Side {
    /// Where the ray enters.
    Near,
    /// Where the ray leaves.
    Far,
}

/// The parameter at which a ray meets a sphere, missing where it passes by.
pub open spec fn meeting(origin: Triple, direction: Triple, ball: Ball, side: Side) -> Node {
    let q = quadratic(origin, direction, ball);
    q.if_real(
        match side {
            Side::Near => q.smaller(),
            Side::Far => q.greater(),
        },
    )
}

/// `t` where it lies ahead of the ray's origin, else nothing.
pub open spec fn ahead(t: Node) -> Node {
    t.gt(number(THOUSANDTH)).case(t, Node::NullNumber)
}

/// `t` where it lies ahead of the ray's origin and is less than `limit`, else nothing.
pub open spec fn ahead_before(t: Node, limit: Node) -> Node {
    t.gt(number(THOUSANDTH)).and(t.lt(limit)).case(t, Node::NullNumber)
}

/// The parameter at which a ray meets a sphere, missing where it passes by.
pub fn meet(origin: Vec3, direction: Vec3, ball: Ball, side: Side) -> (t: Formula)
    ensures
        t@ == meeting(origin@, direction@, ball, side),
        forall|r: Reals, row: IdealRow|
            r.is_faithful() && are_given(r, origin@, row) && are_given(r, direction@, row) && arrow(
                r,
                direction@,
                row,
            ).dot(arrow(r, direction@, row)) > 0 as real ==> is_meeting(
                r,
                arrow(r, origin@, row),
                arrow(r, direction@, row),
                ball,
                side,
                #[trigger] r.value(t@, row),
            ),
{
    proof {
        let (o, d) = (origin@, direction@);
        assert forall|r: Reals, row: IdealRow|
            r.is_faithful() && are_given(r, o, row) && are_given(r, d, row) && arrow(r, d, row).dot(
                arrow(r, d, row),
            ) > 0 as real implies is_meeting(
            r,
            arrow(r, o, row),
            arrow(r, d, row),
            ball,
            side,
            #[trigger] r.value(meeting(o, d, ball, side), row),
        ) by {
            law_meeting(r, o, d, ball, row);
        }
    }
    let offset: Vec3 = origin.minus(
        Vec3::numbers(ball.center_x, ball.center_y, ball.center_z),
    );
    let a: Formula = direction.dot(&direction);
    let half_b: Formula = direction.dot(&offset);
    let c: Formula = offset.dot(&offset).minus(lit(ball.radius).times(lit(ball.radius)));
    let discriminant: Formula = half_b.copy().times(half_b.copy()).minus(a.copy().times(c));
    let root: Formula = discriminant.copy().sqrt();
    let solution: Formula = match side {
        Side::Near => num(ZERO).minus(half_b).minus(root).over(a),
        Side::Far => num(ZERO).minus(half_b).plus(root).over(a),
    };
    discriminant.gt_eq(num(ZERO)).case(solution, Formula::NullNumber)
}

/// `t` where it lies ahead of the ray's origin, else nothing.
pub fn only_ahead(t: Formula) -> (expr: Formula)
    ensures
        expr@ == ahead(t@),
{
    t.copy().gt(num(THOUSANDTH)).case(t, Formula::NullNumber)
}

/// `t` where it lies ahead of the ray's origin and is less than `limit`, else nothing.
pub fn only_ahead_before(t: Formula, limit: Formula) -> (expr: Formula)
    ensures
        expr@ == ahead_before(t@, limit@),
{
    t.copy().gt(num(THOUSANDTH)).and(t.copy().lt(limit)).case(t, Formula::NullNumber)
}

/// The column, `prefix` followed by the sphere's name, of the parameter at which
/// a ray meets the sphere ahead.
pub open spec fn ahead_step<S: Solid>(
    sphere: S,
    origin: Triple,
    direction: Triple,
    prefix: Seq<char>,
) -> (Seq<char>, Node) {
    (prefix + sphere.label(), ahead(meeting(origin, direction, sphere.shape(), Side::Near)))
}

/// The columns of the parameters at which a ray meets each of the spheres ahead.
pub open spec fn ahead_steps<S: Solid>(
    spheres: Seq<S>,
    origin: Triple,
    direction: Triple,
    prefix: Seq<char>,
) -> Steps {
    Seq::new(spheres.len(), |i: int| ahead_step(spheres[i], origin, direction, prefix))
}

/// Adds the parameter at which a ray meets the sphere, missing where it passes by
/// or the sphere lies behind.
pub fn add_meeting_ahead<S: Solid>(
    plan: &mut Plan,
    sphere: &S,
    origin: Vec3,
    direction: Vec3,
    prefix: &str,
)
    ensures
        final(plan)@ == old(plan)@.push(ahead_step(*sphere, origin@, direction@, prefix@)),
{
    let t: Formula = only_ahead(meet(origin, direction, sphere.ball(), Side::Near));
    plan.with_column(join(prefix, sphere.name()).as_str(), t);
}

/// The point of a ray at parameter `t`.
pub open spec fn point_at(origin: Triple, direction: Triple, t: Node) -> Triple {
    origin.plus(direction.scaled(t))
}

/// The point of a ray at parameter `t`.
pub fn at(origin: Vec3, direction: Vec3, t: &Formula) -> (point: Vec3)
    ensures
        point@ == point_at(origin@, direction@, t@),
{
    origin.plus(direction.scaled(t))
}

// ---------------------------------------------------------------------------
// Which sphere a ray meets first
// ---------------------------------------------------------------------------

/// The columns `prefix` followed by the name of each sphere.
pub open spec fn sphere_columns<S: Solid>(spheres: Seq<S>, prefix: Seq<char>) -> Seq<Node> {
    Seq::new(spheres.len(), |i: int| column(prefix + spheres[i].label()))
}

/// The smaller of two numbers of which either may be missing.
pub open spec fn closer(a: Node, b: Node) -> Node {
    a.is_null().case(b, b.is_null().case(a, b.lt(a).case(b, a)))
}

/// The smallest of some numbers of which any may be missing.
pub open spec fn nearest(ts: Seq<Node>) -> Node
    recommends
        ts.len() > 0,
    decreases ts.len(),
{
    if ts.len() <= 1 {
        ts[0]
    } else {
        closer(nearest(ts.drop_last()), ts.last())
    }
}

/// Whether `t` is there and, within a ten-thousandth, the nearest.
pub open spec fn is_nearest(t: Node, nearest: Node) -> Node {
    t.is_not_null().and(nearest.is_not_null()).and(
        t.minus(nearest).abs().lt(number(TEN_THOUSANDTH)),
    )
}

/// The index of the last of `ts` that is the nearest, missing if there is none.
pub open spec fn hit_index(ts: Seq<Node>, nearest: Node) -> Node
    decreases ts.len(),
{
    if ts.len() == 0 {
        Node::NullIndex
    } else {
        is_nearest(ts.last(), nearest).case(
            Node::Index((ts.len() - 1) as i32),
            hit_index(ts.drop_last(), nearest),
        )
    }
}

/// The option whose index is `hit`, or `otherwise`.
pub open spec fn chosen(hit: Node, options: Seq<Node>, otherwise: Node) -> Node
    decreases options.len(),
{
    if options.len() == 0 {
        otherwise
    } else {
        hit.equals(Node::Index((options.len() - 1) as i32)).case(
            options.last(),
            chosen(hit, options.drop_last(), otherwise),
        )
    }
}

/// Whether any of some numbers is there.
pub open spec fn any_present(ts: Seq<Node>) -> Node
    decreases ts.len(),
{
    if ts.len() == 0 {
        Node::Truth(false)
    } else {
        any_present(ts.drop_last()).or(ts.last().is_not_null())
    }
}

/// The smallest of the columns `prefix` followed by the name of each sphere.
pub fn nearest_hit<S: Solid>(spheres: &Vec<S>, prefix: &str) -> (t: Formula)
    requires
        spheres.len() > 0,
    ensures
        t@ == nearest(sphere_columns(spheres@, prefix@)),
{
    let ghost ts = sphere_columns(spheres@, prefix@);
    let mut min: Formula = col(join(prefix, spheres[0].name()).as_str());
    let mut i: usize = 1;
    while i < spheres.len()
        invariant
            1 <= i <= spheres.len(),
            ts == sphere_columns(spheres@, prefix@),
            min@ == nearest(ts.take(i as int)),
        decreases spheres.len() - i,
    {
        let t: Formula = col(join(prefix, spheres[i].name()).as_str());
        proof {
            assert(ts.take(i + 1).drop_last() =~= ts.take(i as int));
            assert(ts.take(i + 1).last() == t@);
        }
        let both: Formula = t.copy().lt(min.copy()).case(t.copy(), min.copy());
        let one: Formula = t.copy().is_null().case(min.copy(), both);
        min = min.is_null().case(t, one);
        i = i + 1;
    }
    assert(ts.take(i as int) =~= ts);
    min
}

/// The index of the sphere that is the nearest, by the columns `prefix` followed
/// by the name of each sphere and the column of the smallest.
pub fn hit_sphere<S: Solid>(spheres: &Vec<S>, prefix: &str, nearest_column: &str) -> (index: Formula)
    ensures
        index@ == hit_index(sphere_columns(spheres@, prefix@), column(nearest_column@)),
{
    let ghost ts = sphere_columns(spheres@, prefix@);
    let mut index: Formula = Formula::NullIndex;
    let mut i: usize = 0;
    assert(ts.take(0) =~= Seq::empty());
    while i < spheres.len()
        invariant
            i <= spheres.len(),
            ts == sphere_columns(spheres@, prefix@),
            index@ == hit_index(ts.take(i as int), column(nearest_column@)),
        decreases spheres.len() - i,
    {
        let t: Formula = col(join(prefix, spheres[i].name()).as_str());
        proof {
            assert(ts.take(i + 1).drop_last() =~= ts.take(i as int));
            assert(ts.take(i + 1).last() == t@);
        }
        let present: Formula = t.copy().is_not_null().and(col(nearest_column).is_not_null());
        let close: Formula = t.minus(col(nearest_column)).abs().lt(num(TEN_THOUSANDTH));
        index = present.and(close).case(Formula::Index(#[verifier::truncate] (i as i32)), index);
        i = i + 1;
    }
    assert(ts.take(i as int) =~= ts);
    index
}

/// The normal, at `point`, of the sphere whose index is `hit`; zero if there is none.
pub open spec fn hit_normal<S: Solid>(spheres: Seq<S>, hit: Node, point: Triple) -> Triple {
    let normal = |i: int| spheres[i].shape().normal_at(point);
    Triple {
        x: chosen(hit, Seq::new(spheres.len(), |i: int| normal(i).x), number(ZERO)),
        y: chosen(hit, Seq::new(spheres.len(), |i: int| normal(i).y), number(ZERO)),
        z: chosen(hit, Seq::new(spheres.len(), |i: int| normal(i).z), number(ZERO)),
    }
}

/// The condition that `hit` is the index `i`.
pub fn is_hit(hit: &Formula, i: usize) -> (condition: Formula)
    ensures
        condition@ == hit@.equals(Node::Index(i as i32)),
{
    hit.copy().equals(Formula::Index(#[verifier::truncate] (i as i32)))
}

/// The normal, at `point`, of the sphere whose index is `hit`; zero if there is none.
pub fn normal_of_hit<S: Solid>(spheres: &Vec<S>, hit: &Formula, point: &Vec3) -> (normal: Vec3)
    ensures
        normal@ == hit_normal(spheres@, hit@, point@),
{
    let ghost n = spheres@.len();
    let ghost at = |i: int| spheres@[i].shape().normal_at(point@);
    let ghost xs = Seq::new(n, |i: int| at(i).x);
    let ghost ys = Seq::new(n, |i: int| at(i).y);
    let ghost zs = Seq::new(n, |i: int| at(i).z);
    let mut normal: Vec3 = Vec3::numbers(Number::of(ZERO), Number::of(ZERO), Number::of(ZERO));
    let mut i: usize = 0;
    proof {
        assert(xs.take(0) =~= Seq::empty());
        assert(ys.take(0) =~= Seq::empty());
        assert(zs.take(0) =~= Seq::empty());
    }
    while i < spheres.len()
        invariant
            i <= spheres.len(),
            n == spheres@.len(),
            at == (|i: int| spheres@[i].shape().normal_at(point@)),
            xs == Seq::new(n, |i: int| at(i).x),
            ys == Seq::new(n, |i: int| at(i).y),
            zs == Seq::new(n, |i: int| at(i).z),
            normal@.x == chosen(hit@, xs.take(i as int), number(ZERO)),
            normal@.y == chosen(hit@, ys.take(i as int), number(ZERO)),
            normal@.z == chosen(hit@, zs.take(i as int), number(ZERO)),
        decreases spheres.len() - i,
    {
        let this: Vec3 = spheres[i].ball().normal(point.copy());
        proof {
            assert(xs.take(i + 1).drop_last() =~= xs.take(i as int));
            assert(ys.take(i + 1).drop_last() =~= ys.take(i as int));
            assert(zs.take(i + 1).drop_last() =~= zs.take(i as int));
            assert(xs.take(i + 1).last() == this@.x);
            assert(ys.take(i + 1).last() == this@.y);
            assert(zs.take(i + 1).last() == this@.z);
        }
        normal = Vec3::if_else(&is_hit(hit, i), this, normal);
        i = i + 1;
    }
    proof {
        assert(xs.take(i as int) =~= xs);
        assert(ys.take(i as int) =~= ys);
        assert(zs.take(i as int) =~= zs);
    }
    normal
}

// ---------------------------------------------------------------------------
// Light and colour
// ---------------------------------------------------------------------------

/// `value` where it lies between 0 and 255, else the nearer bound.
pub open spec fn clamped(value: Node) -> Node {
    value.lt(number(ZERO)).case(
        number(ZERO),
        value.gt(number(CHANNEL_MAX)).case(number(CHANNEL_MAX), value),
    )
}

/// `value` where it lies between 0 and 255, else the nearer bound.
pub fn clamp(value: Formula) -> (expr: Formula)
    ensures
        expr@ == clamped(value@),
{
    let upper: Formula = value.copy().gt(num(CHANNEL_MAX)).case(num(CHANNEL_MAX), value.copy());
    value.lt(num(ZERO)).case(num(ZERO), upper)
}

/// How bright a point with that normal is: the ambient light and, outside of
/// shadow, the light that falls in from `light`; at most one.
pub open spec fn brightness(
    light: Triple,
    intensity: u64,
    ambient: u64,
    point: Triple,
    normal: Triple,
    in_shadow: Node,
) -> Node {
    let incidence = normal.dot(light.minus(point).normalized());
    let diffuse = incidence.gt(number(ZERO)).case(
        incidence.times(number(intensity)),
        number(ZERO),
    );
    let total = number(ambient).plus(in_shadow.case(number(ZERO), diffuse));
    total.gt(number(ONE)).case(number(ONE), total)
}

/// How bright a point with that normal is.
pub fn brightness_at(
    light: Vec3,
    intensity: Number,
    ambient: Number,
    point: Vec3,
    normal: Vec3,
    in_shadow: Formula,
) -> (expr: Formula)
    ensures
        expr@ == brightness(light@, intensity.bits, ambient.bits, point@, normal@, in_shadow@),
        forall|r: Reals, row: IdealRow|
            is_lightable(r, light@, point@, normal@, in_shadow@, row) ==> #[trigger] r.value(
                expr@,
                row,
            ) == Ideal::Number(
                brightness_of(
                    (r.number)(ambient.bits),
                    (r.number)(intensity.bits),
                    cosine_to(
                        r,
                        arrow(r, normal@, row),
                        arrow(r, light@, row).minus(arrow(r, point@, row)),
                    ),
                    r.value(in_shadow@, row)->Truth_0,
                ),
            ),
{
    proof {
        let (l, p, n, s) = (light@, point@, normal@, in_shadow@);
        assert forall|r: Reals, row: IdealRow| is_lightable(r, l, p, n, s, row) implies (
        #[trigger] r.value(brightness(l, intensity.bits, ambient.bits, p, n, s), row))
            == Ideal::Number(
            brightness_of(
                (r.number)(ambient.bits),
                (r.number)(intensity.bits),
                cosine_to(r, arrow(r, n, row), arrow(r, l, row).minus(arrow(r, p, row))),
                r.value(s, row)->Truth_0,
            ),
        ) by {
            law_brightness(r, l, intensity.bits, ambient.bits, p, n, s, row);
        }
    }
    let incidence: Formula = normal.dot(&light.minus(point).normalized());
    let diffuse: Formula = incidence.copy().gt(num(ZERO)).case(
        incidence.times(lit(intensity)),
        num(ZERO),
    );
    let total: Formula = lit(ambient).plus(in_shadow.case(num(ZERO), diffuse));
    total.copy().gt(num(ONE)).case(num(ONE), total)
}

/// A channel of the sky: white at the top of an image of that height, `horizon`
/// at its bottom.
pub open spec fn sky(height: nat, horizon: u64) -> Node {
    let blend = column("y"@).over(number(whole_bits(height)));
    number(CHANNEL_MAX).times(number(ONE).minus(blend)).plus(number(horizon).times(blend))
}

/// A channel of the sky.
pub fn sky_channel(height: u32, horizon: u64) -> (expr: Formula)
    ensures
        expr@ == sky(height as nat, horizon),
        forall|r: Reals, row: IdealRow, y: real|
            r.is_faithful() && r.value(column("y"@), row) == Ideal::Number(y) ==> #[trigger] r.value(
                expr@,
                row,
            ) == Ideal::Number(#[trigger] sky_of(r, height as nat, horizon, y)),
{
    proof {
        assert forall|r: Reals, row: IdealRow, y: real|
            r.is_faithful() && r.value(column("y"@), row) == Ideal::Number(y) implies (
        #[trigger] r.value(sky(height as nat, horizon), row)) == Ideal::Number(
            #[trigger] sky_of(r, height as nat, horizon, y),
        ) by {
            lemma_sky(r, height as nat, horizon, row, y);
        }
    }
    let blend: Formula = col("y").over(lit(Number::whole(height)));
    num(CHANNEL_MAX).times(num(ONE).minus(blend.copy())).plus(num(horizon).times(blend))
}

/// A channel of a surface of that colour, lit with that brightness. The colour is
/// from 0 to 1; it is left to the engine to spread it over 0 to 255.
pub open spec fn surface(color: u64, brightness: Node) -> Node {
    number(color).times(number(CHANNEL_MAX)).times(brightness)
}

/// A channel of a surface of that colour, lit with that brightness.
pub fn surface_channel(color: Number, brightness: &Formula) -> (expr: Formula)
    ensures
        expr@ == surface(color.bits, brightness@),
{
    lit(color).times(num(CHANNEL_MAX)).times(brightness.copy())
}

} // verus!

//! What a pixel shows of a single sphere, among real numbers: the laws speak of the
//! place of the pixel, the camera and the sphere, and of the columns of the result.
use crate::dataframe_sphere;
use crate::formula::{Node, Operator, column, number};
use crate::geometry::{along_ray, is_entry, law_meeting, lemma_quotient, spot};
use crate::ideal::{
    Ideal, IdealRow, Reals, law_ideal_columns_hold, law_opposite_is_read, law_whole_is_read,
    lemma_ideal_binary, lemma_ideal_is_not_null, product, quotient,
};
use crate::meaning::{has_own_names, lemma_ranked_append, lemma_ranked_own, ranked};
use crate::number::{CHANNEL_MAX, HALF, ONE, ZERO, whole_bits};
use crate::optics::{
    Arrow, are_given, arrow, is_given, lemma_real_binary, lemma_real_case, lemma_real_minus,
    lemma_real_number, lemma_real_plus, lemma_real_scaled, lemma_square, real_of,
};
use crate::soundness::{law_dataframe_sphere_is_sound, only_numbers, pixel_table};
use crate::trace::{
    Ball, Camera, Side, camera_direction, camera_origin, meeting, point_at, ray_steps,
    view_direction,
};
use crate::vector::{Triple, columns};
use vstd::prelude::*;

verus! {

// ---------------------------------------------------------------------------
// The camera
// ---------------------------------------------------------------------------

pub open spec fn one_half() -> real {
    1 as real / 2 as real
}

/// The origin of the coordinates.
pub open spec fn nowhere() -> Arrow {
    Arrow { x: 0 as real, y: 0 as real, z: 0 as real }
}

/// The way from the camera to a pixel on the viewport: x to the right, y upwards, both
/// from the middle of the image, and the camera looks along the negative z axis.
pub open spec fn way_to_pixel(
    r: Reals,
    width: nat,
    height: nat,
    camera: Camera,
    x: real,
    y: real,
) -> Arrow {
    Arrow {
        x: product(
            quotient(x, width as int as real) - one_half(),
            (r.number)(camera.viewport_width.bits),
        ),
        y: product(
            one_half() - quotient(y, height as int as real),
            (r.number)(camera.viewport_height.bits),
        ),
        z: -(r.number)(camera.focal_length.bits),
    }
}

/// Whether a row is that of the pixel at a place.
pub open spec fn is_pixel(r: Reals, row: IdealRow, x: real, y: real) -> bool {
    &&& r.value(column("x"@), row) == Ideal::Number(x)
    &&& r.value(column("y"@), row) == Ideal::Number(y)
}

/// Whether a row has a vector in three columns.
pub open spec fn has_arrow(
    r: Reals,
    row: IdealRow,
    x: Seq<char>,
    y: Seq<char>,
    z: Seq<char>,
    v: Arrow,
) -> bool {
    &&& r.value(column(x), row) == Ideal::Number(v.x)
    &&& r.value(column(y), row) == Ideal::Number(v.y)
    &&& r.value(column(z), row) == Ideal::Number(v.z)
}

/// What the formula for the direction gives.
#[verifier::spinoff_prover]
pub(crate) proof fn lemma_view(
    r: Reals,
    width: nat,
    height: nat,
    camera: Camera,
    row: IdealRow,
    x: real,
    y: real,
)
    requires
        r.is_faithful(),
        width <= u32::MAX,
        height <= u32::MAX,
        is_pixel(r, row, x, y),
    ensures
        are_given(r, view_direction(width, height, camera), row),
        arrow(r, view_direction(width, height, camera), row) == way_to_pixel(
            r,
            width,
            height,
            camera,
            x,
            y,
        ),
{
    let (w, h, half) = (number(whole_bits(width)), number(whole_bits(height)), number(HALF));
    let (vw, vh) = (number(camera.viewport_width.bits), number(camera.viewport_height.bits));
    let (px, py) = (column("x"@), column("y"@));
    lemma_real_number(r, whole_bits(width), row);
    lemma_real_number(r, whole_bits(height), row);
    lemma_real_number(r, HALF, row);
    lemma_real_number(r, camera.viewport_width.bits, row);
    lemma_real_number(r, camera.viewport_height.bits, row);
    lemma_real_number(r, camera.focal_length.opposite(), row);
    law_whole_is_read(r, width);
    law_whole_is_read(r, height);
    law_opposite_is_read(r, camera.focal_length);
    lemma_real_binary(r, px, Operator::Over, w, row);
    lemma_real_binary(r, px.over(w), Operator::Minus, half, row);
    lemma_real_binary(r, px.over(w).minus(half), Operator::Times, vw, row);
    lemma_real_binary(r, py, Operator::Over, h, row);
    lemma_real_binary(r, half, Operator::Minus, py.over(h), row);
    lemma_real_binary(r, half.minus(py.over(h)), Operator::Times, vh, row);
}

/// The rays that the camera's columns hold.
#[verifier::spinoff_prover]
pub(crate) proof fn lemma_camera_rays(
    r: Reals,
    width: nat,
    height: nat,
    camera: Camera,
    row: IdealRow,
    x: real,
    y: real,
)
    requires
        r.is_faithful(),
        width <= u32::MAX,
        height <= u32::MAX,
        is_pixel(r, row, x, y),
        forall|i: int|
            0 <= i < 6 ==> r.value(
                column((#[trigger] ray_steps(width, height, camera)[i]).0),
                row,
            ) == r.value(ray_steps(width, height, camera)[i].1, row),
    ensures
        has_arrow(r, row, "origin_x"@, "origin_y"@, "origin_z"@, nowhere()),
        has_arrow(
            r,
            row,
            "dir_x"@,
            "dir_y"@,
            "dir_z"@,
            way_to_pixel(r, width, height, camera, x, y),
        ),
        are_given(r, camera_origin(), row),
        arrow(r, camera_origin(), row) == nowhere(),
        are_given(r, camera_direction(), row),
        arrow(r, camera_direction(), row) == way_to_pixel(r, width, height, camera, x, y),
{
    let steps = ray_steps(width, height, camera);
    let v = view_direction(width, height, camera);
    lemma_view(r, width, height, camera, row, x, y);
    lemma_real_number(r, ZERO, row);
    assert(steps[0] == ("origin_x"@, number(ZERO)));
    assert(steps[1] == ("origin_y"@, number(ZERO)));
    assert(steps[2] == ("origin_z"@, number(ZERO)));
    assert(steps[3] == ("dir_x"@, v.x));
    assert(steps[4] == ("dir_y"@, v.y));
    assert(steps[5] == ("dir_z"@, v.z));
}

/// A way that is not nothing along one axis is not nothing.
#[verifier::spinoff_prover]
pub(crate) proof fn lemma_some_way(v: Arrow)
    requires
        v.z != 0 as real,
    ensures
        v.dot(v) > 0 as real,
{
    lemma_square(v.x);
    lemma_square(v.y);
    lemma_positive_square(v.z);
}

#[verifier::spinoff_prover]
proof fn lemma_positive_square(x: real)
    requires
        x != 0 as real,
    ensures
        product(x, x) > 0 as real,
{
    reveal(product);
    assert(x * x > 0 as real) by (nonlinear_arith)
        requires
            x != 0 as real,
    ;
}

/// In the middle of the image the camera looks straight ahead.
#[verifier::spinoff_prover]
pub proof fn law_middle_looks_ahead(r: Reals, width: nat, height: nat, camera: Camera)
    requires
        width > 0,
        height > 0,
    ensures
        ({
            let way = way_to_pixel(
                r,
                width,
                height,
                camera,
                width as int as real / 2 as real,
                height as int as real / 2 as real,
            );
            &&& way.x == 0 as real
            &&& way.y == 0 as real
            &&& way.z == -(r.number)(camera.focal_length.bits)
        }),
{
    lemma_half_of(width as int as real);
    lemma_half_of(height as int as real);
    lemma_nothing_times((r.number)(camera.viewport_width.bits));
    lemma_nothing_times((r.number)(camera.viewport_height.bits));
}

#[verifier::spinoff_prover]
proof fn lemma_half_of(x: real)
    requires
        x > 0 as real,
    ensures
        quotient(x / 2 as real, x) == one_half(),
{
    reveal(quotient);
    assert((x / 2 as real) / x == 1 as real / 2 as real) by (nonlinear_arith)
        requires
            x > 0 as real,
    ;
}

#[verifier::spinoff_prover]
proof fn lemma_nothing_times(x: real)
    ensures
        product(0 as real, x) == 0 as real,
{
    reveal(product);
}

// ---------------------------------------------------------------------------
// One sphere
// ---------------------------------------------------------------------------

/// The place of a letter among the axes.
pub(crate) open spec fn axis(c: char) -> int {
    if c == 'x' {
        0
    } else if c == 'y' {
        1
    } else {
        2
    }
}

/// The place of a letter among the channels.
pub(crate) open spec fn tint(c: char) -> int {
    if c == 'r' {
        0
    } else if c == 'g' {
        1
    } else {
        2
    }
}

/// The place of each column of the scene with a single sphere, by the length of its
/// name and its last letter.
spec fn single_rank() -> spec_fn(Seq<char>) -> int {
    |name: Seq<char>|
        if name.len() == 8 {
            axis(name.last())
        } else if name.len() == 5 {
            3 + axis(name.last())
        } else if name.len() == 11 {
            7 + axis(name.last())
        } else if name.len() == 4 {
            10 + tint(name.last())
        } else if name[0] == 't' {
            6
        } else {
            -1
        }
}

proof fn lemma_single_ranks()
    ensures
        "s0"@ + "_normal_x"@ == "s0_normal_x"@,
        "s0"@ + "_normal_y"@ == "s0_normal_y"@,
        "s0"@ + "_normal_z"@ == "s0_normal_z"@,
        "s0"@ + "_r"@ == "s0_r"@,
        "s0"@ + "_g"@ == "s0_g"@,
        "s0"@ + "_b"@ == "s0_b"@,
        single_rank()("x"@) == -1,
        single_rank()("y"@) == -1,
        single_rank()("origin_x"@) == 0,
        single_rank()("origin_y"@) == 1,
        single_rank()("origin_z"@) == 2,
        single_rank()("dir_x"@) == 3,
        single_rank()("dir_y"@) == 4,
        single_rank()("dir_z"@) == 5,
        single_rank()("t"@) == 6,
        single_rank()("s0_normal_x"@) == 7,
        single_rank()("s0_normal_y"@) == 8,
        single_rank()("s0_normal_z"@) == 9,
        single_rank()("s0_r"@) == 10,
        single_rank()("s0_g"@) == 11,
        single_rank()("s0_b"@) == 12,
{
    reveal_strlit("x");
    reveal_strlit("y");
    reveal_strlit("t");
    reveal_strlit("s0");
    reveal_strlit("_normal_x");
    reveal_strlit("_normal_y");
    reveal_strlit("_normal_z");
    reveal_strlit("_r");
    reveal_strlit("_g");
    reveal_strlit("_b");
    reveal_strlit("origin_x");
    reveal_strlit("origin_y");
    reveal_strlit("origin_z");
    reveal_strlit("dir_x");
    reveal_strlit("dir_y");
    reveal_strlit("dir_z");
    reveal_strlit("s0_normal_x");
    reveal_strlit("s0_normal_y");
    reveal_strlit("s0_normal_z");
    reveal_strlit("s0_r");
    reveal_strlit("s0_g");
    reveal_strlit("s0_b");
    assert("s0"@ + "_normal_x"@ =~= "s0_normal_x"@);
    assert("s0"@ + "_normal_y"@ =~= "s0_normal_y"@);
    assert("s0"@ + "_normal_z"@ =~= "s0_normal_z"@);
    assert("s0"@ + "_r"@ =~= "s0_r"@);
    assert("s0"@ + "_g"@ =~= "s0_g"@);
    assert("s0"@ + "_b"@ =~= "s0_b"@);
}

/// The columns of the scene have names of their own.
proof fn lemma_single_names(
    width: nat,
    height: nat,
    camera: Camera,
    sphere: dataframe_sphere::Sphere,
)
    ensures
        has_own_names(
            dataframe_sphere::scene_steps(width, height, camera, sphere),
            pixel_table(),
        ),
{
    let rank = single_rank();
    let t = dataframe_sphere::intersect_steps(sphere, "t"@);
    let origin = ray_steps(width, height, camera).take(3);
    let direction = ray_steps(width, height, camera).skip(3);
    let normals = dataframe_sphere::normal_steps(sphere, "t"@, "s0"@);
    let colors = dataframe_sphere::color_steps("t"@, "s0"@);
    lemma_single_ranks();
    assert(ranked(origin, rank, 0, 3)) by {
        assert(origin[0].0 == "origin_x"@ && origin[1].0 == "origin_y"@ && origin[2].0
            == "origin_z"@);
        assert forall|i: int| 0 <= i < origin.len() implies 0 <= rank((#[trigger] origin[i]).0)
            < 3 by {
            assert(i == 0 || i == 1 || i == 2);
        }
    }
    assert(ranked(direction, rank, 3, 6)) by {
        assert(direction[0].0 == "dir_x"@ && direction[1].0 == "dir_y"@ && direction[2].0
            == "dir_z"@);
        assert forall|i: int| 0 <= i < direction.len() implies 3 <= rank(
            (#[trigger] direction[i]).0,
        ) < 6 by {
            assert(i == 0 || i == 1 || i == 2);
        }
    }
    lemma_ranked_append(origin, direction, rank, 0, 3, 6);
    assert(origin + direction =~= ray_steps(width, height, camera));
    assert(ranked(t, rank, 6, 7)) by {
        assert(t[0].0 == "t"@);
    }
    lemma_ranked_append(origin + direction, t, rank, 0, 6, 7);
    assert(ranked(normals, rank, 7, 10)) by {
        assert forall|i: int| 0 <= i < normals.len() implies 7 <= rank((#[trigger] normals[i]).0)
            < 10 by {
            assert(i == 0 || i == 1 || i == 2);
        }
    }
    lemma_ranked_append(origin + direction + t, normals, rank, 0, 7, 10);
    assert(ranked(colors, rank, 10, 13)) by {
        assert forall|i: int| 0 <= i < colors.len() implies 10 <= rank((#[trigger] colors[i]).0)
            < 13 by {
            assert(i == 0 || i == 1 || i == 2);
        }
    }
    lemma_ranked_append(origin + direction + t + normals, colors, rank, 0, 10, 13);
    let steps = dataframe_sphere::scene_steps(width, height, camera, sphere);
    lemma_ranked_own(steps, pixel_table(), rank, 0, 13);
}

/// What a normal is: as long as the radius says, it is the way from the centre.
#[verifier::spinoff_prover]
pub(crate) proof fn lemma_normal_from_center(r: Reals, ball: Ball, point: Triple, row: IdealRow)
    requires
        are_given(r, point, row),
        (r.number)(ball.radius.bits) != 0 as real,
    ensures
        are_given(r, ball.normal_at(point), row),
        arrow(r, ball.normal_at(point), row).scaled((r.number)(ball.radius.bits)) == arrow(
            r,
            point,
            row,
        ).minus(spot(r, ball.center_x, ball.center_y, ball.center_z)),
{
    let radius = number(ball.radius.bits);
    let k = (r.number)(ball.radius.bits);
    let way = point.minus(ball.center());
    lemma_real_number(r, ball.center_x.bits, row);
    lemma_real_number(r, ball.center_y.bits, row);
    lemma_real_number(r, ball.center_z.bits, row);
    lemma_real_number(r, ball.radius.bits, row);
    lemma_real_minus(r, point, ball.center(), row);
    lemma_real_binary(r, way.x, Operator::Over, radius, row);
    lemma_real_binary(r, way.y, Operator::Over, radius, row);
    lemma_real_binary(r, way.z, Operator::Over, radius, row);
    lemma_quotient(k, real_of(r, way.x, row));
    lemma_quotient(k, real_of(r, way.y, row));
    lemma_quotient(k, real_of(r, way.z, row));
}

/// The point of a ray at a parameter that is there.
#[verifier::spinoff_prover]
pub(crate) proof fn lemma_point_on_ray(
    r: Reals,
    origin: Triple,
    direction: Triple,
    t: Node,
    row: IdealRow,
)
    requires
        are_given(r, origin, row),
        are_given(r, direction, row),
        is_given(r, t, row),
    ensures
        are_given(r, point_at(origin, direction, t), row),
        arrow(r, point_at(origin, direction, t), row) == along_ray(
            arrow(r, origin, row),
            arrow(r, direction, row),
            real_of(r, t, row),
        ),
{
    lemma_real_scaled(r, direction, t, row);
    lemma_real_plus(r, origin, direction.scaled(t), row);
}

/// The columns of the scene hold what their formulas say.
proof fn lemma_single_holds(
    r: Reals,
    width: nat,
    height: nat,
    camera: Camera,
    sphere: dataframe_sphere::Sphere,
    row: IdealRow,
)
    ensures
        ({
            let steps = dataframe_sphere::scene_steps(width, height, camera, sphere);
            let a = r.run(steps, row);
            let ball = sphere.shape();
            let t = meeting(camera_origin(), camera_direction(), ball, Side::Near);
            let point = point_at(camera_origin(), camera_direction(), column("t"@));
            let normal = ball.normal_at(point);
            &&& r.value(column("x"@), a) == r.value(column("x"@), row)
            &&& r.value(column("y"@), a) == r.value(column("y"@), row)
            &&& forall|i: int|
                0 <= i < 6 ==> r.value(
                    column((#[trigger] ray_steps(width, height, camera)[i]).0),
                    a,
                ) == r.value(ray_steps(width, height, camera)[i].1, a)
            &&& r.value(column("t"@), a) == r.value(t, a)
            &&& r.value(column("s0_normal_x"@), a) == r.value(normal.x, a)
            &&& r.value(column("s0_normal_y"@), a) == r.value(normal.y, a)
            &&& r.value(column("s0_normal_z"@), a) == r.value(normal.z, a)
            &&& r.value(column("s0_r"@), a) == r.value(
                dataframe_sphere::color_steps("t"@, "s0"@)[0].1,
                a,
            )
            &&& r.value(column("s0_g"@), a) == r.value(
                dataframe_sphere::color_steps("t"@, "s0"@)[1].1,
                a,
            )
            &&& r.value(column("s0_b"@), a) == r.value(
                dataframe_sphere::color_steps("t"@, "s0"@)[2].1,
                a,
            )
        }),
{
    let steps = dataframe_sphere::scene_steps(width, height, camera, sphere);
    let a = r.run(steps, row);
    law_dataframe_sphere_is_sound(width, height, camera, sphere);
    lemma_single_names(width, height, camera, sphere);
    lemma_single_ranks();
    law_ideal_columns_hold(r, steps, row, pixel_table(), only_numbers());
    assert(pixel_table().contains("x"@) && pixel_table().contains("y"@));
    let rays = ray_steps(width, height, camera);
    assert forall|i: int| 0 <= i < 6 implies r.value(column((#[trigger] rays[i]).0), a) == r.value(
        rays[i].1,
        a,
    ) by {
        assert(steps[i] == rays[i]);
    }
    assert(steps[6] == dataframe_sphere::intersect_steps(sphere, "t"@)[0]);
    let normals = dataframe_sphere::normal_steps(sphere, "t"@, "s0"@);
    assert(steps[7] == normals[0] && steps[8] == normals[1] && steps[9] == normals[2]);
    let colors = dataframe_sphere::color_steps("t"@, "s0"@);
    assert(steps[10] == colors[0] && steps[11] == colors[1] && steps[12] == colors[2]);
}

/// A component of a normal, from -1 to 1, spread over 0 to 255.
pub open spec fn spread(component: real) -> real {
    product(product(component + 1 as real, one_half()), 255 as real)
}

/// A channel of the scene: that of the normal where the sphere is in front.
#[verifier::spinoff_prover]
proof fn lemma_normal_channel(
    r: Reals,
    t_column: Seq<char>,
    component: Seq<char>,
    background: u64,
    row: IdealRow,
)
    requires
        r.is_faithful(),
        r.value(column(t_column), row) is Missing || is_given(r, column(t_column), row),
        is_given(r, column(t_column), row) ==> is_given(r, column(component), row),
    ensures
        r.value(dataframe_sphere::normal_channel(t_column, component, background), row)
            == Ideal::Number(
            if is_given(r, column(t_column), row) && real_of(r, column(t_column), row) > 0 as real {
                spread(real_of(r, column(component), row))
            } else {
                (r.number)(background)
            },
        ),
{
    let (t, c, zero) = (column(t_column), column(component), number(ZERO));
    let (one, half, full) = (number(ONE), number(HALF), number(CHANNEL_MAX));
    let hit = t.is_not_null().and(t.gt(zero));
    let shade = c.plus(one).times(half).times(full);
    lemma_real_number(r, ZERO, row);
    lemma_real_number(r, ONE, row);
    lemma_real_number(r, HALF, row);
    lemma_real_number(r, CHANNEL_MAX, row);
    lemma_real_number(r, background, row);
    lemma_ideal_binary(r, t, Operator::Greater, zero, row);
    lemma_ideal_is_not_null(r, t, row);
    lemma_ideal_binary(r, t.is_not_null(), Operator::And, t.gt(zero), row);
    lemma_real_case(r, hit, shade, number(background), row);
    if is_given(r, t, row) {
        lemma_real_binary(r, c, Operator::Plus, one, row);
        lemma_real_binary(r, c.plus(one), Operator::Times, half, row);
        lemma_real_binary(r, c.plus(one).times(half), Operator::Times, full, row);
    }
}

/// What the scene asks of its inputs: a camera that looks somewhere and a sphere of some
/// size.
pub open spec fn is_single_view(
    r: Reals,
    camera: Camera,
    sphere: dataframe_sphere::Sphere,
) -> bool {
    &&& r.is_faithful()
    &&& (r.number)(camera.focal_length.bits) != 0 as real
    &&& (r.number)(sphere.radius.bits) != 0 as real
}

/// What a row holds of a single sphere: the ray of its pixel, where that enters the
/// sphere, the normal there, and the colour.
pub open spec fn shows_sphere(
    r: Reals,
    a: IdealRow,
    width: nat,
    height: nat,
    camera: Camera,
    sphere: dataframe_sphere::Sphere,
    x: real,
    y: real,
) -> bool {
    let way = way_to_pixel(r, width, height, camera, x, y);
    let center = spot(r, sphere.center_x, sphere.center_y, sphere.center_z);
    let radius = (r.number)(sphere.radius.bits);
    let t = r.value(column("t"@), a);
    let normal = arrow(
        r,
        columns("s0_normal_x"@, "s0_normal_y"@, "s0_normal_z"@),
        a,
    );
    &&& is_pixel(r, a, x, y)
    &&& has_arrow(r, a, "origin_x"@, "origin_y"@, "origin_z"@, nowhere())
    &&& has_arrow(r, a, "dir_x"@, "dir_y"@, "dir_z"@, way)
    &&& is_entry(nowhere(), way, center, radius, t)
    &&& t is Number ==> {
        &&& has_arrow(r, a, "s0_normal_x"@, "s0_normal_y"@, "s0_normal_z"@, normal)
        &&& normal.scaled(radius) == along_ray(nowhere(), way, t->Number_0).minus(center)
    }
    &&& if t is Number && t->Number_0 > 0 as real {
        has_arrow(
            r,
            a,
            "s0_r"@,
            "s0_g"@,
            "s0_b"@,
            Arrow { x: spread(normal.x), y: spread(normal.y), z: spread(normal.z) },
        )
    } else {
        has_arrow(
            r,
            a,
            "s0_r"@,
            "s0_g"@,
            "s0_b"@,
            Arrow {
                x: (r.number)(dataframe_sphere::BACKGROUND_R),
                y: (r.number)(dataframe_sphere::BACKGROUND_G),
                z: 255 as real,
            },
        )
    }
}

/// What a pixel shows of a single sphere. The camera looks through it; `t` is where
/// that ray enters the sphere, missing if it passes by; the normal there points from
/// the centre and has length one; and where the sphere is in front of the camera the
/// normal is the colour, elsewhere the background.
#[verifier::spinoff_prover]
pub proof fn law_single_sphere(
    r: Reals,
    width: nat,
    height: nat,
    camera: Camera,
    sphere: dataframe_sphere::Sphere,
    row: IdealRow,
    x: real,
    y: real,
)
    requires
        is_single_view(r, camera, sphere),
        width <= u32::MAX,
        height <= u32::MAX,
        is_pixel(r, row, x, y),
    ensures
        shows_sphere(
            r,
            r.run(dataframe_sphere::scene_steps(width, height, camera, sphere), row),
            width,
            height,
            camera,
            sphere,
            x,
            y,
        ),
{
    let a = r.run(dataframe_sphere::scene_steps(width, height, camera, sphere), row);
    let way = way_to_pixel(r, width, height, camera, x, y);
    lemma_single_holds(r, width, height, camera, sphere, row);
    lemma_camera_rays(r, width, height, camera, a, x, y);
    lemma_some_way(way);
    let (o, d, ball) = (camera_origin(), camera_direction(), sphere.shape());
    law_meeting(r, o, d, ball, a);
    let t = column("t"@);
    if r.value(t, a) is Number {
        lemma_point_on_ray(r, o, d, t, a);
        lemma_normal_from_center(r, ball, point_at(o, d, t), a);
    }
    lemma_single_ranks();
    let colors = dataframe_sphere::color_steps("t"@, "s0"@);
    lemma_normal_channel(r, "t"@, "s0_normal_x"@, dataframe_sphere::BACKGROUND_R, a);
    lemma_normal_channel(r, "t"@, "s0_normal_y"@, dataframe_sphere::BACKGROUND_G, a);
    lemma_normal_channel(r, "t"@, "s0_normal_z"@, dataframe_sphere::BACKGROUND_B, a);
}

/// The column for where the camera's ray meets a sphere, under any name.
#[verifier::spinoff_prover]
pub proof fn law_meeting_column(
    r: Reals,
    sphere: dataframe_sphere::Sphere,
    t_column: Seq<char>,
    row: IdealRow,
)
    requires
        r.is_faithful(),
        are_given(r, columns("origin_x"@, "origin_y"@, "origin_z"@), row),
        are_given(r, columns("dir_x"@, "dir_y"@, "dir_z"@), row),
        ({
            let d = arrow(r, columns("dir_x"@, "dir_y"@, "dir_z"@), row);
            d.dot(d) > 0 as real
        }),
    ensures
        ({
            let steps = dataframe_sphere::intersect_steps(sphere, t_column);
            &&& steps.len() == 1
            &&& steps[0].0 == t_column
            &&& is_entry(
                arrow(r, columns("origin_x"@, "origin_y"@, "origin_z"@), row),
                arrow(r, columns("dir_x"@, "dir_y"@, "dir_z"@), row),
                spot(r, sphere.center_x, sphere.center_y, sphere.center_z),
                (r.number)(sphere.radius.bits),
                r.value(steps[0].1, row),
            )
        }),
{
    law_meeting(r, camera_origin(), camera_direction(), sphere.shape(), row);
}

/// The columns for the normal where the camera's ray meets a sphere, under any names.
#[verifier::spinoff_prover]
pub proof fn law_normal_columns(
    r: Reals,
    sphere: dataframe_sphere::Sphere,
    t_column: Seq<char>,
    prefix: Seq<char>,
    row: IdealRow,
)
    requires
        r.is_faithful(),
        (r.number)(sphere.radius.bits) != 0 as real,
        are_given(r, columns("origin_x"@, "origin_y"@, "origin_z"@), row),
        are_given(r, columns("dir_x"@, "dir_y"@, "dir_z"@), row),
        is_given(r, column(t_column), row),
    ensures
        ({
            let steps = dataframe_sphere::normal_steps(sphere, t_column, prefix);
            let normal = Triple { x: steps[0].1, y: steps[1].1, z: steps[2].1 };
            &&& steps.len() == 3
            &&& steps[0].0 == prefix + "_normal_x"@
            &&& steps[1].0 == prefix + "_normal_y"@
            &&& steps[2].0 == prefix + "_normal_z"@
            &&& are_given(r, normal, row)
            &&& arrow(r, normal, row).scaled((r.number)(sphere.radius.bits)) == along_ray(
                arrow(r, columns("origin_x"@, "origin_y"@, "origin_z"@), row),
                arrow(r, columns("dir_x"@, "dir_y"@, "dir_z"@), row),
                real_of(r, column(t_column), row),
            ).minus(spot(r, sphere.center_x, sphere.center_y, sphere.center_z))
        }),
{
    let (o, d, t) = (camera_origin(), camera_direction(), column(t_column));
    lemma_point_on_ray(r, o, d, t, row);
    lemma_normal_from_center(r, sphere.shape(), point_at(o, d, t), row);
}

/// The columns for the colour by the normal, under any names.
#[verifier::spinoff_prover]
pub proof fn law_color_columns(
    r: Reals,
    t_column: Seq<char>,
    prefix: Seq<char>,
    row: IdealRow,
)
    requires
        r.is_faithful(),
        is_given(r, column(t_column), row),
        are_given(
            r,
            columns(prefix + "_normal_x"@, prefix + "_normal_y"@, prefix + "_normal_z"@),
            row,
        ),
    ensures
        ({
            let steps = dataframe_sphere::color_steps(t_column, prefix);
            let normal = arrow(
                r,
                columns(prefix + "_normal_x"@, prefix + "_normal_y"@, prefix + "_normal_z"@),
                row,
            );
            let front = real_of(r, column(t_column), row) > 0 as real;
            &&& steps.len() == 3
            &&& steps[0].0 == prefix + "_r"@
            &&& steps[1].0 == prefix + "_g"@
            &&& steps[2].0 == prefix + "_b"@
            &&& front ==> r.value(steps[0].1, row) == Ideal::Number(spread(normal.x))
            &&& front ==> r.value(steps[1].1, row) == Ideal::Number(spread(normal.y))
            &&& front ==> r.value(steps[2].1, row) == Ideal::Number(spread(normal.z))
            &&& !front ==> r.value(steps[0].1, row) == Ideal::Number(
                (r.number)(dataframe_sphere::BACKGROUND_R),
            )
            &&& !front ==> r.value(steps[1].1, row) == Ideal::Number(
                (r.number)(dataframe_sphere::BACKGROUND_G),
            )
            &&& !front ==> r.value(steps[2].1, row) == Ideal::Number(255 as real)
        }),
{
    let (x, y, z) = (prefix + "_normal_x"@, prefix + "_normal_y"@, prefix + "_normal_z"@);
    lemma_normal_channel(r, t_column, x, dataframe_sphere::BACKGROUND_R, row);
    lemma_normal_channel(r, t_column, y, dataframe_sphere::BACKGROUND_G, row);
    lemma_normal_channel(r, t_column, z, dataframe_sphere::BACKGROUND_B, row);
}

} // verus!

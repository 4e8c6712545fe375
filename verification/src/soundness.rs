//! Every scene's plan is sound: each column that it adds is made of columns that are
//! there by then, and of values of the right sort.
use crate::dataframe_sphere;
use crate::engine::{has_plain_names, can_be_lowered, is_plain};
use crate::formula::{Node, column, number};
use crate::meaning::{
    Sort, Sorts, group_sorts, is_index, is_number, is_sound, is_truth, lemma_sound_append,
    lemma_sound_at_once, names, sort_of, table,
};
use crate::multi_sphere;
use crate::number::{Number, ONE, ZERO};
use crate::plan::{Steps, vector_steps};
use crate::shadows;
use crate::trace::{
    Ball, Camera, Side, Solid, ahead, ahead_before, ahead_steps, any_present, brightness,
    camera_direction, camera_origin, chosen, clamped, closer, hit_index, hit_normal, is_nearest,
    meeting, nearest, point_at, quadratic, ray_steps, sky, sphere_columns, surface, view_direction,
};
use crate::vector::{Triple, columns, numbers};
use vstd::prelude::*;

verus! {

/// In a tree of the right sorts no case has literals of two kinds as outcomes.
pub proof fn law_sorted_can_be_lowered(node: Node, sorts: Sorts)
    requires
        sort_of(node, sorts) is Some,
    ensures
        can_be_lowered(node),
    decreases node,
{
    match node {
        Node::Binary(_, left, right) => {
            law_sorted_can_be_lowered(*left, sorts);
            law_sorted_can_be_lowered(*right, sorts);
        },
        Node::IsNull(inner) | Node::IsNotNull(inner) | Node::Sqrt(inner) | Node::Abs(inner) => {
            law_sorted_can_be_lowered(*inner, sorts);
        },
        Node::Power(base, exponent) => {
            law_sorted_can_be_lowered(*base, sorts);
            law_sorted_can_be_lowered(*exponent, sorts);
        },
        Node::Case(condition, value, otherwise) => {
            law_sorted_can_be_lowered(*condition, sorts);
            law_sorted_can_be_lowered(*value, sorts);
            law_sorted_can_be_lowered(*otherwise, sorts);
        },
        _ => {},
    }
}

/// In a sound plan no case has literals of two kinds as outcomes: every column of it
/// can be lowered.
pub proof fn law_sound_can_be_lowered(
    steps: Steps,
    columns: Set<Seq<char>>,
    by_name: spec_fn(Seq<char>) -> Sort,
)
    requires
        is_sound(steps, columns, by_name),
    ensures
        forall|i: int| 0 <= i < steps.len() ==> can_be_lowered((#[trigger] steps[i]).1),
{
    assert forall|i: int| 0 <= i < steps.len() implies can_be_lowered((#[trigger] steps[i]).1) by {
        law_sorted_can_be_lowered(
            steps[i].1,
            table(columns.union(names(steps.take(i))), by_name),
        );
    }
}

/// A tree that needs only columns with plain names has only plain names in it.
proof fn lemma_plain_names(node: Node, sorts: Sorts)
    requires
        sort_of(node, sorts) is Some,
        forall|name: Seq<char>| #[trigger] sorts.contains_key(name) ==> is_plain(name),
    ensures
        has_plain_names(node),
    decreases node,
{
    match node {
        Node::Binary(_, left, right) => {
            lemma_plain_names(*left, sorts);
            lemma_plain_names(*right, sorts);
        },
        Node::IsNull(inner) | Node::IsNotNull(inner) | Node::Sqrt(inner) | Node::Abs(inner) => {
            lemma_plain_names(*inner, sorts);
        },
        Node::Power(base, exponent) => {
            lemma_plain_names(*base, sorts);
            lemma_plain_names(*exponent, sorts);
        },
        Node::Case(condition, value, otherwise) => {
            lemma_plain_names(*condition, sorts);
            lemma_plain_names(*value, sorts);
            lemma_plain_names(*otherwise, sorts);
        },
        _ => {},
    }
}

/// Where the columns of a sound plan have plain names, so have all that it reads:
/// the engine takes them as they are written.
pub proof fn law_sound_names_stay(
    steps: Steps,
    columns: Set<Seq<char>>,
    by_name: spec_fn(Seq<char>) -> Sort,
)
    requires
        is_sound(steps, columns, by_name),
        forall|name: Seq<char>| #[trigger] columns.contains(name) ==> is_plain(name),
        forall|i: int| 0 <= i < steps.len() ==> is_plain((#[trigger] steps[i]).0),
    ensures
        forall|i: int| 0 <= i < steps.len() ==> has_plain_names((#[trigger] steps[i]).1),
{
    assert forall|i: int| 0 <= i < steps.len() implies has_plain_names((#[trigger] steps[i]).1) by {
        let before = steps.take(i);
        let sorts = table(columns.union(names(before)), by_name);
        assert forall|name: Seq<char>| #[trigger] sorts.contains_key(name) implies is_plain(
            name,
        ) by {
            if !columns.contains(name) {
                let j = choose|j: int| 0 <= j < before.len() && (#[trigger] before[j]).0 == name;
                assert(before[j] == steps[j]);
            }
        }
        lemma_plain_names(steps[i].1, sorts);
    }
}

// ---------------------------------------------------------------------------
// The building blocks
// ---------------------------------------------------------------------------

/// Whether the components of a vector are numbers.
pub(crate) open spec fn is_vector(v: Triple, sorts: Sorts) -> bool {
    is_number(v.x, sorts) && is_number(v.y, sorts) && is_number(v.z, sorts)
}

pub(crate) proof fn lemma_columns(x: Seq<char>, y: Seq<char>, z: Seq<char>, sorts: Sorts)
    requires
        sorts.contains_key(x) && sorts[x] is Number,
        sorts.contains_key(y) && sorts[y] is Number,
        sorts.contains_key(z) && sorts[z] is Number,
    ensures
        is_vector(columns(x, y, z), sorts),
{
    broadcast use group_sorts;

}

pub(crate) proof fn lemma_meeting(origin: Triple, direction: Triple, ball: Ball, side: Side, sorts: Sorts)
    requires
        is_vector(origin, sorts),
        is_vector(direction, sorts),
    ensures
        is_number(meeting(origin, direction, ball, side), sorts),
{
    broadcast use group_sorts;

    let q = quadratic(origin, direction, ball);
    let offset = origin.minus(ball.center());
    assert(is_vector(offset, sorts));
    assert(is_number(q.a, sorts));
    assert(is_number(q.half_b, sorts));
    assert(is_number(q.c, sorts));
    assert(is_number(q.discriminant(), sorts));
    assert(is_number(q.smaller(), sorts));
    assert(is_number(q.greater(), sorts));
    assert(is_number(Node::NullNumber, sorts));
    assert(is_truth(q.discriminant().gt_eq(number(ZERO)), sorts));
}

pub(crate) proof fn lemma_ahead(t: Node, sorts: Sorts)
    requires
        is_number(t, sorts),
    ensures
        is_number(ahead(t), sorts),
{
    broadcast use group_sorts;

    assert(is_number(Node::NullNumber, sorts));
}

pub(crate) proof fn lemma_ahead_before(t: Node, limit: Node, sorts: Sorts)
    requires
        is_number(t, sorts),
        is_number(limit, sorts),
    ensures
        is_number(ahead_before(t, limit), sorts),
{
    broadcast use group_sorts;

    assert(is_number(Node::NullNumber, sorts));
}

pub(crate) proof fn lemma_nearest(ts: Seq<Node>, sorts: Sorts)
    requires
        ts.len() > 0,
        forall|i: int| 0 <= i < ts.len() ==> is_number(#[trigger] ts[i], sorts),
    ensures
        is_number(nearest(ts), sorts),
    decreases ts.len(),
{
    broadcast use group_sorts;

    if ts.len() > 1 {
        let before = ts.drop_last();
        assert forall|i: int| 0 <= i < before.len() implies is_number(#[trigger] before[i], sorts) by {
            assert(before[i] == ts[i]);
        }
        lemma_nearest(before, sorts);
        assert(is_number(ts.last(), sorts));
        assert(is_number(closer(nearest(before), ts.last()), sorts));
    }
}

pub(crate) proof fn lemma_hit_index(ts: Seq<Node>, nearest: Node, sorts: Sorts)
    requires
        forall|i: int| 0 <= i < ts.len() ==> is_number(#[trigger] ts[i], sorts),
        is_number(nearest, sorts),
    ensures
        is_index(hit_index(ts, nearest), sorts),
    decreases ts.len(),
{
    broadcast use group_sorts;

    if ts.len() > 0 {
        let before = ts.drop_last();
        assert forall|i: int| 0 <= i < before.len() implies is_number(#[trigger] before[i], sorts) by {
            assert(before[i] == ts[i]);
        }
        lemma_hit_index(before, nearest, sorts);
        assert(is_number(ts.last(), sorts));
        assert(is_truth(is_nearest(ts.last(), nearest), sorts));
        assert(is_index(Node::Index((ts.len() - 1) as i32), sorts));
    }
}

pub(crate) proof fn lemma_chosen(hit: Node, options: Seq<Node>, otherwise: Node, sorts: Sorts)
    requires
        is_index(hit, sorts),
        forall|i: int| 0 <= i < options.len() ==> is_number(#[trigger] options[i], sorts),
        is_number(otherwise, sorts),
    ensures
        is_number(chosen(hit, options, otherwise), sorts),
    decreases options.len(),
{
    broadcast use group_sorts;

    if options.len() > 0 {
        let before = options.drop_last();
        assert forall|i: int| 0 <= i < before.len() implies is_number(#[trigger] before[i], sorts) by {
            assert(before[i] == options[i]);
        }
        lemma_chosen(hit, before, otherwise, sorts);
        assert(is_number(options.last(), sorts));
        assert(is_index(Node::Index((options.len() - 1) as i32), sorts));
    }
}

pub(crate) proof fn lemma_any_present(ts: Seq<Node>, sorts: Sorts)
    requires
        forall|i: int| 0 <= i < ts.len() ==> is_number(#[trigger] ts[i], sorts),
    ensures
        is_truth(any_present(ts), sorts),
    decreases ts.len(),
{
    broadcast use group_sorts;

    if ts.len() > 0 {
        let before = ts.drop_last();
        assert forall|i: int| 0 <= i < before.len() implies is_number(#[trigger] before[i], sorts) by {
            assert(before[i] == ts[i]);
        }
        lemma_any_present(before, sorts);
        assert(is_number(ts.last(), sorts));
    }
}

pub(crate) proof fn lemma_normal<S: Solid>(spheres: Seq<S>, hit: Node, point: Triple, sorts: Sorts)
    requires
        is_index(hit, sorts),
        is_vector(point, sorts),
    ensures
        is_vector(hit_normal(spheres, hit, point), sorts),
{
    broadcast use group_sorts;

    let normal = |i: int| spheres[i].shape().normal_at(point);
    let n = spheres.len();
    assert forall|i: int| 0 <= i < n implies is_vector(#[trigger] normal(i), sorts) by {
        assert(is_vector(spheres[i].shape().center(), sorts));
    }
    let xs = Seq::new(n, |i: int| normal(i).x);
    let ys = Seq::new(n, |i: int| normal(i).y);
    let zs = Seq::new(n, |i: int| normal(i).z);
    assert forall|i: int| 0 <= i < n implies is_number(#[trigger] xs[i], sorts) by {
        assert(is_vector(normal(i), sorts));
    }
    assert forall|i: int| 0 <= i < n implies is_number(#[trigger] ys[i], sorts) by {
        assert(is_vector(normal(i), sorts));
    }
    assert forall|i: int| 0 <= i < n implies is_number(#[trigger] zs[i], sorts) by {
        assert(is_vector(normal(i), sorts));
    }
    lemma_chosen(hit, xs, number(ZERO), sorts);
    lemma_chosen(hit, ys, number(ZERO), sorts);
    lemma_chosen(hit, zs, number(ZERO), sorts);
}

pub(crate) proof fn lemma_brightness(
    light: Triple,
    intensity: u64,
    ambient: u64,
    point: Triple,
    normal: Triple,
    in_shadow: Node,
    sorts: Sorts,
)
    requires
        is_vector(light, sorts),
        is_vector(point, sorts),
        is_vector(normal, sorts),
        is_truth(in_shadow, sorts),
    ensures
        is_number(brightness(light, intensity, ambient, point, normal, in_shadow), sorts),
{
    broadcast use group_sorts;

    let to_light = light.minus(point);
    assert(is_vector(to_light, sorts));
    assert(is_number(to_light.length(), sorts));
    assert(is_vector(to_light.normalized(), sorts));
    let incidence = normal.dot(to_light.normalized());
    assert(is_number(incidence, sorts));
}

pub(crate) proof fn lemma_clamped(value: Node, sorts: Sorts)
    requires
        is_number(value, sorts),
    ensures
        is_number(clamped(value), sorts),
{
    broadcast use group_sorts;

}

/// A vector's columns are sound where its components are numbers.
pub(crate) proof fn lemma_vector_steps(
    x: Seq<char>,
    y: Seq<char>,
    z: Seq<char>,
    v: Triple,
    there: Set<Seq<char>>,
    by_name: spec_fn(Seq<char>) -> Sort,
)
    requires
        is_vector(v, table(there, by_name)),
        by_name(x) is Number,
        by_name(y) is Number,
        by_name(z) is Number,
    ensures
        is_sound(vector_steps(x, y, z, v), there, by_name),
        names(vector_steps(x, y, z, v)) == set![x, y, z],
{
    let steps = vector_steps(x, y, z, v);
    lemma_sound_at_once(steps, there, by_name);
    assert(steps[0].0 == x && steps[1].0 == y && steps[2].0 == z);
    assert(names(steps) =~= set![x, y, z]);
}

/// One column is sound where its values have the sort that its name says.
pub(crate) proof fn lemma_one_step(
    name: Seq<char>,
    node: Node,
    there: Set<Seq<char>>,
    by_name: spec_fn(Seq<char>) -> Sort,
)
    requires
        sort_of(node, table(there, by_name)) == Some(by_name(name)),
    ensures
        is_sound(seq![(name, node)], there, by_name),
        names(seq![(name, node)]) == set![name],
{
    let steps = seq![(name, node)];
    lemma_sound_at_once(steps, there, by_name);
    assert(steps[0].0 == name);
    assert(names(steps) =~= set![name]);
}

/// The columns of the spheres' parameters are sound.
pub(crate) proof fn lemma_ahead_steps<S: Solid>(
    spheres: Seq<S>,
    origin: Triple,
    direction: Triple,
    prefix: Seq<char>,
    there: Set<Seq<char>>,
    by_name: spec_fn(Seq<char>) -> Sort,
)
    requires
        is_vector(origin, table(there, by_name)),
        is_vector(direction, table(there, by_name)),
        forall|name: Seq<char>| #[trigger] by_name(prefix + name) is Number,
    ensures
        is_sound(ahead_steps(spheres, origin, direction, prefix), there, by_name),
        forall|i: int|
            0 <= i < spheres.len() ==> names(
                ahead_steps(spheres, origin, direction, prefix),
            ).contains(prefix + (#[trigger] spheres[i]).label()),
{
    let steps = ahead_steps(spheres, origin, direction, prefix);
    assert forall|i: int| 0 <= i < steps.len() implies sort_of(
        (#[trigger] steps[i]).1,
        table(there, by_name),
    ) == Some(by_name(steps[i].0)) by {
        let t = meeting(origin, direction, spheres[i].shape(), Side::Near);
        lemma_meeting(origin, direction, spheres[i].shape(), Side::Near, table(there, by_name));
        lemma_ahead(t, table(there, by_name));
        assert(by_name(prefix + spheres[i].label()) is Number);
    }
    lemma_sound_at_once(steps, there, by_name);
    assert forall|i: int| 0 <= i < spheres.len() implies names(steps).contains(
        prefix + (#[trigger] spheres[i]).label(),
    ) by {
        assert(steps[i].0 == prefix + spheres[i].label());
    }
}

/// The spheres' columns are numbers where they are there.
pub(crate) proof fn lemma_sphere_columns<S: Solid>(
    spheres: Seq<S>,
    prefix: Seq<char>,
    there: Set<Seq<char>>,
    by_name: spec_fn(Seq<char>) -> Sort,
)
    requires
        forall|i: int|
            0 <= i < spheres.len() ==> there.contains(prefix + (#[trigger] spheres[i]).label()),
        forall|name: Seq<char>| #[trigger] by_name(prefix + name) is Number,
    ensures
        forall|i: int|
            0 <= i < spheres.len() ==> is_number(
                #[trigger] sphere_columns(spheres, prefix)[i],
                table(there, by_name),
            ),
{
    broadcast use group_sorts;

    assert forall|i: int| 0 <= i < spheres.len() implies is_number(
        #[trigger] sphere_columns(spheres, prefix)[i],
        table(there, by_name),
    ) by {
        assert(there.contains(prefix + spheres[i].label()));
        assert(by_name(prefix + spheres[i].label()) is Number);
    }
}

/// The camera's rays are sound.
proof fn lemma_ray_steps(
    width: nat,
    height: nat,
    camera: Camera,
    there: Set<Seq<char>>,
    by_name: spec_fn(Seq<char>) -> Sort,
)
    requires
        there.contains("x"@) && by_name("x"@) is Number,
        there.contains("y"@) && by_name("y"@) is Number,
        by_name("origin_x"@) is Number,
        by_name("origin_y"@) is Number,
        by_name("origin_z"@) is Number,
        by_name("dir_x"@) is Number,
        by_name("dir_y"@) is Number,
        by_name("dir_z"@) is Number,
    ensures
        is_sound(ray_steps(width, height, camera), there, by_name),
        names(ray_steps(width, height, camera)) == set!["origin_x"@, "origin_y"@, "origin_z"@,
            "dir_x"@, "dir_y"@, "dir_z"@],
{
    broadcast use group_sorts;

    let origin = numbers(ZERO, ZERO, ZERO);
    let direction = view_direction(width, height, camera);
    let first = vector_steps("origin_x"@, "origin_y"@, "origin_z"@, origin);
    lemma_vector_steps("origin_x"@, "origin_y"@, "origin_z"@, origin, there, by_name);
    let more = there.union(names(first));
    assert(is_vector(direction, table(more, by_name)));
    lemma_vector_steps("dir_x"@, "dir_y"@, "dir_z"@, direction, more, by_name);
    let second = vector_steps("dir_x"@, "dir_y"@, "dir_z"@, direction);
    lemma_sound_append(first, second, there, by_name);
    assert(names(first).union(names(second)) =~= set!["origin_x"@, "origin_y"@, "origin_z"@,
        "dir_x"@, "dir_y"@, "dir_z"@]);
}

// ---------------------------------------------------------------------------
// The scenes
// ---------------------------------------------------------------------------

/// The columns of the pixel table: the place of the pixel.
pub open spec fn pixel_table() -> Set<Seq<char>> {
    set!["x"@, "y"@]
}

/// In the scene with a single sphere all columns are numbers.
pub open spec fn only_numbers() -> spec_fn(Seq<char>) -> Sort {
    |name: Seq<char>| Sort::Number
}

/// Whether there are camera rays: their origin and direction.
spec fn has_rays(there: Set<Seq<char>>) -> bool {
    &&& there.contains("origin_x"@) && there.contains("origin_y"@) && there.contains("origin_z"@)
    &&& there.contains("dir_x"@) && there.contains("dir_y"@) && there.contains("dir_z"@)
}

/// Whether the columns of the camera's rays are numbers.
spec fn rays_are_numbers(by_name: spec_fn(Seq<char>) -> Sort) -> bool {
    &&& by_name("x"@) is Number && by_name("y"@) is Number
    &&& by_name("origin_x"@) is Number && by_name("origin_y"@) is Number && by_name("origin_z"@)
        is Number
    &&& by_name("dir_x"@) is Number && by_name("dir_y"@) is Number && by_name("dir_z"@) is Number
}

/// The camera's rays as vectors.
proof fn lemma_rays(there: Set<Seq<char>>, by_name: spec_fn(Seq<char>) -> Sort)
    requires
        has_rays(there),
        rays_are_numbers(by_name),
    ensures
        is_vector(camera_origin(), table(there, by_name)),
        is_vector(camera_direction(), table(there, by_name)),
{
    lemma_columns("origin_x"@, "origin_y"@, "origin_z"@, table(there, by_name));
    lemma_columns("dir_x"@, "dir_y"@, "dir_z"@, table(there, by_name));
}

/// A point of a ray, and the normal there, are vectors.
pub(crate) proof fn lemma_point(origin: Triple, direction: Triple, t: Node, sorts: Sorts)
    requires
        is_vector(origin, sorts),
        is_vector(direction, sorts),
        is_number(t, sorts),
    ensures
        is_vector(point_at(origin, direction, t), sorts),
{
    broadcast use group_sorts;

}

/// The normal of a sphere at a point is a vector.
pub(crate) proof fn lemma_normal_at(ball: Ball, point: Triple, sorts: Sorts)
    requires
        is_vector(point, sorts),
    ensures
        is_vector(ball.normal_at(point), sorts),
{
    broadcast use group_sorts;

    assert(is_vector(ball.center(), sorts));
}

/// The columns of a sphere's normals are sound.
proof fn lemma_normals_of_sphere(
    sphere: dataframe_sphere::Sphere,
    t: Seq<char>,
    prefix: Seq<char>,
    there: Set<Seq<char>>,
)
    requires
        has_rays(there),
        there.contains(t),
    ensures
        is_sound(dataframe_sphere::normal_steps(sphere, t, prefix), there, only_numbers()),
        names(dataframe_sphere::normal_steps(sphere, t, prefix)) == set![prefix + "_normal_x"@,
            prefix + "_normal_y"@, prefix + "_normal_z"@],
{
    let by_name = only_numbers();
    let sorts = table(there, by_name);
    lemma_rays(there, by_name);
    assert(is_number(column(t), sorts));
    lemma_point(camera_origin(), camera_direction(), column(t), sorts);
    let point = point_at(camera_origin(), camera_direction(), column(t));
    lemma_normal_at(sphere.shape(), point, sorts);
    lemma_vector_steps(
        prefix + "_normal_x"@,
        prefix + "_normal_y"@,
        prefix + "_normal_z"@,
        sphere.shape().normal_at(point),
        there,
        by_name,
    );
}

/// A channel of the colour by the normal is a number.
proof fn lemma_normal_channel(
    t: Seq<char>,
    component: Seq<char>,
    background: u64,
    there: Set<Seq<char>>,
)
    requires
        there.contains(t),
        there.contains(component),
    ensures
        is_number(
            dataframe_sphere::normal_channel(t, component, background),
            table(there, only_numbers()),
        ),
{
    broadcast use group_sorts;

}

/// The columns of the colour by the normal are sound.
proof fn lemma_colors_of_sphere(t: Seq<char>, prefix: Seq<char>, there: Set<Seq<char>>)
    requires
        there.contains(t),
        there.contains(prefix + "_normal_x"@),
        there.contains(prefix + "_normal_y"@),
        there.contains(prefix + "_normal_z"@),
    ensures
        is_sound(dataframe_sphere::color_steps(t, prefix), there, only_numbers()),
        names(dataframe_sphere::color_steps(t, prefix)) == set![prefix + "_r"@, prefix + "_g"@,
            prefix + "_b"@],
{
    let (x, y, z) = (prefix + "_normal_x"@, prefix + "_normal_y"@, prefix + "_normal_z"@);
    lemma_normal_channel(t, x, dataframe_sphere::BACKGROUND_R, there);
    lemma_normal_channel(t, y, dataframe_sphere::BACKGROUND_G, there);
    lemma_normal_channel(t, z, dataframe_sphere::BACKGROUND_B, there);
    let color = Triple {
        x: dataframe_sphere::normal_channel(t, x, dataframe_sphere::BACKGROUND_R),
        y: dataframe_sphere::normal_channel(t, y, dataframe_sphere::BACKGROUND_G),
        z: dataframe_sphere::normal_channel(t, z, dataframe_sphere::BACKGROUND_B),
    };
    lemma_vector_steps(
        prefix + "_r"@,
        prefix + "_g"@,
        prefix + "_b"@,
        color,
        there,
        only_numbers(),
    );
}

/// The plan of the scene with a single sphere is sound and gives the columns of the
/// colour.
pub proof fn law_dataframe_sphere_is_sound(
    width: nat,
    height: nat,
    camera: Camera,
    sphere: dataframe_sphere::Sphere,
)
    ensures
        is_sound(
            dataframe_sphere::scene_steps(width, height, camera, sphere),
            pixel_table(),
            only_numbers(),
        ),
        set!["s0_r"@, "s0_g"@, "s0_b"@].subset_of(
            names(dataframe_sphere::scene_steps(width, height, camera, sphere)),
        ),
{
    let by_name = only_numbers();
    let s0 = pixel_table();
    let rays = ray_steps(width, height, camera);
    lemma_ray_steps(width, height, camera, s0, by_name);
    let s1 = s0.union(names(rays));
    lemma_rays(s1, by_name);
    let t = meeting(camera_origin(), camera_direction(), sphere.shape(), Side::Near);
    lemma_meeting(
        camera_origin(),
        camera_direction(),
        sphere.shape(),
        Side::Near,
        table(s1, by_name),
    );
    lemma_one_step("t"@, t, s1, by_name);
    let hit = dataframe_sphere::intersect_steps(sphere, "t"@);
    lemma_sound_append(rays, hit, s0, by_name);
    let s2 = s1.union(names(hit));
    lemma_normals_of_sphere(sphere, "t"@, "s0"@, s2);
    let normals = dataframe_sphere::normal_steps(sphere, "t"@, "s0"@);
    lemma_sound_append(rays + hit, normals, s0, by_name);
    let s3 = s2.union(names(normals));
    lemma_colors_of_sphere("t"@, "s0"@, s3);
    let colors = dataframe_sphere::color_steps("t"@, "s0"@);
    lemma_sound_append(rays + hit + normals, colors, s0, by_name);
    assert("s0"@ + "_r"@ == "s0_r"@ && "s0"@ + "_g"@ == "s0_g"@ && "s0"@ + "_b"@ == "s0_b"@) by {
        reveal_strlit("s0");
        reveal_strlit("_r");
        reveal_strlit("_g");
        reveal_strlit("_b");
        reveal_strlit("s0_r");
        reveal_strlit("s0_g");
        reveal_strlit("s0_b");
        assert("s0"@ + "_r"@ =~= "s0_r"@);
        assert("s0"@ + "_g"@ =~= "s0_g"@);
        assert("s0"@ + "_b"@ =~= "s0_b"@);
    }
}

/// In the scenes with several spheres the sphere that is hit is an index, and
/// whether a point lies in shadow a truth value; all other columns are numbers.
pub open spec fn hit_and_shadow() -> spec_fn(Seq<char>) -> Sort {
    |name: Seq<char>|
        if name == "hit_sphere"@ {
            Sort::Index
        } else if name == "in_shadow"@ {
            Sort::Truth
        } else {
            Sort::Number
        }
}

/// A name that starts otherwise is that of a number.
proof fn lemma_starts_otherwise(name: Seq<char>)
    requires
        name.len() > 0,
        name[0] != 'h',
        name[0] != 'i',
    ensures
        hit_and_shadow()(name) is Number,
{
    reveal_strlit("hit_sphere");
    reveal_strlit("in_shadow");
}

/// The columns of the camera's rays are numbers.
proof fn lemma_rays_are_numbers()
    ensures
        rays_are_numbers(hit_and_shadow()),
{
    reveal_strlit("x");
    reveal_strlit("y");
    reveal_strlit("origin_x");
    reveal_strlit("origin_y");
    reveal_strlit("origin_z");
    reveal_strlit("dir_x");
    reveal_strlit("dir_y");
    reveal_strlit("dir_z");
    lemma_starts_otherwise("x"@);
    lemma_starts_otherwise("y"@);
    lemma_starts_otherwise("origin_x"@);
    lemma_starts_otherwise("origin_y"@);
    lemma_starts_otherwise("origin_z"@);
    lemma_starts_otherwise("dir_x"@);
    lemma_starts_otherwise("dir_y"@);
    lemma_starts_otherwise("dir_z"@);
}

/// The spheres' parameters are numbers.
proof fn lemma_parameters_are_numbers()
    ensures
        forall|name: Seq<char>| #[trigger] hit_and_shadow()("t_"@ + name) is Number,
        forall|name: Seq<char>| #[trigger] hit_and_shadow()("shadow_t_"@ + name) is Number,
        hit_and_shadow()("t_nearest"@) is Number,
        hit_and_shadow()("light_dist"@) is Number,
        hit_and_shadow()("brightness"@) is Number,
        hit_and_shadow()("final_r"@) is Number,
        hit_and_shadow()("final_g"@) is Number,
        hit_and_shadow()("final_b"@) is Number,
{
    reveal_strlit("t_");
    reveal_strlit("shadow_t_");
    reveal_strlit("t_nearest");
    reveal_strlit("light_dist");
    reveal_strlit("brightness");
    reveal_strlit("final_r");
    reveal_strlit("final_g");
    reveal_strlit("final_b");
    assert forall|name: Seq<char>| #[trigger] hit_and_shadow()("t_"@ + name) is Number by {
        lemma_starts_otherwise("t_"@ + name);
    }
    assert forall|name: Seq<char>| #[trigger] hit_and_shadow()("shadow_t_"@ + name) is Number by {
        lemma_starts_otherwise("shadow_t_"@ + name);
    }
    lemma_starts_otherwise("t_nearest"@);
    lemma_starts_otherwise("light_dist"@);
    lemma_starts_otherwise("brightness"@);
    lemma_starts_otherwise("final_r"@);
    lemma_starts_otherwise("final_g"@);
    lemma_starts_otherwise("final_b"@);
}

/// The components of the spheres' normals are numbers.
proof fn lemma_components_are_numbers(name: Seq<char>)
    ensures
        hit_and_shadow()(name + "_nx"@) is Number,
        hit_and_shadow()(name + "_ny"@) is Number,
        hit_and_shadow()(name + "_nz"@) is Number,
{
    reveal_strlit("hit_sphere");
    reveal_strlit("in_shadow");
    reveal_strlit("_nx");
    reveal_strlit("_ny");
    reveal_strlit("_nz");
    assert((name + "_nx"@).last() == 'x');
    assert((name + "_ny"@).last() == 'y');
    assert((name + "_nz"@).last() == 'z');
    assert("hit_sphere"@.last() == 'e');
    assert("in_shadow"@.last() == 'w');
}

/// The point that is hit and the shadow ray are made of numbers.
proof fn lemma_points_are_numbers()
    ensures
        hit_and_shadow()("hit_x"@) is Number,
        hit_and_shadow()("hit_y"@) is Number,
        hit_and_shadow()("hit_z"@) is Number,
        hit_and_shadow()("normal_x"@) is Number,
        hit_and_shadow()("normal_y"@) is Number,
        hit_and_shadow()("normal_z"@) is Number,
        hit_and_shadow()("shadow_ox"@) is Number,
        hit_and_shadow()("shadow_oy"@) is Number,
        hit_and_shadow()("shadow_oz"@) is Number,
        hit_and_shadow()("shadow_dx"@) is Number,
        hit_and_shadow()("shadow_dy"@) is Number,
        hit_and_shadow()("shadow_dz"@) is Number,
{
    reveal_strlit("hit_sphere");
    reveal_strlit("in_shadow");
    reveal_strlit("hit_x");
    reveal_strlit("hit_y");
    reveal_strlit("hit_z");
    reveal_strlit("normal_x");
    reveal_strlit("normal_y");
    reveal_strlit("normal_z");
    reveal_strlit("shadow_ox");
    reveal_strlit("shadow_oy");
    reveal_strlit("shadow_oz");
    reveal_strlit("shadow_dx");
    reveal_strlit("shadow_dy");
    reveal_strlit("shadow_dz");
    assert("hit_sphere"@.len() == 10 && "in_shadow"@.len() == 9);
    assert("hit_x"@.len() == 5 && "hit_y"@.len() == 5 && "hit_z"@.len() == 5);
    lemma_starts_otherwise("normal_x"@);
    lemma_starts_otherwise("normal_y"@);
    lemma_starts_otherwise("normal_z"@);
    lemma_starts_otherwise("shadow_ox"@);
    lemma_starts_otherwise("shadow_oy"@);
    lemma_starts_otherwise("shadow_oz"@);
    lemma_starts_otherwise("shadow_dx"@);
    lemma_starts_otherwise("shadow_dy"@);
    lemma_starts_otherwise("shadow_dz"@);
}

/// The nearest parameter and the sphere that is hit are sound.
proof fn lemma_first_hit<S: Solid>(spheres: Seq<S>, there: Set<Seq<char>>)
    requires
        spheres.len() > 0,
        forall|i: int|
            0 <= i < spheres.len() ==> there.contains("t_"@ + (#[trigger] spheres[i]).label()),
    ensures
        is_sound(
            seq![
                ("t_nearest"@, nearest(sphere_columns(spheres, "t_"@))),
                ("hit_sphere"@, hit_index(sphere_columns(spheres, "t_"@), column("t_nearest"@))),
            ],
            there,
            hit_and_shadow(),
        ),
        names(
            seq![
                ("t_nearest"@, nearest(sphere_columns(spheres, "t_"@))),
                ("hit_sphere"@, hit_index(sphere_columns(spheres, "t_"@), column("t_nearest"@))),
            ],
        ) == set!["t_nearest"@, "hit_sphere"@],
{
    let by_name = hit_and_shadow();
    let ts = sphere_columns(spheres, "t_"@);
    let first = seq![("t_nearest"@, nearest(ts))];
    let second = seq![("hit_sphere"@, hit_index(ts, column("t_nearest"@)))];
    lemma_parameters_are_numbers();
    lemma_sphere_columns(spheres, "t_"@, there, by_name);
    lemma_nearest(ts, table(there, by_name));
    lemma_one_step("t_nearest"@, nearest(ts), there, by_name);
    let more = there.union(names(first));
    lemma_sphere_columns(spheres, "t_"@, more, by_name);
    assert(is_number(column("t_nearest"@), table(more, by_name)));
    lemma_hit_index(ts, column("t_nearest"@), table(more, by_name));
    lemma_one_step("hit_sphere"@, hit_index(ts, column("t_nearest"@)), more, by_name);
    lemma_sound_append(first, second, there, by_name);
    assert(first + second =~= seq![
        ("t_nearest"@, nearest(ts)),
        ("hit_sphere"@, hit_index(ts, column("t_nearest"@))),
    ]);
    assert(names(first).union(names(second)) =~= set!["t_nearest"@, "hit_sphere"@]);
}

/// The columns of the spheres' normals are sound.
proof fn lemma_all_normals(spheres: Seq<multi_sphere::Sphere>, there: Set<Seq<char>>)
    requires
        has_rays(there),
        forall|i: int|
            0 <= i < spheres.len() ==> there.contains("t_"@ + (#[trigger] spheres[i]).name@),
    ensures
        is_sound(multi_sphere::all_normal_steps(spheres), there, hit_and_shadow()),
        forall|i: int|
            0 <= i < spheres.len() ==> {
                let added = names(multi_sphere::all_normal_steps(spheres));
                let name = (#[trigger] spheres[i]).name@;
                &&& added.contains(name + "_nx"@)
                &&& added.contains(name + "_ny"@)
                &&& added.contains(name + "_nz"@)
            },
    decreases spheres.len(),
{
    let by_name = hit_and_shadow();
    if spheres.len() > 0 {
        let before = spheres.drop_last();
        let sphere = spheres.last();
        assert forall|i: int| 0 <= i < before.len() implies there.contains(
            "t_"@ + (#[trigger] before[i]).name@,
        ) by {
            assert(before[i] == spheres[i]);
        }
        lemma_all_normals(before, there);
        let first = multi_sphere::all_normal_steps(before);
        let second = multi_sphere::normal_steps(sphere);
        let more = there.union(names(first));
        let sorts = table(more, by_name);
        lemma_rays_are_numbers();
        lemma_rays(more, by_name);
        lemma_parameters_are_numbers();
        assert(there.contains("t_"@ + spheres[spheres.len() - 1].name@));
        let t = column("t_"@ + sphere.name@);
        assert(is_number(t, sorts));
        lemma_point(camera_origin(), camera_direction(), t, sorts);
        let point = point_at(camera_origin(), camera_direction(), t);
        lemma_normal_at(sphere.shape(), point, sorts);
        lemma_components_are_numbers(sphere.name@);
        lemma_vector_steps(
            sphere.name@ + "_nx"@,
            sphere.name@ + "_ny"@,
            sphere.name@ + "_nz"@,
            sphere.shape().normal_at(point),
            more,
            by_name,
        );
        lemma_sound_append(first, second, there, by_name);
        assert forall|i: int| 0 <= i < spheres.len() implies {
            let added = names(multi_sphere::all_normal_steps(spheres));
            let name = (#[trigger] spheres[i]).name@;
            &&& added.contains(name + "_nx"@)
            &&& added.contains(name + "_ny"@)
            &&& added.contains(name + "_nz"@)
        } by {
            if i < before.len() {
                assert(before[i] == spheres[i]);
            }
        }
    }
}

/// The colour of a sphere by its normal is a vector.
proof fn lemma_shade(sphere: multi_sphere::Sphere, there: Set<Seq<char>>)
    requires
        there.contains(sphere.name@ + "_nx"@),
        there.contains(sphere.name@ + "_ny"@),
        there.contains(sphere.name@ + "_nz"@),
    ensures
        is_vector(multi_sphere::shade(sphere), table(there, hit_and_shadow())),
{
    broadcast use group_sorts;

    lemma_components_are_numbers(sphere.name@);
    let sorts = table(there, hit_and_shadow());
    assert(is_number(column(sphere.name@ + "_nx"@), sorts));
    assert(is_number(column(sphere.name@ + "_ny"@), sorts));
    assert(is_number(column(sphere.name@ + "_nz"@), sorts));
}

/// The colour of the pixel is sound.
proof fn lemma_multi_sphere_colors(spheres: Seq<multi_sphere::Sphere>, there: Set<Seq<char>>)
    requires
        there.contains("hit_sphere"@),
        forall|i: int|
            0 <= i < spheres.len() ==> {
                let name = (#[trigger] spheres[i]).name@;
                &&& there.contains(name + "_nx"@)
                &&& there.contains(name + "_ny"@)
                &&& there.contains(name + "_nz"@)
            },
    ensures
        is_sound(multi_sphere::color_steps(spheres), there, hit_and_shadow()),
        names(multi_sphere::color_steps(spheres)) == set!["final_r"@, "final_g"@, "final_b"@],
{
    let by_name = hit_and_shadow();
    let sorts = table(there, by_name);
    let hit = column("hit_sphere"@);
    let n = spheres.len();
    let rs = Seq::new(n, |i: int| multi_sphere::shade(spheres[i]).x);
    let gs = Seq::new(n, |i: int| multi_sphere::shade(spheres[i]).y);
    let bs = Seq::new(n, |i: int| multi_sphere::shade(spheres[i]).z);
    assert forall|i: int| 0 <= i < n implies is_number(#[trigger] rs[i], sorts) by {
        lemma_shade(spheres[i], there);
    }
    assert forall|i: int| 0 <= i < n implies is_number(#[trigger] gs[i], sorts) by {
        lemma_shade(spheres[i], there);
    }
    assert forall|i: int| 0 <= i < n implies is_number(#[trigger] bs[i], sorts) by {
        lemma_shade(spheres[i], there);
    }
    assert(is_index(hit, sorts));
    lemma_chosen(hit, rs, number(multi_sphere::SKY_R), sorts);
    lemma_chosen(hit, gs, number(multi_sphere::SKY_G), sorts);
    lemma_chosen(hit, bs, number(multi_sphere::SKY_B), sorts);
    lemma_clamped(chosen(hit, rs, number(multi_sphere::SKY_R)), sorts);
    lemma_clamped(chosen(hit, gs, number(multi_sphere::SKY_G)), sorts);
    lemma_clamped(chosen(hit, bs, number(multi_sphere::SKY_B)), sorts);
    lemma_parameters_are_numbers();
    lemma_vector_steps(
        "final_r"@,
        "final_g"@,
        "final_b"@,
        multi_sphere::final_color(spheres),
        there,
        by_name,
    );
}

/// The plan of the scene with several spheres is sound and gives the columns of
/// the colour.
pub proof fn law_multi_sphere_is_sound(
    width: nat,
    height: nat,
    camera: Camera,
    spheres: Seq<multi_sphere::Sphere>,
)
    requires
        spheres.len() > 0,
    ensures
        is_sound(
            multi_sphere::scene_steps(width, height, camera, spheres),
            pixel_table(),
            hit_and_shadow(),
        ),
        set!["final_r"@, "final_g"@, "final_b"@].subset_of(
            names(multi_sphere::scene_steps(width, height, camera, spheres)),
        ),
{
    let by_name = hit_and_shadow();
    lemma_rays_are_numbers();
    lemma_parameters_are_numbers();
    let s0 = pixel_table();
    let rays = ray_steps(width, height, camera);
    lemma_ray_steps(width, height, camera, s0, by_name);
    let s1 = s0.union(names(rays));
    lemma_rays(s1, by_name);
    let meetings = multi_sphere::intersect_steps(spheres);
    assert(meetings =~= ahead_steps(spheres, camera_origin(), camera_direction(), "t_"@));
    lemma_ahead_steps(spheres, camera_origin(), camera_direction(), "t_"@, s1, by_name);
    lemma_sound_append(rays, meetings, s0, by_name);
    let s2 = s1.union(names(meetings));
    lemma_first_hit(spheres, s2);
    let hits = seq![multi_sphere::nearest_step(spheres), multi_sphere::index_step(spheres)];
    lemma_sound_append(rays + meetings, hits, s0, by_name);
    let s3 = s2.union(names(hits));
    lemma_all_normals(spheres, s3);
    let normals = multi_sphere::all_normal_steps(spheres);
    lemma_sound_append(rays + meetings + hits, normals, s0, by_name);
    let s4 = s3.union(names(normals));
    lemma_multi_sphere_colors(spheres, s4);
    let colors = multi_sphere::color_steps(spheres);
    lemma_sound_append(rays + meetings + hits + normals, colors, s0, by_name);
}

// ---------------------------------------------------------------------------
// The scene with shadows
// ---------------------------------------------------------------------------

/// The point that is hit and its normal are sound.
proof fn lemma_points(spheres: Seq<shadows::Sphere>, there: Set<Seq<char>>)
    requires
        has_rays(there),
        there.contains("t_nearest"@),
        there.contains("hit_sphere"@),
    ensures
        is_sound(shadows::point_steps(spheres), there, hit_and_shadow()),
        names(shadows::point_steps(spheres)) == set!["hit_x"@, "hit_y"@, "hit_z"@, "normal_x"@,
            "normal_y"@, "normal_z"@],
{
    let by_name = hit_and_shadow();
    lemma_rays_are_numbers();
    lemma_parameters_are_numbers();
    lemma_points_are_numbers();
    lemma_rays(there, by_name);
    let sorts = table(there, by_name);
    let t = column("t_nearest"@);
    assert(is_number(t, sorts));
    lemma_point(camera_origin(), camera_direction(), t, sorts);
    let point = point_at(camera_origin(), camera_direction(), t);
    lemma_vector_steps("hit_x"@, "hit_y"@, "hit_z"@, point, there, by_name);
    let first = vector_steps("hit_x"@, "hit_y"@, "hit_z"@, point);
    let more = there.union(names(first));
    lemma_columns("hit_x"@, "hit_y"@, "hit_z"@, table(more, by_name));
    let hit = column("hit_sphere"@);
    assert(is_index(hit, table(more, by_name)));
    lemma_normal(spheres, hit, shadows::hit_point(), table(more, by_name));
    let normal = hit_normal(spheres, hit, shadows::hit_point());
    lemma_vector_steps("normal_x"@, "normal_y"@, "normal_z"@, normal, more, by_name);
    let second = vector_steps("normal_x"@, "normal_y"@, "normal_z"@, normal);
    lemma_sound_append(first, second, there, by_name);
    assert(names(first).union(names(second)) =~= set!["hit_x"@, "hit_y"@, "hit_z"@, "normal_x"@,
        "normal_y"@, "normal_z"@]);
}

/// A point moved along a vector is a vector.
pub(crate) proof fn lemma_moved(point: Triple, along: Triple, k: u64, sorts: Sorts)
    requires
        is_vector(point, sorts),
        is_vector(along, sorts),
    ensures
        is_vector(point.plus(along.times(number(k))), sorts),
        is_vector(point.minus(along.times(number(k))), sorts),
{
    broadcast use group_sorts;

}

/// From one point to another is a vector, with a length and a direction.
pub(crate) proof fn lemma_between(from: Triple, to: Triple, sorts: Sorts)
    requires
        is_vector(from, sorts),
        is_vector(to, sorts),
    ensures
        is_vector(to.minus(from), sorts),
        is_number(to.minus(from).length(), sorts),
        is_vector(to.minus(from).normalized(), sorts),
{
    broadcast use group_sorts;

    assert(is_vector(to.minus(from), sorts));
    assert(is_number(to.minus(from).length(), sorts));
}

/// A vector of numbers is a vector, and it has a length.
pub(crate) proof fn lemma_numbers(x: u64, y: u64, z: u64, sorts: Sorts)
    ensures
        is_vector(numbers(x, y, z), sorts),
{
    broadcast use group_sorts;

}

pub(crate) proof fn lemma_length(v: Triple, sorts: Sorts)
    requires
        is_vector(v, sorts),
    ensures
        is_number(v.length(), sorts),
        is_vector(v.normalized(), sorts),
{
    broadcast use group_sorts;

    assert(is_number(v.length(), sorts));
}

/// The shadow ray is sound.
proof fn lemma_shadow_ray(light: shadows::Light, there: Set<Seq<char>>)
    requires
        there.contains("hit_x"@) && there.contains("hit_y"@) && there.contains("hit_z"@),
        there.contains("normal_x"@) && there.contains("normal_y"@) && there.contains("normal_z"@),
    ensures
        is_sound(shadows::shadow_ray_steps(light), there, hit_and_shadow()),
        names(shadows::shadow_ray_steps(light)) == set!["shadow_ox"@, "shadow_oy"@, "shadow_oz"@,
            "shadow_dx"@, "shadow_dy"@, "shadow_dz"@, "light_dist"@],
{
    let by_name = hit_and_shadow();
    lemma_points_are_numbers();
    lemma_parameters_are_numbers();
    let sorts = table(there, by_name);
    lemma_columns("hit_x"@, "hit_y"@, "hit_z"@, sorts);
    lemma_columns("normal_x"@, "normal_y"@, "normal_z"@, sorts);
    lemma_moved(shadows::hit_point(), shadows::surface_normal(), shadows::SHADOW_BIAS, sorts);
    let origin = shadows::hit_point().plus(
        shadows::surface_normal().times(number(shadows::SHADOW_BIAS)),
    );
    lemma_vector_steps("shadow_ox"@, "shadow_oy"@, "shadow_oz"@, origin, there, by_name);
    let first = vector_steps("shadow_ox"@, "shadow_oy"@, "shadow_oz"@, origin);
    let s1 = there.union(names(first));
    lemma_columns("shadow_ox"@, "shadow_oy"@, "shadow_oz"@, table(s1, by_name));
    lemma_numbers(light.x.bits, light.y.bits, light.z.bits, table(s1, by_name));
    lemma_between(shadows::shadow_origin(), light.position(), table(s1, by_name));
    let direction = light.position().minus(shadows::shadow_origin());
    lemma_vector_steps("shadow_dx"@, "shadow_dy"@, "shadow_dz"@, direction, s1, by_name);
    let second = vector_steps("shadow_dx"@, "shadow_dy"@, "shadow_dz"@, direction);
    lemma_sound_append(first, second, there, by_name);
    let s2 = s1.union(names(second));
    lemma_columns("shadow_dx"@, "shadow_dy"@, "shadow_dz"@, table(s2, by_name));
    lemma_length(shadows::shadow_direction(), table(s2, by_name));
    let distance = shadows::shadow_direction().length();
    lemma_one_step("light_dist"@, distance, s2, by_name);
    let third = seq![("light_dist"@, distance)];
    lemma_sound_append(first + second, third, there, by_name);
    assert(names(first).union(names(second)).union(names(third)) =~= set!["shadow_ox"@,
        "shadow_oy"@, "shadow_oz"@, "shadow_dx"@, "shadow_dy"@, "shadow_dz"@, "light_dist"@]);
}

/// The parameters of the shadow ray are sound.
proof fn lemma_shadow_parameters(spheres: Seq<shadows::Sphere>, there: Set<Seq<char>>)
    requires
        there.contains("shadow_ox"@) && there.contains("shadow_oy"@) && there.contains(
            "shadow_oz"@,
        ),
        there.contains("shadow_dx"@) && there.contains("shadow_dy"@) && there.contains(
            "shadow_dz"@,
        ),
    ensures
        is_sound(shadows::shadow_steps(spheres), there, hit_and_shadow()),
        forall|i: int|
            0 <= i < spheres.len() ==> names(shadows::shadow_steps(spheres)).contains(
                "shadow_t_"@ + (#[trigger] spheres[i]).label(),
            ),
{
    let by_name = hit_and_shadow();
    let sorts = table(there, by_name);
    let steps = shadows::shadow_steps(spheres);
    let (origin, direction) = (shadows::shadow_origin(), shadows::shadow_direction());
    lemma_points_are_numbers();
    lemma_parameters_are_numbers();
    lemma_columns("shadow_ox"@, "shadow_oy"@, "shadow_oz"@, sorts);
    lemma_columns("shadow_dx"@, "shadow_dy"@, "shadow_dz"@, sorts);
    assert(is_number(number(ONE), sorts));
    assert forall|i: int| 0 <= i < steps.len() implies sort_of((#[trigger] steps[i]).1, sorts)
        == Some(by_name(steps[i].0)) by {
        lemma_meeting(origin, direction, spheres[i].shape(), Side::Near, sorts);
        lemma_ahead_before(
            meeting(origin, direction, spheres[i].shape(), Side::Near),
            number(ONE),
            sorts,
        );
        assert(by_name("shadow_t_"@ + spheres[i].name@) is Number);
    }
    lemma_sound_at_once(steps, there, by_name);
    assert forall|i: int| 0 <= i < spheres.len() implies names(steps).contains(
        "shadow_t_"@ + (#[trigger] spheres[i]).label(),
    ) by {
        assert(steps[i].0 == "shadow_t_"@ + spheres[i].name@);
    }
}

/// Whether a point lies in shadow, and how bright it is, are sound.
proof fn lemma_lighting(
    spheres: Seq<shadows::Sphere>,
    light: shadows::Light,
    ambient: Number,
    there: Set<Seq<char>>,
)
    requires
        there.contains("t_nearest"@),
        there.contains("hit_x"@) && there.contains("hit_y"@) && there.contains("hit_z"@),
        there.contains("normal_x"@) && there.contains("normal_y"@) && there.contains("normal_z"@),
        forall|i: int|
            0 <= i < spheres.len() ==> there.contains(
                "shadow_t_"@ + (#[trigger] spheres[i]).label(),
            ),
    ensures
        is_sound(
            seq![shadows::in_shadow_step(spheres), shadows::lighting_step(light, ambient)],
            there,
            hit_and_shadow(),
        ),
        names(seq![shadows::in_shadow_step(spheres), shadows::lighting_step(light, ambient)])
            == set!["in_shadow"@, "brightness"@],
{
    let by_name = hit_and_shadow();
    let sorts = table(there, by_name);
    lemma_points_are_numbers();
    lemma_parameters_are_numbers();
    assert(by_name("in_shadow"@) is Truth) by {
        reveal_strlit("in_shadow");
        reveal_strlit("hit_sphere");
        assert("in_shadow"@[0] == 'i' && "hit_sphere"@[0] == 'h');
    }
    let ts = sphere_columns(spheres, "shadow_t_"@);
    lemma_sphere_columns(spheres, "shadow_t_"@, there, by_name);
    lemma_any_present(ts, sorts);
    let shadow = shadows::in_shadow_step(spheres);
    assert(is_number(column("t_nearest"@), sorts));
    assert(is_truth(column("t_nearest"@).is_not_null(), sorts));
    assert(is_truth(Node::Truth(false), sorts));
    assert(is_truth(shadow.1, sorts));
    lemma_one_step("in_shadow"@, shadow.1, there, by_name);
    let first = seq![shadow];
    let more = there.union(names(first));
    let more_sorts = table(more, by_name);
    lemma_columns("hit_x"@, "hit_y"@, "hit_z"@, more_sorts);
    lemma_columns("normal_x"@, "normal_y"@, "normal_z"@, more_sorts);
    lemma_numbers(light.x.bits, light.y.bits, light.z.bits, more_sorts);
    assert(is_truth(column("in_shadow"@), more_sorts));
    lemma_brightness(
        light.position(),
        light.intensity.bits,
        ambient.bits,
        shadows::hit_point(),
        shadows::surface_normal(),
        column("in_shadow"@),
        more_sorts,
    );
    let bright = shadows::lighting_step(light, ambient);
    lemma_one_step("brightness"@, bright.1, more, by_name);
    let second = seq![bright];
    lemma_sound_append(first, second, there, by_name);
    assert(first + second =~= seq![shadow, bright]);
    assert(names(first).union(names(second)) =~= set!["in_shadow"@, "brightness"@]);
}

/// A channel of a lit surface, and of the sky, are numbers.
pub(crate) proof fn lemma_surface(color: u64, bright: Node, sorts: Sorts)
    requires
        is_number(bright, sorts),
    ensures
        is_number(surface(color, bright), sorts),
{
    broadcast use group_sorts;

}

pub(crate) proof fn lemma_sky(height: nat, horizon: u64, sorts: Sorts)
    requires
        is_number(column("y"@), sorts),
    ensures
        is_number(sky(height, horizon), sorts),
{
    broadcast use group_sorts;

}

/// The colour of the pixel is sound.
proof fn lemma_shadows_colors(spheres: Seq<shadows::Sphere>, there: Set<Seq<char>>)
    requires
        there.contains("y"@),
        there.contains("hit_sphere"@),
        there.contains("brightness"@),
    ensures
        is_sound(shadows::color_steps(spheres), there, hit_and_shadow()),
        names(shadows::color_steps(spheres)) == set!["final_r"@, "final_g"@, "final_b"@],
{
    let by_name = hit_and_shadow();
    let sorts = table(there, by_name);
    let hit = column("hit_sphere"@);
    let bright = column("brightness"@);
    let n = spheres.len();
    lemma_rays_are_numbers();
    lemma_parameters_are_numbers();
    assert(is_index(hit, sorts));
    assert(is_number(bright, sorts));
    assert(is_number(column("y"@), sorts));
    let rs = Seq::new(n, |i: int| surface(spheres[i].color_r.bits, bright));
    let gs = Seq::new(n, |i: int| surface(spheres[i].color_g.bits, bright));
    let bs = Seq::new(n, |i: int| surface(spheres[i].color_b.bits, bright));
    assert forall|i: int| 0 <= i < n implies is_number(#[trigger] rs[i], sorts) by {
        lemma_surface(spheres[i].color_r.bits, bright, sorts);
    }
    assert forall|i: int| 0 <= i < n implies is_number(#[trigger] gs[i], sorts) by {
        lemma_surface(spheres[i].color_g.bits, bright, sorts);
    }
    assert forall|i: int| 0 <= i < n implies is_number(#[trigger] bs[i], sorts) by {
        lemma_surface(spheres[i].color_b.bits, bright, sorts);
    }
    let height = shadows::HEIGHT as nat;
    let (sky_r, sky_g, sky_b) = (
        sky(height, shadows::HORIZON_R),
        sky(height, shadows::HORIZON_G),
        sky(height, shadows::HORIZON_B),
    );
    lemma_sky(height, shadows::HORIZON_R, sorts);
    lemma_sky(height, shadows::HORIZON_G, sorts);
    lemma_sky(height, shadows::HORIZON_B, sorts);
    lemma_chosen(hit, rs, sky_r, sorts);
    lemma_chosen(hit, gs, sky_g, sorts);
    lemma_chosen(hit, bs, sky_b, sorts);
    lemma_clamped(chosen(hit, rs, sky_r), sorts);
    lemma_clamped(chosen(hit, gs, sky_g), sorts);
    lemma_clamped(chosen(hit, bs, sky_b), sorts);
    lemma_vector_steps(
        "final_r"@,
        "final_g"@,
        "final_b"@,
        shadows::final_color(spheres),
        there,
        by_name,
    );
}

/// What the camera sees in the scene with shadows is sound.
proof fn lemma_shadows_view(
    width: nat,
    height: nat,
    camera: Camera,
    spheres: Seq<shadows::Sphere>,
) -> (view: Steps)
    requires
        spheres.len() > 0,
    ensures
        view == ray_steps(width, height, camera) + shadows::intersect_steps(spheres) + seq![
            shadows::nearest_step(spheres),
            shadows::index_step(spheres),
        ] + shadows::point_steps(spheres),
        is_sound(view, pixel_table(), hit_and_shadow()),
        set!["t_nearest"@, "hit_sphere"@, "hit_x"@, "hit_y"@, "hit_z"@, "normal_x"@, "normal_y"@,
            "normal_z"@].subset_of(names(view)),
{
    let by_name = hit_and_shadow();
    lemma_rays_are_numbers();
    lemma_parameters_are_numbers();
    let s0 = pixel_table();
    let rays = ray_steps(width, height, camera);
    lemma_ray_steps(width, height, camera, s0, by_name);
    let s1 = s0.union(names(rays));
    lemma_rays(s1, by_name);
    let meetings = shadows::intersect_steps(spheres);
    assert(meetings =~= ahead_steps(spheres, camera_origin(), camera_direction(), "t_"@));
    lemma_ahead_steps(spheres, camera_origin(), camera_direction(), "t_"@, s1, by_name);
    lemma_sound_append(rays, meetings, s0, by_name);
    let s2 = s1.union(names(meetings));
    lemma_first_hit(spheres, s2);
    let hits = seq![shadows::nearest_step(spheres), shadows::index_step(spheres)];
    lemma_sound_append(rays + meetings, hits, s0, by_name);
    let s3 = s2.union(names(hits));
    lemma_points(spheres, s3);
    let points = shadows::point_steps(spheres);
    lemma_sound_append(rays + meetings + hits, points, s0, by_name);
    rays + meetings + hits + points
}

/// The light in the scene with shadows is sound.
proof fn lemma_shadows_light(
    spheres: Seq<shadows::Sphere>,
    light: shadows::Light,
    ambient: Number,
    there: Set<Seq<char>>,
) -> (lit: Steps)
    requires
        set!["t_nearest"@, "hit_x"@, "hit_y"@, "hit_z"@, "normal_x"@, "normal_y"@, "normal_z"@].subset_of(
            there,
        ),
    ensures
        lit == shadows::shadow_ray_steps(light) + shadows::shadow_steps(spheres) + seq![
            shadows::in_shadow_step(spheres),
            shadows::lighting_step(light, ambient),
        ],
        is_sound(lit, there, hit_and_shadow()),
        names(lit).contains("brightness"@),
{
    let by_name = hit_and_shadow();
    lemma_shadow_ray(light, there);
    let ray = shadows::shadow_ray_steps(light);
    let s1 = there.union(names(ray));
    lemma_shadow_parameters(spheres, s1);
    let blocks = shadows::shadow_steps(spheres);
    lemma_sound_append(ray, blocks, there, by_name);
    let s2 = s1.union(names(blocks));
    lemma_lighting(spheres, light, ambient, s2);
    let lights = seq![shadows::in_shadow_step(spheres), shadows::lighting_step(light, ambient)];
    lemma_sound_append(ray + blocks, lights, there, by_name);
    ray + blocks + lights
}

/// The plan of the scene with shadows is sound and gives the columns of the colour.
pub proof fn law_shadows_is_sound(
    width: nat,
    height: nat,
    camera: Camera,
    spheres: Seq<shadows::Sphere>,
    light: shadows::Light,
    ambient: Number,
)
    requires
        spheres.len() > 0,
    ensures
        is_sound(
            shadows::scene_steps(width, height, camera, spheres, light, ambient),
            pixel_table(),
            hit_and_shadow(),
        ),
        set!["final_r"@, "final_g"@, "final_b"@].subset_of(
            names(shadows::scene_steps(width, height, camera, spheres, light, ambient)),
        ),
{
    let by_name = hit_and_shadow();
    let s0 = pixel_table();
    let view = lemma_shadows_view(width, height, camera, spheres);
    let s1 = s0.union(names(view));
    let lit = lemma_shadows_light(spheres, light, ambient, s1);
    lemma_sound_append(view, lit, s0, by_name);
    let s2 = s1.union(names(lit));
    lemma_shadows_colors(spheres, s2);
    let colors = shadows::color_steps(spheres);
    lemma_sound_append(view + lit, colors, s0, by_name);
    assert(view + lit + colors =~= shadows::scene_steps(
        width,
        height,
        camera,
        spheres,
        light,
        ambient,
    ));
}

} // verus!

//! What a pixel shows of several spheres, among real numbers.
use crate::choice::{
    law_choice, law_last_close, law_smallest, law_within_channel, may_be_given, near_to,
    within_channel,
};
use crate::formula::{Node, Operator, column, number};
use crate::geometry::{along_ray, is_entry, law_meeting, spot};
use crate::ideal::{
    Ideal, IdealRow, Reals, holds, law_ideal_columns_hold, lemma_holds_split, lemma_ideal_binary,
    lemma_ideal_case, magnitude, product,
};
use crate::meaning::{has_own_names, lemma_ranked_append, lemma_ranked_own, ranked};
use crate::multi_sphere::{
    BLUE_TINT, SKY_B, SKY_G, SKY_R, Sphere, all_normal_steps, color_steps, final_color, index_step,
    intersect_step, intersect_steps, nearest_step, normal_steps, scene_steps, shade, shaded,
};
use crate::number::{CHANNEL_MAX, HALF, ONE, TEN_THOUSANDTH, THOUSANDTH};
use crate::optics::{Arrow, arrow, is_given, lemma_real_binary, lemma_real_number, real_of};
use crate::portrait::{
    axis, has_arrow, is_pixel, lemma_camera_rays, lemma_normal_from_center, lemma_point_on_ray,
    lemma_some_way, nowhere, one_half, tint, way_to_pixel,
};
use crate::soundness::{hit_and_shadow, law_multi_sphere_is_sound, pixel_table};
use crate::trace::{
    Camera, Side, Solid, ahead, camera_direction, camera_origin, chosen, clamped, hit_index,
    meeting, nearest, point_at, ray_steps, sphere_columns,
};
use crate::vector::columns;
use crate::visibility::told_apart;
use vstd::prelude::*;

verus! {

// ---------------------------------------------------------------------------
// What is met and what is seen
// ---------------------------------------------------------------------------

/// Whether that is where a ray enters a sphere ahead of its origin; nothing if it does
/// not.
pub open spec fn is_entry_ahead(
    r: Reals,
    o: Arrow,
    d: Arrow,
    center: Arrow,
    radius: real,
    found: Ideal,
) -> bool {
    match found {
        Ideal::Number(t) => t > (r.number)(THOUSANDTH) && is_entry(o, d, center, radius, found),
        Ideal::Missing => forall|t: real|
            t > (r.number)(THOUSANDTH) ==> !#[trigger] is_entry(
                o,
                d,
                center,
                radius,
                Ideal::Number(t),
            ),
        _ => false,
    }
}

/// Whether that is the smallest of some numbers, any of which may be missing.
pub open spec fn is_smallest(ts: Seq<Ideal>, found: Ideal) -> bool {
    match found {
        Ideal::Missing => forall|i: int| 0 <= i < ts.len() ==> (#[trigger] ts[i]) is Missing,
        Ideal::Number(t) => {
            &&& exists|i: int| 0 <= i < ts.len() && (#[trigger] ts[i]) == Ideal::Number(t)
            &&& forall|i: int|
                0 <= i < ts.len() ==> ((#[trigger] ts[i]) matches Ideal::Number(other) ==> t
                    <= other)
        },
        _ => false,
    }
}

/// Whether two numbers are there and closer than a ten-thousandth.
pub open spec fn is_close(r: Reals, a: Ideal, b: Ideal) -> bool {
    match (a, b) {
        (Ideal::Number(a), Ideal::Number(b)) => magnitude(a - b) < (r.number)(TEN_THOUSANDTH),
        _ => false,
    }
}

/// Whether that is the index of the last of some numbers that is close to the nearest;
/// nothing if none is.
pub open spec fn is_seen(r: Reals, ts: Seq<Ideal>, near: Ideal, found: Ideal) -> bool {
    match found {
        Ideal::Missing => forall|i: int|
            0 <= i < ts.len() ==> !is_close(r, #[trigger] ts[i], near),
        Ideal::Index(k) => {
            &&& 0 <= k < ts.len()
            &&& is_close(r, ts[k as int], near)
            &&& forall|i: int| k < i < ts.len() ==> !is_close(r, #[trigger] ts[i], near)
        },
        _ => false,
    }
}

/// What is met ahead.
#[verifier::spinoff_prover]
pub(crate) proof fn lemma_entry_ahead(
    r: Reals,
    o: Arrow,
    d: Arrow,
    center: Arrow,
    radius: real,
    t: Node,
    row: IdealRow,
)
    requires
        r.is_faithful(),
        is_entry(o, d, center, radius, r.value(t, row)),
    ensures
        is_entry_ahead(r, o, d, center, radius, r.value(ahead(t), row)),
{
    let limit = number(THOUSANDTH);
    lemma_real_number(r, THOUSANDTH, row);
    lemma_ideal_binary(r, t, Operator::Greater, limit, row);
    assert(r.value(Node::NullNumber, row) == Ideal::Missing);
    lemma_ideal_case(r, t.gt(limit), t, Node::NullNumber, row);
    if r.value(ahead(t), row) is Missing {
        assert forall|s: real| s > (r.number)(THOUSANDTH) implies !#[trigger] is_entry(
            o,
            d,
            center,
            radius,
            Ideal::Number(s),
        ) by {
            lemma_one_entry(o, d, center, radius, r.value(t, row), s);
        }
    }
}

/// A ray enters a sphere once.
pub(crate) proof fn lemma_one_entry(o: Arrow, d: Arrow, center: Arrow, radius: real, found: Ideal, s: real)
    requires
        is_entry(o, d, center, radius, found),
    ensures
        is_entry(o, d, center, radius, Ideal::Number(s)) ==> found == Ideal::Number(s),
{
}

/// What is nearest and which sphere is seen, from the parameters of the spheres.
pub(crate) proof fn lemma_seen<S: Solid>(
    r: Reals,
    spheres: Seq<S>,
    prefix: Seq<char>,
    near: Node,
    row: IdealRow,
)
    requires
        0 < spheres.len() <= i32::MAX,
        forall|i: int|
            0 <= i < spheres.len() ==> may_be_given(
                r.value(column(prefix + (#[trigger] spheres[i]).label()), row),
            ),
        r.value(near, row) == r.value(nearest(sphere_columns(spheres, prefix)), row),
    ensures
        ({
            let ts = Seq::new(
                spheres.len(),
                |i: int| r.value(column(prefix + spheres[i].label()), row),
            );
            &&& is_smallest(ts, r.value(near, row))
            &&& is_seen(
                r,
                ts,
                r.value(near, row),
                r.value(hit_index(sphere_columns(spheres, prefix), near), row),
            )
        }),
{
    let nodes = sphere_columns(spheres, prefix);
    let ts = Seq::new(spheres.len(), |i: int| r.value(column(prefix + spheres[i].label()), row));
    assert forall|i: int| 0 <= i < nodes.len() implies may_be_given(
        r.value(#[trigger] nodes[i], row),
    ) && r.value(nodes[i], row) == ts[i] by {
        assert(may_be_given(r.value(column(prefix + spheres[i].label()), row)));
    }
    law_smallest(r, nodes, row);
    match r.value(near, row) {
        Ideal::Number(t) => {
            let i = choose|i: int|
                0 <= i < nodes.len() && r.value(#[trigger] nodes[i], row) == Ideal::Number(t);
            assert(ts[i] == Ideal::Number(t));
        },
        _ => {},
    }
    assert forall|i: int| 0 <= i < ts.len() implies (#[trigger] ts[i]) == r.value(
        nodes[i],
        row,
    ) by {}
    law_last_close(r, nodes, near, row);
    assert forall|i: int| 0 <= i < ts.len() implies near_to(
        r,
        nodes,
        i,
        r.value(near, row),
        row,
    ) == is_close(r, #[trigger] ts[i], r.value(near, row)) by {}
}

// ---------------------------------------------------------------------------
// The names
// ---------------------------------------------------------------------------

/// Whether the names of the spheres are different and none leads to the name of
/// another column.
pub open spec fn has_clear_names(spheres: Seq<Sphere>) -> bool {
    &&& told_apart(spheres)
    &&& forall|i: int|
        0 <= i < spheres.len() ==> (#[trigger] spheres[i]).name@ != "nearest"@ && spheres[i].name@
            != "t"@ && !spheres[i].name@.contains('_')
}

/// The place of each column, by the letters of its name.
spec fn rank() -> spec_fn(Seq<char>) -> int {
    |name: Seq<char>|
        if name.len() >= 2 && name[0] == 't' && name[1] == '_' {
            if name == "t_nearest"@ {
                7
            } else {
                6
            }
        } else if name.len() >= 3 && name[name.len() - 3] == '_' {
            9
        } else if name.len() == 8 {
            axis(name.last())
        } else if name.len() == 5 {
            3 + axis(name.last())
        } else if name.len() == 10 {
            8
        } else if name.len() == 7 {
            10 + tint(name.last())
        } else {
            -1
        }
}

proof fn lemma_ranks()
    ensures
        rank()("x"@) == -1,
        rank()("y"@) == -1,
        rank()("origin_x"@) == 0,
        rank()("origin_y"@) == 1,
        rank()("origin_z"@) == 2,
        rank()("dir_x"@) == 3,
        rank()("dir_y"@) == 4,
        rank()("dir_z"@) == 5,
        rank()("t_nearest"@) == 7,
        rank()("hit_sphere"@) == 8,
        rank()("final_r"@) == 10,
        rank()("final_g"@) == 11,
        rank()("final_b"@) == 12,
{
    reveal_strlit("x");
    reveal_strlit("y");
    reveal_strlit("origin_x");
    reveal_strlit("origin_y");
    reveal_strlit("origin_z");
    reveal_strlit("dir_x");
    reveal_strlit("dir_y");
    reveal_strlit("dir_z");
    reveal_strlit("t_nearest");
    reveal_strlit("hit_sphere");
    reveal_strlit("final_r");
    reveal_strlit("final_g");
    reveal_strlit("final_b");
}

proof fn lemma_rank_of_parameter(name: Seq<char>)
    requires
        name != "nearest"@,
    ensures
        rank()("t_"@ + name) == 6,
{
    reveal_strlit("t_");
    reveal_strlit("t_nearest");
    reveal_strlit("nearest");
    let long = "t_"@ + name;
    assert(long[0] == 't' && long[1] == '_');
    if long == "t_nearest"@ {
        assert(name =~= long.skip(2));
        assert("nearest"@ =~= "t_nearest"@.skip(2));
    }
}

proof fn lemma_rank_of_normal(name: Seq<char>, end: Seq<char>)
    requires
        name != "t"@,
        !name.contains('_'),
        end.len() == 3,
        end[0] == '_',
    ensures
        rank()(name + end) == 9,
{
    reveal_strlit("t");
    let long = name + end;
    assert(long[long.len() - 3] == '_');
    if long[0] == 't' && long[1] == '_' {
        if name.len() >= 2 {
            assert(name[1] == '_');
            assert(name.contains('_'));
        } else if name.len() == 1 {
            assert(name =~= "t"@);
        }
    }
}

proof fn lemma_normal_names(spheres: Seq<Sphere>)
    requires
        has_clear_names(spheres),
    ensures
        all_normal_steps(spheres).len() == 3 * spheres.len(),
        forall|i: int|
            0 <= i < spheres.len() ==> {
                let own = normal_steps(#[trigger] spheres[i]);
                &&& all_normal_steps(spheres)[3 * i] == own[0]
                &&& all_normal_steps(spheres)[3 * i + 1] == own[1]
                &&& all_normal_steps(spheres)[3 * i + 2] == own[2]
            },
        ranked(all_normal_steps(spheres), rank(), 9, 10),
    decreases spheres.len(),
{
    reveal_strlit("_nx");
    reveal_strlit("_ny");
    reveal_strlit("_nz");
    let steps = all_normal_steps(spheres);
    if spheres.len() > 0 {
        let before = spheres.drop_last();
        let last = spheres.last();
        let n = spheres.len() - 1;
        let old = all_normal_steps(before);
        let own = normal_steps(last);
        assert(has_clear_names(before)) by {
            assert forall|i: int| 0 <= i < before.len() implies (#[trigger] before[i])
                == spheres[i] by {}
        }
        lemma_normal_names(before);
        assert(steps == old + own);
        assert(last == spheres[n]);
        assert forall|i: int| 0 <= i < spheres.len() implies {
            let mine = normal_steps(#[trigger] spheres[i]);
            &&& steps[3 * i] == mine[0]
            &&& steps[3 * i + 1] == mine[1]
            &&& steps[3 * i + 2] == mine[2]
        } by {
            if i < n {
                assert(before[i] == spheres[i]);
                let mine = normal_steps(before[i]);
                assert(old[3 * i] == mine[0]);
            }
        }
        lemma_rank_of_normal(last.name@, "_nx"@);
        lemma_rank_of_normal(last.name@, "_ny"@);
        lemma_rank_of_normal(last.name@, "_nz"@);
        assert forall|i: int| 0 <= i < steps.len() implies 9 <= rank()((#[trigger] steps[i]).0)
            < 10 by {
            if i < old.len() {
                assert(steps[i] == old[i]);
            } else {
                let k = i - old.len();
                assert(steps[i] == own[k]);
                assert(k == 0 || k == 1 || k == 2);
            }
        }
        assert forall|i: int, j: int| 0 <= i < j < steps.len() implies (#[trigger] steps[i]).0 != (
        #[trigger] steps[j]).0 by {
            if j < old.len() {
                assert(steps[i] == old[i] && steps[j] == old[j]);
            } else {
                let k = j - old.len();
                assert(steps[j] == own[k]);
                assert(k == 0 || k == 1 || k == 2);
                if i < old.len() {
                    let m = i / 3;
                    assert(steps[i] == old[i]);
                    assert(i == 3 * m || i == 3 * m + 1 || i == 3 * m + 2);
                    assert(0 <= m < n);
                    let mine = normal_steps(before[m]);
                    assert(old[3 * m] == mine[0]);
                    lemma_ends_apart(before[m].name@, last.name@);
                    assert(spheres[m].label() != spheres[n].label());
                } else {
                    let h = i - old.len();
                    assert(steps[i] == own[h]);
                    assert(h == 0 || h == 1);
                    lemma_ends_alike(last.name@);
                }
            }
        }
    }
}

/// Different names stay different with an axis behind them.
proof fn lemma_ends_apart(a: Seq<char>, b: Seq<char>)
    requires
        a != b,
    ensures
        forall|u: Seq<char>, v: Seq<char>|
            u.len() == 3 && v.len() == 3 ==> #[trigger] (a + u) != #[trigger] (b + v),
{
    assert forall|u: Seq<char>, v: Seq<char>|
        u.len() == 3 && v.len() == 3 implies #[trigger] (a + u) != #[trigger] (b + v) by {
        if a + u == b + v {
            assert((a + u).len() == (b + v).len());
            assert((a + u).take(a.len() as int) =~= a);
            assert((b + v).take(b.len() as int) =~= b);
        }
    }
}

proof fn lemma_ends_alike(a: Seq<char>)
    ensures
        a + "_nx"@ != a + "_ny"@,
        a + "_nx"@ != a + "_nz"@,
        a + "_ny"@ != a + "_nz"@,
{
    reveal_strlit("_nx");
    reveal_strlit("_ny");
    reveal_strlit("_nz");
    assert((a + "_nx"@).last() == 'x');
    assert((a + "_ny"@).last() == 'y');
    assert((a + "_nz"@).last() == 'z');
}

/// The camera's columns, by their ranks.
proof fn lemma_ray_ranks(width: nat, height: nat, camera: Camera)
    ensures
        ranked(ray_steps(width, height, camera), rank(), 0, 6),
{
    let steps = ray_steps(width, height, camera);
    lemma_ranks();
    assert(steps[0].0 == "origin_x"@ && steps[1].0 == "origin_y"@ && steps[2].0 == "origin_z"@);
    assert(steps[3].0 == "dir_x"@ && steps[4].0 == "dir_y"@ && steps[5].0 == "dir_z"@);
    assert forall|i: int| 0 <= i < steps.len() implies rank()((#[trigger] steps[i]).0) == i by {
        assert(i == 0 || i == 1 || i == 2 || i == 3 || i == 4 || i == 5);
    }
}

/// The columns of the scene have names of their own.
proof fn lemma_names(width: nat, height: nat, camera: Camera, spheres: Seq<Sphere>)
    requires
        has_clear_names(spheres),
    ensures
        has_own_names(scene_steps(width, height, camera, spheres), pixel_table()),
{
    let rays = ray_steps(width, height, camera);
    let met = intersect_steps(spheres);
    let seen = seq![nearest_step(spheres), index_step(spheres)];
    let normals = all_normal_steps(spheres);
    let colors = color_steps(spheres);
    lemma_ranks();
    lemma_ray_ranks(width, height, camera);
    assert(ranked(met, rank(), 6, 7)) by {
        assert forall|i: int| 0 <= i < met.len() implies rank()((#[trigger] met[i]).0) == 6 by {
            lemma_rank_of_parameter(spheres[i].name@);
        }
        assert forall|i: int, j: int| 0 <= i < j < met.len() implies (#[trigger] met[i]).0 != (
        #[trigger] met[j]).0 by {
            assert(spheres[i].label() != spheres[j].label());
            assert(met[i].0.skip("t_"@.len() as int) =~= spheres[i].name@);
            assert(met[j].0.skip("t_"@.len() as int) =~= spheres[j].name@);
        }
    }
    lemma_ranked_append(rays, met, rank(), 0, 6, 7);
    assert(ranked(seen, rank(), 7, 9)) by {
        assert(seen[0].0 == "t_nearest"@ && seen[1].0 == "hit_sphere"@);
        assert forall|i: int| 0 <= i < seen.len() implies rank()((#[trigger] seen[i]).0) == 7
            + i by {
            assert(i == 0 || i == 1);
        }
    }
    lemma_ranked_append(rays + met, seen, rank(), 0, 7, 9);
    lemma_normal_names(spheres);
    lemma_ranked_append(rays + met + seen, normals, rank(), 0, 9, 10);
    assert(ranked(colors, rank(), 10, 13)) by {
        assert forall|i: int| 0 <= i < colors.len() implies rank()((#[trigger] colors[i]).0) == 10
            + i by {
            assert(i == 0 || i == 1 || i == 2);
        }
    }
    lemma_ranked_append(rays + met + seen + normals, colors, rank(), 0, 10, 13);
    lemma_ranked_own(
        scene_steps(width, height, camera, spheres),
        pixel_table(),
        rank(),
        0,
        13,
    );
}

// ---------------------------------------------------------------------------
// The scene
// ---------------------------------------------------------------------------

/// The columns of the scene hold what their formulas say.
#[verifier::spinoff_prover]
proof fn lemma_holds(
    r: Reals,
    width: nat,
    height: nat,
    camera: Camera,
    spheres: Seq<Sphere>,
    row: IdealRow,
)
    requires
        spheres.len() > 0,
        has_clear_names(spheres),
    ensures
        ({
            let a = r.run(scene_steps(width, height, camera, spheres), row);
            let rays = ray_steps(width, height, camera);
            let color = final_color(spheres);
            &&& r.value(column("x"@), a) == r.value(column("x"@), row)
            &&& r.value(column("y"@), a) == r.value(column("y"@), row)
            &&& forall|i: int|
                0 <= i < 6 ==> r.value(column((#[trigger] rays[i]).0), a) == r.value(rays[i].1, a)
            &&& forall|i: int|
                0 <= i < spheres.len() ==> r.value(
                    column("t_"@ + (#[trigger] spheres[i]).name@),
                    a,
                ) == r.value(intersect_step(spheres[i]).1, a)
            &&& forall|i: int|
                0 <= i < spheres.len() ==> {
                    let own = normal_steps(#[trigger] spheres[i]);
                    &&& r.value(column(own[0].0), a) == r.value(own[0].1, a)
                    &&& r.value(column(own[1].0), a) == r.value(own[1].1, a)
                    &&& r.value(column(own[2].0), a) == r.value(own[2].1, a)
                }
            &&& r.value(column("t_nearest"@), a) == r.value(nearest_step(spheres).1, a)
            &&& r.value(column("hit_sphere"@), a) == r.value(index_step(spheres).1, a)
            &&& r.value(column("final_r"@), a) == r.value(color.x, a)
            &&& r.value(column("final_g"@), a) == r.value(color.y, a)
            &&& r.value(column("final_b"@), a) == r.value(color.z, a)
        }),
{
    let steps = scene_steps(width, height, camera, spheres);
    let a = r.run(steps, row);
    let n: int = spheres.len() as int;
    law_multi_sphere_is_sound(width, height, camera, spheres);
    lemma_names(width, height, camera, spheres);
    lemma_normal_names(spheres);
    law_ideal_columns_hold(r, steps, row, pixel_table(), hit_and_shadow());
    assert(pixel_table().contains("x"@) && pixel_table().contains("y"@));
    let rays = ray_steps(width, height, camera);
    let met = intersect_steps(spheres);
    let seen = seq![nearest_step(spheres), index_step(spheres)];
    let normals = all_normal_steps(spheres);
    let colors = color_steps(spheres);
    assert(holds(r, steps, a));
    lemma_holds_split(r, rays + met + seen + normals, colors, a);
    lemma_holds_split(r, rays + met + seen, normals, a);
    lemma_holds_split(r, rays + met, seen, a);
    lemma_holds_split(r, rays, met, a);
    assert forall|i: int| 0 <= i < n implies r.value(
        column("t_"@ + (#[trigger] spheres[i]).name@),
        a,
    ) == r.value(intersect_step(spheres[i]).1, a) by {
        assert(met[i] == intersect_step(spheres[i]));
    }
    assert(seen[0] == nearest_step(spheres) && seen[1] == index_step(spheres));
    assert forall|i: int| 0 <= i < n implies {
        let own = normal_steps(#[trigger] spheres[i]);
        &&& r.value(column(own[0].0), a) == r.value(own[0].1, a)
        &&& r.value(column(own[1].0), a) == r.value(own[1].1, a)
        &&& r.value(column(own[2].0), a) == r.value(own[2].1, a)
    } by {
        let own = normal_steps(spheres[i]);
        assert(normals[3 * i] == own[0]);
        assert(normals[3 * i + 1] == own[1]);
        assert(normals[3 * i + 2] == own[2]);
    }
    assert(colors[0].0 == "final_r"@ && colors[1].0 == "final_g"@ && colors[2].0 == "final_b"@);
}

/// What the scene asks of its inputs: an image and a list that are not too large, a
/// camera that looks somewhere, and spheres of some size with clear names.
pub open spec fn is_view(
    r: Reals,
    width: nat,
    height: nat,
    camera: Camera,
    spheres: Seq<Sphere>,
) -> bool {
    &&& r.is_faithful()
    &&& width <= u32::MAX
    &&& height <= u32::MAX
    &&& 0 < spheres.len() <= i32::MAX
    &&& has_clear_names(spheres)
    &&& (r.number)(camera.focal_length.bits) != 0 as real
    &&& forall|i: int|
        0 <= i < spheres.len() ==> (r.number)((#[trigger] spheres[i]).radius.bits) != 0 as real
}

/// What a row holds of the ray of its pixel and of where that enters the spheres.
pub open spec fn are_met(
    r: Reals,
    a: IdealRow,
    width: nat,
    height: nat,
    camera: Camera,
    spheres: Seq<Sphere>,
    x: real,
    y: real,
) -> bool {
    let way = way_to_pixel(r, width, height, camera, x, y);
    &&& is_pixel(r, a, x, y)
    &&& has_arrow(r, a, "origin_x"@, "origin_y"@, "origin_z"@, nowhere())
    &&& has_arrow(r, a, "dir_x"@, "dir_y"@, "dir_z"@, way)
    &&& forall|i: int|
        0 <= i < spheres.len() ==> is_entry_ahead(
            r,
            nowhere(),
            way,
            spot(
                r,
                (#[trigger] spheres[i]).center_x,
                spheres[i].center_y,
                spheres[i].center_z,
            ),
            (r.number)(spheres[i].radius.bits),
            r.value(column("t_"@ + spheres[i].name@), a),
        )
}

/// The camera looks through each pixel, and the parameter of each sphere is where that
/// ray enters it ahead.
#[verifier::spinoff_prover]
pub proof fn law_several_are_met(
    r: Reals,
    width: nat,
    height: nat,
    camera: Camera,
    spheres: Seq<Sphere>,
    row: IdealRow,
    x: real,
    y: real,
)
    requires
        is_view(r, width, height, camera, spheres),
        is_pixel(r, row, x, y),
    ensures
        are_met(
            r,
            r.run(scene_steps(width, height, camera, spheres), row),
            width,
            height,
            camera,
            spheres,
            x,
            y,
        ),
{
    let a = r.run(scene_steps(width, height, camera, spheres), row);
    let way = way_to_pixel(r, width, height, camera, x, y);
    lemma_holds(r, width, height, camera, spheres, row);
    lemma_camera_rays(r, width, height, camera, a, x, y);
    lemma_some_way(way);
    let (o, d) = (camera_origin(), camera_direction());
    assert forall|i: int| 0 <= i < spheres.len() implies is_entry_ahead(
        r,
        nowhere(),
        way,
        spot(r, (#[trigger] spheres[i]).center_x, spheres[i].center_y, spheres[i].center_z),
        (r.number)(spheres[i].radius.bits),
        r.value(column("t_"@ + spheres[i].name@), a),
    ) by {
        let ball = spheres[i].shape();
        law_meeting(r, o, d, ball, a);
        lemma_entry_ahead(
            r,
            nowhere(),
            way,
            spot(r, ball.center_x, ball.center_y, ball.center_z),
            (r.number)(ball.radius.bits),
            meeting(o, d, ball, Side::Near),
            a,
        );
    }
}

/// The parameters of the spheres in a row, in order.
pub open spec fn parameters(r: Reals, spheres: Seq<Sphere>, a: IdealRow) -> Seq<Ideal> {
    Seq::new(spheres.len(), |i: int| r.value(column("t_"@ + spheres[i].name@), a))
}

/// What a row holds of the sphere that is seen.
pub open spec fn has_nearest(
    r: Reals,
    a: IdealRow,
    spheres: Seq<Sphere>,
) -> bool {
    let ts = parameters(r, spheres, a);
    let near = r.value(column("t_nearest"@), a);
    &&& is_smallest(ts, near)
    &&& is_seen(r, ts, near, r.value(column("hit_sphere"@), a))
}

/// The nearest parameter is the smallest of those of the spheres, and the sphere that
/// is hit the last that is close to it.
#[verifier::spinoff_prover]
pub proof fn law_nearest_of_several(
    r: Reals,
    width: nat,
    height: nat,
    camera: Camera,
    spheres: Seq<Sphere>,
    row: IdealRow,
    x: real,
    y: real,
)
    requires
        is_view(r, width, height, camera, spheres),
        is_pixel(r, row, x, y),
    ensures
        has_nearest(
            r,
            r.run(scene_steps(width, height, camera, spheres), row),
            spheres,
        ),
{
    let a = r.run(scene_steps(width, height, camera, spheres), row);
    law_several_are_met(r, width, height, camera, spheres, row, x, y);
    lemma_holds(r, width, height, camera, spheres, row);
    assert forall|i: int| 0 <= i < spheres.len() implies may_be_given(
        r.value(column("t_"@ + (#[trigger] spheres[i]).label()), a),
    ) by {
        assert(spheres[i].label() == spheres[i].name@);
    }
    lemma_seen(r, spheres, "t_"@, column("t_nearest"@), a);
    assert(parameters(r, spheres, a) =~= Seq::new(
        spheres.len(),
        |i: int| r.value(column("t_"@ + spheres[i].label()), a),
    ));
}

/// What a row holds of the normal of a sphere.
pub open spec fn has_normal(
    r: Reals,
    a: IdealRow,
    width: nat,
    height: nat,
    camera: Camera,
    spheres: Seq<Sphere>,
    x: real,
    y: real,
    i: int,
) -> bool {
    let way = way_to_pixel(r, width, height, camera, x, y);
    let name = spheres[i].name@;
    let normal = arrow(
        r,
        columns(name + "_nx"@, name + "_ny"@, name + "_nz"@),
        a,
    );
    r.value(column("t_"@ + name), a) matches Ideal::Number(t) ==> {
        &&& has_arrow(r, a, name + "_nx"@, name + "_ny"@, name + "_nz"@, normal)
        &&& normal.scaled((r.number)(spheres[i].radius.bits)) == along_ray(
            nowhere(),
            way,
            t,
        ).minus(
            spot(r, spheres[i].center_x, spheres[i].center_y, spheres[i].center_z),
        )
    }
}

/// Where a sphere is met, its normal points from its centre to that point and has
/// length one.
#[verifier::spinoff_prover]
pub proof fn law_normals_of_several(
    r: Reals,
    width: nat,
    height: nat,
    camera: Camera,
    spheres: Seq<Sphere>,
    row: IdealRow,
    x: real,
    y: real,
    i: int,
)
    requires
        is_view(r, width, height, camera, spheres),
        is_pixel(r, row, x, y),
        0 <= i < spheres.len(),
    ensures
        has_normal(
            r,
            r.run(scene_steps(width, height, camera, spheres), row),
            width,
            height,
            camera,
            spheres,
            x,
            y,
            i,
        ),
{
    let a = r.run(scene_steps(width, height, camera, spheres), row);
    lemma_holds(r, width, height, camera, spheres, row);
    lemma_camera_rays(r, width, height, camera, a, x, y);
    let own = normal_steps(spheres[i]);
    let t = column("t_"@ + spheres[i].name@);
    let (o, d, ball) = (camera_origin(), camera_direction(), spheres[i].shape());
    if r.value(t, a) is Number {
        lemma_point_on_ray(r, o, d, t, a);
        lemma_normal_from_center(r, ball, point_at(o, d, t), a);
        let normal = ball.normal_at(point_at(o, d, t));
        assert(own[0].1 == normal.x && own[1].1 == normal.y && own[2].1 == normal.z);
        assert(r.value(column(own[0].0), a) == r.value(own[0].1, a));
    }
}

/// A channel of a sphere's colour, lit by a component of the normal.
pub open spec fn lit_by(color: real, component: real) -> real {
    product(product(color, 255 as real), one_half() + product(one_half(), component))
}

#[verifier::spinoff_prover]
proof fn lemma_shaded(r: Reals, color: u64, component: Node, row: IdealRow)
    requires
        r.is_faithful(),
        is_given(r, component, row),
    ensures
        r.value(shaded(color, component), row) == Ideal::Number(
            lit_by((r.number)(color), real_of(r, component, row)),
        ),
{
    let (c, full, half) = (number(color), number(CHANNEL_MAX), number(HALF));
    lemma_real_number(r, color, row);
    lemma_real_number(r, CHANNEL_MAX, row);
    lemma_real_number(r, HALF, row);
    lemma_real_binary(r, c, Operator::Times, full, row);
    lemma_real_binary(r, half, Operator::Times, component, row);
    lemma_real_binary(r, half, Operator::Plus, half.times(component), row);
    lemma_real_binary(r, c.times(full), Operator::Times, half.plus(half.times(component)), row);
}

#[verifier::spinoff_prover]
proof fn lemma_shade(r: Reals, sphere: Sphere, row: IdealRow)
    requires
        r.is_faithful(),
        is_given(r, column(sphere.name@ + "_nx"@), row),
        is_given(r, column(sphere.name@ + "_ny"@), row),
        is_given(r, column(sphere.name@ + "_nz"@), row),
    ensures
        ({
            let nx = real_of(r, column(sphere.name@ + "_nx"@), row);
            let ny = real_of(r, column(sphere.name@ + "_ny"@), row);
            let nz = real_of(r, column(sphere.name@ + "_nz"@), row);
            let own = shade(sphere);
            &&& r.value(own.x, row) == Ideal::Number(lit_by((r.number)(sphere.color_r.bits), nx))
            &&& r.value(own.y, row) == Ideal::Number(lit_by((r.number)(sphere.color_g.bits), ny))
            &&& r.value(own.z, row) == Ideal::Number(
                lit_by((r.number)(sphere.color_b.bits), nz) + product(
                    (r.number)(BLUE_TINT),
                    1 as real - nz,
                ),
            )
        }),
{
    let nz = column(sphere.name@ + "_nz"@);
    let (tint, one) = (number(BLUE_TINT), number(ONE));
    lemma_shaded(r, sphere.color_r.bits, column(sphere.name@ + "_nx"@), row);
    lemma_shaded(r, sphere.color_g.bits, column(sphere.name@ + "_ny"@), row);
    lemma_shaded(r, sphere.color_b.bits, nz, row);
    lemma_real_number(r, BLUE_TINT, row);
    lemma_real_number(r, ONE, row);
    lemma_real_binary(r, one, Operator::Minus, nz, row);
    lemma_real_binary(r, tint, Operator::Times, one.minus(nz), row);
    lemma_real_binary(
        r,
        shaded(sphere.color_b.bits, nz),
        Operator::Plus,
        tint.times(one.minus(nz)),
        row,
    );
}

/// What a row holds of the colour.
pub open spec fn is_colored(
    r: Reals,
    a: IdealRow,
    spheres: Seq<Sphere>,
) -> bool {
    match r.value(column("hit_sphere"@), a) {
        Ideal::Index(k) => {
            let sphere = spheres[k as int];
            let name = sphere.name@;
            let normal = arrow(
                r,
                columns(name + "_nx"@, name + "_ny"@, name + "_nz"@),
                a,
            );
            let blue = lit_by((r.number)(sphere.color_b.bits), normal.z) + product(
                (r.number)(BLUE_TINT),
                1 as real - normal.z,
            );
            &&& 0 <= k < spheres.len()
            &&& has_arrow(
                r,
                a,
                "final_r"@,
                "final_g"@,
                "final_b"@,
                Arrow {
                    x: within_channel(lit_by((r.number)(sphere.color_r.bits), normal.x)),
                    y: within_channel(lit_by((r.number)(sphere.color_g.bits), normal.y)),
                    z: within_channel(blue),
                },
            )
        },
        _ => has_arrow(
            r,
            a,
            "final_r"@,
            "final_g"@,
            "final_b"@,
            Arrow {
                x: within_channel((r.number)(SKY_R)),
                y: within_channel((r.number)(SKY_G)),
                z: within_channel((r.number)(SKY_B)),
            },
        ),
    }
}

/// The colour of a pixel is that of the sphere that is hit, each channel lit by its
/// component of the normal and blue tinted at the edge; where none is hit it is the
/// sky's.
#[verifier::spinoff_prover]
pub proof fn law_color_of_several(
    r: Reals,
    width: nat,
    height: nat,
    camera: Camera,
    spheres: Seq<Sphere>,
    row: IdealRow,
    x: real,
    y: real,
)
    requires
        is_view(r, width, height, camera, spheres),
        is_pixel(r, row, x, y),
    ensures
        is_colored(
            r,
            r.run(scene_steps(width, height, camera, spheres), row),
            spheres,
        ),
{
    let a = r.run(scene_steps(width, height, camera, spheres), row);
    let hit = column("hit_sphere"@);
    let n = spheres.len();
    lemma_holds(r, width, height, camera, spheres, row);
    law_nearest_of_several(r, width, height, camera, spheres, row, x, y);
    let reds = Seq::new(n, |i: int| shade(spheres[i]).x);
    let greens = Seq::new(n, |i: int| shade(spheres[i]).y);
    let blues = Seq::new(n, |i: int| shade(spheres[i]).z);
    law_choice(r, hit, reds, number(SKY_R), a);
    law_choice(r, hit, greens, number(SKY_G), a);
    law_choice(r, hit, blues, number(SKY_B), a);
    lemma_real_number(r, SKY_R, a);
    lemma_real_number(r, SKY_G, a);
    lemma_real_number(r, SKY_B, a);
    match r.value(hit, a) {
        Ideal::Index(k) => {
            let ts = parameters(r, spheres, a);
            assert(is_close(r, ts[k as int], r.value(column("t_nearest"@), a)));
            law_normals_of_several(r, width, height, camera, spheres, row, x, y, k as int);
            lemma_shade(r, spheres[k as int], a);
            assert(reds[k as int] == shade(spheres[k as int]).x);
            assert(greens[k as int] == shade(spheres[k as int]).y);
            assert(blues[k as int] == shade(spheres[k as int]).z);
        },
        _ => {},
    }
    law_within_channel(r, chosen(hit, reds, number(SKY_R)), a);
    law_within_channel(r, chosen(hit, greens, number(SKY_G)), a);
    law_within_channel(r, chosen(hit, blues, number(SKY_B)), a);
    lemma_final_color(spheres);
}

proof fn lemma_final_color(spheres: Seq<Sphere>)
    ensures
        ({
            let hit = column("hit_sphere"@);
            let n = spheres.len();
            let reds = Seq::new(n, |i: int| shade(spheres[i]).x);
            let greens = Seq::new(n, |i: int| shade(spheres[i]).y);
            let blues = Seq::new(n, |i: int| shade(spheres[i]).z);
            &&& final_color(spheres).x == clamped(chosen(hit, reds, number(SKY_R)))
            &&& final_color(spheres).y == clamped(chosen(hit, greens, number(SKY_G)))
            &&& final_color(spheres).z == clamped(chosen(hit, blues, number(SKY_B)))
        }),
{
}

/// What a row holds of several spheres.
pub open spec fn shows_spheres(
    r: Reals,
    a: IdealRow,
    width: nat,
    height: nat,
    camera: Camera,
    spheres: Seq<Sphere>,
    x: real,
    y: real,
) -> bool {
    &&& are_met(r, a, width, height, camera, spheres, x, y)
    &&& has_nearest(r, a, spheres)
    &&& forall|i: int|
        0 <= i < spheres.len() ==> #[trigger] has_normal(
            r,
            a,
            width,
            height,
            camera,
            spheres,
            x,
            y,
            i,
        )
    &&& is_colored(r, a, spheres)
}

/// What a pixel shows of several spheres.
pub proof fn law_several_spheres(
    r: Reals,
    width: nat,
    height: nat,
    camera: Camera,
    spheres: Seq<Sphere>,
    row: IdealRow,
    x: real,
    y: real,
)
    requires
        is_view(r, width, height, camera, spheres),
        is_pixel(r, row, x, y),
    ensures
        shows_spheres(
            r,
            r.run(scene_steps(width, height, camera, spheres), row),
            width,
            height,
            camera,
            spheres,
            x,
            y,
        ),
{
    law_several_are_met(r, width, height, camera, spheres, row, x, y);
    law_nearest_of_several(r, width, height, camera, spheres, row, x, y);
    law_color_of_several(r, width, height, camera, spheres, row, x, y);
    let a = r.run(scene_steps(width, height, camera, spheres), row);
    assert forall|i: int| 0 <= i < spheres.len() implies #[trigger] has_normal(
        r,
        a,
        width,
        height,
        camera,
        spheres,
        x,
        y,
        i,
    ) by {
        law_normals_of_several(r, width, height, camera, spheres, row, x, y, i);
    }
}

} // verus!

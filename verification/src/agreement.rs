//! The two scenes with a single sphere, one in a query and one in a plan of columns,
//! show the same sphere.
use crate::dataframe_sphere;
use crate::formula::{Node, Operator, column, number};
use crate::meaning::{
    Arithmetic, Row, Value, agree, group_sorts, group_values, has_own_names, is_number, is_sound,
    law_columns_hold, law_value_depends_on_columns, lemma_sound_append, lemma_sound_at_once,
    lemma_value_stays, names, sort_of, table,
};
use crate::number::{CHANNEL_MAX, HALF, ONE, TWO, ZERO, whole_bits};
use crate::plan::Steps;
use crate::soundness::{law_dataframe_sphere_is_sound, lemma_meeting, only_numbers, pixel_table};
use crate::sphere::{
    ABOUT_SHADES, ABOUT_SKY, INDENTED, MINUS_ONE, SKY_G, SKY_R, SKY_SPAN_G, SKY_SPAN_R, Selected,
    VIEWPORT_HEIGHT, VIEWPORT_WIDTH, VIEWPORT_WIDTH_BITS, channel, colors, double, half, hits,
    intersections, normals, pixels, query_steps, rays, scene_values, selected, sky, steps_of, whole,
};
use crate::sql::{Term, bracketed, group_meanings, sign, strength};
use crate::template::{law_first_value, value_of};
use crate::text::decimal;
use crate::trace::{Quadratic, Side, camera_direction, camera_origin, meeting, point_at, quadratic};
use crate::vector::Triple;
use vstd::prelude::*;

verus! {

// ---------------------------------------------------------------------------
// The query is sound
// ---------------------------------------------------------------------------

/// Expressions that are numbers over the columns that are there are sound.
proof fn lemma_stage(stage: Selected, there: Set<Seq<char>>)
    requires
        forall|i: int|
            0 <= i < stage.len() ==> is_number(
                (#[trigger] stage[i]).1.meaning(),
                table(there, only_numbers()),
            ),
    ensures
        is_sound(steps_of(stage), there, only_numbers()),
        forall|i: int|
            0 <= i < stage.len() ==> names(steps_of(stage)).contains((#[trigger] stage[i]).0),
{
    let steps = steps_of(stage);
    assert forall|i: int| 0 <= i < steps.len() implies sort_of(
        (#[trigger] steps[i]).1,
        table(there, only_numbers()),
    ) == Some(only_numbers()(steps[i].0)) by {
        assert(steps[i].1 == stage[i].1.meaning());
    }
    lemma_sound_at_once(steps, there, only_numbers());
    assert forall|i: int| 0 <= i < stage.len() implies names(steps).contains(
        (#[trigger] stage[i]).0,
    ) by {
        assert(steps[i].0 == stage[i].0);
    }
}

proof fn lemma_pixels(width: nat, height: nat, there: Set<Seq<char>>)
    requires
        there.contains("x"@),
        there.contains("y"@),
    ensures
        is_sound(steps_of(pixels(width, height)), there, only_numbers()),
        names(steps_of(pixels(width, height))).contains("vp_x"@),
        names(steps_of(pixels(width, height))).contains("vp_y"@),
{
    broadcast use {group_sorts, group_meanings};

    let sorts = table(there, only_numbers());
    let stage = pixels(width, height);
    assert(is_number(column("x"@), sorts) && is_number(column("y"@), sorts));
    assert(is_number(stage[0].1.meaning(), sorts));
    assert(is_number(stage[1].1.meaning(), sorts));
    lemma_stage(stage, there);
    assert(stage[0].0 == "vp_x"@ && stage[1].0 == "vp_y"@);
}

proof fn lemma_rays(there: Set<Seq<char>>)
    requires
        there.contains("vp_x"@),
        there.contains("vp_y"@),
    ensures
        is_sound(steps_of(rays()), there, only_numbers()),
        names(steps_of(rays())).contains("origin_x"@),
        names(steps_of(rays())).contains("origin_y"@),
        names(steps_of(rays())).contains("origin_z"@),
        names(steps_of(rays())).contains("dir_x"@),
        names(steps_of(rays())).contains("dir_y"@),
        names(steps_of(rays())).contains("dir_z"@),
{
    broadcast use {group_sorts, group_meanings};

    let sorts = table(there, only_numbers());
    let stage = rays();
    assert(is_number(column("vp_x"@), sorts) && is_number(column("vp_y"@), sorts));
    assert(is_number(stage[0].1.meaning(), sorts));
    assert(is_number(stage[3].1.meaning(), sorts));
    assert(is_number(stage[4].1.meaning(), sorts));
    assert(is_number(stage[5].1.meaning(), sorts));
    lemma_stage(stage, there);
    assert(stage[0].0 == "origin_x"@ && stage[1].0 == "origin_y"@ && stage[2].0 == "origin_z"@);
    assert(stage[3].0 == "dir_x"@ && stage[4].0 == "dir_y"@ && stage[5].0 == "dir_z"@);
}

/// Whether the camera's rays are there.
spec fn has_rays(there: Set<Seq<char>>) -> bool {
    &&& there.contains("origin_x"@) && there.contains("origin_y"@) && there.contains("origin_z"@)
    &&& there.contains("dir_x"@) && there.contains("dir_y"@) && there.contains("dir_z"@)
}

proof fn lemma_ray_columns(there: Set<Seq<char>>)
    requires
        has_rays(there),
    ensures
        is_number(column("origin_x"@), table(there, only_numbers())),
        is_number(column("origin_y"@), table(there, only_numbers())),
        is_number(column("origin_z"@), table(there, only_numbers())),
        is_number(column("dir_x"@), table(there, only_numbers())),
        is_number(column("dir_y"@), table(there, only_numbers())),
        is_number(column("dir_z"@), table(there, only_numbers())),
{
    broadcast use group_sorts;

}

proof fn lemma_intersections(there: Set<Seq<char>>)
    requires
        has_rays(there),
    ensures
        is_sound(steps_of(intersections()), there, only_numbers()),
        names(steps_of(intersections())).contains("a"@),
        names(steps_of(intersections())).contains("half_b"@),
        names(steps_of(intersections())).contains("c"@),
{
    broadcast use {group_sorts, group_meanings};

    let sorts = table(there, only_numbers());
    let stage = intersections();
    lemma_ray_columns(there);
    assert(is_number(stage[0].1.meaning(), sorts));
    assert(is_number(stage[1].1.meaning(), sorts));
    assert(is_number(stage[2].1.meaning(), sorts));
    assert(is_number(stage[3].1.meaning(), sorts));
    assert(is_number(stage[4].1.meaning(), sorts));
    assert(is_number(stage[5].1.meaning(), sorts));
    lemma_stage(stage, there);
    assert(stage[3].0 == "a"@ && stage[4].0 == "half_b"@ && stage[5].0 == "c"@);
}

proof fn lemma_hits(there: Set<Seq<char>>)
    requires
        there.contains("a"@),
        there.contains("half_b"@),
        there.contains("c"@),
    ensures
        is_sound(steps_of(hits()), there, only_numbers()),
        names(steps_of(hits())).contains("t"@),
{
    broadcast use {group_sorts, group_meanings};

    let sorts = table(there, only_numbers());
    let stage = hits();
    assert(is_number(column("a"@), sorts) && is_number(column("half_b"@), sorts));
    assert(is_number(column("c"@), sorts));
    assert(is_number(Node::NullNumber, sorts));
    assert(Term::Null.meaning() == Node::NullNumber);
    assert(is_number(stage[0].1.meaning(), sorts));
    assert(is_number(stage[1].1.meaning(), sorts));
    lemma_stage(stage, there);
    assert(stage[1].0 == "t"@);
}

proof fn lemma_normals(there: Set<Seq<char>>)
    requires
        has_rays(there),
        there.contains("t"@),
    ensures
        is_sound(steps_of(normals()), there, only_numbers()),
        names(steps_of(normals())).contains("normal_x"@),
        names(steps_of(normals())).contains("normal_y"@),
        names(steps_of(normals())).contains("normal_z"@),
{
    broadcast use {group_sorts, group_meanings};

    let sorts = table(there, only_numbers());
    let stage = normals();
    lemma_ray_columns(there);
    assert(is_number(column("t"@), sorts));
    assert(is_number(stage[0].1.meaning(), sorts));
    assert(is_number(stage[1].1.meaning(), sorts));
    assert(is_number(stage[2].1.meaning(), sorts));
    assert(is_number(stage[3].1.meaning(), sorts));
    assert(is_number(stage[4].1.meaning(), sorts));
    assert(is_number(stage[5].1.meaning(), sorts));
    lemma_stage(stage, there);
    assert(stage[3].0 == "normal_x"@ && stage[4].0 == "normal_y"@ && stage[5].0 == "normal_z"@);
}

proof fn lemma_colors(height: nat, there: Set<Seq<char>>)
    requires
        there.contains("y"@),
        there.contains("t"@),
        there.contains("normal_x"@),
        there.contains("normal_y"@),
        there.contains("normal_z"@),
    ensures
        is_sound(steps_of(colors(height)), there, only_numbers()),
{
    broadcast use {group_sorts, group_meanings};

    let sorts = table(there, only_numbers());
    let stage = colors(height);
    assert(is_number(column("y"@), sorts) && is_number(column("t"@), sorts));
    assert(is_number(column("normal_x"@), sorts) && is_number(column("normal_y"@), sorts));
    assert(is_number(column("normal_z"@), sorts));
    assert(is_number(stage[0].1.meaning(), sorts));
    assert(is_number(stage[1].1.meaning(), sorts));
    assert(is_number(stage[2].1.meaning(), sorts));
    lemma_stage(stage, there);
}

proof fn lemma_steps_append(a: Selected, b: Selected)
    ensures
        steps_of(a + b) == steps_of(a) + steps_of(b),
{
    assert(steps_of(a + b) =~= steps_of(a) + steps_of(b));
}

/// Each expression of the query is made of what is computed before it.
pub proof fn law_query_is_sound(width: nat, height: nat)
    ensures
        is_sound(query_steps(width, height), pixel_table(), only_numbers()),
{
    let sort = only_numbers();
    let t0 = pixel_table();
    let (s1, s2, s3) = (pixels(width, height), rays(), intersections());
    let (s4, s5, s6) = (hits(), normals(), colors(height));
    lemma_pixels(width, height, t0);
    let t1 = t0.union(names(steps_of(s1)));
    lemma_rays(t1);
    lemma_sound_append(steps_of(s1), steps_of(s2), t0, sort);
    lemma_steps_append(s1, s2);
    let t2 = t0.union(names(steps_of(s1 + s2)));
    lemma_intersections(t2);
    lemma_sound_append(steps_of(s1 + s2), steps_of(s3), t0, sort);
    lemma_steps_append(s1 + s2, s3);
    let t3 = t0.union(names(steps_of(s1 + s2 + s3)));
    lemma_hits(t3);
    lemma_sound_append(steps_of(s1 + s2 + s3), steps_of(s4), t0, sort);
    lemma_steps_append(s1 + s2 + s3, s4);
    let t4 = t0.union(names(steps_of(s1 + s2 + s3 + s4)));
    lemma_normals(t4);
    lemma_sound_append(steps_of(s1 + s2 + s3 + s4), steps_of(s5), t0, sort);
    lemma_steps_append(s1 + s2 + s3 + s4, s5);
    let t5 = t0.union(names(steps_of(s1 + s2 + s3 + s4 + s5)));
    lemma_colors(height, t5);
    lemma_sound_append(steps_of(s1 + s2 + s3 + s4 + s5), steps_of(s6), t0, sort);
    lemma_steps_append(s1 + s2 + s3 + s4 + s5, s6);
}

// ---------------------------------------------------------------------------
// The names
// ---------------------------------------------------------------------------

/// The place of a letter among the axes.
spec fn axis(c: char) -> int {
    if c == 'x' {
        0
    } else if c == 'y' {
        1
    } else {
        2
    }
}

/// A number for each name of a column in the two scenes, by its length and its first
/// and last letter.
spec fn order(name: Seq<char>) -> int {
    let (n, first, last) = (name.len(), name[0], name.last());
    if n == 1 {
        if first == 'x' {
            -1
        } else if first == 'y' {
            -2
        } else if first == 'a' {
            11
        } else if first == 'c' {
            13
        } else if first == 't' {
            15
        } else if first == 'r' {
            22
        } else if first == 'g' {
            23
        } else {
            24
        }
    } else if n == 4 && first == 'v' {
        axis(last)
    } else if n == 8 && first == 'o' {
        2 + axis(last)
    } else if n == 5 && first == 'd' {
        5 + axis(last)
    } else if n == 4 && first == 'o' {
        8 + axis(last)
    } else if n == 6 {
        12
    } else if n == 12 {
        14
    } else if n == 5 {
        16 + axis(last)
    } else if n == 8 {
        19 + axis(last)
    } else if n == 11 {
        25 + axis(last)
    } else if last == 'r' {
        28
    } else if last == 'g' {
        29
    } else {
        30
    }
}

proof fn lemma_query_names(width: nat, height: nat)
    ensures
        has_own_names(query_steps(width, height), pixel_table()),
        query_steps(width, height).len() == 25,
{
    let steps = query_steps(width, height);
    reveal_strlit("x");
    reveal_strlit("y");
    reveal_strlit("vp_x");
    reveal_strlit("vp_y");
    reveal_strlit("origin_x");
    reveal_strlit("origin_y");
    reveal_strlit("origin_z");
    reveal_strlit("dir_x");
    reveal_strlit("dir_y");
    reveal_strlit("dir_z");
    reveal_strlit("oc_x");
    reveal_strlit("oc_y");
    reveal_strlit("oc_z");
    reveal_strlit("a");
    reveal_strlit("half_b");
    reveal_strlit("c");
    reveal_strlit("discriminant");
    reveal_strlit("t");
    reveal_strlit("hit_x");
    reveal_strlit("hit_y");
    reveal_strlit("hit_z");
    reveal_strlit("normal_x");
    reveal_strlit("normal_y");
    reveal_strlit("normal_z");
    reveal_strlit("r");
    reveal_strlit("g");
    reveal_strlit("b");
    assert(steps.len() == 25);
    assert(order(steps[0].0) == 0);
    assert(order(steps[1].0) == 1);
    assert(order(steps[2].0) == 2);
    assert(order(steps[3].0) == 3);
    assert(order(steps[4].0) == 4);
    assert(order(steps[5].0) == 5);
    assert(order(steps[6].0) == 6);
    assert(order(steps[7].0) == 7);
    assert(order(steps[8].0) == 8);
    assert(order(steps[9].0) == 9);
    assert(order(steps[10].0) == 10);
    assert(order(steps[11].0) == 11);
    assert(order(steps[12].0) == 12);
    assert(order(steps[13].0) == 13);
    assert(order(steps[14].0) == 14);
    assert(order(steps[15].0) == 15);
    assert(order(steps[16].0) == 16);
    assert(order(steps[17].0) == 17);
    assert(order(steps[18].0) == 18);
    assert(order(steps[19].0) == 19);
    assert(order(steps[20].0) == 20);
    assert(order(steps[21].0) == 21);
    assert(order(steps[22].0) == 22);
    assert(order(steps[23].0) == 23);
    assert(order(steps[24].0) == 24);
    assert forall|i: int| 0 <= i < 25 implies order((#[trigger] steps[i]).0) == i by {
        assert(i == 0 || i == 1 || i == 2 || i == 3 || i == 4 || i == 5 || i == 6 || i == 7
            || i == 8 || i == 9 || i == 10 || i == 11 || i == 12 || i == 13 || i == 14
            || i == 15 || i == 16 || i == 17 || i == 18 || i == 19 || i == 20 || i == 21
            || i == 22 || i == 23 || i == 24);
    }
    assert(order("x"@) == -1 && order("y"@) == -2);
    assert forall|i: int, j: int| 0 <= i < j < 25 implies (#[trigger] steps[i]).0 != (
    #[trigger] steps[j]).0 by {
        assert(order(steps[i].0) != order(steps[j].0));
    }
}

/// The plan for the single sphere.
pub open spec fn plan_steps(width: nat, height: nat) -> Steps {
    dataframe_sphere::scene_steps(
        width,
        height,
        dataframe_sphere::scene_camera(),
        dataframe_sphere::the_sphere(),
    )
}

proof fn lemma_plan_names(width: nat, height: nat)
    ensures
        has_own_names(plan_steps(width, height), pixel_table()),
        plan_steps(width, height).len() == 13,
        plan_steps(width, height)[0].0 == "origin_x"@,
        plan_steps(width, height)[1].0 == "origin_y"@,
        plan_steps(width, height)[2].0 == "origin_z"@,
        plan_steps(width, height)[3].0 == "dir_x"@,
        plan_steps(width, height)[4].0 == "dir_y"@,
        plan_steps(width, height)[5].0 == "dir_z"@,
        plan_steps(width, height)[6].0 == "t"@,
        plan_steps(width, height)[7].0 == "s0_normal_x"@,
        plan_steps(width, height)[8].0 == "s0_normal_y"@,
        plan_steps(width, height)[9].0 == "s0_normal_z"@,
        plan_steps(width, height)[10].0 == "s0_r"@,
        plan_steps(width, height)[11].0 == "s0_g"@,
        plan_steps(width, height)[12].0 == "s0_b"@,
{
    let steps = plan_steps(width, height);
    reveal_strlit("x");
    reveal_strlit("y");
    reveal_strlit("s0");
    reveal_strlit("_normal_x");
    reveal_strlit("_normal_y");
    reveal_strlit("_normal_z");
    reveal_strlit("_r");
    reveal_strlit("_g");
    reveal_strlit("_b");
    reveal_strlit("origin_x");
    reveal_strlit("origin_y");
    reveal_strlit("origin_z");
    reveal_strlit("dir_x");
    reveal_strlit("dir_y");
    reveal_strlit("dir_z");
    reveal_strlit("t");
    reveal_strlit("s0_normal_x");
    reveal_strlit("s0_normal_y");
    reveal_strlit("s0_normal_z");
    reveal_strlit("s0_r");
    reveal_strlit("s0_g");
    reveal_strlit("s0_b");
    assert("s0"@ + "_normal_x"@ =~= "s0_normal_x"@);
    assert("s0"@ + "_normal_y"@ =~= "s0_normal_y"@);
    assert("s0"@ + "_normal_z"@ =~= "s0_normal_z"@);
    assert("s0"@ + "_r"@ =~= "s0_r"@);
    assert("s0"@ + "_g"@ =~= "s0_g"@);
    assert("s0"@ + "_b"@ =~= "s0_b"@);
    assert(steps.len() == 13);
    let rank = |i: int|
        if i < 6 {
            i + 2
        } else if i == 6 {
            15
        } else {
            i + 18
        };
    assert(order(steps[0].0) == rank(0));
    assert(order(steps[1].0) == rank(1));
    assert(order(steps[2].0) == rank(2));
    assert(order(steps[3].0) == rank(3));
    assert(order(steps[4].0) == rank(4));
    assert(order(steps[5].0) == rank(5));
    assert(order(steps[6].0) == rank(6));
    assert(order(steps[7].0) == rank(7));
    assert(order(steps[8].0) == rank(8));
    assert(order(steps[9].0) == rank(9));
    assert(order(steps[10].0) == rank(10));
    assert(order(steps[11].0) == rank(11));
    assert(order(steps[12].0) == rank(12));
    assert forall|i: int| 0 <= i < 13 implies order((#[trigger] steps[i]).0) == rank(i) by {
        assert(i == 0 || i == 1 || i == 2 || i == 3 || i == 4 || i == 5 || i == 6 || i == 7
            || i == 8 || i == 9 || i == 10 || i == 11 || i == 12);
    }
    assert(order("x"@) == -1 && order("y"@) == -2);
    assert forall|i: int, j: int| 0 <= i < j < 13 implies (#[trigger] steps[i]).0 != (
    #[trigger] steps[j]).0 by {
        assert(rank(i) != rank(j));
    }
}

// ---------------------------------------------------------------------------
// The images
// ---------------------------------------------------------------------------

/// Each column of the query holds what its expression says.
proof fn lemma_query_columns(m: Arithmetic, width: nat, height: nat, row: Row)
    ensures
        ({
            let a = m.run(query_steps(width, height), row);
            &&& m.value(column("x"@), a) == m.value(column("x"@), row)
            &&& m.value(column("y"@), a) == m.value(column("y"@), row)
            &&& forall|i: int|
                0 <= i < 25 ==> m.value(column((#[trigger] selected(width, height)[i]).0), a)
                    == m.value(selected(width, height)[i].1.meaning(), a)
        }),
{
    let steps = query_steps(width, height);
    let all = selected(width, height);
    let a = m.run(steps, row);
    law_query_is_sound(width, height);
    lemma_query_names(width, height);
    law_columns_hold(m, steps, row, pixel_table(), only_numbers());
    assert(pixel_table().contains("x"@) && pixel_table().contains("y"@));
    assert forall|i: int| 0 <= i < 25 implies m.value(column((#[trigger] all[i]).0), a) == m.value(
        all[i].1.meaning(),
        a,
    ) by {
        assert(steps[i] == (all[i].0, all[i].1.meaning()));
    }
}

/// Where the expressions of the query stand.
proof fn lemma_query_places(width: nat, height: nat)
    ensures
        ({
            let all = selected(width, height);
            &&& all[0] == pixels(width, height)[0]
            &&& all[1] == pixels(width, height)[1]
            &&& all[2] == rays()[0]
            &&& all[3] == rays()[1]
            &&& all[4] == rays()[2]
            &&& all[5] == rays()[3]
            &&& all[6] == rays()[4]
            &&& all[7] == rays()[5]
            &&& all[11] == intersections()[3]
            &&& all[12] == intersections()[4]
            &&& all[13] == intersections()[5]
            &&& all[15] == hits()[1]
            &&& all[19] == normals()[3]
            &&& all[20] == normals()[4]
            &&& all[21] == normals()[5]
            &&& all[22] == colors(height)[0]
            &&& all[23] == colors(height)[1]
            &&& all[24] == colors(height)[2]
        }),
{
}

/// What the query makes of a pixel, in terms of what it has made of it before.
proof fn lemma_query_row(m: Arithmetic, width: nat, height: nat, row: Row)
    ensures
        ({
            let a = m.run(query_steps(width, height), row);
            let (pixel, ray) = (pixels(width, height), rays());
            let (equation, hit) = (intersections(), hits());
            let (normal, color) = (normals(), colors(height));
            &&& m.value(column("x"@), a) == m.value(column("x"@), row)
            &&& m.value(column("y"@), a) == m.value(column("y"@), row)
            &&& m.value(column("vp_x"@), a) == m.value(pixel[0].1.meaning(), a)
            &&& m.value(column("vp_y"@), a) == m.value(pixel[1].1.meaning(), a)
            &&& m.value(column("origin_x"@), a) == m.value(ray[0].1.meaning(), a)
            &&& m.value(column("origin_y"@), a) == m.value(ray[1].1.meaning(), a)
            &&& m.value(column("origin_z"@), a) == m.value(ray[2].1.meaning(), a)
            &&& m.value(column("dir_x"@), a) == m.value(ray[3].1.meaning(), a)
            &&& m.value(column("dir_y"@), a) == m.value(ray[4].1.meaning(), a)
            &&& m.value(column("dir_z"@), a) == m.value(ray[5].1.meaning(), a)
            &&& m.value(column("a"@), a) == m.value(equation[3].1.meaning(), a)
            &&& m.value(column("half_b"@), a) == m.value(equation[4].1.meaning(), a)
            &&& m.value(column("c"@), a) == m.value(equation[5].1.meaning(), a)
            &&& m.value(column("t"@), a) == m.value(hit[1].1.meaning(), a)
            &&& m.value(column("normal_x"@), a) == m.value(normal[3].1.meaning(), a)
            &&& m.value(column("normal_y"@), a) == m.value(normal[4].1.meaning(), a)
            &&& m.value(column("normal_z"@), a) == m.value(normal[5].1.meaning(), a)
            &&& m.value(column("r"@), a) == m.value(color[0].1.meaning(), a)
            &&& m.value(column("g"@), a) == m.value(color[1].1.meaning(), a)
            &&& m.value(column("b"@), a) == m.value(color[2].1.meaning(), a)
        }),
{
    lemma_query_columns(m, width, height, row);
    lemma_query_places(width, height);
    let all = selected(width, height);
    assert(all[0] == pixels(width, height)[0]);
    assert(all[1] == pixels(width, height)[1]);
    assert(all[2] == rays()[0]);
    assert(all[3] == rays()[1]);
    assert(all[4] == rays()[2]);
    assert(all[5] == rays()[3]);
    assert(all[6] == rays()[4]);
    assert(all[7] == rays()[5]);
    assert(all[11] == intersections()[3]);
    assert(all[12] == intersections()[4]);
    assert(all[13] == intersections()[5]);
    assert(all[15] == hits()[1]);
    assert(all[19] == normals()[3]);
    assert(all[20] == normals()[4]);
    assert(all[21] == normals()[5]);
    assert(all[22] == colors(height)[0]);
    assert(all[23] == colors(height)[1]);
    assert(all[24] == colors(height)[2]);
}

/// What the plan makes of a pixel, in terms of what it has made of it before.
proof fn lemma_plan_row(m: Arithmetic, width: nat, height: nat, row: Row)
    ensures
        ({
            let b = m.run(plan_steps(width, height), row);
            let steps = plan_steps(width, height);
            &&& m.value(column("x"@), b) == m.value(column("x"@), row)
            &&& m.value(column("y"@), b) == m.value(column("y"@), row)
            &&& m.value(column("origin_x"@), b) == m.value(steps[0].1, b)
            &&& m.value(column("origin_y"@), b) == m.value(steps[1].1, b)
            &&& m.value(column("origin_z"@), b) == m.value(steps[2].1, b)
            &&& m.value(column("dir_x"@), b) == m.value(steps[3].1, b)
            &&& m.value(column("dir_y"@), b) == m.value(steps[4].1, b)
            &&& m.value(column("dir_z"@), b) == m.value(steps[5].1, b)
            &&& m.value(column("t"@), b) == m.value(steps[6].1, b)
            &&& m.value(column("s0_normal_x"@), b) == m.value(steps[7].1, b)
            &&& m.value(column("s0_normal_y"@), b) == m.value(steps[8].1, b)
            &&& m.value(column("s0_normal_z"@), b) == m.value(steps[9].1, b)
            &&& m.value(column("s0_r"@), b) == m.value(steps[10].1, b)
            &&& m.value(column("s0_g"@), b) == m.value(steps[11].1, b)
            &&& m.value(column("s0_b"@), b) == m.value(steps[12].1, b)
        }),
{
    let steps = plan_steps(width, height);
    law_dataframe_sphere_is_sound(
        width,
        height,
        dataframe_sphere::scene_camera(),
        dataframe_sphere::the_sphere(),
    );
    lemma_plan_names(width, height);
    law_columns_hold(m, steps, row, pixel_table(), only_numbers());
    assert(pixel_table().contains("x"@) && pixel_table().contains("y"@));
}

/// The rays of the two scenes are the same.
proof fn lemma_same_rays(m: Arithmetic, width: nat, height: nat, row: Row)
    requires
        (m.minus)(ZERO, ONE) == MINUS_ONE,
    ensures
        ({
            let a = m.run(query_steps(width, height), row);
            let b = m.run(plan_steps(width, height), row);
            &&& m.value(column("origin_x"@), a) == m.value(column("origin_x"@), b)
            &&& m.value(column("origin_y"@), a) == m.value(column("origin_y"@), b)
            &&& m.value(column("origin_z"@), a) == m.value(column("origin_z"@), b)
            &&& m.value(column("dir_x"@), a) == m.value(column("dir_x"@), b)
            &&& m.value(column("dir_y"@), a) == m.value(column("dir_y"@), b)
            &&& m.value(column("dir_z"@), a) == m.value(column("dir_z"@), b)
        }),
{
    broadcast use {group_values, group_meanings};

    lemma_query_row(m, width, height, row);
    lemma_plan_row(m, width, height, row);
    let steps = plan_steps(width, height);
    assert(steps[0].1 == number(ZERO) && steps[1].1 == number(ZERO) && steps[2].1 == number(ZERO));
    assert(steps[3].1 == column("x"@).over(number(whole_bits(width))).minus(number(HALF)).times(
        number(VIEWPORT_WIDTH_BITS),
    ));
    assert(steps[4].1 == number(HALF).minus(column("y"@).over(number(whole_bits(height)))).times(
        number(TWO),
    ));
    assert(steps[5].1 == number(MINUS_ONE));
}

/// What a ray is made of.
spec fn ray_columns() -> Set<Seq<char>> {
    set!["origin_x"@, "origin_y"@, "origin_z"@, "dir_x"@, "dir_y"@, "dir_z"@]
}

/// The value of a tree over the ray depends on the ray only.
proof fn lemma_over_ray(m: Arithmetic, node: Node, a: Row, b: Row)
    requires
        is_number(node, table(ray_columns(), only_numbers())),
        forall|name: Seq<char>| #[trigger]
            ray_columns().contains(name) ==> m.value(column(name), a) == m.value(column(name), b),
        forall|name: Seq<char>| #[trigger]
            ray_columns().contains(name) ==> a.contains_key(name) && b.contains_key(name),
    ensures
        m.value(node, a) == m.value(node, b),
{
    let sorts = table(ray_columns(), only_numbers());
    assert(agree(a, b, sorts)) by {
        assert forall|name: Seq<char>| #[trigger] sorts.contains_key(name) implies a.contains_key(
            name,
        ) == b.contains_key(name) && (a.contains_key(name) ==> a[name] == b[name]) by {
            assert(ray_columns().contains(name));
            assert(m.value(column(name), a) == m.value(column(name), b));
        }
    }
    law_value_depends_on_columns(m, node, a, b, sorts);
}

/// The columns of the rays are there.
proof fn lemma_rays_are_there(m: Arithmetic, width: nat, height: nat, row: Row)
    ensures
        forall|name: Seq<char>| #[trigger]
            ray_columns().contains(name) ==> m.run(query_steps(width, height), row).contains_key(
                name,
            ) && m.run(plan_steps(width, height), row).contains_key(name),
{
    let (q, p) = (query_steps(width, height), plan_steps(width, height));
    lemma_query_names(width, height);
    lemma_plan_names(width, height);
    lemma_query_places(width, height);
    let all = selected(width, height);
    assert forall|i: int| 2 <= i < 8 implies m.run(q, row).contains_key((#[trigger] q[i]).0) by {
        lemma_value_stays(m, q, i, row);
    }
    assert forall|i: int| 0 <= i < 6 implies m.run(p, row).contains_key((#[trigger] p[i]).0) by {
        lemma_value_stays(m, p, i, row);
    }
    assert(q[2].0 == all[2].0 && q[3].0 == all[3].0 && q[4].0 == all[4].0);
    assert(q[5].0 == all[5].0 && q[6].0 == all[6].0 && q[7].0 == all[7].0);
    assert(p[0].0 == "origin_x"@ && p[1].0 == "origin_y"@ && p[2].0 == "origin_z"@);
    assert(p[3].0 == "dir_x"@ && p[4].0 == "dir_y"@ && p[5].0 == "dir_z"@);
}

/// The ray meets the sphere at the same parameter in both scenes.
proof fn lemma_same_parameter(m: Arithmetic, width: nat, height: nat, row: Row)
    requires
        (m.minus)(ZERO, ONE) == MINUS_ONE,
    ensures
        m.value(column("t"@), m.run(query_steps(width, height), row)) == m.value(
            column("t"@),
            m.run(plan_steps(width, height), row),
        ),
{
    let a = m.run(query_steps(width, height), row);
    let b = m.run(plan_steps(width, height), row);
    let ball = dataframe_sphere::the_sphere().shape();
    let t = meeting(camera_origin(), camera_direction(), ball, Side::Near);
    lemma_same_rays(m, width, height, row);
    lemma_rays_are_there(m, width, height, row);
    lemma_plan_row(m, width, height, row);
    assert(plan_steps(width, height)[6].1 == t);
    lemma_ray_columns(ray_columns());
    let sorts = table(ray_columns(), only_numbers());
    lemma_meeting(camera_origin(), camera_direction(), ball, Side::Near, sorts);
    lemma_over_ray(m, t, a, b);
    lemma_query_solves(m, width, height, row);
}

/// The query solves the equation of the ray and the sphere.
proof fn lemma_query_solves(m: Arithmetic, width: nat, height: nat, row: Row)
    ensures
        ({
            let a = m.run(query_steps(width, height), row);
            let ball = dataframe_sphere::the_sphere().shape();
            m.value(column("t"@), a) == m.value(
                meeting(camera_origin(), camera_direction(), ball, Side::Near),
                a,
            )
        }),
{
    broadcast use {group_values, group_meanings};

    let a = m.run(query_steps(width, height), row);
    let ball = dataframe_sphere::the_sphere().shape();
    let q = quadratic(camera_origin(), camera_direction(), ball);
    lemma_query_row(m, width, height, row);
    assert(intersections()[3].1.meaning() == q.a);
    assert(intersections()[4].1.meaning() == q.half_b);
    assert(intersections()[5].1.meaning() == q.c);
    let (x, y, z) = (column("a"@), column("half_b"@), column("c"@));
    let found = Quadratic { a: x, half_b: y, c: z };
    assert(Term::Null.meaning() == Node::NullNumber);
    assert(hits()[1].1.meaning() == found.if_real(found.smaller()));
    lemma_value_sqrt(m, found.discriminant(), q.discriminant(), a);
    assert(m.value(found.discriminant(), a) == m.value(q.discriminant(), a));
    assert(m.value(found.smaller(), a) == m.value(q.smaller(), a));
    assert(m.value(Node::NullNumber, a) == Value::Missing);
}

proof fn lemma_value_sqrt(m: Arithmetic, x: Node, y: Node, row: Row)
    ensures
        m.value(x, row) == m.value(y, row) ==> m.value(x.sqrt(), row) == m.value(y.sqrt(), row),
{
}

/// A channel of the sky in the query: lighter above the middle of the image.
pub open spec fn sky_channel(middle: u64, span: u64, height: nat) -> Node {
    number(middle).plus(
        number(span).times(
            number(HALF).minus(column("y"@).over(number(whole_bits(height)))),
        ),
    )
}

/// The normals of the two scenes are the same.
proof fn lemma_same_normals(m: Arithmetic, width: nat, height: nat, row: Row)
    requires
        (m.minus)(ZERO, ONE) == MINUS_ONE,
    ensures
        ({
            let a = m.run(query_steps(width, height), row);
            let b = m.run(plan_steps(width, height), row);
            &&& m.value(column("normal_x"@), a) == m.value(column("s0_normal_x"@), b)
            &&& m.value(column("normal_y"@), a) == m.value(column("s0_normal_y"@), b)
            &&& m.value(column("normal_z"@), a) == m.value(column("s0_normal_z"@), b)
        }),
{
    let a = m.run(query_steps(width, height), row);
    let b = m.run(plan_steps(width, height), row);
    lemma_same_rays(m, width, height, row);
    lemma_same_parameter(m, width, height, row);
    lemma_normal_trees(width, height);
    lemma_normal_values(m, a, b);
    lemma_query_row(m, width, height, row);
    lemma_plan_row(m, width, height, row);
}

/// The normal, over the ray and the parameter at which it meets the sphere.
spec fn normal_tree() -> Triple {
    let ball = dataframe_sphere::the_sphere().shape();
    ball.normal_at(point_at(camera_origin(), camera_direction(), column("t"@)))
}

/// Both scenes have the normal from the same tree.
proof fn lemma_normal_trees(width: nat, height: nat)
    ensures
        plan_steps(width, height)[7].1 == normal_tree().x,
        plan_steps(width, height)[8].1 == normal_tree().y,
        plan_steps(width, height)[9].1 == normal_tree().z,
        normals()[3].1.meaning() == normal_tree().x,
        normals()[4].1.meaning() == normal_tree().y,
        normals()[5].1.meaning() == normal_tree().z,
{
    broadcast use group_meanings;

}

proof fn lemma_normal_values(m: Arithmetic, a: Row, b: Row)
    requires
        m.value(column("origin_x"@), a) == m.value(column("origin_x"@), b),
        m.value(column("origin_y"@), a) == m.value(column("origin_y"@), b),
        m.value(column("origin_z"@), a) == m.value(column("origin_z"@), b),
        m.value(column("dir_x"@), a) == m.value(column("dir_x"@), b),
        m.value(column("dir_y"@), a) == m.value(column("dir_y"@), b),
        m.value(column("dir_z"@), a) == m.value(column("dir_z"@), b),
        m.value(column("t"@), a) == m.value(column("t"@), b),
    ensures
        m.value(normal_tree().x, a) == m.value(normal_tree().x, b),
        m.value(normal_tree().y, a) == m.value(normal_tree().y, b),
        m.value(normal_tree().z, a) == m.value(normal_tree().z, b),
{
    broadcast use group_values;

}

/// The two scenes with a single sphere show the same sphere, whatever the operations
/// on numbers give, if zero less one is minus one: each pixel's ray meets it at the
/// same parameter, and where it does so in front of the camera the channels are the
/// same. Elsewhere blue is 255 in both, and the sky of the one is lighter above the
/// middle, that of the other the same throughout. The channels are given before they
/// are made unsigned integers, which both scenes do at the end.
pub proof fn law_same_sphere(m: Arithmetic, width: nat, height: nat, row: Row)
    requires
        (m.minus)(ZERO, ONE) == MINUS_ONE,
    ensures
        ({
            let a = m.run(query_steps(width, height), row);
            let b = m.run(plan_steps(width, height), row);
            &&& m.value(column("t"@), a) == m.value(column("t"@), b)
            &&& if m.value(dataframe_sphere::in_front("t"@), b) == Value::Truth(true) {
                &&& m.value(column("r"@), a) == m.value(column("s0_r"@), b)
                &&& m.value(column("g"@), a) == m.value(column("s0_g"@), b)
                &&& m.value(column("b"@), a) == m.value(column("s0_b"@), b)
            } else {
                &&& m.value(column("r"@), a) == m.value(sky_channel(SKY_R, SKY_SPAN_R, height), row)
                &&& m.value(column("g"@), a) == m.value(sky_channel(SKY_G, SKY_SPAN_G, height), row)
                &&& m.value(column("b"@), a) == Value::Number(CHANNEL_MAX)
                &&& m.value(column("s0_r"@), b) == Value::Number(dataframe_sphere::BACKGROUND_R)
                &&& m.value(column("s0_g"@), b) == Value::Number(dataframe_sphere::BACKGROUND_G)
                &&& m.value(column("s0_b"@), b) == Value::Number(CHANNEL_MAX)
            }
        }),
{
    broadcast use {group_values, group_meanings};

    lemma_query_row(m, width, height, row);
    lemma_plan_row(m, width, height, row);
    lemma_same_parameter(m, width, height, row);
    lemma_same_normals(m, width, height, row);
    let steps = plan_steps(width, height);
    let color = colors(height);
    let b = m.run(steps, row);
    assert("s0"@ + "_normal_x"@ == "s0_normal_x"@ && "s0"@ + "_normal_y"@ == "s0_normal_y"@
        && "s0"@ + "_normal_z"@ == "s0_normal_z"@) by {
        lemma_plan_names(width, height);
        assert(steps[7].0 == "s0"@ + "_normal_x"@);
        assert(steps[8].0 == "s0"@ + "_normal_y"@);
        assert(steps[9].0 == "s0"@ + "_normal_z"@);
    }
    let in_front = dataframe_sphere::in_front("t"@);
    assert(steps[10].1 == in_front.case(
        shade_of("s0_normal_x"@),
        number(dataframe_sphere::BACKGROUND_R),
    ));
    assert(steps[11].1 == in_front.case(
        shade_of("s0_normal_y"@),
        number(dataframe_sphere::BACKGROUND_G),
    ));
    assert(steps[12].1 == in_front.case(
        shade_of("s0_normal_z"@),
        number(dataframe_sphere::BACKGROUND_B),
    ));
    assert(color[0].1.meaning() == in_front.case(
        shade_of("normal_x"@),
        sky_channel(SKY_R, SKY_SPAN_R, height),
    ));
    assert(color[1].1.meaning() == in_front.case(
        shade_of("normal_y"@),
        sky_channel(SKY_G, SKY_SPAN_G, height),
    ));
    assert(color[2].1.meaning() == in_front.case(shade_of("normal_z"@), number(CHANNEL_MAX)));
}

/// A component of a normal, from -1 to 1, spread over 0 to 255.
spec fn shade_of(component: Seq<char>) -> Node {
    column(component).plus(number(ONE)).times(number(HALF)).times(number(CHANNEL_MAX))
}

// ---------------------------------------------------------------------------
// The text of the query
// ---------------------------------------------------------------------------

/// No expression has the name of a hole for the size.
proof fn lemma_not_a_size(width: nat, height: nat, i: int)
    requires
        0 <= i < 25,
    ensures
        selected(width, height)[i].0 != "width"@,
        selected(width, height)[i].0 != "height"@,
{
    let all = selected(width, height);
    reveal_strlit("width");
    reveal_strlit("height");
    reveal_strlit("vp_x");
    reveal_strlit("vp_y");
    reveal_strlit("origin_x");
    reveal_strlit("origin_y");
    reveal_strlit("origin_z");
    reveal_strlit("dir_x");
    reveal_strlit("dir_y");
    reveal_strlit("dir_z");
    reveal_strlit("oc_x");
    reveal_strlit("oc_y");
    reveal_strlit("oc_z");
    reveal_strlit("a");
    reveal_strlit("half_b");
    reveal_strlit("c");
    reveal_strlit("discriminant");
    reveal_strlit("t");
    reveal_strlit("hit_x");
    reveal_strlit("hit_y");
    reveal_strlit("hit_z");
    reveal_strlit("normal_x");
    reveal_strlit("normal_y");
    reveal_strlit("normal_z");
    reveal_strlit("r");
    reveal_strlit("g");
    reveal_strlit("b");
    assert("width"@[0] == 'w' && "width"@.len() == 5);
    assert("height"@[1] == 'e' && "height"@.len() == 6);
    assert(all[0].0 == "vp_x"@ && "vp_x"@.len() == 4 && "vp_x"@[0] == 'v' && "vp_x"@[1] == 'p');
    assert(all[1].0 == "vp_y"@ && "vp_y"@.len() == 4 && "vp_y"@[0] == 'v' && "vp_y"@[1] == 'p');
    assert(all[2].0 == "origin_x"@ && "origin_x"@.len() == 8 && "origin_x"@[0] == 'o' && "origin_x"@[1] == 'r');
    assert(all[3].0 == "origin_y"@ && "origin_y"@.len() == 8 && "origin_y"@[0] == 'o' && "origin_y"@[1] == 'r');
    assert(all[4].0 == "origin_z"@ && "origin_z"@.len() == 8 && "origin_z"@[0] == 'o' && "origin_z"@[1] == 'r');
    assert(all[5].0 == "dir_x"@ && "dir_x"@.len() == 5 && "dir_x"@[0] == 'd' && "dir_x"@[1] == 'i');
    assert(all[6].0 == "dir_y"@ && "dir_y"@.len() == 5 && "dir_y"@[0] == 'd' && "dir_y"@[1] == 'i');
    assert(all[7].0 == "dir_z"@ && "dir_z"@.len() == 5 && "dir_z"@[0] == 'd' && "dir_z"@[1] == 'i');
    assert(all[8].0 == "oc_x"@ && "oc_x"@.len() == 4 && "oc_x"@[0] == 'o' && "oc_x"@[1] == 'c');
    assert(all[9].0 == "oc_y"@ && "oc_y"@.len() == 4 && "oc_y"@[0] == 'o' && "oc_y"@[1] == 'c');
    assert(all[10].0 == "oc_z"@ && "oc_z"@.len() == 4 && "oc_z"@[0] == 'o' && "oc_z"@[1] == 'c');
    assert(all[11].0 == "a"@ && "a"@.len() == 1 && "a"@[0] == 'a');
    assert(all[12].0 == "half_b"@ && "half_b"@.len() == 6 && "half_b"@[0] == 'h' && "half_b"@[1] == 'a');
    assert(all[13].0 == "c"@ && "c"@.len() == 1 && "c"@[0] == 'c');
    assert(all[14].0 == "discriminant"@ && "discriminant"@.len() == 12 && "discriminant"@[0] == 'd' && "discriminant"@[1] == 'i');
    assert(all[15].0 == "t"@ && "t"@.len() == 1 && "t"@[0] == 't');
    assert(all[16].0 == "hit_x"@ && "hit_x"@.len() == 5 && "hit_x"@[0] == 'h' && "hit_x"@[1] == 'i');
    assert(all[17].0 == "hit_y"@ && "hit_y"@.len() == 5 && "hit_y"@[0] == 'h' && "hit_y"@[1] == 'i');
    assert(all[18].0 == "hit_z"@ && "hit_z"@.len() == 5 && "hit_z"@[0] == 'h' && "hit_z"@[1] == 'i');
    assert(all[19].0 == "normal_x"@ && "normal_x"@.len() == 8 && "normal_x"@[0] == 'n' && "normal_x"@[1] == 'o');
    assert(all[20].0 == "normal_y"@ && "normal_y"@.len() == 8 && "normal_y"@[0] == 'n' && "normal_y"@[1] == 'o');
    assert(all[21].0 == "normal_z"@ && "normal_z"@.len() == 8 && "normal_z"@[0] == 'n' && "normal_z"@[1] == 'o');
    assert(all[22].0 == "r"@ && "r"@.len() == 1 && "r"@[0] == 'r');
    assert(all[23].0 == "g"@ && "g"@.len() == 1 && "g"@[0] == 'g');
    assert(all[24].0 == "b"@ && "b"@.len() == 1 && "b"@[0] == 'b');
    assert(i == 0 || i == 1 || i == 2 || i == 3 || i == 4 || i == 5 || i == 6 || i == 7 || i == 8
        || i == 9 || i == 10 || i == 11 || i == 12 || i == 13 || i == 14 || i == 15 || i == 16
        || i == 17 || i == 18 || i == 19 || i == 20 || i == 21 || i == 22 || i == 23 || i == 24);
}

/// The holes of the query are filled with the width and the height, and each hole for a
/// result with the text of the expression that gives it.
pub proof fn law_query_text(width: nat, height: nat, i: int)
    requires
        0 <= i < 25,
    ensures
        selected(width, height).len() == 25,
        value_of(scene_values(width, height), "width"@) == decimal(width),
        value_of(scene_values(width, height), "height"@) == decimal(height),
        value_of(scene_values(width, height), selected(width, height)[i].0) == selected(
            width,
            height,
        )[i].1.text(),
{
    let all = selected(width, height);
    let values = scene_values(width, height);
    let steps = query_steps(width, height);
    lemma_query_names(width, height);
    reveal_strlit("width");
    reveal_strlit("height");
    assert("width"@.len() == 5 && "height"@.len() == 6);
    assert(values[0] == ("width"@, decimal(width)));
    assert(values[1] == ("height"@, decimal(height)));
    assert(values[2 + i] == (all[i].0, all[i].1.text()));
    law_first_value(values, 0);
    law_first_value(values, 1);
    lemma_not_a_size(width, height, i);
    assert forall|j: int| 0 <= j < 2 + i implies (#[trigger] values[j]).0 != values[2 + i].0 by {
        if j >= 2 {
            assert(values[j] == (all[j - 2].0, all[j - 2].1.text()));
            assert(steps[j - 2].0 == all[j - 2].0);
            assert(steps[i].0 == all[i].0);
        }
    }
    law_first_value(values, 2 + i);
}

/// How the place of a pixel and the height of the sky are written, for any size.
pub proof fn law_sizes_in_text(width: nat, height: nat)
    ensures
        selected(width, height)[0].0 == "vp_x"@,
        selected(width, height)[0].1.text() == "(CAST(x AS DOUBLE) / "@ + decimal(width)
            + " - 0.5) * 2.6666666666666665"@,
        selected(width, height)[1].0 == "vp_y"@,
        selected(width, height)[1].1.text() == "(0.5 - CAST(y AS DOUBLE) / "@ + decimal(height)
            + ") * 2"@,
        sky(Term::Literal("128"@, SKY_R), Term::Literal("127"@, SKY_SPAN_R), height).text()
            == "128 + 127 * (0.5 - CAST(y AS DOUBLE) / "@ + decimal(height) + ")"@,
        sky(Term::Literal("178"@, SKY_G), Term::Literal("77"@, SKY_SPAN_G), height).text()
            == "178 + 77 * (0.5 - CAST(y AS DOUBLE) / "@ + decimal(height) + ")"@,
        selected(width, height)[22].0 == "r"@,
        selected(width, height)[22].1 == channel(
            "normal_x"@,
            ABOUT_SHADES@,
            ABOUT_SKY@,
            sky(Term::Literal("128"@, SKY_R), Term::Literal("127"@, SKY_SPAN_R), height),
        ),
        selected(width, height)[23].0 == "g"@,
        selected(width, height)[23].1 == channel(
            "normal_y"@,
            INDENTED@,
            INDENTED@,
            sky(Term::Literal("178"@, SKY_G), Term::Literal("77"@, SKY_SPAN_G), height),
        ),
{
    lemma_query_places(width, height);
    lemma_place_texts(width, height);
    lemma_sky_text("128"@, SKY_R, "127"@, SKY_SPAN_R, height);
    lemma_sky_text("178"@, SKY_G, "77"@, SKY_SPAN_G, height);
    reveal_strlit("128");
    reveal_strlit("127");
    reveal_strlit("178");
    reveal_strlit("77");
    reveal_strlit(" + ");
    reveal_strlit(" * (0.5 - CAST(y AS DOUBLE) / ");
    reveal_strlit("128 + 127 * (0.5 - CAST(y AS DOUBLE) / ");
    reveal_strlit("178 + 77 * (0.5 - CAST(y AS DOUBLE) / ");
    assert("128"@ + " + "@ + "127"@ + " * (0.5 - CAST(y AS DOUBLE) / "@
        =~= "128 + 127 * (0.5 - CAST(y AS DOUBLE) / "@);
    assert("178"@ + " + "@ + "77"@ + " * (0.5 - CAST(y AS DOUBLE) / "@
        =~= "178 + 77 * (0.5 - CAST(y AS DOUBLE) / "@);
}

/// The sky, with what stands between its numbers.
#[verifier::spinoff_prover]
proof fn lemma_sky_text(middle: Seq<char>, a: u64, span: Seq<char>, b: u64, height: nat)
    ensures
        sky(Term::Literal(middle, a), Term::Literal(span, b), height).text() == middle + " + "@
            + span + " * (0.5 - CAST(y AS DOUBLE) / "@ + decimal(height) + ")"@,
{
    reveal_with_fuel(Term::text, 7);
    reveal_strlit(" ");
    reveal_strlit("+");
    reveal_strlit("-");
    reveal_strlit("*");
    reveal_strlit("/");
    reveal_strlit("(");
    reveal_strlit(")");
    reveal_strlit("y");
    reveal_strlit("0.5");
    reveal_strlit("CAST(");
    reveal_strlit(" AS DOUBLE)");
    reveal_strlit(" + ");
    reveal_strlit(" * (0.5 - CAST(y AS DOUBLE) / ");
    let term = sky(Term::Literal(middle, a), Term::Literal(span, b), height);
    let cast = "CAST("@ + "y"@ + " AS DOUBLE)"@;
    let up = "0.5"@ + " "@ + "-"@ + " "@ + (cast + " "@ + "/"@ + " "@ + decimal(height));
    assert(term.text() == middle + " "@ + "+"@ + " "@ + (span + " "@ + "*"@ + " "@ + ("("@ + up
        + ")"@)));
    assert(term.text() =~= middle + " + "@ + span + " * (0.5 - CAST(y AS DOUBLE) / "@ + decimal(
        height,
    ) + ")"@);
}

/// Two operands, as they are written.
proof fn lemma_binary_text(op: Operator, a: Term, b: Term)
    ensures
        a.binary(op, b).text() == bracketed(a.text(), a.strength() < strength(op)) + " "@ + sign(op)
            + " "@ + bracketed(b.text(), b.strength() <= strength(op)),
{
}

/// A column as a double, as it is written.
proof fn lemma_double_text(name: Seq<char>)
    ensures
        double(name).text() == "CAST("@ + name + " AS DOUBLE)"@,
        double(name).strength() == 6,
{
    assert(Term::Name(name).text() == name);
}

proof fn lemma_literal_text(text: Seq<char>, bits: u64)
    ensures
        Term::Literal(text, bits).text() == text,
        Term::Literal(text, bits).strength() == 6,
{
}

/// The place of a pixel to the right, as it is written.
#[verifier::spinoff_prover]
proof fn lemma_text_across(width: nat, height: nat)
    ensures
        pixels(width, height)[0].1.text() == "("@ + ("CAST("@ + "x"@ + " AS DOUBLE)"@ + " "@ + "/"@
            + " "@ + decimal(width) + " "@ + "-"@ + " "@ + "0.5"@) + ")"@ + " "@ + "*"@ + " "@
            + "2.6666666666666665"@,
{
    let wide = Term::Literal(VIEWPORT_WIDTH@, VIEWPORT_WIDTH_BITS);
    let share = double("x"@).over(whole(width));
    let left = share.minus(half());
    lemma_double_text("x"@);
    lemma_literal_text(decimal(width), whole_bits(width));
    lemma_literal_text("0.5"@, HALF);
    lemma_literal_text(VIEWPORT_WIDTH@, VIEWPORT_WIDTH_BITS);
    lemma_binary_text(Operator::Over, double("x"@), whole(width));
    lemma_binary_text(Operator::Minus, share, half());
    lemma_binary_text(Operator::Times, left, wide);
    assert(pixels(width, height)[0].1 == left.times(wide));
}

/// The place of a pixel upwards, as it is written.
#[verifier::spinoff_prover]
proof fn lemma_text_up(width: nat, height: nat)
    ensures
        pixels(width, height)[1].1.text() == "("@ + ("0.5"@ + " "@ + "-"@ + " "@ + ("CAST("@ + "y"@
            + " AS DOUBLE)"@ + " "@ + "/"@ + " "@ + decimal(height))) + ")"@ + " "@ + "*"@ + " "@
            + "2"@,
{
    let high = Term::Literal(VIEWPORT_HEIGHT@, TWO);
    let share = double("y"@).over(whole(height));
    let left = half().minus(share);
    lemma_double_text("y"@);
    lemma_literal_text(decimal(height), whole_bits(height));
    lemma_literal_text("0.5"@, HALF);
    lemma_literal_text(VIEWPORT_HEIGHT@, TWO);
    lemma_binary_text(Operator::Over, double("y"@), whole(height));
    lemma_binary_text(Operator::Minus, half(), share);
    lemma_binary_text(Operator::Times, left, high);
    assert(pixels(width, height)[1].1 == left.times(high));
}

/// The place of a pixel, as it is written.
#[verifier::spinoff_prover]
proof fn lemma_place_texts(width: nat, height: nat)
    ensures
        pixels(width, height)[0].1.text() == "(CAST(x AS DOUBLE) / "@ + decimal(width)
            + " - 0.5) * 2.6666666666666665"@,
        pixels(width, height)[1].1.text() == "(0.5 - CAST(y AS DOUBLE) / "@ + decimal(height)
            + ") * 2"@,
{
    lemma_text_across(width, height);
    lemma_text_up(width, height);
    lemma_join_across(decimal(width));
    lemma_join_up(decimal(height));
}

#[verifier::spinoff_prover]
proof fn lemma_join_across(n: Seq<char>)
    ensures
        "("@ + ("CAST("@ + "x"@ + " AS DOUBLE)"@ + " "@ + "/"@ + " "@ + n + " "@ + "-"@ + " "@
            + "0.5"@) + ")"@ + " "@ + "*"@ + " "@ + "2.6666666666666665"@
            == "(CAST(x AS DOUBLE) / "@ + n + " - 0.5) * 2.6666666666666665"@,
{
    reveal_strlit(" ");
    reveal_strlit("-");
    reveal_strlit("*");
    reveal_strlit("/");
    reveal_strlit("(");
    reveal_strlit(")");
    reveal_strlit("x");
    reveal_strlit("0.5");
    reveal_strlit("2.6666666666666665");
    reveal_strlit("CAST(");
    reveal_strlit(" AS DOUBLE)");
    reveal_strlit("(CAST(x AS DOUBLE) / ");
    reveal_strlit(" - 0.5) * 2.6666666666666665");
    let before = "("@ + ("CAST("@ + "x"@ + " AS DOUBLE)"@ + " "@ + "/"@ + " "@);
    let behind = " "@ + "-"@ + " "@ + "0.5"@ + ")"@ + " "@ + "*"@ + " "@ + "2.6666666666666665"@;
    assert(before =~= "(CAST(x AS DOUBLE) / "@);
    assert(behind =~= " - 0.5) * 2.6666666666666665"@);
    assert("("@ + ("CAST("@ + "x"@ + " AS DOUBLE)"@ + " "@ + "/"@ + " "@ + n + " "@ + "-"@ + " "@
        + "0.5"@) + ")"@ + " "@ + "*"@ + " "@ + "2.6666666666666665"@ =~= before + n + behind);
}

#[verifier::spinoff_prover]
proof fn lemma_join_up(n: Seq<char>)
    ensures
        "("@ + ("0.5"@ + " "@ + "-"@ + " "@ + ("CAST("@ + "y"@ + " AS DOUBLE)"@ + " "@ + "/"@
            + " "@ + n)) + ")"@ + " "@ + "*"@ + " "@ + "2"@ == "(0.5 - CAST(y AS DOUBLE) / "@ + n
            + ") * 2"@,
{
    reveal_strlit(" ");
    reveal_strlit("-");
    reveal_strlit("*");
    reveal_strlit("/");
    reveal_strlit("(");
    reveal_strlit(")");
    reveal_strlit("y");
    reveal_strlit("0.5");
    reveal_strlit("2");
    reveal_strlit("CAST(");
    reveal_strlit(" AS DOUBLE)");
    reveal_strlit("(0.5 - CAST(y AS DOUBLE) / ");
    reveal_strlit(") * 2");
    let before = "("@ + ("0.5"@ + " "@ + "-"@ + " "@ + ("CAST("@ + "y"@ + " AS DOUBLE)"@ + " "@
        + "/"@ + " "@));
    let behind = ")"@ + " "@ + "*"@ + " "@ + "2"@;
    assert(before =~= "(0.5 - CAST(y AS DOUBLE) / "@);
    assert(behind =~= ") * 2"@);
    assert("("@ + ("0.5"@ + " "@ + "-"@ + " "@ + ("CAST("@ + "y"@ + " AS DOUBLE)"@ + " "@ + "/"@
        + " "@ + n)) + ")"@ + " "@ + "*"@ + " "@ + "2"@ =~= before + n + behind);
}

} // verus!

//! The names of the columns of the scene with glass: each column has its own.
use crate::meaning::{has_own_names, lemma_ranked_append, lemma_ranked_own, ranked};
use crate::number::Number;
use crate::plan::Steps;
use crate::portrait::{axis, tint};
use crate::refraction::{
    Light, Sphere, arrival_steps, color_steps, entry_steps, exit_point_steps, exit_step,
    in_shadow_step, index_step, intersect_steps, light_steps, lighting_step, nearest_step, opaque,
    point_shadow_steps, primary_hit_steps, ray_path_steps, ray_steps, reflection_steps,
    refraction_exit_steps, scene_steps, shadow_ray_steps, shadow_steps, trace_steps,
};
use crate::soundness::pixel_table;
use crate::trace::Solid;
use crate::visibility::told_apart;
use vstd::prelude::*;

verus! {

/// Whether the names of the spheres are different and none leads to the name of
/// another column.
pub open spec fn has_clear_names(spheres: Seq<Sphere>) -> bool {
    &&& told_apart(spheres)
    &&& forall|i: int| 0 <= i < spheres.len() ==> (#[trigger] spheres[i]).name@ != "nearest"@
}

pub(crate) proof fn lemma_primary_joins()
    ensures
        "primary"@ + "_t_nearest"@ == "primary_t_nearest"@,
        "primary"@ + "_hit_idx"@ == "primary_hit_idx"@,
        "primary"@ + "_t_"@ == "primary_t_"@,
        "ray"@ + "_ox"@ == "ray_ox"@,
        "ray"@ + "_oy"@ == "ray_oy"@,
        "ray"@ + "_oz"@ == "ray_oz"@,
        "ray"@ + "_dx"@ == "ray_dx"@,
        "ray"@ + "_dy"@ == "ray_dy"@,
        "ray"@ + "_dz"@ == "ray_dz"@,
        "internal"@ + "_ox"@ == "internal_ox"@,
        "internal"@ + "_oy"@ == "internal_oy"@,
        "internal"@ + "_oz"@ == "internal_oz"@,
        "internal"@ + "_dx"@ == "internal_dx"@,
        "internal"@ + "_dy"@ == "internal_dy"@,
        "internal"@ + "_dz"@ == "internal_dz"@,
        "internal"@ + "_exit_t"@ == "internal_exit_t"@,
        ""@ + "shadow_ox"@ == "shadow_ox"@,
        ""@ + "shadow_oy"@ == "shadow_oy"@,
        ""@ + "shadow_oz"@ == "shadow_oz"@,
        ""@ + "shadow_dx"@ == "shadow_dx"@,
        ""@ + "shadow_dy"@ == "shadow_dy"@,
        ""@ + "shadow_dz"@ == "shadow_dz"@,
        ""@ + "light_dist"@ == "light_dist"@,
        ""@ + "in_shadow"@ == "in_shadow"@,
        ""@ + "shadow_t_"@ == "shadow_t_"@,
        ""@ + "shadow"@ == "shadow"@,
        ""@ + "normal"@ == "normal"@,
        "shadow"@ + "_ox"@ == "shadow_ox"@,
        "shadow"@ + "_oy"@ == "shadow_oy"@,
        "shadow"@ + "_oz"@ == "shadow_oz"@,
        "shadow"@ + "_dx"@ == "shadow_dx"@,
        "shadow"@ + "_dy"@ == "shadow_dy"@,
        "shadow"@ + "_dz"@ == "shadow_dz"@,
        "normal"@ + "_x"@ == "normal_x"@,
        "normal"@ + "_y"@ == "normal_y"@,
        "normal"@ + "_z"@ == "normal_z"@,
        "hit"@ + "_x"@ == "hit_x"@,
        "hit"@ + "_y"@ == "hit_y"@,
        "hit"@ + "_z"@ == "hit_z"@,
{
    reveal_strlit("primary");
    reveal_strlit("_t_nearest");
    reveal_strlit("primary_t_nearest");
    reveal_strlit("_hit_idx");
    reveal_strlit("primary_hit_idx");
    reveal_strlit("_t_");
    reveal_strlit("primary_t_");
    reveal_strlit("ray");
    reveal_strlit("_ox");
    reveal_strlit("ray_ox");
    reveal_strlit("_oy");
    reveal_strlit("ray_oy");
    reveal_strlit("_oz");
    reveal_strlit("ray_oz");
    reveal_strlit("_dx");
    reveal_strlit("ray_dx");
    reveal_strlit("_dy");
    reveal_strlit("ray_dy");
    reveal_strlit("_dz");
    reveal_strlit("ray_dz");
    reveal_strlit("internal");
    reveal_strlit("internal_ox");
    reveal_strlit("internal_oy");
    reveal_strlit("internal_oz");
    reveal_strlit("internal_dx");
    reveal_strlit("internal_dy");
    reveal_strlit("internal_dz");
    reveal_strlit("_exit_t");
    reveal_strlit("internal_exit_t");
    reveal_strlit("");
    reveal_strlit("shadow_ox");
    reveal_strlit("shadow_oy");
    reveal_strlit("shadow_oz");
    reveal_strlit("shadow_dx");
    reveal_strlit("shadow_dy");
    reveal_strlit("shadow_dz");
    reveal_strlit("light_dist");
    reveal_strlit("in_shadow");
    reveal_strlit("shadow_t_");
    reveal_strlit("shadow");
    reveal_strlit("normal");
    reveal_strlit("_x");
    reveal_strlit("normal_x");
    reveal_strlit("_y");
    reveal_strlit("normal_y");
    reveal_strlit("_z");
    reveal_strlit("normal_z");
    reveal_strlit("hit");
    reveal_strlit("hit_x");
    reveal_strlit("hit_y");
    reveal_strlit("hit_z");
    assert("primary"@ + "_t_nearest"@ =~= "primary_t_nearest"@);
    assert("primary"@ + "_hit_idx"@ =~= "primary_hit_idx"@);
    assert("primary"@ + "_t_"@ =~= "primary_t_"@);
    assert("ray"@ + "_ox"@ =~= "ray_ox"@);
    assert("ray"@ + "_oy"@ =~= "ray_oy"@);
    assert("ray"@ + "_oz"@ =~= "ray_oz"@);
    assert("ray"@ + "_dx"@ =~= "ray_dx"@);
    assert("ray"@ + "_dy"@ =~= "ray_dy"@);
    assert("ray"@ + "_dz"@ =~= "ray_dz"@);
    assert("internal"@ + "_ox"@ =~= "internal_ox"@);
    assert("internal"@ + "_oy"@ =~= "internal_oy"@);
    assert("internal"@ + "_oz"@ =~= "internal_oz"@);
    assert("internal"@ + "_dx"@ =~= "internal_dx"@);
    assert("internal"@ + "_dy"@ =~= "internal_dy"@);
    assert("internal"@ + "_dz"@ =~= "internal_dz"@);
    assert("internal"@ + "_exit_t"@ =~= "internal_exit_t"@);
    assert(""@ + "shadow_ox"@ =~= "shadow_ox"@);
    assert(""@ + "shadow_oy"@ =~= "shadow_oy"@);
    assert(""@ + "shadow_oz"@ =~= "shadow_oz"@);
    assert(""@ + "shadow_dx"@ =~= "shadow_dx"@);
    assert(""@ + "shadow_dy"@ =~= "shadow_dy"@);
    assert(""@ + "shadow_dz"@ =~= "shadow_dz"@);
    assert(""@ + "light_dist"@ =~= "light_dist"@);
    assert(""@ + "in_shadow"@ =~= "in_shadow"@);
    assert(""@ + "shadow_t_"@ =~= "shadow_t_"@);
    assert(""@ + "shadow"@ =~= "shadow"@);
    assert(""@ + "normal"@ =~= "normal"@);
    assert("shadow"@ + "_ox"@ =~= "shadow_ox"@);
    assert("shadow"@ + "_oy"@ =~= "shadow_oy"@);
    assert("shadow"@ + "_oz"@ =~= "shadow_oz"@);
    assert("shadow"@ + "_dx"@ =~= "shadow_dx"@);
    assert("shadow"@ + "_dy"@ =~= "shadow_dy"@);
    assert("shadow"@ + "_dz"@ =~= "shadow_dz"@);
    assert("normal"@ + "_x"@ =~= "normal_x"@);
    assert("normal"@ + "_y"@ =~= "normal_y"@);
    assert("normal"@ + "_z"@ =~= "normal_z"@);
    assert("hit"@ + "_x"@ =~= "hit_x"@);
    assert("hit"@ + "_y"@ =~= "hit_y"@);
    assert("hit"@ + "_z"@ =~= "hit_z"@);
}

pub(crate) proof fn lemma_reflect_joins()
    ensures
        "reflect"@ + "_t_nearest"@ == "reflect_t_nearest"@,
        "reflect"@ + "_hit_idx"@ == "reflect_hit_idx"@,
        "reflect"@ + "_t_"@ == "reflect_t_"@,
        "reflect"@ + "_ox"@ == "reflect_ox"@,
        "reflect"@ + "_oy"@ == "reflect_oy"@,
        "reflect"@ + "_oz"@ == "reflect_oz"@,
        "reflect"@ + "_dx"@ == "reflect_dx"@,
        "reflect"@ + "_dy"@ == "reflect_dy"@,
        "reflect"@ + "_dz"@ == "reflect_dz"@,
        "reflect"@ + "_hit_x"@ == "reflect_hit_x"@,
        "reflect"@ + "_hit_y"@ == "reflect_hit_y"@,
        "reflect"@ + "_hit_z"@ == "reflect_hit_z"@,
        "reflect"@ + "_normal_x"@ == "reflect_normal_x"@,
        "reflect"@ + "_normal_y"@ == "reflect_normal_y"@,
        "reflect"@ + "_normal_z"@ == "reflect_normal_z"@,
        "reflect_"@ + "shadow_ox"@ == "reflect_shadow_ox"@,
        "reflect_"@ + "shadow_oy"@ == "reflect_shadow_oy"@,
        "reflect_"@ + "shadow_oz"@ == "reflect_shadow_oz"@,
        "reflect_"@ + "shadow_dx"@ == "reflect_shadow_dx"@,
        "reflect_"@ + "shadow_dy"@ == "reflect_shadow_dy"@,
        "reflect_"@ + "shadow_dz"@ == "reflect_shadow_dz"@,
        "reflect_"@ + "light_dist"@ == "reflect_light_dist"@,
        "reflect_"@ + "in_shadow"@ == "reflect_in_shadow"@,
        "reflect_"@ + "shadow_t_"@ == "reflect_shadow_t_"@,
        "reflect_"@ + "shadow"@ == "reflect_shadow"@,
        "reflect_"@ + "normal"@ == "reflect_normal"@,
        "reflect_shadow"@ + "_ox"@ == "reflect_shadow_ox"@,
        "reflect_shadow"@ + "_oy"@ == "reflect_shadow_oy"@,
        "reflect_shadow"@ + "_oz"@ == "reflect_shadow_oz"@,
        "reflect_shadow"@ + "_dx"@ == "reflect_shadow_dx"@,
        "reflect_shadow"@ + "_dy"@ == "reflect_shadow_dy"@,
        "reflect_shadow"@ + "_dz"@ == "reflect_shadow_dz"@,
        "reflect_normal"@ + "_x"@ == "reflect_normal_x"@,
        "reflect_normal"@ + "_y"@ == "reflect_normal_y"@,
        "reflect_normal"@ + "_z"@ == "reflect_normal_z"@,
        "reflect_hit"@ + "_x"@ == "reflect_hit_x"@,
        "reflect_hit"@ + "_y"@ == "reflect_hit_y"@,
        "reflect_hit"@ + "_z"@ == "reflect_hit_z"@,
{
    reveal_strlit("reflect");
    reveal_strlit("_t_nearest");
    reveal_strlit("reflect_t_nearest");
    reveal_strlit("_hit_idx");
    reveal_strlit("reflect_hit_idx");
    reveal_strlit("_t_");
    reveal_strlit("reflect_t_");
    reveal_strlit("_ox");
    reveal_strlit("reflect_ox");
    reveal_strlit("_oy");
    reveal_strlit("reflect_oy");
    reveal_strlit("_oz");
    reveal_strlit("reflect_oz");
    reveal_strlit("_dx");
    reveal_strlit("reflect_dx");
    reveal_strlit("_dy");
    reveal_strlit("reflect_dy");
    reveal_strlit("_dz");
    reveal_strlit("reflect_dz");
    reveal_strlit("_hit_x");
    reveal_strlit("reflect_hit_x");
    reveal_strlit("_hit_y");
    reveal_strlit("reflect_hit_y");
    reveal_strlit("_hit_z");
    reveal_strlit("reflect_hit_z");
    reveal_strlit("_normal_x");
    reveal_strlit("reflect_normal_x");
    reveal_strlit("_normal_y");
    reveal_strlit("reflect_normal_y");
    reveal_strlit("_normal_z");
    reveal_strlit("reflect_normal_z");
    reveal_strlit("reflect_");
    reveal_strlit("shadow_ox");
    reveal_strlit("reflect_shadow_ox");
    reveal_strlit("shadow_oy");
    reveal_strlit("reflect_shadow_oy");
    reveal_strlit("shadow_oz");
    reveal_strlit("reflect_shadow_oz");
    reveal_strlit("shadow_dx");
    reveal_strlit("reflect_shadow_dx");
    reveal_strlit("shadow_dy");
    reveal_strlit("reflect_shadow_dy");
    reveal_strlit("shadow_dz");
    reveal_strlit("reflect_shadow_dz");
    reveal_strlit("light_dist");
    reveal_strlit("reflect_light_dist");
    reveal_strlit("in_shadow");
    reveal_strlit("reflect_in_shadow");
    reveal_strlit("shadow_t_");
    reveal_strlit("reflect_shadow_t_");
    reveal_strlit("shadow");
    reveal_strlit("reflect_shadow");
    reveal_strlit("normal");
    reveal_strlit("reflect_normal");
    reveal_strlit("_x");
    reveal_strlit("_y");
    reveal_strlit("_z");
    reveal_strlit("reflect_hit");
    assert("reflect"@ + "_t_nearest"@ =~= "reflect_t_nearest"@);
    assert("reflect"@ + "_hit_idx"@ =~= "reflect_hit_idx"@);
    assert("reflect"@ + "_t_"@ =~= "reflect_t_"@);
    assert("reflect"@ + "_ox"@ =~= "reflect_ox"@);
    assert("reflect"@ + "_oy"@ =~= "reflect_oy"@);
    assert("reflect"@ + "_oz"@ =~= "reflect_oz"@);
    assert("reflect"@ + "_dx"@ =~= "reflect_dx"@);
    assert("reflect"@ + "_dy"@ =~= "reflect_dy"@);
    assert("reflect"@ + "_dz"@ =~= "reflect_dz"@);
    assert("reflect"@ + "_hit_x"@ =~= "reflect_hit_x"@);
    assert("reflect"@ + "_hit_y"@ =~= "reflect_hit_y"@);
    assert("reflect"@ + "_hit_z"@ =~= "reflect_hit_z"@);
    assert("reflect"@ + "_normal_x"@ =~= "reflect_normal_x"@);
    assert("reflect"@ + "_normal_y"@ =~= "reflect_normal_y"@);
    assert("reflect"@ + "_normal_z"@ =~= "reflect_normal_z"@);
    assert("reflect_"@ + "shadow_ox"@ =~= "reflect_shadow_ox"@);
    assert("reflect_"@ + "shadow_oy"@ =~= "reflect_shadow_oy"@);
    assert("reflect_"@ + "shadow_oz"@ =~= "reflect_shadow_oz"@);
    assert("reflect_"@ + "shadow_dx"@ =~= "reflect_shadow_dx"@);
    assert("reflect_"@ + "shadow_dy"@ =~= "reflect_shadow_dy"@);
    assert("reflect_"@ + "shadow_dz"@ =~= "reflect_shadow_dz"@);
    assert("reflect_"@ + "light_dist"@ =~= "reflect_light_dist"@);
    assert("reflect_"@ + "in_shadow"@ =~= "reflect_in_shadow"@);
    assert("reflect_"@ + "shadow_t_"@ =~= "reflect_shadow_t_"@);
    assert("reflect_"@ + "shadow"@ =~= "reflect_shadow"@);
    assert("reflect_"@ + "normal"@ =~= "reflect_normal"@);
    assert("reflect_shadow"@ + "_ox"@ =~= "reflect_shadow_ox"@);
    assert("reflect_shadow"@ + "_oy"@ =~= "reflect_shadow_oy"@);
    assert("reflect_shadow"@ + "_oz"@ =~= "reflect_shadow_oz"@);
    assert("reflect_shadow"@ + "_dx"@ =~= "reflect_shadow_dx"@);
    assert("reflect_shadow"@ + "_dy"@ =~= "reflect_shadow_dy"@);
    assert("reflect_shadow"@ + "_dz"@ =~= "reflect_shadow_dz"@);
    assert("reflect_normal"@ + "_x"@ =~= "reflect_normal_x"@);
    assert("reflect_normal"@ + "_y"@ =~= "reflect_normal_y"@);
    assert("reflect_normal"@ + "_z"@ =~= "reflect_normal_z"@);
    assert("reflect_hit"@ + "_x"@ =~= "reflect_hit_x"@);
    assert("reflect_hit"@ + "_y"@ =~= "reflect_hit_y"@);
    assert("reflect_hit"@ + "_z"@ =~= "reflect_hit_z"@);
}

pub(crate) proof fn lemma_refract_joins()
    ensures
        "refract"@ + "_t_nearest"@ == "refract_t_nearest"@,
        "refract"@ + "_hit_idx"@ == "refract_hit_idx"@,
        "refract"@ + "_t_"@ == "refract_t_"@,
        "refract"@ + "_ox"@ == "refract_ox"@,
        "refract"@ + "_oy"@ == "refract_oy"@,
        "refract"@ + "_oz"@ == "refract_oz"@,
        "refract"@ + "_dx"@ == "refract_dx"@,
        "refract"@ + "_dy"@ == "refract_dy"@,
        "refract"@ + "_dz"@ == "refract_dz"@,
        "refract"@ + "_hit_x"@ == "refract_hit_x"@,
        "refract"@ + "_hit_y"@ == "refract_hit_y"@,
        "refract"@ + "_hit_z"@ == "refract_hit_z"@,
        "refract"@ + "_normal_x"@ == "refract_normal_x"@,
        "refract"@ + "_normal_y"@ == "refract_normal_y"@,
        "refract"@ + "_normal_z"@ == "refract_normal_z"@,
        "refract_"@ + "shadow_ox"@ == "refract_shadow_ox"@,
        "refract_"@ + "shadow_oy"@ == "refract_shadow_oy"@,
        "refract_"@ + "shadow_oz"@ == "refract_shadow_oz"@,
        "refract_"@ + "shadow_dx"@ == "refract_shadow_dx"@,
        "refract_"@ + "shadow_dy"@ == "refract_shadow_dy"@,
        "refract_"@ + "shadow_dz"@ == "refract_shadow_dz"@,
        "refract_"@ + "light_dist"@ == "refract_light_dist"@,
        "refract_"@ + "in_shadow"@ == "refract_in_shadow"@,
        "refract_"@ + "shadow_t_"@ == "refract_shadow_t_"@,
        "refract_"@ + "shadow"@ == "refract_shadow"@,
        "refract_"@ + "normal"@ == "refract_normal"@,
        "refract_shadow"@ + "_ox"@ == "refract_shadow_ox"@,
        "refract_shadow"@ + "_oy"@ == "refract_shadow_oy"@,
        "refract_shadow"@ + "_oz"@ == "refract_shadow_oz"@,
        "refract_shadow"@ + "_dx"@ == "refract_shadow_dx"@,
        "refract_shadow"@ + "_dy"@ == "refract_shadow_dy"@,
        "refract_shadow"@ + "_dz"@ == "refract_shadow_dz"@,
        "refract_normal"@ + "_x"@ == "refract_normal_x"@,
        "refract_normal"@ + "_y"@ == "refract_normal_y"@,
        "refract_normal"@ + "_z"@ == "refract_normal_z"@,
        "refract_hit"@ + "_x"@ == "refract_hit_x"@,
        "refract_hit"@ + "_y"@ == "refract_hit_y"@,
        "refract_hit"@ + "_z"@ == "refract_hit_z"@,
{
    reveal_strlit("refract");
    reveal_strlit("_t_nearest");
    reveal_strlit("refract_t_nearest");
    reveal_strlit("_hit_idx");
    reveal_strlit("refract_hit_idx");
    reveal_strlit("_t_");
    reveal_strlit("refract_t_");
    reveal_strlit("_ox");
    reveal_strlit("refract_ox");
    reveal_strlit("_oy");
    reveal_strlit("refract_oy");
    reveal_strlit("_oz");
    reveal_strlit("refract_oz");
    reveal_strlit("_dx");
    reveal_strlit("refract_dx");
    reveal_strlit("_dy");
    reveal_strlit("refract_dy");
    reveal_strlit("_dz");
    reveal_strlit("refract_dz");
    reveal_strlit("_hit_x");
    reveal_strlit("refract_hit_x");
    reveal_strlit("_hit_y");
    reveal_strlit("refract_hit_y");
    reveal_strlit("_hit_z");
    reveal_strlit("refract_hit_z");
    reveal_strlit("_normal_x");
    reveal_strlit("refract_normal_x");
    reveal_strlit("_normal_y");
    reveal_strlit("refract_normal_y");
    reveal_strlit("_normal_z");
    reveal_strlit("refract_normal_z");
    reveal_strlit("refract_");
    reveal_strlit("shadow_ox");
    reveal_strlit("refract_shadow_ox");
    reveal_strlit("shadow_oy");
    reveal_strlit("refract_shadow_oy");
    reveal_strlit("shadow_oz");
    reveal_strlit("refract_shadow_oz");
    reveal_strlit("shadow_dx");
    reveal_strlit("refract_shadow_dx");
    reveal_strlit("shadow_dy");
    reveal_strlit("refract_shadow_dy");
    reveal_strlit("shadow_dz");
    reveal_strlit("refract_shadow_dz");
    reveal_strlit("light_dist");
    reveal_strlit("refract_light_dist");
    reveal_strlit("in_shadow");
    reveal_strlit("refract_in_shadow");
    reveal_strlit("shadow_t_");
    reveal_strlit("refract_shadow_t_");
    reveal_strlit("shadow");
    reveal_strlit("refract_shadow");
    reveal_strlit("normal");
    reveal_strlit("refract_normal");
    reveal_strlit("_x");
    reveal_strlit("_y");
    reveal_strlit("_z");
    reveal_strlit("refract_hit");
    assert("refract"@ + "_t_nearest"@ =~= "refract_t_nearest"@);
    assert("refract"@ + "_hit_idx"@ =~= "refract_hit_idx"@);
    assert("refract"@ + "_t_"@ =~= "refract_t_"@);
    assert("refract"@ + "_ox"@ =~= "refract_ox"@);
    assert("refract"@ + "_oy"@ =~= "refract_oy"@);
    assert("refract"@ + "_oz"@ =~= "refract_oz"@);
    assert("refract"@ + "_dx"@ =~= "refract_dx"@);
    assert("refract"@ + "_dy"@ =~= "refract_dy"@);
    assert("refract"@ + "_dz"@ =~= "refract_dz"@);
    assert("refract"@ + "_hit_x"@ =~= "refract_hit_x"@);
    assert("refract"@ + "_hit_y"@ =~= "refract_hit_y"@);
    assert("refract"@ + "_hit_z"@ =~= "refract_hit_z"@);
    assert("refract"@ + "_normal_x"@ =~= "refract_normal_x"@);
    assert("refract"@ + "_normal_y"@ =~= "refract_normal_y"@);
    assert("refract"@ + "_normal_z"@ =~= "refract_normal_z"@);
    assert("refract_"@ + "shadow_ox"@ =~= "refract_shadow_ox"@);
    assert("refract_"@ + "shadow_oy"@ =~= "refract_shadow_oy"@);
    assert("refract_"@ + "shadow_oz"@ =~= "refract_shadow_oz"@);
    assert("refract_"@ + "shadow_dx"@ =~= "refract_shadow_dx"@);
    assert("refract_"@ + "shadow_dy"@ =~= "refract_shadow_dy"@);
    assert("refract_"@ + "shadow_dz"@ =~= "refract_shadow_dz"@);
    assert("refract_"@ + "light_dist"@ =~= "refract_light_dist"@);
    assert("refract_"@ + "in_shadow"@ =~= "refract_in_shadow"@);
    assert("refract_"@ + "shadow_t_"@ =~= "refract_shadow_t_"@);
    assert("refract_"@ + "shadow"@ =~= "refract_shadow"@);
    assert("refract_"@ + "normal"@ =~= "refract_normal"@);
    assert("refract_shadow"@ + "_ox"@ =~= "refract_shadow_ox"@);
    assert("refract_shadow"@ + "_oy"@ =~= "refract_shadow_oy"@);
    assert("refract_shadow"@ + "_oz"@ =~= "refract_shadow_oz"@);
    assert("refract_shadow"@ + "_dx"@ =~= "refract_shadow_dx"@);
    assert("refract_shadow"@ + "_dy"@ =~= "refract_shadow_dy"@);
    assert("refract_shadow"@ + "_dz"@ =~= "refract_shadow_dz"@);
    assert("refract_normal"@ + "_x"@ =~= "refract_normal_x"@);
    assert("refract_normal"@ + "_y"@ =~= "refract_normal_y"@);
    assert("refract_normal"@ + "_z"@ =~= "refract_normal_z"@);
    assert("refract_hit"@ + "_x"@ =~= "refract_hit_x"@);
    assert("refract_hit"@ + "_y"@ =~= "refract_hit_y"@);
    assert("refract_hit"@ + "_z"@ =~= "refract_hit_z"@);
}

/// The place of a column of the reflected ray, or of that behind the glass.
spec fn rank_behind(name: Seq<char>, far: bool) -> int {
    let c = name[8];
    if c == 't' {
        if name == "reflect_t_nearest"@ || name == "refract_t_nearest"@ {
            if far { 53 } else { 44 }
        } else {
            if far { 52 } else { 43 }
        }
    } else if c == 'o' {
        if far { 36 + axis(name.last()) } else { 16 + axis(name.last()) }
    } else if c == 'd' {
        if far { 39 + axis(name.last()) } else { 19 + axis(name.last()) }
    } else if c == 'h' {
        if name.len() == 15 {
            if far { 54 } else { 45 }
        } else {
            if far { 55 + axis(name.last()) } else { 46 + axis(name.last()) }
        }
    } else if c == 'n' {
        if far { 58 + axis(name.last()) } else { 49 + axis(name.last()) }
    } else if c == 's' {
        if name[15] == 'o' {
            if far { 79 + axis(name.last()) } else { 70 + axis(name.last()) }
        } else if name[15] == 'd' {
            if far { 82 + axis(name.last()) } else { 73 + axis(name.last()) }
        } else {
            if far { 86 } else { 77 }
        }
    } else if c == 'l' {
        if far { 85 } else { 76 }
    } else if c == 'i' {
        if far { 87 } else { 78 }
    } else {
        if far { 90 } else { 89 }
    }
}

/// The place of each column, by the letters of its name.
spec fn rank() -> spec_fn(Seq<char>) -> int {
    |name: Seq<char>|
        if name.len() >= 8 && name[0] == 'r' {
            rank_behind(name, name[3] == 'r')
        } else if name[0] == 'r' {
            if name[4] == 'o' {
                axis(name.last())
            } else {
                3 + axis(name.last())
            }
        } else if name[0] == 'p' {
            if name[8] == 't' {
                if name == "primary_t_nearest"@ {
                    7
                } else {
                    6
                }
            } else if name[8] == 'h' {
                8
            } else {
                88
            }
        } else if name[0] == 's' {
            if name[7] == 'o' {
                61 + axis(name.last())
            } else if name[7] == 'd' {
                64 + axis(name.last())
            } else {
                68
            }
        } else if name[0] == 'h' {
            if name.len() == 7 {
                15
            } else {
                9 + axis(name.last())
            }
        } else if name[0] == 'n' {
            12 + axis(name.last())
        } else if name[0] == 'i' {
            if name.len() == 9 {
                69
            } else if name[9] == 'o' {
                22 + axis(name.last())
            } else if name[9] == 'd' {
                25 + axis(name.last())
            } else {
                29
            }
        } else if name[0] == 'f' {
            if name[1] == 'r' {
                28
            } else {
                91 + tint(name.last())
            }
        } else if name[0] == 'e' {
            if name.len() == 6 {
                30 + axis(name.last())
            } else {
                33 + axis(name.last())
            }
        } else if name[0] == 't' {
            42
        } else if name[0] == 'l' {
            67
        } else {
            -1
        }
}

#[verifier::spinoff_prover]
proof fn lemma_near_ranks()
    ensures
        rank()("x"@) == -1,
        rank()("y"@) == -1,
        rank()("ray_ox"@) == 0,
        rank()("ray_oy"@) == 1,
        rank()("ray_oz"@) == 2,
        rank()("ray_dx"@) == 3,
        rank()("ray_dy"@) == 4,
        rank()("ray_dz"@) == 5,
        rank()("primary_t_nearest"@) == 7,
        rank()("primary_hit_idx"@) == 8,
        rank()("hit_x"@) == 9,
        rank()("hit_y"@) == 10,
        rank()("hit_z"@) == 11,
        rank()("normal_x"@) == 12,
        rank()("normal_y"@) == 13,
        rank()("normal_z"@) == 14,
        rank()("hit_ior"@) == 15,
        rank()("internal_ox"@) == 22,
        rank()("internal_oy"@) == 23,
        rank()("internal_oz"@) == 24,
        rank()("internal_dx"@) == 25,
        rank()("internal_dy"@) == 26,
        rank()("internal_dz"@) == 27,
        rank()("fresnel"@) == 28,
        rank()("internal_exit_t"@) == 29,
        rank()("exit_x"@) == 30,
        rank()("exit_y"@) == 31,
        rank()("exit_z"@) == 32,
        rank()("exit_normal_x"@) == 33,
        rank()("exit_normal_y"@) == 34,
        rank()("exit_normal_z"@) == 35,
        rank()("total_internal_reflection"@) == 42,
        rank()("shadow_ox"@) == 61,
        rank()("shadow_oy"@) == 62,
        rank()("shadow_oz"@) == 63,
        rank()("shadow_dx"@) == 64,
        rank()("shadow_dy"@) == 65,
        rank()("shadow_dz"@) == 66,
        rank()("light_dist"@) == 67,
        rank()("in_shadow"@) == 69,
        rank()("primary_brightness"@) == 88,
        rank()("final_r"@) == 91,
        rank()("final_g"@) == 92,
        rank()("final_b"@) == 93,
{
    reveal_strlit("x");
    reveal_strlit("y");
    reveal_strlit("ray_ox");
    reveal_strlit("ray_oy");
    reveal_strlit("ray_oz");
    reveal_strlit("ray_dx");
    reveal_strlit("ray_dy");
    reveal_strlit("ray_dz");
    reveal_strlit("primary_t_nearest");
    reveal_strlit("primary_hit_idx");
    reveal_strlit("hit_x");
    reveal_strlit("hit_y");
    reveal_strlit("hit_z");
    reveal_strlit("normal_x");
    reveal_strlit("normal_y");
    reveal_strlit("normal_z");
    reveal_strlit("hit_ior");
    reveal_strlit("internal_ox");
    reveal_strlit("internal_oy");
    reveal_strlit("internal_oz");
    reveal_strlit("internal_dx");
    reveal_strlit("internal_dy");
    reveal_strlit("internal_dz");
    reveal_strlit("fresnel");
    reveal_strlit("internal_exit_t");
    reveal_strlit("exit_x");
    reveal_strlit("exit_y");
    reveal_strlit("exit_z");
    reveal_strlit("exit_normal_x");
    reveal_strlit("exit_normal_y");
    reveal_strlit("exit_normal_z");
    reveal_strlit("total_internal_reflection");
    reveal_strlit("shadow_ox");
    reveal_strlit("shadow_oy");
    reveal_strlit("shadow_oz");
    reveal_strlit("shadow_dx");
    reveal_strlit("shadow_dy");
    reveal_strlit("shadow_dz");
    reveal_strlit("light_dist");
    reveal_strlit("in_shadow");
    reveal_strlit("primary_brightness");
    reveal_strlit("final_r");
    reveal_strlit("final_g");
    reveal_strlit("final_b");
}

#[verifier::spinoff_prover]
proof fn lemma_reflect_ranks()
    ensures
        rank()("reflect_ox"@) == 16,
        rank()("reflect_oy"@) == 17,
        rank()("reflect_oz"@) == 18,
        rank()("reflect_dx"@) == 19,
        rank()("reflect_dy"@) == 20,
        rank()("reflect_dz"@) == 21,
        rank()("reflect_t_nearest"@) == 44,
        rank()("reflect_hit_idx"@) == 45,
        rank()("reflect_hit_x"@) == 46,
        rank()("reflect_hit_y"@) == 47,
        rank()("reflect_hit_z"@) == 48,
        rank()("reflect_normal_x"@) == 49,
        rank()("reflect_normal_y"@) == 50,
        rank()("reflect_normal_z"@) == 51,
        rank()("reflect_shadow_ox"@) == 70,
        rank()("reflect_shadow_oy"@) == 71,
        rank()("reflect_shadow_oz"@) == 72,
        rank()("reflect_shadow_dx"@) == 73,
        rank()("reflect_shadow_dy"@) == 74,
        rank()("reflect_shadow_dz"@) == 75,
        rank()("reflect_light_dist"@) == 76,
        rank()("reflect_in_shadow"@) == 78,
        rank()("reflect_brightness"@) == 89,
{
    reveal_strlit("reflect_ox");
    reveal_strlit("reflect_oy");
    reveal_strlit("reflect_oz");
    reveal_strlit("reflect_dx");
    reveal_strlit("reflect_dy");
    reveal_strlit("reflect_dz");
    reveal_strlit("reflect_t_nearest");
    reveal_strlit("reflect_hit_idx");
    reveal_strlit("reflect_hit_x");
    reveal_strlit("reflect_hit_y");
    reveal_strlit("reflect_hit_z");
    reveal_strlit("reflect_normal_x");
    reveal_strlit("reflect_normal_y");
    reveal_strlit("reflect_normal_z");
    reveal_strlit("reflect_shadow_ox");
    reveal_strlit("reflect_shadow_oy");
    reveal_strlit("reflect_shadow_oz");
    reveal_strlit("reflect_shadow_dx");
    reveal_strlit("reflect_shadow_dy");
    reveal_strlit("reflect_shadow_dz");
    reveal_strlit("reflect_light_dist");
    reveal_strlit("reflect_in_shadow");
    reveal_strlit("reflect_brightness");
}

#[verifier::spinoff_prover]
proof fn lemma_refract_ranks()
    ensures
        rank()("refract_ox"@) == 36,
        rank()("refract_oy"@) == 37,
        rank()("refract_oz"@) == 38,
        rank()("refract_dx"@) == 39,
        rank()("refract_dy"@) == 40,
        rank()("refract_dz"@) == 41,
        rank()("refract_t_nearest"@) == 53,
        rank()("refract_hit_idx"@) == 54,
        rank()("refract_hit_x"@) == 55,
        rank()("refract_hit_y"@) == 56,
        rank()("refract_hit_z"@) == 57,
        rank()("refract_normal_x"@) == 58,
        rank()("refract_normal_y"@) == 59,
        rank()("refract_normal_z"@) == 60,
        rank()("refract_shadow_ox"@) == 79,
        rank()("refract_shadow_oy"@) == 80,
        rank()("refract_shadow_oz"@) == 81,
        rank()("refract_shadow_dx"@) == 82,
        rank()("refract_shadow_dy"@) == 83,
        rank()("refract_shadow_dz"@) == 84,
        rank()("refract_light_dist"@) == 85,
        rank()("refract_in_shadow"@) == 87,
        rank()("refract_brightness"@) == 90,
{
    reveal_strlit("refract_ox");
    reveal_strlit("refract_oy");
    reveal_strlit("refract_oz");
    reveal_strlit("refract_dx");
    reveal_strlit("refract_dy");
    reveal_strlit("refract_dz");
    reveal_strlit("refract_t_nearest");
    reveal_strlit("refract_hit_idx");
    reveal_strlit("refract_hit_x");
    reveal_strlit("refract_hit_y");
    reveal_strlit("refract_hit_z");
    reveal_strlit("refract_normal_x");
    reveal_strlit("refract_normal_y");
    reveal_strlit("refract_normal_z");
    reveal_strlit("refract_shadow_ox");
    reveal_strlit("refract_shadow_oy");
    reveal_strlit("refract_shadow_oz");
    reveal_strlit("refract_shadow_dx");
    reveal_strlit("refract_shadow_dy");
    reveal_strlit("refract_shadow_dz");
    reveal_strlit("refract_light_dist");
    reveal_strlit("refract_in_shadow");
    reveal_strlit("refract_brightness");
}

proof fn lemma_rank_primary_t(name: Seq<char>)
    requires
        name != "nearest"@,
    ensures
        rank()("primary_t_"@ + name) == 6,
{
    reveal_strlit("primary_t_");
    let long = "primary_t_"@ + name;
    assert(long[0] == 'p' && long[8] == 't');
    reveal_strlit("nearest");
    reveal_strlit("primary_t_nearest");
    if long == "primary_t_nearest"@ {
        assert(name =~= long.skip(10));
        assert("nearest"@ =~= "primary_t_nearest"@.skip(10));
    }
}

proof fn lemma_rank_reflect_t(name: Seq<char>)
    requires
        name != "nearest"@,
    ensures
        rank()("reflect_t_"@ + name) == 43,
{
    reveal_strlit("reflect_t_");
    let long = "reflect_t_"@ + name;
    assert(long[0] == 'r' && long[3] == 'l' && long[8] == 't');
    reveal_strlit("nearest");
    reveal_strlit("reflect_t_nearest");
    if long == "reflect_t_nearest"@ {
        assert(name =~= long.skip(10));
        assert("nearest"@ =~= "reflect_t_nearest"@.skip(10));
    }
    reveal_strlit("refract_t_nearest");
    if long == "refract_t_nearest"@ {
        assert(name =~= long.skip(10));
        assert("nearest"@ =~= "refract_t_nearest"@.skip(10));
    }
}

proof fn lemma_rank_refract_t(name: Seq<char>)
    requires
        name != "nearest"@,
    ensures
        rank()("refract_t_"@ + name) == 52,
{
    reveal_strlit("refract_t_");
    let long = "refract_t_"@ + name;
    assert(long[0] == 'r' && long[3] == 'r' && long[8] == 't');
    reveal_strlit("nearest");
    reveal_strlit("reflect_t_nearest");
    if long == "reflect_t_nearest"@ {
        assert(name =~= long.skip(10));
        assert("nearest"@ =~= "reflect_t_nearest"@.skip(10));
    }
    reveal_strlit("refract_t_nearest");
    if long == "refract_t_nearest"@ {
        assert(name =~= long.skip(10));
        assert("nearest"@ =~= "refract_t_nearest"@.skip(10));
    }
}

proof fn lemma_rank_shadow_t(name: Seq<char>)
    ensures
        rank()("shadow_t_"@ + name) == 68,
{
    reveal_strlit("shadow_t_");
    let long = "shadow_t_"@ + name;
    assert(long[0] == 's' && long[7] == 't');
}

proof fn lemma_rank_reflect_shadow_t(name: Seq<char>)
    ensures
        rank()("reflect_shadow_t_"@ + name) == 77,
{
    reveal_strlit("reflect_shadow_t_");
    let long = "reflect_shadow_t_"@ + name;
    assert(long[0] == 'r' && long[3] == 'l' && long[8] == 's' && long[15] == 't');
}

proof fn lemma_rank_refract_shadow_t(name: Seq<char>)
    ensures
        rank()("refract_shadow_t_"@ + name) == 86,
{
    reveal_strlit("refract_shadow_t_");
    let long = "refract_shadow_t_"@ + name;
    assert(long[0] == 'r' && long[3] == 'r' && long[8] == 's' && long[15] == 't');
}

/// The opaque ones among spheres that are told apart are told apart.
pub(crate) proof fn lemma_opaque_apart(spheres: Seq<Sphere>)
    requires
        has_clear_names(spheres),
    ensures
        has_clear_names(opaque(spheres)),
        forall|i: int|
            0 <= i < opaque(spheres).len() ==> spheres.contains(#[trigger] opaque(spheres)[i]),
        opaque(spheres).len() <= spheres.len(),
    decreases spheres.len(),
{
    reveal(Seq::filter);
    if spheres.len() > 0 {
        let before = spheres.drop_last();
        let last = spheres.last();
        let n = spheres.len() - 1;
        assert(has_clear_names(before)) by {
            assert forall|i: int| 0 <= i < before.len() implies (#[trigger] before[i])
                == spheres[i] by {}
        }
        lemma_opaque_apart(before);
        let kept = opaque(before);
        assert forall|i: int| 0 <= i < kept.len() implies spheres.contains(#[trigger] kept[i])
            && kept[i].label() != last.label() by {
            assert(before.contains(kept[i]));
            let k = choose|k: int| 0 <= k < before.len() && before[k] == kept[i];
            assert(spheres[k] == kept[i]);
            assert(spheres[k].label() != spheres[n].label());
        }
        if !last.transparent() {
            assert(opaque(spheres) == kept.push(last));
            assert(spheres[n] == last);
            let all = kept.push(last);
            assert forall|i: int, j: int| 0 <= i < j < all.len() implies (
            #[trigger] all[i]).label() != (#[trigger] all[j]).label() by {
                if j < kept.len() {
                    assert(kept[i].label() != kept[j].label());
                } else {
                    assert(all[i] == kept[i]);
                }
            }
            assert forall|i: int| 0 <= i < all.len() implies spheres.contains(#[trigger] all[i])
                && all[i].name@ != "nearest"@ by {
                if i < kept.len() {
                    assert(all[i] == kept[i]);
                } else {
                    assert(all[i] == spheres[n]);
                }
            }
        } else {
            assert(opaque(spheres) == kept);
        }
    }
}

#[verifier::spinoff_prover]
proof fn lemma_primary_trace(spheres: Seq<Sphere>)
    requires
        has_clear_names(spheres),
    ensures
        ranked(trace_steps(spheres, "ray"@, "primary"@), rank(), 6, 9),
{
    let met = intersect_steps(spheres, "ray"@, "primary"@);
    let seen = seq![nearest_step(spheres, "primary"@), index_step(spheres, "primary"@)];
    lemma_primary_joins();
    lemma_near_ranks();
    assert(ranked(met, rank(), 6, 7)) by {
        assert forall|i: int| 0 <= i < met.len() implies rank()((#[trigger] met[i]).0) == 6 by {
            lemma_rank_primary_t(spheres[i].name@);
            assert(met[i].0 == "primary_t_"@ + spheres[i].name@);
        }
        assert forall|i: int, j: int| 0 <= i < j < met.len() implies (#[trigger] met[i]).0 != (
        #[trigger] met[j]).0 by {
            assert(spheres[i].label() != spheres[j].label());
            assert(met[i].0 == "primary_t_"@ + spheres[i].name@);
            assert(met[j].0 == "primary_t_"@ + spheres[j].name@);
            assert(met[i].0.skip("primary_t_"@.len() as int) =~= spheres[i].name@);
            assert(met[j].0.skip("primary_t_"@.len() as int) =~= spheres[j].name@);
        }
    }
    assert(ranked(seen, rank(), 7, 9)) by {
        assert(seen[0].0 == "primary_t_nearest"@);
        assert(seen[1].0 == "primary_hit_idx"@);
        assert forall|i: int| 0 <= i < seen.len() implies rank()((#[trigger] seen[i]).0) == 7
            + i by {
            assert(i == 0 || i == 1);
        }
    }
    lemma_ranked_append(met, seen, rank(), 6, 7, 9);
}

#[verifier::spinoff_prover]
proof fn lemma_reflect_trace(spheres: Seq<Sphere>)
    requires
        has_clear_names(spheres),
    ensures
        ranked(trace_steps(spheres, "reflect"@, "reflect"@), rank(), 43, 46),
{
    let met = intersect_steps(spheres, "reflect"@, "reflect"@);
    let seen = seq![nearest_step(spheres, "reflect"@), index_step(spheres, "reflect"@)];
    lemma_reflect_joins();
    lemma_reflect_ranks();
    assert(ranked(met, rank(), 43, 44)) by {
        assert forall|i: int| 0 <= i < met.len() implies rank()((#[trigger] met[i]).0) == 43 by {
            lemma_rank_reflect_t(spheres[i].name@);
            assert(met[i].0 == "reflect_t_"@ + spheres[i].name@);
        }
        assert forall|i: int, j: int| 0 <= i < j < met.len() implies (#[trigger] met[i]).0 != (
        #[trigger] met[j]).0 by {
            assert(spheres[i].label() != spheres[j].label());
            assert(met[i].0 == "reflect_t_"@ + spheres[i].name@);
            assert(met[j].0 == "reflect_t_"@ + spheres[j].name@);
            assert(met[i].0.skip("reflect_t_"@.len() as int) =~= spheres[i].name@);
            assert(met[j].0.skip("reflect_t_"@.len() as int) =~= spheres[j].name@);
        }
    }
    assert(ranked(seen, rank(), 44, 46)) by {
        assert(seen[0].0 == "reflect_t_nearest"@);
        assert(seen[1].0 == "reflect_hit_idx"@);
        assert forall|i: int| 0 <= i < seen.len() implies rank()((#[trigger] seen[i]).0) == 44
            + i by {
            assert(i == 0 || i == 1);
        }
    }
    lemma_ranked_append(met, seen, rank(), 43, 44, 46);
}

#[verifier::spinoff_prover]
proof fn lemma_refract_trace(spheres: Seq<Sphere>)
    requires
        has_clear_names(spheres),
    ensures
        ranked(trace_steps(spheres, "refract"@, "refract"@), rank(), 52, 55),
{
    let met = intersect_steps(spheres, "refract"@, "refract"@);
    let seen = seq![nearest_step(spheres, "refract"@), index_step(spheres, "refract"@)];
    lemma_refract_joins();
    lemma_refract_ranks();
    assert(ranked(met, rank(), 52, 53)) by {
        assert forall|i: int| 0 <= i < met.len() implies rank()((#[trigger] met[i]).0) == 52 by {
            lemma_rank_refract_t(spheres[i].name@);
            assert(met[i].0 == "refract_t_"@ + spheres[i].name@);
        }
        assert forall|i: int, j: int| 0 <= i < j < met.len() implies (#[trigger] met[i]).0 != (
        #[trigger] met[j]).0 by {
            assert(spheres[i].label() != spheres[j].label());
            assert(met[i].0 == "refract_t_"@ + spheres[i].name@);
            assert(met[j].0 == "refract_t_"@ + spheres[j].name@);
            assert(met[i].0.skip("refract_t_"@.len() as int) =~= spheres[i].name@);
            assert(met[j].0.skip("refract_t_"@.len() as int) =~= spheres[j].name@);
        }
    }
    assert(ranked(seen, rank(), 53, 55)) by {
        assert(seen[0].0 == "refract_t_nearest"@);
        assert(seen[1].0 == "refract_hit_idx"@);
        assert forall|i: int| 0 <= i < seen.len() implies rank()((#[trigger] seen[i]).0) == 53
            + i by {
            assert(i == 0 || i == 1);
        }
    }
    lemma_ranked_append(met, seen, rank(), 52, 53, 55);
}

#[verifier::spinoff_prover]
proof fn lemma_primary_shadow(spheres: Seq<Sphere>, light: Light)
    requires
        has_clear_names(spheres),
    ensures
        ranked(point_shadow_steps(spheres, light, ""@, "hit"@), rank(), 61, 70),
{
    let ray = shadow_ray_steps(light, ""@, "hit"@);
    let blocked = shadow_steps(spheres, ""@);
    let last = seq![in_shadow_step(spheres, ""@)];
    let kept = opaque(spheres);
    lemma_opaque_apart(spheres);
    lemma_primary_joins();
    lemma_near_ranks();
    assert(ranked(ray, rank(), 61, 68)) by {
        assert(ray[0].0 == "shadow_ox"@);
        assert(ray[1].0 == "shadow_oy"@);
        assert(ray[2].0 == "shadow_oz"@);
        assert(ray[3].0 == "shadow_dx"@);
        assert(ray[4].0 == "shadow_dy"@);
        assert(ray[5].0 == "shadow_dz"@);
        assert(ray[6].0 == "light_dist"@);
        assert forall|i: int| 0 <= i < ray.len() implies rank()((#[trigger] ray[i]).0) == 61
            + i by {
            assert(i == 0 || i == 1 || i == 2 || i == 3 || i == 4 || i == 5 || i == 6);
        }
    }
    assert(ranked(blocked, rank(), 68, 69)) by {
        assert forall|i: int| 0 <= i < blocked.len() implies rank()((#[trigger] blocked[i]).0)
            == 68 by {
            lemma_rank_shadow_t(kept[i].name@);
            assert(blocked[i].0 == "shadow_t_"@ + kept[i].name@);
        }
        assert forall|i: int, j: int| 0 <= i < j < blocked.len() implies (#[trigger] blocked[i]).0
            != (#[trigger] blocked[j]).0 by {
            assert(kept[i].label() != kept[j].label());
            assert(blocked[i].0 == "shadow_t_"@ + kept[i].name@);
            assert(blocked[j].0 == "shadow_t_"@ + kept[j].name@);
            assert(blocked[i].0.skip("shadow_t_"@.len() as int) =~= kept[i].name@);
            assert(blocked[j].0.skip("shadow_t_"@.len() as int) =~= kept[j].name@);
        }
    }
    assert(ranked(last, rank(), 69, 70)) by {
        assert(last[0].0 == "in_shadow"@);
        assert forall|i: int| 0 <= i < last.len() implies rank()((#[trigger] last[i]).0) == 69
            + i by {
            assert(i == 0);
        }
    }
    lemma_ranked_append(ray, blocked, rank(), 61, 68, 69);
    lemma_ranked_append(ray + blocked, last, rank(), 61, 69, 70);
}

#[verifier::spinoff_prover]
proof fn lemma_reflect_shadow(spheres: Seq<Sphere>, light: Light)
    requires
        has_clear_names(spheres),
    ensures
        ranked(point_shadow_steps(spheres, light, "reflect_"@, "reflect_hit"@), rank(), 70, 79),
{
    let ray = shadow_ray_steps(light, "reflect_"@, "reflect_hit"@);
    let blocked = shadow_steps(spheres, "reflect_"@);
    let last = seq![in_shadow_step(spheres, "reflect_"@)];
    let kept = opaque(spheres);
    lemma_opaque_apart(spheres);
    lemma_reflect_joins();
    lemma_reflect_ranks();
    assert(ranked(ray, rank(), 70, 77)) by {
        assert(ray[0].0 == "reflect_shadow_ox"@);
        assert(ray[1].0 == "reflect_shadow_oy"@);
        assert(ray[2].0 == "reflect_shadow_oz"@);
        assert(ray[3].0 == "reflect_shadow_dx"@);
        assert(ray[4].0 == "reflect_shadow_dy"@);
        assert(ray[5].0 == "reflect_shadow_dz"@);
        assert(ray[6].0 == "reflect_light_dist"@);
        assert forall|i: int| 0 <= i < ray.len() implies rank()((#[trigger] ray[i]).0) == 70
            + i by {
            assert(i == 0 || i == 1 || i == 2 || i == 3 || i == 4 || i == 5 || i == 6);
        }
    }
    assert(ranked(blocked, rank(), 77, 78)) by {
        assert forall|i: int| 0 <= i < blocked.len() implies rank()((#[trigger] blocked[i]).0)
            == 77 by {
            lemma_rank_reflect_shadow_t(kept[i].name@);
            assert(blocked[i].0 == "reflect_shadow_t_"@ + kept[i].name@);
        }
        assert forall|i: int, j: int| 0 <= i < j < blocked.len() implies (#[trigger] blocked[i]).0
            != (#[trigger] blocked[j]).0 by {
            assert(kept[i].label() != kept[j].label());
            assert(blocked[i].0 == "reflect_shadow_t_"@ + kept[i].name@);
            assert(blocked[j].0 == "reflect_shadow_t_"@ + kept[j].name@);
            assert(blocked[i].0.skip("reflect_shadow_t_"@.len() as int) =~= kept[i].name@);
            assert(blocked[j].0.skip("reflect_shadow_t_"@.len() as int) =~= kept[j].name@);
        }
    }
    assert(ranked(last, rank(), 78, 79)) by {
        assert(last[0].0 == "reflect_in_shadow"@);
        assert forall|i: int| 0 <= i < last.len() implies rank()((#[trigger] last[i]).0) == 78
            + i by {
            assert(i == 0);
        }
    }
    lemma_ranked_append(ray, blocked, rank(), 70, 77, 78);
    lemma_ranked_append(ray + blocked, last, rank(), 70, 78, 79);
}

#[verifier::spinoff_prover]
proof fn lemma_refract_shadow(spheres: Seq<Sphere>, light: Light)
    requires
        has_clear_names(spheres),
    ensures
        ranked(point_shadow_steps(spheres, light, "refract_"@, "refract_hit"@), rank(), 79, 88),
{
    let ray = shadow_ray_steps(light, "refract_"@, "refract_hit"@);
    let blocked = shadow_steps(spheres, "refract_"@);
    let last = seq![in_shadow_step(spheres, "refract_"@)];
    let kept = opaque(spheres);
    lemma_opaque_apart(spheres);
    lemma_refract_joins();
    lemma_refract_ranks();
    assert(ranked(ray, rank(), 79, 86)) by {
        assert(ray[0].0 == "refract_shadow_ox"@);
        assert(ray[1].0 == "refract_shadow_oy"@);
        assert(ray[2].0 == "refract_shadow_oz"@);
        assert(ray[3].0 == "refract_shadow_dx"@);
        assert(ray[4].0 == "refract_shadow_dy"@);
        assert(ray[5].0 == "refract_shadow_dz"@);
        assert(ray[6].0 == "refract_light_dist"@);
        assert forall|i: int| 0 <= i < ray.len() implies rank()((#[trigger] ray[i]).0) == 79
            + i by {
            assert(i == 0 || i == 1 || i == 2 || i == 3 || i == 4 || i == 5 || i == 6);
        }
    }
    assert(ranked(blocked, rank(), 86, 87)) by {
        assert forall|i: int| 0 <= i < blocked.len() implies rank()((#[trigger] blocked[i]).0)
            == 86 by {
            lemma_rank_refract_shadow_t(kept[i].name@);
            assert(blocked[i].0 == "refract_shadow_t_"@ + kept[i].name@);
        }
        assert forall|i: int, j: int| 0 <= i < j < blocked.len() implies (#[trigger] blocked[i]).0
            != (#[trigger] blocked[j]).0 by {
            assert(kept[i].label() != kept[j].label());
            assert(blocked[i].0 == "refract_shadow_t_"@ + kept[i].name@);
            assert(blocked[j].0 == "refract_shadow_t_"@ + kept[j].name@);
            assert(blocked[i].0.skip("refract_shadow_t_"@.len() as int) =~= kept[i].name@);
            assert(blocked[j].0.skip("refract_shadow_t_"@.len() as int) =~= kept[j].name@);
        }
    }
    assert(ranked(last, rank(), 87, 88)) by {
        assert(last[0].0 == "refract_in_shadow"@);
        assert forall|i: int| 0 <= i < last.len() implies rank()((#[trigger] last[i]).0) == 87
            + i by {
            assert(i == 0);
        }
    }
    lemma_ranked_append(ray, blocked, rank(), 79, 86, 87);
    lemma_ranked_append(ray + blocked, last, rank(), 79, 87, 88);
}

/// The columns of the scene have names of their own.
#[verifier::spinoff_prover]
pub(crate) proof fn lemma_glass_names(
    width: nat,
    height: nat,
    spheres: Seq<Sphere>,
    glass: Sphere,
    light: Light,
    ambient: Number,
)
    requires
        has_clear_names(spheres),
    ensures
        has_own_names(scene_steps(width, height, spheres, glass, light, ambient), pixel_table()),
{
    lemma_path_ranks(width, height, spheres, glass);
    lemma_light_ranks(spheres, light, ambient);
    let path = ray_path_steps(width, height, spheres, glass);
    let lights = light_steps(spheres, light, ambient);
    let colors = color_steps(spheres);
    lemma_near_ranks();
    assert(ranked(colors, rank(), 91, 94)) by {
        assert(colors[0].0 == "final_r"@);
        assert(colors[1].0 == "final_g"@);
        assert(colors[2].0 == "final_b"@);
        assert forall|i: int| 0 <= i < colors.len() implies rank()((#[trigger] colors[i]).0) == 91
            + i by {
            assert(i == 0 || i == 1 || i == 2);
        }
    }
    lemma_ranked_append(path, lights, rank(), 0, 61, 91);
    lemma_ranked_append(path + lights, colors, rank(), 0, 91, 94);
    lemma_ranked_own(
        scene_steps(width, height, spheres, glass, light, ambient),
        pixel_table(),
        rank(),
        0,
        94,
    );
}

/// The columns of the brightness of the three points.
pub(crate) open spec fn brightness_steps(light: Light, ambient: Number) -> Steps {
    seq![
        lighting_step(
            light,
            ambient,
            "hit"@,
            "normal"@,
            "in_shadow"@,
            "primary_brightness"@,
        ),
        lighting_step(
            light,
            ambient,
            "reflect_hit"@,
            "reflect_normal"@,
            "reflect_in_shadow"@,
            "reflect_brightness"@,
        ),
        lighting_step(
            light,
            ambient,
            "refract_hit"@,
            "refract_normal"@,
            "refract_in_shadow"@,
            "refract_brightness"@,
        ),
    ]
}

#[verifier::spinoff_prover]
proof fn lemma_brightness_ranks(light: Light, ambient: Number)
    ensures
        ranked(brightness_steps(light, ambient), rank(), 88, 91),
{
    let last = brightness_steps(light, ambient);
    lemma_near_ranks();
    lemma_reflect_ranks();
    lemma_refract_ranks();
    assert(ranked(last, rank(), 88, 91)) by {
        assert(last[0].0 == "primary_brightness"@);
        assert(last[1].0 == "reflect_brightness"@);
        assert(last[2].0 == "refract_brightness"@);
        assert forall|i: int| 0 <= i < last.len() implies rank()((#[trigger] last[i]).0) == 88
            + i by {
            assert(i == 0 || i == 1 || i == 2);
        }
    }
}

#[verifier::spinoff_prover]
proof fn lemma_light_ranks(spheres: Seq<Sphere>, light: Light, ambient: Number)
    requires
        has_clear_names(spheres),
    ensures
        ranked(light_steps(spheres, light, ambient), rank(), 61, 91),
{
    let a = point_shadow_steps(spheres, light, ""@, "hit"@);
    let b = point_shadow_steps(spheres, light, "reflect_"@, "reflect_hit"@);
    let c = point_shadow_steps(spheres, light, "refract_"@, "refract_hit"@);
    let all = light_steps(spheres, light, ambient);
    let last = brightness_steps(light, ambient);
    lemma_primary_shadow(spheres, light);
    lemma_reflect_shadow(spheres, light);
    lemma_refract_shadow(spheres, light);
    lemma_brightness_ranks(light, ambient);
    lemma_ranked_append(a, b, rank(), 61, 70, 79);
    lemma_ranked_append(a + b, c, rank(), 61, 79, 88);
    lemma_ranked_append(a + b + c, last, rank(), 61, 88, 91);
    assert(a + b + c + last =~= all);
}

#[verifier::spinoff_prover]
proof fn lemma_path_ranks(width: nat, height: nat, spheres: Seq<Sphere>, glass: Sphere)
    requires
        has_clear_names(spheres),
    ensures
        ranked(ray_path_steps(width, height, spheres, glass), rank(), 0, 61),
{
    let s1 = ray_steps(width, height);
    let s2 = trace_steps(spheres, "ray"@, "primary"@);
    let s3 = primary_hit_steps(spheres);
    let s4 = reflection_steps();
    let s5 = entry_steps();
    let s6 = seq![exit_step(glass, "internal"@, "internal"@)];
    let s7 = exit_point_steps(glass);
    let s8 = refraction_exit_steps();
    let s9 = trace_steps(spheres, "reflect"@, "reflect"@);
    let s10 = arrival_steps(spheres, "reflect"@);
    let s11 = trace_steps(spheres, "refract"@, "refract"@);
    let s12 = arrival_steps(spheres, "refract"@);
    lemma_ranks_from_0(width, height);
    lemma_ranks_from_9(spheres);
    lemma_ranks_from_16();
    lemma_ranks_from_22();
    lemma_ranks_from_29(glass);
    lemma_ranks_from_30(glass);
    lemma_ranks_from_36();
    lemma_ranks_from_46(spheres);
    lemma_ranks_from_55(spheres);
    lemma_primary_trace(spheres);
    lemma_reflect_trace(spheres);
    lemma_refract_trace(spheres);
    lemma_ranked_append(s1, s2, rank(), 0, 6, 9);
    lemma_ranked_append(s1 + s2, s3, rank(), 0, 9, 16);
    lemma_ranked_append(s1 + s2 + s3, s4, rank(), 0, 16, 22);
    let a = s1 + s2 + s3 + s4;
    lemma_ranked_append(a, s5, rank(), 0, 22, 29);
    lemma_ranked_append(a + s5, s6, rank(), 0, 29, 30);
    lemma_ranked_append(a + s5 + s6, s7, rank(), 0, 30, 36);
    lemma_ranked_append(a + s5 + s6 + s7, s8, rank(), 0, 36, 43);
    let b = a + s5 + s6 + s7 + s8;
    lemma_ranked_append(b, s9, rank(), 0, 43, 46);
    lemma_ranked_append(b + s9, s10, rank(), 0, 46, 52);
    lemma_ranked_append(b + s9 + s10, s11, rank(), 0, 52, 55);
    lemma_ranked_append(b + s9 + s10 + s11, s12, rank(), 0, 55, 61);
}

#[verifier::spinoff_prover]
proof fn lemma_ranks_from_0(width: nat, height: nat)
    ensures
        ranked(ray_steps(width, height), rank(), 0, 6),
{
    let steps = ray_steps(width, height);
    lemma_near_ranks();
    assert(ranked(steps, rank(), 0, 6)) by {
        assert(steps[0].0 == "ray_ox"@);
        assert(steps[1].0 == "ray_oy"@);
        assert(steps[2].0 == "ray_oz"@);
        assert(steps[3].0 == "ray_dx"@);
        assert(steps[4].0 == "ray_dy"@);
        assert(steps[5].0 == "ray_dz"@);
        assert forall|i: int| 0 <= i < steps.len() implies rank()((#[trigger] steps[i]).0) == 0
            + i by {
            assert(i == 0 || i == 1 || i == 2 || i == 3 || i == 4 || i == 5);
        }
    }
}

#[verifier::spinoff_prover]
proof fn lemma_ranks_from_9(spheres: Seq<Sphere>)
    ensures
        ranked(primary_hit_steps(spheres), rank(), 9, 16),
{
    let steps = primary_hit_steps(spheres);
    lemma_near_ranks();
    assert(ranked(steps, rank(), 9, 16)) by {
        assert(steps[0].0 == "hit_x"@);
        assert(steps[1].0 == "hit_y"@);
        assert(steps[2].0 == "hit_z"@);
        assert(steps[3].0 == "normal_x"@);
        assert(steps[4].0 == "normal_y"@);
        assert(steps[5].0 == "normal_z"@);
        assert(steps[6].0 == "hit_ior"@);
        assert forall|i: int| 0 <= i < steps.len() implies rank()((#[trigger] steps[i]).0) == 9
            + i by {
            assert(i == 0 || i == 1 || i == 2 || i == 3 || i == 4 || i == 5 || i == 6);
        }
    }
}

#[verifier::spinoff_prover]
proof fn lemma_ranks_from_16()
    ensures
        ranked(reflection_steps(), rank(), 16, 22),
{
    let steps = reflection_steps();
    lemma_reflect_ranks();
    assert(ranked(steps, rank(), 16, 22)) by {
        assert(steps[0].0 == "reflect_ox"@);
        assert(steps[1].0 == "reflect_oy"@);
        assert(steps[2].0 == "reflect_oz"@);
        assert(steps[3].0 == "reflect_dx"@);
        assert(steps[4].0 == "reflect_dy"@);
        assert(steps[5].0 == "reflect_dz"@);
        assert forall|i: int| 0 <= i < steps.len() implies rank()((#[trigger] steps[i]).0) == 16
            + i by {
            assert(i == 0 || i == 1 || i == 2 || i == 3 || i == 4 || i == 5);
        }
    }
}

#[verifier::spinoff_prover]
proof fn lemma_ranks_from_22()
    ensures
        ranked(entry_steps(), rank(), 22, 29),
{
    let steps = entry_steps();
    lemma_near_ranks();
    assert(ranked(steps, rank(), 22, 29)) by {
        assert(steps[0].0 == "internal_ox"@);
        assert(steps[1].0 == "internal_oy"@);
        assert(steps[2].0 == "internal_oz"@);
        assert(steps[3].0 == "internal_dx"@);
        assert(steps[4].0 == "internal_dy"@);
        assert(steps[5].0 == "internal_dz"@);
        assert(steps[6].0 == "fresnel"@);
        assert forall|i: int| 0 <= i < steps.len() implies rank()((#[trigger] steps[i]).0) == 22
            + i by {
            assert(i == 0 || i == 1 || i == 2 || i == 3 || i == 4 || i == 5 || i == 6);
        }
    }
}

#[verifier::spinoff_prover]
proof fn lemma_ranks_from_29(glass: Sphere)
    ensures
        ranked(seq![exit_step(glass, "internal"@, "internal"@)], rank(), 29, 30),
{
    let steps = seq![exit_step(glass, "internal"@, "internal"@)];
    lemma_near_ranks();
    lemma_primary_joins();
    assert(ranked(steps, rank(), 29, 30)) by {
        assert(steps[0].0 == "internal_exit_t"@);
        assert forall|i: int| 0 <= i < steps.len() implies rank()((#[trigger] steps[i]).0) == 29
            + i by {
            assert(i == 0);
        }
    }
}

#[verifier::spinoff_prover]
proof fn lemma_ranks_from_30(glass: Sphere)
    ensures
        ranked(exit_point_steps(glass), rank(), 30, 36),
{
    let steps = exit_point_steps(glass);
    lemma_near_ranks();
    assert(ranked(steps, rank(), 30, 36)) by {
        assert(steps[0].0 == "exit_x"@);
        assert(steps[1].0 == "exit_y"@);
        assert(steps[2].0 == "exit_z"@);
        assert(steps[3].0 == "exit_normal_x"@);
        assert(steps[4].0 == "exit_normal_y"@);
        assert(steps[5].0 == "exit_normal_z"@);
        assert forall|i: int| 0 <= i < steps.len() implies rank()((#[trigger] steps[i]).0) == 30
            + i by {
            assert(i == 0 || i == 1 || i == 2 || i == 3 || i == 4 || i == 5);
        }
    }
}

#[verifier::spinoff_prover]
proof fn lemma_ranks_from_36()
    ensures
        ranked(refraction_exit_steps(), rank(), 36, 43),
{
    let steps = refraction_exit_steps();
    lemma_near_ranks();
    lemma_refract_ranks();
    assert(ranked(steps, rank(), 36, 43)) by {
        assert(steps[0].0 == "refract_ox"@);
        assert(steps[1].0 == "refract_oy"@);
        assert(steps[2].0 == "refract_oz"@);
        assert(steps[3].0 == "refract_dx"@);
        assert(steps[4].0 == "refract_dy"@);
        assert(steps[5].0 == "refract_dz"@);
        assert(steps[6].0 == "total_internal_reflection"@);
        assert forall|i: int| 0 <= i < steps.len() implies rank()((#[trigger] steps[i]).0) == 36
            + i by {
            assert(i == 0 || i == 1 || i == 2 || i == 3 || i == 4 || i == 5 || i == 6);
        }
    }
}

#[verifier::spinoff_prover]
proof fn lemma_ranks_from_46(spheres: Seq<Sphere>)
    ensures
        ranked(arrival_steps(spheres, "reflect"@), rank(), 46, 52),
{
    let steps = arrival_steps(spheres, "reflect"@);
    lemma_reflect_ranks();
    lemma_reflect_joins();
    assert(ranked(steps, rank(), 46, 52)) by {
        assert(steps[0].0 == "reflect_hit_x"@);
        assert(steps[1].0 == "reflect_hit_y"@);
        assert(steps[2].0 == "reflect_hit_z"@);
        assert(steps[3].0 == "reflect_normal_x"@);
        assert(steps[4].0 == "reflect_normal_y"@);
        assert(steps[5].0 == "reflect_normal_z"@);
        assert forall|i: int| 0 <= i < steps.len() implies rank()((#[trigger] steps[i]).0) == 46
            + i by {
            assert(i == 0 || i == 1 || i == 2 || i == 3 || i == 4 || i == 5);
        }
    }
}

#[verifier::spinoff_prover]
proof fn lemma_ranks_from_55(spheres: Seq<Sphere>)
    ensures
        ranked(arrival_steps(spheres, "refract"@), rank(), 55, 61),
{
    let steps = arrival_steps(spheres, "refract"@);
    lemma_refract_ranks();
    lemma_refract_joins();
    assert(ranked(steps, rank(), 55, 61)) by {
        assert(steps[0].0 == "refract_hit_x"@);
        assert(steps[1].0 == "refract_hit_y"@);
        assert(steps[2].0 == "refract_hit_z"@);
        assert(steps[3].0 == "refract_normal_x"@);
        assert(steps[4].0 == "refract_normal_y"@);
        assert(steps[5].0 == "refract_normal_z"@);
        assert forall|i: int| 0 <= i < steps.len() implies rank()((#[trigger] steps[i]).0) == 55
            + i by {
            assert(i == 0 || i == 1 || i == 2 || i == 3 || i == 4 || i == 5);
        }
    }
}

} // verus!

//! The plan of the scene with refraction is sound.
use crate::formula::{Node, column, number};
use crate::meaning::{
    Sort, Sorts, group_sorts, is_index, is_number, is_sound, is_truth, lemma_sound_append,
    lemma_sound_at_once, names, sort_of, table,
};
use crate::number::{Number, ONE, ZERO};
use crate::plan::{Steps, vector_steps};
use crate::refraction::{
    AIR_OVER_GLASS, GLASS_OVER_AIR, HEIGHT, HORIZON_B, HORIZON_G, HORIZON_R, Light, RAY_BIAS,
    SHADOW_BIAS, Sphere, arrival_steps, camera_direction, color_of_hit, color_steps, entry_steps,
    exit_normal, exit_point, exit_point_steps, exit_step, first_ahead, glass_color, hit_point,
    in_shadow_step, incidence, internal_direction, intersect_steps, inward_normal,
    is_totally_reflected, light_steps, lighting_step, opaque, opaque_color, point_shadow_steps,
    primary_hit_steps, ray_direction, ray_origin, ray_path_steps, ray_steps, reflected, reflectance,
    reflection_steps, reflectivities, refracted, refracted_cosine, refracted_sine_squared,
    refraction_exit_steps, refractive_indices, scene_camera, scene_steps, seen_color,
    shadow_ray_steps, shadow_step, shadow_steps, sky_color, surface_color, surface_normal,
    trace_steps, vector_in,
};
use crate::soundness::{
    is_vector, lemma_ahead, lemma_ahead_before, lemma_any_present, lemma_between, lemma_brightness,
    lemma_chosen, lemma_clamped, lemma_columns, lemma_hit_index, lemma_length, lemma_meeting,
    lemma_moved, lemma_nearest, lemma_normal, lemma_normal_at, lemma_numbers, lemma_one_step,
    lemma_point, lemma_sky, lemma_sphere_columns, lemma_surface, lemma_vector_steps, pixel_table,
};
use crate::trace::{
    Ball, Side, Solid, ahead, any_present, chosen, clamped, hit_index, hit_normal, meeting, nearest,
    point_at, sphere_columns, surface, view_direction,
};
use crate::vector::{Triple, columns, numbers};
use vstd::prelude::*;

verus! {

// ---------------------------------------------------------------------------
// Names and sorts
// ---------------------------------------------------------------------------

/// Which spheres are hit are indices, whether points lie in shadow and whether a
/// ray cannot leave the glass truth values; all other columns are numbers.
pub open spec fn by_name() -> spec_fn(Seq<char>) -> Sort {
    |name: Seq<char>|
        if name == "primary_hit_idx"@ || name == "reflect_hit_idx"@ || name == "refract_hit_idx"@ {
            Sort::Index
        } else if name == "in_shadow"@ || name == "reflect_in_shadow"@ || name
            == "refract_in_shadow"@ || name == "total_internal_reflection"@ {
            Sort::Truth
        } else {
            Sort::Number
        }
}

/// Whether a name differs, by its length or by a character, from those of the
/// columns that are not numbers.
spec fn names_a_number(name: Seq<char>) -> bool {
    ||| name.len() != 9 && name.len() != 15 && name.len() != 17 && name.len() != 25
    ||| name[0] != 'p' && name[0] != 'r' && name[0] != 'i' && name[0] != 't'
    ||| name[0] != 't' && name[0] != 'i' && name.len() > 8 && name[8] != 'h' && name[8] != 'i'
    ||| name[0] == 'i' && name.len() != 9
}

proof fn lemma_numbers_by_name(name: Seq<char>)
    requires
        names_a_number(name),
    ensures
        by_name()(name) is Number,
{
    reveal_strlit("primary_hit_idx");
    reveal_strlit("reflect_hit_idx");
    reveal_strlit("refract_hit_idx");
    reveal_strlit("in_shadow");
    reveal_strlit("reflect_in_shadow");
    reveal_strlit("refract_in_shadow");
    reveal_strlit("total_internal_reflection");
    assert("primary_hit_idx"@.len() == 15 && "primary_hit_idx"@[0] == 'p' && "primary_hit_idx"@[8]
        == 'h');
    assert("reflect_hit_idx"@.len() == 15 && "reflect_hit_idx"@[0] == 'r' && "reflect_hit_idx"@[8]
        == 'h');
    assert("refract_hit_idx"@.len() == 15 && "refract_hit_idx"@[0] == 'r' && "refract_hit_idx"@[8]
        == 'h');
    assert("in_shadow"@.len() == 9 && "in_shadow"@[0] == 'i');
    assert("reflect_in_shadow"@.len() == 17 && "reflect_in_shadow"@[0] == 'r'
        && "reflect_in_shadow"@[8] == 'i');
    assert("refract_in_shadow"@.len() == 17 && "refract_in_shadow"@[0] == 'r'
        && "refract_in_shadow"@[8] == 'i');
    assert("total_internal_reflection"@.len() == 25 && "total_internal_reflection"@[0] == 't');
}

/// The indices and truth values.
proof fn lemma_others_by_name()
    ensures
        by_name()("primary_hit_idx"@) is Index,
        by_name()("reflect_hit_idx"@) is Index,
        by_name()("refract_hit_idx"@) is Index,
        by_name()("in_shadow"@) is Truth,
        by_name()("reflect_in_shadow"@) is Truth,
        by_name()("refract_in_shadow"@) is Truth,
        by_name()("total_internal_reflection"@) is Truth,
{
    reveal_strlit("primary_hit_idx");
    reveal_strlit("reflect_hit_idx");
    reveal_strlit("refract_hit_idx");
    reveal_strlit("in_shadow");
    reveal_strlit("reflect_in_shadow");
    reveal_strlit("refract_in_shadow");
    reveal_strlit("total_internal_reflection");
    assert("primary_hit_idx"@.len() == 15 && "reflect_hit_idx"@.len() == 15
        && "refract_hit_idx"@.len() == 15);
    assert("in_shadow"@.len() == 9);
    assert("reflect_in_shadow"@.len() == 17 && "refract_in_shadow"@.len() == 17);
    assert("total_internal_reflection"@.len() == 25);
}

proof fn lemma_ray_names()
    ensures
        by_name()("ray_ox"@) is Number,
        by_name()("ray_oy"@) is Number,
        by_name()("ray_oz"@) is Number,
        by_name()("ray_dx"@) is Number,
        by_name()("ray_dy"@) is Number,
        by_name()("ray_dz"@) is Number,
        by_name()("x"@) is Number,
        by_name()("y"@) is Number,
{
    reveal_strlit("ray_ox");
    reveal_strlit("ray_oy");
    reveal_strlit("ray_oz");
    reveal_strlit("ray_dx");
    reveal_strlit("ray_dy");
    reveal_strlit("ray_dz");
    reveal_strlit("x");
    reveal_strlit("y");
    lemma_numbers_by_name("ray_ox"@);
    lemma_numbers_by_name("ray_oy"@);
    lemma_numbers_by_name("ray_oz"@);
    lemma_numbers_by_name("ray_dx"@);
    lemma_numbers_by_name("ray_dy"@);
    lemma_numbers_by_name("ray_dz"@);
    lemma_numbers_by_name("x"@);
    lemma_numbers_by_name("y"@);
}

proof fn lemma_hit_names()
    ensures
        by_name()("hit_x"@) is Number,
        by_name()("hit_y"@) is Number,
        by_name()("hit_z"@) is Number,
        by_name()("normal_x"@) is Number,
        by_name()("normal_y"@) is Number,
        by_name()("normal_z"@) is Number,
        by_name()("hit_ior"@) is Number,
        by_name()("fresnel"@) is Number,
{
    reveal_strlit("hit_x");
    reveal_strlit("hit_y");
    reveal_strlit("hit_z");
    reveal_strlit("normal_x");
    reveal_strlit("normal_y");
    reveal_strlit("normal_z");
    reveal_strlit("hit_ior");
    reveal_strlit("fresnel");
    lemma_numbers_by_name("hit_x"@);
    lemma_numbers_by_name("hit_y"@);
    lemma_numbers_by_name("hit_z"@);
    lemma_numbers_by_name("normal_x"@);
    lemma_numbers_by_name("normal_y"@);
    lemma_numbers_by_name("normal_z"@);
    lemma_numbers_by_name("hit_ior"@);
    lemma_numbers_by_name("fresnel"@);
}

proof fn lemma_internal_names()
    ensures
        by_name()("internal_ox"@) is Number,
        by_name()("internal_oy"@) is Number,
        by_name()("internal_oz"@) is Number,
        by_name()("internal_dx"@) is Number,
        by_name()("internal_dy"@) is Number,
        by_name()("internal_dz"@) is Number,
        by_name()("internal_exit_t"@) is Number,
{
    reveal_strlit("internal_ox");
    reveal_strlit("internal_oy");
    reveal_strlit("internal_oz");
    reveal_strlit("internal_dx");
    reveal_strlit("internal_dy");
    reveal_strlit("internal_dz");
    reveal_strlit("internal_exit_t");
    lemma_numbers_by_name("internal_ox"@);
    lemma_numbers_by_name("internal_oy"@);
    lemma_numbers_by_name("internal_oz"@);
    lemma_numbers_by_name("internal_dx"@);
    lemma_numbers_by_name("internal_dy"@);
    lemma_numbers_by_name("internal_dz"@);
    lemma_numbers_by_name("internal_exit_t"@);
}

proof fn lemma_exit_names()
    ensures
        by_name()("exit_x"@) is Number,
        by_name()("exit_y"@) is Number,
        by_name()("exit_z"@) is Number,
        by_name()("exit_normal_x"@) is Number,
        by_name()("exit_normal_y"@) is Number,
        by_name()("exit_normal_z"@) is Number,
{
    reveal_strlit("exit_x");
    reveal_strlit("exit_y");
    reveal_strlit("exit_z");
    reveal_strlit("exit_normal_x");
    reveal_strlit("exit_normal_y");
    reveal_strlit("exit_normal_z");
    lemma_numbers_by_name("exit_x"@);
    lemma_numbers_by_name("exit_y"@);
    lemma_numbers_by_name("exit_z"@);
    lemma_numbers_by_name("exit_normal_x"@);
    lemma_numbers_by_name("exit_normal_y"@);
    lemma_numbers_by_name("exit_normal_z"@);
}

proof fn lemma_reflect_names()
    ensures
        by_name()("reflect_ox"@) is Number,
        by_name()("reflect_oy"@) is Number,
        by_name()("reflect_oz"@) is Number,
        by_name()("reflect_dx"@) is Number,
        by_name()("reflect_dy"@) is Number,
        by_name()("reflect_dz"@) is Number,
{
    reveal_strlit("reflect_ox");
    reveal_strlit("reflect_oy");
    reveal_strlit("reflect_oz");
    reveal_strlit("reflect_dx");
    reveal_strlit("reflect_dy");
    reveal_strlit("reflect_dz");
    lemma_numbers_by_name("reflect_ox"@);
    lemma_numbers_by_name("reflect_oy"@);
    lemma_numbers_by_name("reflect_oz"@);
    lemma_numbers_by_name("reflect_dx"@);
    lemma_numbers_by_name("reflect_dy"@);
    lemma_numbers_by_name("reflect_dz"@);
}

proof fn lemma_refract_names()
    ensures
        by_name()("refract_ox"@) is Number,
        by_name()("refract_oy"@) is Number,
        by_name()("refract_oz"@) is Number,
        by_name()("refract_dx"@) is Number,
        by_name()("refract_dy"@) is Number,
        by_name()("refract_dz"@) is Number,
{
    reveal_strlit("refract_ox");
    reveal_strlit("refract_oy");
    reveal_strlit("refract_oz");
    reveal_strlit("refract_dx");
    reveal_strlit("refract_dy");
    reveal_strlit("refract_dz");
    lemma_numbers_by_name("refract_ox"@);
    lemma_numbers_by_name("refract_oy"@);
    lemma_numbers_by_name("refract_oz"@);
    lemma_numbers_by_name("refract_dx"@);
    lemma_numbers_by_name("refract_dy"@);
    lemma_numbers_by_name("refract_dz"@);
}

proof fn lemma_nearest_names()
    ensures
        by_name()("primary_t_nearest"@) is Number,
        by_name()("reflect_t_nearest"@) is Number,
        by_name()("refract_t_nearest"@) is Number,
{
    reveal_strlit("primary_t_nearest");
    reveal_strlit("reflect_t_nearest");
    reveal_strlit("refract_t_nearest");
    lemma_numbers_by_name("primary_t_nearest"@);
    lemma_numbers_by_name("reflect_t_nearest"@);
    lemma_numbers_by_name("refract_t_nearest"@);
}

proof fn lemma_color_names()
    ensures
        by_name()("primary_brightness"@) is Number,
        by_name()("reflect_brightness"@) is Number,
        by_name()("refract_brightness"@) is Number,
        by_name()("final_r"@) is Number,
        by_name()("final_g"@) is Number,
        by_name()("final_b"@) is Number,
{
    reveal_strlit("primary_brightness");
    reveal_strlit("reflect_brightness");
    reveal_strlit("refract_brightness");
    reveal_strlit("final_r");
    reveal_strlit("final_g");
    reveal_strlit("final_b");
    lemma_numbers_by_name("primary_brightness"@);
    lemma_numbers_by_name("reflect_brightness"@);
    lemma_numbers_by_name("refract_brightness"@);
    lemma_numbers_by_name("final_r"@);
    lemma_numbers_by_name("final_g"@);
    lemma_numbers_by_name("final_b"@);
}

/// The columns that are written under literal names are numbers.
proof fn lemma_literals()
    ensures
        by_name()("ray_ox"@) is Number,
        by_name()("ray_oy"@) is Number,
        by_name()("ray_oz"@) is Number,
        by_name()("ray_dx"@) is Number,
        by_name()("ray_dy"@) is Number,
        by_name()("ray_dz"@) is Number,
        by_name()("x"@) is Number,
        by_name()("y"@) is Number,
        by_name()("hit_x"@) is Number,
        by_name()("hit_y"@) is Number,
        by_name()("hit_z"@) is Number,
        by_name()("normal_x"@) is Number,
        by_name()("normal_y"@) is Number,
        by_name()("normal_z"@) is Number,
        by_name()("hit_ior"@) is Number,
        by_name()("fresnel"@) is Number,
        by_name()("internal_ox"@) is Number,
        by_name()("internal_oy"@) is Number,
        by_name()("internal_oz"@) is Number,
        by_name()("internal_dx"@) is Number,
        by_name()("internal_dy"@) is Number,
        by_name()("internal_dz"@) is Number,
        by_name()("internal_exit_t"@) is Number,
        by_name()("exit_x"@) is Number,
        by_name()("exit_y"@) is Number,
        by_name()("exit_z"@) is Number,
        by_name()("exit_normal_x"@) is Number,
        by_name()("exit_normal_y"@) is Number,
        by_name()("exit_normal_z"@) is Number,
        by_name()("reflect_ox"@) is Number,
        by_name()("reflect_oy"@) is Number,
        by_name()("reflect_oz"@) is Number,
        by_name()("reflect_dx"@) is Number,
        by_name()("reflect_dy"@) is Number,
        by_name()("reflect_dz"@) is Number,
        by_name()("refract_ox"@) is Number,
        by_name()("refract_oy"@) is Number,
        by_name()("refract_oz"@) is Number,
        by_name()("refract_dx"@) is Number,
        by_name()("refract_dy"@) is Number,
        by_name()("refract_dz"@) is Number,
        by_name()("primary_t_nearest"@) is Number,
        by_name()("reflect_t_nearest"@) is Number,
        by_name()("refract_t_nearest"@) is Number,
        by_name()("primary_brightness"@) is Number,
        by_name()("reflect_brightness"@) is Number,
        by_name()("refract_brightness"@) is Number,
        by_name()("final_r"@) is Number,
        by_name()("final_g"@) is Number,
        by_name()("final_b"@) is Number,
{
    lemma_ray_names();
    lemma_hit_names();
    lemma_internal_names();
    lemma_exit_names();
    lemma_reflect_names();
    lemma_refract_names();
    lemma_nearest_names();
    lemma_color_names();
}

/// The columns of the camera's rays by their prefix.
proof fn lemma_ray_prefix()
    ensures
        "ray"@ + "_ox"@ == "ray_ox"@,
        "ray"@ + "_oy"@ == "ray_oy"@,
        "ray"@ + "_oz"@ == "ray_oz"@,
        "ray"@ + "_dx"@ == "ray_dx"@,
        "ray"@ + "_dy"@ == "ray_dy"@,
        "ray"@ + "_dz"@ == "ray_dz"@,
{
    reveal_strlit("ray");
    reveal_strlit("_ox");
    reveal_strlit("ray_ox");
    reveal_strlit("_oy");
    reveal_strlit("ray_oy");
    reveal_strlit("_oz");
    reveal_strlit("ray_oz");
    reveal_strlit("_dx");
    reveal_strlit("ray_dx");
    reveal_strlit("_dy");
    reveal_strlit("ray_dy");
    reveal_strlit("_dz");
    reveal_strlit("ray_dz");
    assert("ray"@ + "_ox"@ =~= "ray_ox"@);
    assert("ray"@ + "_oy"@ =~= "ray_oy"@);
    assert("ray"@ + "_oz"@ =~= "ray_oz"@);
    assert("ray"@ + "_dx"@ =~= "ray_dx"@);
    assert("ray"@ + "_dy"@ =~= "ray_dy"@);
    assert("ray"@ + "_dz"@ =~= "ray_dz"@);
}

/// The columns of the ray inside the glass by their prefix.
proof fn lemma_internal_prefix()
    ensures
        "internal"@ + "_ox"@ == "internal_ox"@,
        "internal"@ + "_oy"@ == "internal_oy"@,
        "internal"@ + "_oz"@ == "internal_oz"@,
        "internal"@ + "_dx"@ == "internal_dx"@,
        "internal"@ + "_dy"@ == "internal_dy"@,
        "internal"@ + "_dz"@ == "internal_dz"@,
        "internal"@ + "_exit_t"@ == "internal_exit_t"@,
{
    reveal_strlit("internal");
    reveal_strlit("_ox");
    reveal_strlit("internal_ox");
    reveal_strlit("_oy");
    reveal_strlit("internal_oy");
    reveal_strlit("_oz");
    reveal_strlit("internal_oz");
    reveal_strlit("_dx");
    reveal_strlit("internal_dx");
    reveal_strlit("_dy");
    reveal_strlit("internal_dy");
    reveal_strlit("_dz");
    reveal_strlit("internal_dz");
    reveal_strlit("_exit_t");
    reveal_strlit("internal_exit_t");
    assert("internal"@ + "_ox"@ =~= "internal_ox"@);
    assert("internal"@ + "_oy"@ =~= "internal_oy"@);
    assert("internal"@ + "_oz"@ =~= "internal_oz"@);
    assert("internal"@ + "_dx"@ =~= "internal_dx"@);
    assert("internal"@ + "_dy"@ =~= "internal_dy"@);
    assert("internal"@ + "_dz"@ =~= "internal_dz"@);
    assert("internal"@ + "_exit_t"@ =~= "internal_exit_t"@);
}

/// The columns of the reflected ray by their prefix.
proof fn lemma_reflect_prefix()
    ensures
        "reflect"@ + "_ox"@ == "reflect_ox"@,
        "reflect"@ + "_oy"@ == "reflect_oy"@,
        "reflect"@ + "_oz"@ == "reflect_oz"@,
        "reflect"@ + "_dx"@ == "reflect_dx"@,
        "reflect"@ + "_dy"@ == "reflect_dy"@,
        "reflect"@ + "_dz"@ == "reflect_dz"@,
        "reflect"@ + "_t_nearest"@ == "reflect_t_nearest"@,
        "reflect"@ + "_hit_idx"@ == "reflect_hit_idx"@,
{
    reveal_strlit("reflect");
    reveal_strlit("_ox");
    reveal_strlit("reflect_ox");
    reveal_strlit("_oy");
    reveal_strlit("reflect_oy");
    reveal_strlit("_oz");
    reveal_strlit("reflect_oz");
    reveal_strlit("_dx");
    reveal_strlit("reflect_dx");
    reveal_strlit("_dy");
    reveal_strlit("reflect_dy");
    reveal_strlit("_dz");
    reveal_strlit("reflect_dz");
    reveal_strlit("_t_nearest");
    reveal_strlit("reflect_t_nearest");
    reveal_strlit("_hit_idx");
    reveal_strlit("reflect_hit_idx");
    assert("reflect"@ + "_ox"@ =~= "reflect_ox"@);
    assert("reflect"@ + "_oy"@ =~= "reflect_oy"@);
    assert("reflect"@ + "_oz"@ =~= "reflect_oz"@);
    assert("reflect"@ + "_dx"@ =~= "reflect_dx"@);
    assert("reflect"@ + "_dy"@ =~= "reflect_dy"@);
    assert("reflect"@ + "_dz"@ =~= "reflect_dz"@);
    assert("reflect"@ + "_t_nearest"@ =~= "reflect_t_nearest"@);
    assert("reflect"@ + "_hit_idx"@ =~= "reflect_hit_idx"@);
}

/// The columns of the refracted ray by their prefix.
proof fn lemma_refract_prefix()
    ensures
        "refract"@ + "_ox"@ == "refract_ox"@,
        "refract"@ + "_oy"@ == "refract_oy"@,
        "refract"@ + "_oz"@ == "refract_oz"@,
        "refract"@ + "_dx"@ == "refract_dx"@,
        "refract"@ + "_dy"@ == "refract_dy"@,
        "refract"@ + "_dz"@ == "refract_dz"@,
        "refract"@ + "_t_nearest"@ == "refract_t_nearest"@,
        "refract"@ + "_hit_idx"@ == "refract_hit_idx"@,
{
    reveal_strlit("refract");
    reveal_strlit("_ox");
    reveal_strlit("refract_ox");
    reveal_strlit("_oy");
    reveal_strlit("refract_oy");
    reveal_strlit("_oz");
    reveal_strlit("refract_oz");
    reveal_strlit("_dx");
    reveal_strlit("refract_dx");
    reveal_strlit("_dy");
    reveal_strlit("refract_dy");
    reveal_strlit("_dz");
    reveal_strlit("refract_dz");
    reveal_strlit("_t_nearest");
    reveal_strlit("refract_t_nearest");
    reveal_strlit("_hit_idx");
    reveal_strlit("refract_hit_idx");
    assert("refract"@ + "_ox"@ =~= "refract_ox"@);
    assert("refract"@ + "_oy"@ =~= "refract_oy"@);
    assert("refract"@ + "_oz"@ =~= "refract_oz"@);
    assert("refract"@ + "_dx"@ =~= "refract_dx"@);
    assert("refract"@ + "_dy"@ =~= "refract_dy"@);
    assert("refract"@ + "_dz"@ =~= "refract_dz"@);
    assert("refract"@ + "_t_nearest"@ =~= "refract_t_nearest"@);
    assert("refract"@ + "_hit_idx"@ =~= "refract_hit_idx"@);
}

/// What the camera's rays meet, by its prefix.
proof fn lemma_primary_prefix()
    ensures
        "primary"@ + "_t_nearest"@ == "primary_t_nearest"@,
        "primary"@ + "_hit_idx"@ == "primary_hit_idx"@,
{
    reveal_strlit("primary");
    reveal_strlit("_t_nearest");
    reveal_strlit("primary_t_nearest");
    reveal_strlit("_hit_idx");
    reveal_strlit("primary_hit_idx");
    assert("primary"@ + "_t_nearest"@ =~= "primary_t_nearest"@);
    assert("primary"@ + "_hit_idx"@ =~= "primary_hit_idx"@);
}

/// The columns of the points and normals by their prefixes.
proof fn lemma_point_prefixes()
    ensures
        "hit"@ + "_x"@ == "hit_x"@,
        "hit"@ + "_y"@ == "hit_y"@,
        "hit"@ + "_z"@ == "hit_z"@,
        "normal"@ + "_x"@ == "normal_x"@,
        "normal"@ + "_y"@ == "normal_y"@,
        "normal"@ + "_z"@ == "normal_z"@,
{
    reveal_strlit("hit");
    reveal_strlit("_x");
    reveal_strlit("hit_x");
    reveal_strlit("_y");
    reveal_strlit("hit_y");
    reveal_strlit("_z");
    reveal_strlit("hit_z");
    reveal_strlit("normal");
    reveal_strlit("normal_x");
    reveal_strlit("normal_y");
    reveal_strlit("normal_z");
    assert("hit"@ + "_x"@ =~= "hit_x"@);
    assert("hit"@ + "_y"@ =~= "hit_y"@);
    assert("hit"@ + "_z"@ =~= "hit_z"@);
    assert("normal"@ + "_x"@ =~= "normal_x"@);
    assert("normal"@ + "_y"@ =~= "normal_y"@);
    assert("normal"@ + "_z"@ =~= "normal_z"@);
}

/// The columns of the point at which the reflected ray arrives by their prefixes.
proof fn lemma_reflect_points()
    ensures
        "reflect"@ + "_hit_x"@ == "reflect_hit_x"@,
        "reflect"@ + "_hit_y"@ == "reflect_hit_y"@,
        "reflect"@ + "_hit_z"@ == "reflect_hit_z"@,
        "reflect"@ + "_normal_x"@ == "reflect_normal_x"@,
        "reflect"@ + "_normal_y"@ == "reflect_normal_y"@,
        "reflect"@ + "_normal_z"@ == "reflect_normal_z"@,
        "reflect_hit"@ + "_x"@ == "reflect_hit_x"@,
        "reflect_hit"@ + "_y"@ == "reflect_hit_y"@,
        "reflect_hit"@ + "_z"@ == "reflect_hit_z"@,
        "reflect_normal"@ + "_x"@ == "reflect_normal_x"@,
        "reflect_normal"@ + "_y"@ == "reflect_normal_y"@,
        "reflect_normal"@ + "_z"@ == "reflect_normal_z"@,
        "reflect_"@ + "normal"@ == "reflect_normal"@,
        "reflect_"@ + "in_shadow"@ == "reflect_in_shadow"@,
{
    reveal_strlit("reflect");
    reveal_strlit("_hit_x");
    reveal_strlit("reflect_hit_x");
    reveal_strlit("_hit_y");
    reveal_strlit("reflect_hit_y");
    reveal_strlit("_hit_z");
    reveal_strlit("reflect_hit_z");
    reveal_strlit("_normal_x");
    reveal_strlit("reflect_normal_x");
    reveal_strlit("_normal_y");
    reveal_strlit("reflect_normal_y");
    reveal_strlit("_normal_z");
    reveal_strlit("reflect_normal_z");
    reveal_strlit("reflect_hit");
    reveal_strlit("_x");
    reveal_strlit("_y");
    reveal_strlit("_z");
    reveal_strlit("reflect_normal");
    reveal_strlit("reflect_");
    reveal_strlit("normal");
    reveal_strlit("in_shadow");
    reveal_strlit("reflect_in_shadow");
    assert("reflect"@ + "_hit_x"@ =~= "reflect_hit_x"@);
    assert("reflect"@ + "_hit_y"@ =~= "reflect_hit_y"@);
    assert("reflect"@ + "_hit_z"@ =~= "reflect_hit_z"@);
    assert("reflect"@ + "_normal_x"@ =~= "reflect_normal_x"@);
    assert("reflect"@ + "_normal_y"@ =~= "reflect_normal_y"@);
    assert("reflect"@ + "_normal_z"@ =~= "reflect_normal_z"@);
    assert("reflect_hit"@ + "_x"@ =~= "reflect_hit_x"@);
    assert("reflect_hit"@ + "_y"@ =~= "reflect_hit_y"@);
    assert("reflect_hit"@ + "_z"@ =~= "reflect_hit_z"@);
    assert("reflect_normal"@ + "_x"@ =~= "reflect_normal_x"@);
    assert("reflect_normal"@ + "_y"@ =~= "reflect_normal_y"@);
    assert("reflect_normal"@ + "_z"@ =~= "reflect_normal_z"@);
    assert("reflect_"@ + "normal"@ =~= "reflect_normal"@);
    assert("reflect_"@ + "in_shadow"@ =~= "reflect_in_shadow"@);
}

/// The columns of the point at which the refracted ray arrives by their prefixes.
proof fn lemma_refract_points()
    ensures
        "refract"@ + "_hit_x"@ == "refract_hit_x"@,
        "refract"@ + "_hit_y"@ == "refract_hit_y"@,
        "refract"@ + "_hit_z"@ == "refract_hit_z"@,
        "refract"@ + "_normal_x"@ == "refract_normal_x"@,
        "refract"@ + "_normal_y"@ == "refract_normal_y"@,
        "refract"@ + "_normal_z"@ == "refract_normal_z"@,
        "refract_hit"@ + "_x"@ == "refract_hit_x"@,
        "refract_hit"@ + "_y"@ == "refract_hit_y"@,
        "refract_hit"@ + "_z"@ == "refract_hit_z"@,
        "refract_normal"@ + "_x"@ == "refract_normal_x"@,
        "refract_normal"@ + "_y"@ == "refract_normal_y"@,
        "refract_normal"@ + "_z"@ == "refract_normal_z"@,
        "refract_"@ + "normal"@ == "refract_normal"@,
        "refract_"@ + "in_shadow"@ == "refract_in_shadow"@,
{
    reveal_strlit("refract");
    reveal_strlit("_hit_x");
    reveal_strlit("refract_hit_x");
    reveal_strlit("_hit_y");
    reveal_strlit("refract_hit_y");
    reveal_strlit("_hit_z");
    reveal_strlit("refract_hit_z");
    reveal_strlit("_normal_x");
    reveal_strlit("refract_normal_x");
    reveal_strlit("_normal_y");
    reveal_strlit("refract_normal_y");
    reveal_strlit("_normal_z");
    reveal_strlit("refract_normal_z");
    reveal_strlit("refract_hit");
    reveal_strlit("_x");
    reveal_strlit("_y");
    reveal_strlit("_z");
    reveal_strlit("refract_normal");
    reveal_strlit("refract_");
    reveal_strlit("normal");
    reveal_strlit("in_shadow");
    reveal_strlit("refract_in_shadow");
    assert("refract"@ + "_hit_x"@ =~= "refract_hit_x"@);
    assert("refract"@ + "_hit_y"@ =~= "refract_hit_y"@);
    assert("refract"@ + "_hit_z"@ =~= "refract_hit_z"@);
    assert("refract"@ + "_normal_x"@ =~= "refract_normal_x"@);
    assert("refract"@ + "_normal_y"@ =~= "refract_normal_y"@);
    assert("refract"@ + "_normal_z"@ =~= "refract_normal_z"@);
    assert("refract_hit"@ + "_x"@ =~= "refract_hit_x"@);
    assert("refract_hit"@ + "_y"@ =~= "refract_hit_y"@);
    assert("refract_hit"@ + "_z"@ =~= "refract_hit_z"@);
    assert("refract_normal"@ + "_x"@ =~= "refract_normal_x"@);
    assert("refract_normal"@ + "_y"@ =~= "refract_normal_y"@);
    assert("refract_normal"@ + "_z"@ =~= "refract_normal_z"@);
    assert("refract_"@ + "normal"@ =~= "refract_normal"@);
    assert("refract_"@ + "in_shadow"@ =~= "refract_in_shadow"@);
}

/// The columns of the shadow ray by their prefix.
proof fn lemma_shadow_prefix()
    ensures
        "shadow"@ + "_ox"@ == "shadow_ox"@,
        "shadow"@ + "_oy"@ == "shadow_oy"@,
        "shadow"@ + "_oz"@ == "shadow_oz"@,
        "shadow"@ + "_dx"@ == "shadow_dx"@,
        "shadow"@ + "_dy"@ == "shadow_dy"@,
        "shadow"@ + "_dz"@ == "shadow_dz"@,
{
    reveal_strlit("shadow");
    reveal_strlit("_ox");
    reveal_strlit("shadow_ox");
    reveal_strlit("_oy");
    reveal_strlit("shadow_oy");
    reveal_strlit("_oz");
    reveal_strlit("shadow_oz");
    reveal_strlit("_dx");
    reveal_strlit("shadow_dx");
    reveal_strlit("_dy");
    reveal_strlit("shadow_dy");
    reveal_strlit("_dz");
    reveal_strlit("shadow_dz");
    assert("shadow"@ + "_ox"@ =~= "shadow_ox"@);
    assert("shadow"@ + "_oy"@ =~= "shadow_oy"@);
    assert("shadow"@ + "_oz"@ =~= "shadow_oz"@);
    assert("shadow"@ + "_dx"@ =~= "shadow_dx"@);
    assert("shadow"@ + "_dy"@ =~= "shadow_dy"@);
    assert("shadow"@ + "_dz"@ =~= "shadow_dz"@);
}

// ---------------------------------------------------------------------------
// Rays and points
// ---------------------------------------------------------------------------

/// Whether the columns of a ray are there.
spec fn has_ray(there: Set<Seq<char>>, prefix: Seq<char>) -> bool {
    &&& there.contains(prefix + "_ox"@)
    &&& there.contains(prefix + "_oy"@)
    &&& there.contains(prefix + "_oz"@)
    &&& there.contains(prefix + "_dx"@)
    &&& there.contains(prefix + "_dy"@)
    &&& there.contains(prefix + "_dz"@)
}

/// Whether the columns of a ray are numbers.
spec fn ray_of_numbers(prefix: Seq<char>) -> bool {
    &&& by_name()(prefix + "_ox"@) is Number
    &&& by_name()(prefix + "_oy"@) is Number
    &&& by_name()(prefix + "_oz"@) is Number
    &&& by_name()(prefix + "_dx"@) is Number
    &&& by_name()(prefix + "_dy"@) is Number
    &&& by_name()(prefix + "_dz"@) is Number
}

proof fn lemma_ray(prefix: Seq<char>, there: Set<Seq<char>>)
    requires
        has_ray(there, prefix),
        ray_of_numbers(prefix),
    ensures
        is_vector(ray_origin(prefix), table(there, by_name())),
        is_vector(ray_direction(prefix), table(there, by_name())),
{
    let sorts = table(there, by_name());
    lemma_columns(prefix + "_ox"@, prefix + "_oy"@, prefix + "_oz"@, sorts);
    lemma_columns(prefix + "_dx"@, prefix + "_dy"@, prefix + "_dz"@, sorts);
}

/// Whether the columns of a vector are there.
spec fn has_vector(there: Set<Seq<char>>, prefix: Seq<char>) -> bool {
    &&& there.contains(prefix + "_x"@)
    &&& there.contains(prefix + "_y"@)
    &&& there.contains(prefix + "_z"@)
}

/// Whether the columns of a vector are numbers.
spec fn vector_of_numbers(prefix: Seq<char>) -> bool {
    &&& by_name()(prefix + "_x"@) is Number
    &&& by_name()(prefix + "_y"@) is Number
    &&& by_name()(prefix + "_z"@) is Number
}

proof fn lemma_vector(prefix: Seq<char>, there: Set<Seq<char>>)
    requires
        has_vector(there, prefix),
        vector_of_numbers(prefix),
    ensures
        is_vector(vector_in(prefix), table(there, by_name())),
{
    lemma_columns(prefix + "_x"@, prefix + "_y"@, prefix + "_z"@, table(there, by_name()));
}

/// Two vectors' columns are sound where the second is one once the first is there.
proof fn lemma_two_vectors(
    a: (Seq<char>, Seq<char>, Seq<char>),
    u: Triple,
    b: (Seq<char>, Seq<char>, Seq<char>),
    v: Triple,
    there: Set<Seq<char>>,
)
    requires
        is_vector(u, table(there, by_name())),
        is_vector(v, table(there.union(set![a.0, a.1, a.2]), by_name())),
        by_name()(a.0) is Number && by_name()(a.1) is Number && by_name()(a.2) is Number,
        by_name()(b.0) is Number && by_name()(b.1) is Number && by_name()(b.2) is Number,
    ensures
        is_sound(
            vector_steps(a.0, a.1, a.2, u) + vector_steps(b.0, b.1, b.2, v),
            there,
            by_name(),
        ),
        names(vector_steps(a.0, a.1, a.2, u) + vector_steps(b.0, b.1, b.2, v)) == set![a.0, a.1,
            a.2, b.0, b.1, b.2],
{
    lemma_vector_steps(a.0, a.1, a.2, u, there, by_name());
    let first = vector_steps(a.0, a.1, a.2, u);
    lemma_vector_steps(b.0, b.1, b.2, v, there.union(names(first)), by_name());
    let second = vector_steps(b.0, b.1, b.2, v);
    lemma_sound_append(first, second, there, by_name());
    assert(names(first).union(names(second)) =~= set![a.0, a.1, a.2, b.0, b.1, b.2]);
}

/// The camera's rays are sound.
proof fn lemma_camera_rays(width: nat, height: nat, there: Set<Seq<char>>)
    requires
        there.contains("x"@),
        there.contains("y"@),
    ensures
        is_sound(ray_steps(width, height), there, by_name()),
        names(ray_steps(width, height)) == set!["ray_ox"@, "ray_oy"@, "ray_oz"@, "ray_dx"@,
            "ray_dy"@, "ray_dz"@],
{
    lemma_literals();
    let direction = view_direction(width, height, scene_camera());
    let more = there.union(set!["ray_ox"@, "ray_oy"@, "ray_oz"@]);
    lemma_view_direction(width, height, more);
    lemma_length(direction, table(more, by_name()));
    lemma_numbers(ZERO, ZERO, ZERO, table(there, by_name()));
    lemma_two_vectors(
        ("ray_ox"@, "ray_oy"@, "ray_oz"@),
        numbers(ZERO, ZERO, ZERO),
        ("ray_dx"@, "ray_dy"@, "ray_dz"@),
        direction.normalized(),
        there,
    );
}

/// The direction through a pixel is a vector.
proof fn lemma_view_direction(width: nat, height: nat, there: Set<Seq<char>>)
    requires
        there.contains("x"@),
        there.contains("y"@),
    ensures
        is_vector(view_direction(width, height, scene_camera()), table(there, by_name())),
{
    broadcast use group_sorts;

    lemma_literals();
    assert(is_number(column("x"@), table(there, by_name())));
    assert(is_number(column("y"@), table(there, by_name())));
}

/// Where a ray first meets a sphere is a number.
proof fn lemma_first_ahead(origin: Triple, direction: Triple, ball: Ball, sorts: Sorts)
    requires
        is_vector(origin, sorts),
        is_vector(direction, sorts),
    ensures
        is_number(first_ahead(origin, direction, ball), sorts),
{
    broadcast use group_sorts;

    lemma_meeting(origin, direction, ball, Side::Near, sorts);
    lemma_meeting(origin, direction, ball, Side::Far, sorts);
    lemma_ahead(meeting(origin, direction, ball, Side::Far), sorts);
}

/// Where a ray meets the spheres is sound.
proof fn lemma_intersections(
    spheres: Seq<Sphere>,
    ray_prefix: Seq<char>,
    result_prefix: Seq<char>,
    there: Set<Seq<char>>,
)
    requires
        has_ray(there, ray_prefix),
        ray_of_numbers(ray_prefix),
        forall|name: Seq<char>| #[trigger] by_name()(result_prefix + "_t_"@ + name) is Number,
    ensures
        is_sound(intersect_steps(spheres, ray_prefix, result_prefix), there, by_name()),
        forall|i: int|
            0 <= i < spheres.len() ==> names(
                intersect_steps(spheres, ray_prefix, result_prefix),
            ).contains(result_prefix + "_t_"@ + (#[trigger] spheres[i]).label()),
{
    let sorts = table(there, by_name());
    let (origin, direction) = (ray_origin(ray_prefix), ray_direction(ray_prefix));
    let steps = intersect_steps(spheres, ray_prefix, result_prefix);
    lemma_ray(ray_prefix, there);
    assert forall|i: int| 0 <= i < steps.len() implies sort_of((#[trigger] steps[i]).1, sorts)
        == Some(by_name()(steps[i].0)) by {
        lemma_first_ahead(origin, direction, spheres[i].shape(), sorts);
        assert(by_name()(result_prefix + "_t_"@ + spheres[i].name@) is Number);
    }
    lemma_sound_at_once(steps, there, by_name());
    assert forall|i: int| 0 <= i < spheres.len() implies names(steps).contains(
        result_prefix + "_t_"@ + (#[trigger] spheres[i]).label(),
    ) by {
        assert(steps[i].0 == result_prefix + "_t_"@ + spheres[i].name@);
    }
}

/// What a ray meets is sound.
proof fn lemma_trace(
    spheres: Seq<Sphere>,
    ray_prefix: Seq<char>,
    result_prefix: Seq<char>,
    there: Set<Seq<char>>,
)
    requires
        spheres.len() > 0,
        has_ray(there, ray_prefix),
        ray_of_numbers(ray_prefix),
        forall|name: Seq<char>| #[trigger] by_name()(result_prefix + "_t_"@ + name) is Number,
        by_name()(result_prefix + "_t_nearest"@) is Number,
        by_name()(result_prefix + "_hit_idx"@) is Index,
    ensures
        is_sound(trace_steps(spheres, ray_prefix, result_prefix), there, by_name()),
        names(trace_steps(spheres, ray_prefix, result_prefix)).contains(
            result_prefix + "_t_nearest"@,
        ),
        names(trace_steps(spheres, ray_prefix, result_prefix)).contains(
            result_prefix + "_hit_idx"@,
        ),
{
    let prefix = result_prefix + "_t_"@;
    let closest = result_prefix + "_t_nearest"@;
    let index = result_prefix + "_hit_idx"@;
    let ts = sphere_columns(spheres, prefix);
    lemma_ray(ray_prefix, there);
    let meetings = intersect_steps(spheres, ray_prefix, result_prefix);
    lemma_intersections(spheres, ray_prefix, result_prefix, there);
    let s1 = there.union(names(meetings));
    lemma_sphere_columns(spheres, prefix, s1, by_name());
    lemma_nearest(ts, table(s1, by_name()));
    lemma_one_step(closest, nearest(ts), s1, by_name());
    let first = seq![(closest, nearest(ts))];
    lemma_sound_append(meetings, first, there, by_name());
    let s2 = s1.union(names(first));
    lemma_sphere_columns(spheres, prefix, s2, by_name());
    assert(is_number(column(closest), table(s2, by_name())));
    lemma_hit_index(ts, column(closest), table(s2, by_name()));
    lemma_one_step(index, hit_index(ts, column(closest)), s2, by_name());
    let second = seq![(index, hit_index(ts, column(closest)))];
    lemma_sound_append(meetings + first, second, there, by_name());
    assert(meetings + first + second =~= trace_steps(spheres, ray_prefix, result_prefix));
}

/// The parameters of the camera's, the reflected and the refracted rays are numbers.
proof fn lemma_parameters(result_prefix: Seq<char>)
    requires
        result_prefix == "primary"@ || result_prefix == "reflect"@ || result_prefix == "refract"@,
    ensures
        forall|name: Seq<char>| #[trigger] by_name()(result_prefix + "_t_"@ + name) is Number,
{
    reveal_strlit("primary");
    reveal_strlit("reflect");
    reveal_strlit("refract");
    reveal_strlit("_t_");
    assert forall|name: Seq<char>| #[trigger]
        by_name()(result_prefix + "_t_"@ + name) is Number by {
        let full = result_prefix + "_t_"@ + name;
        assert(full.len() >= 10);
        assert(full[0] == result_prefix[0]);
        assert(full[8] == "_t_"@[1]);
        lemma_numbers_by_name(full);
    }
}

/// What the camera sees is sound.
proof fn lemma_primary_hit(spheres: Seq<Sphere>, there: Set<Seq<char>>)
    requires
        has_ray(there, "ray"@),
        there.contains("primary_t_nearest"@),
        there.contains("primary_hit_idx"@),
    ensures
        is_sound(primary_hit_steps(spheres), there, by_name()),
        names(primary_hit_steps(spheres)) == set!["hit_x"@, "hit_y"@, "hit_z"@, "normal_x"@,
            "normal_y"@, "normal_z"@, "hit_ior"@],
{
    lemma_literals();
    lemma_others_by_name();
    lemma_ray_prefix();
    lemma_ray("ray"@, there);
    let sorts = table(there, by_name());
    let t = column("primary_t_nearest"@);
    let hit = column("primary_hit_idx"@);
    assert(is_number(t, sorts));
    let origin = columns("ray_ox"@, "ray_oy"@, "ray_oz"@);
    lemma_point(origin, camera_direction(), t, sorts);
    let point = point_at(origin, camera_direction(), t);
    let s1 = there.union(set!["hit_x"@, "hit_y"@, "hit_z"@]);
    assert(is_index(hit, table(s1, by_name())));
    lemma_columns("hit_x"@, "hit_y"@, "hit_z"@, table(s1, by_name()));
    lemma_normal(spheres, hit, hit_point(), table(s1, by_name()));
    let normal = hit_normal(spheres, hit, hit_point());
    lemma_two_vectors(
        ("hit_x"@, "hit_y"@, "hit_z"@),
        point,
        ("normal_x"@, "normal_y"@, "normal_z"@),
        normal,
        there,
    );
    let first = vector_steps("hit_x"@, "hit_y"@, "hit_z"@, point) + vector_steps(
        "normal_x"@,
        "normal_y"@,
        "normal_z"@,
        normal,
    );
    let s2 = there.union(names(first));
    let options = refractive_indices(spheres);
    assert(is_index(hit, table(s2, by_name())));
    assert forall|i: int| 0 <= i < options.len() implies is_number(
        #[trigger] options[i],
        table(s2, by_name()),
    ) by {}
    lemma_chosen(hit, options, number(ZERO), table(s2, by_name()));
    let ior = chosen(hit, options, number(ZERO));
    lemma_one_step("hit_ior"@, ior, s2, by_name());
    let second = seq![("hit_ior"@, ior)];
    lemma_sound_append(first, second, there, by_name());
    assert(names(first).union(names(second)) =~= set!["hit_x"@, "hit_y"@, "hit_z"@, "normal_x"@,
        "normal_y"@, "normal_z"@, "hit_ior"@]);
}

/// A reflected direction is a vector.
proof fn lemma_reflected(incident: Triple, normal: Triple, sorts: Sorts)
    requires
        is_vector(incident, sorts),
        is_vector(normal, sorts),
    ensures
        is_vector(reflected(incident, normal), sorts),
{
    broadcast use group_sorts;

    assert(is_number(incident.dot(normal), sorts));
}

/// The angles are numbers.
proof fn lemma_incidence(incident: Triple, normal: Triple, sorts: Sorts)
    requires
        is_vector(incident, sorts),
        is_vector(normal, sorts),
    ensures
        is_number(incidence(incident, normal), sorts),
{
    broadcast use group_sorts;

    assert(is_number(incident.dot(normal), sorts));
}

proof fn lemma_sine_squared(eta: u64, cos: Node, sorts: Sorts)
    requires
        is_number(cos, sorts),
    ensures
        is_number(refracted_sine_squared(eta, cos), sorts),
{
    broadcast use group_sorts;

}

proof fn lemma_cosine(eta: u64, cos: Node, sorts: Sorts)
    requires
        is_number(cos, sorts),
    ensures
        is_number(refracted_cosine(eta, cos), sorts),
{
    broadcast use group_sorts;

    lemma_sine_squared(eta, cos, sorts);
}

/// A refracted direction is a vector.
proof fn lemma_refracted(eta: u64, incident: Triple, normal: Triple, sorts: Sorts)
    requires
        is_vector(incident, sorts),
        is_vector(normal, sorts),
    ensures
        is_vector(refracted(eta, incident, normal), sorts),
{
    broadcast use group_sorts;

    let cos = incidence(incident, normal);
    lemma_incidence(incident, normal, sorts);
    lemma_cosine(eta, cos, sorts);
    let factor = number(eta).times(cos).minus(refracted_cosine(eta, cos));
    assert(is_number(factor, sorts));
    let bent = incident.scaled(number(eta)).plus(normal.scaled(factor));
    assert(is_vector(bent, sorts));
    lemma_length(bent, sorts);
}

/// The reflected share is a number.
proof fn lemma_reflectance(cos: Node, sorts: Sorts)
    requires
        is_number(cos, sorts),
    ensures
        is_number(reflectance(cos), sorts),
{
    broadcast use group_sorts;

}

/// The point that the camera sees, its normal and the camera's ray are vectors.
proof fn lemma_seen(there: Set<Seq<char>>)
    requires
        has_ray(there, "ray"@),
        has_vector(there, "hit"@),
        has_vector(there, "normal"@),
    ensures
        is_vector(camera_direction(), table(there, by_name())),
        is_vector(hit_point(), table(there, by_name())),
        is_vector(surface_normal(), table(there, by_name())),
{
    lemma_literals();
    lemma_ray_prefix();
    lemma_point_prefixes();
    lemma_ray("ray"@, there);
    lemma_vector("hit"@, there);
    lemma_vector("normal"@, there);
}

/// The reflected ray is sound.
proof fn lemma_reflection(there: Set<Seq<char>>)
    requires
        has_ray(there, "ray"@),
        has_vector(there, "hit"@),
        has_vector(there, "normal"@),
    ensures
        is_sound(reflection_steps(), there, by_name()),
        names(reflection_steps()) == set!["reflect_ox"@, "reflect_oy"@, "reflect_oz"@,
            "reflect_dx"@, "reflect_dy"@, "reflect_dz"@],
{
    lemma_literals();
    lemma_seen(there);
    let more = there.union(set!["reflect_ox"@, "reflect_oy"@, "reflect_oz"@]);
    lemma_seen(more);
    lemma_moved(hit_point(), surface_normal(), RAY_BIAS, table(there, by_name()));
    lemma_reflected(camera_direction(), surface_normal(), table(more, by_name()));
    lemma_two_vectors(
        ("reflect_ox"@, "reflect_oy"@, "reflect_oz"@),
        hit_point().plus(surface_normal().times(number(RAY_BIAS))),
        ("reflect_dx"@, "reflect_dy"@, "reflect_dz"@),
        reflected(camera_direction(), surface_normal()),
        there,
    );
}

/// The ray inside the glass is sound.
proof fn lemma_entry(there: Set<Seq<char>>)
    requires
        has_ray(there, "ray"@),
        has_vector(there, "hit"@),
        has_vector(there, "normal"@),
    ensures
        is_sound(entry_steps(), there, by_name()),
        names(entry_steps()) == set!["internal_ox"@, "internal_oy"@, "internal_oz"@,
            "internal_dx"@, "internal_dy"@, "internal_dz"@, "fresnel"@],
{
    lemma_literals();
    lemma_seen(there);
    let s1 = there.union(set!["internal_ox"@, "internal_oy"@, "internal_oz"@]);
    lemma_seen(s1);
    lemma_moved(hit_point(), surface_normal(), RAY_BIAS, table(there, by_name()));
    lemma_refracted(AIR_OVER_GLASS, camera_direction(), surface_normal(), table(s1, by_name()));
    let origin = hit_point().minus(surface_normal().times(number(RAY_BIAS)));
    let direction = refracted(AIR_OVER_GLASS, camera_direction(), surface_normal());
    lemma_two_vectors(
        ("internal_ox"@, "internal_oy"@, "internal_oz"@),
        origin,
        ("internal_dx"@, "internal_dy"@, "internal_dz"@),
        direction,
        there,
    );
    let first = vector_steps("internal_ox"@, "internal_oy"@, "internal_oz"@, origin)
        + vector_steps("internal_dx"@, "internal_dy"@, "internal_dz"@, direction);
    let s2 = there.union(names(first));
    lemma_seen(s2);
    lemma_incidence(camera_direction(), surface_normal(), table(s2, by_name()));
    lemma_reflectance(
        incidence(camera_direction(), surface_normal()),
        table(s2, by_name()),
    );
    let share = reflectance(incidence(camera_direction(), surface_normal()));
    lemma_one_step("fresnel"@, share, s2, by_name());
    let second = seq![("fresnel"@, share)];
    lemma_sound_append(first, second, there, by_name());
    assert(names(first).union(names(second)) =~= set!["internal_ox"@, "internal_oy"@,
        "internal_oz"@, "internal_dx"@, "internal_dy"@, "internal_dz"@, "fresnel"@]);
}

/// Where the ray leaves the glass is sound.
proof fn lemma_exit(glass: Sphere, there: Set<Seq<char>>)
    requires
        has_ray(there, "internal"@),
    ensures
        is_sound(
            seq![exit_step(glass, "internal"@, "internal"@)] + exit_point_steps(glass),
            there,
            by_name(),
        ),
        names(seq![exit_step(glass, "internal"@, "internal"@)] + exit_point_steps(glass))
            == set!["internal_exit_t"@, "exit_x"@, "exit_y"@, "exit_z"@, "exit_normal_x"@,
            "exit_normal_y"@, "exit_normal_z"@],
{
    lemma_literals();
    lemma_internal_prefix();
    lemma_ray("internal"@, there);
    let sorts = table(there, by_name());
    let (origin, direction) = (ray_origin("internal"@), ray_direction("internal"@));
    let met = meeting(origin, direction, glass.shape(), Side::Far);
    lemma_meeting(origin, direction, glass.shape(), Side::Far, sorts);
    lemma_ahead(met, sorts);
    lemma_one_step("internal_exit_t"@, ahead(met), there, by_name());
    let first = seq![exit_step(glass, "internal"@, "internal"@)];
    let s1 = there.union(names(first));
    lemma_ray("internal"@, s1);
    let t = column("internal_exit_t"@);
    assert(is_number(t, table(s1, by_name())));
    lemma_point(origin, direction, t, table(s1, by_name()));
    let s2 = s1.union(set!["exit_x"@, "exit_y"@, "exit_z"@]);
    lemma_columns("exit_x"@, "exit_y"@, "exit_z"@, table(s2, by_name()));
    lemma_normal_at(glass.shape(), exit_point(), table(s2, by_name()));
    lemma_two_vectors(
        ("exit_x"@, "exit_y"@, "exit_z"@),
        point_at(origin, direction, t),
        ("exit_normal_x"@, "exit_normal_y"@, "exit_normal_z"@),
        glass.shape().normal_at(exit_point()),
        s1,
    );
    let second = exit_point_steps(glass);
    lemma_sound_append(first, second, there, by_name());
    assert(names(first).union(names(second)) =~= set!["internal_exit_t"@, "exit_x"@, "exit_y"@,
        "exit_z"@, "exit_normal_x"@, "exit_normal_y"@, "exit_normal_z"@]);
}

/// Where the ray leaves the glass, its normal and the ray are vectors.
proof fn lemma_left(there: Set<Seq<char>>)
    requires
        has_ray(there, "internal"@),
        set!["exit_x"@, "exit_y"@, "exit_z"@, "exit_normal_x"@, "exit_normal_y"@, "exit_normal_z"@].subset_of(
            there,
        ),
    ensures
        is_vector(internal_direction(), table(there, by_name())),
        is_vector(exit_point(), table(there, by_name())),
        is_vector(exit_normal(), table(there, by_name())),
        is_vector(inward_normal(), table(there, by_name())),
        is_truth(is_totally_reflected(), table(there, by_name())),
{
    lemma_literals();
    lemma_internal_prefix();
    lemma_ray("internal"@, there);
    let sorts = table(there, by_name());
    lemma_columns("exit_x"@, "exit_y"@, "exit_z"@, sorts);
    lemma_columns("exit_normal_x"@, "exit_normal_y"@, "exit_normal_z"@, sorts);
    lemma_numbers(ZERO, ZERO, ZERO, sorts);
    lemma_between(exit_normal(), numbers(ZERO, ZERO, ZERO), sorts);
    lemma_incidence(internal_direction(), inward_normal(), sorts);
    lemma_sine_squared(
        GLASS_OVER_AIR,
        incidence(internal_direction(), inward_normal()),
        sorts,
    );
    lemma_above_one(
        refracted_sine_squared(GLASS_OVER_AIR, incidence(internal_direction(), inward_normal())),
        sorts,
    );
}

proof fn lemma_above_one(value: Node, sorts: Sorts)
    requires
        is_number(value, sorts),
    ensures
        is_truth(value.gt(number(ONE)), sorts),
{
    broadcast use group_sorts;

}

/// One of two vectors is a vector.
proof fn lemma_if_else(condition: Node, value: Triple, otherwise: Triple, sorts: Sorts)
    requires
        is_truth(condition, sorts),
        is_vector(value, sorts),
        is_vector(otherwise, sorts),
    ensures
        is_vector(Triple::if_else(condition, value, otherwise), sorts),
{
    broadcast use group_sorts;

}

/// The ray behind the glass is sound.
proof fn lemma_refraction_exit(there: Set<Seq<char>>)
    requires
        has_ray(there, "internal"@),
        set!["exit_x"@, "exit_y"@, "exit_z"@, "exit_normal_x"@, "exit_normal_y"@, "exit_normal_z"@].subset_of(
            there,
        ),
    ensures
        is_sound(refraction_exit_steps(), there, by_name()),
        names(refraction_exit_steps()) == set!["refract_ox"@, "refract_oy"@, "refract_oz"@,
            "refract_dx"@, "refract_dy"@, "refract_dz"@, "total_internal_reflection"@],
{
    lemma_literals();
    lemma_others_by_name();
    lemma_left(there);
    lemma_moved(exit_point(), exit_normal(), RAY_BIAS, table(there, by_name()));
    let s1 = there.union(set!["refract_ox"@, "refract_oy"@, "refract_oz"@]);
    lemma_left(s1);
    let back = reflected(internal_direction(), inward_normal());
    let on = refracted(GLASS_OVER_AIR, internal_direction(), inward_normal());
    lemma_reflected(internal_direction(), inward_normal(), table(s1, by_name()));
    lemma_refracted(GLASS_OVER_AIR, internal_direction(), inward_normal(), table(s1, by_name()));
    lemma_if_else(is_totally_reflected(), back, on, table(s1, by_name()));
    let origin = exit_point().plus(exit_normal().times(number(RAY_BIAS)));
    let direction = Triple::if_else(is_totally_reflected(), back, on);
    lemma_two_vectors(
        ("refract_ox"@, "refract_oy"@, "refract_oz"@),
        origin,
        ("refract_dx"@, "refract_dy"@, "refract_dz"@),
        direction,
        there,
    );
    let first = vector_steps("refract_ox"@, "refract_oy"@, "refract_oz"@, origin) + vector_steps(
        "refract_dx"@,
        "refract_dy"@,
        "refract_dz"@,
        direction,
    );
    let s2 = there.union(names(first));
    lemma_left(s2);
    lemma_one_step("total_internal_reflection"@, is_totally_reflected(), s2, by_name());
    let second = seq![("total_internal_reflection"@, is_totally_reflected())];
    lemma_sound_append(first, second, there, by_name());
    assert(names(first).union(names(second)) =~= set!["refract_ox"@, "refract_oy"@, "refract_oz"@,
        "refract_dx"@, "refract_dy"@, "refract_dz"@, "total_internal_reflection"@]);
}

/// Where a ray arrives is sound.
proof fn lemma_arrival(spheres: Seq<Sphere>, prefix: Seq<char>, there: Set<Seq<char>>)
    requires
        has_ray(there, prefix),
        ray_of_numbers(prefix),
        there.contains(prefix + "_t_nearest"@),
        by_name()(prefix + "_t_nearest"@) is Number,
        there.contains(prefix + "_hit_idx"@),
        by_name()(prefix + "_hit_idx"@) is Index,
        by_name()(prefix + "_hit_x"@) is Number,
        by_name()(prefix + "_hit_y"@) is Number,
        by_name()(prefix + "_hit_z"@) is Number,
        by_name()(prefix + "_normal_x"@) is Number,
        by_name()(prefix + "_normal_y"@) is Number,
        by_name()(prefix + "_normal_z"@) is Number,
    ensures
        is_sound(arrival_steps(spheres, prefix), there, by_name()),
        names(arrival_steps(spheres, prefix)) == set![prefix + "_hit_x"@, prefix + "_hit_y"@, prefix
            + "_hit_z"@, prefix + "_normal_x"@, prefix + "_normal_y"@, prefix + "_normal_z"@],
{
    let (x, y, z) = (prefix + "_hit_x"@, prefix + "_hit_y"@, prefix + "_hit_z"@);
    let (nx, ny, nz) = (prefix + "_normal_x"@, prefix + "_normal_y"@, prefix + "_normal_z"@);
    let sorts = table(there, by_name());
    lemma_ray(prefix, there);
    let t = column(prefix + "_t_nearest"@);
    assert(is_number(t, sorts));
    lemma_point(ray_origin(prefix), ray_direction(prefix), t, sorts);
    let s1 = there.union(set![x, y, z]);
    lemma_columns(x, y, z, table(s1, by_name()));
    let hit = column(prefix + "_hit_idx"@);
    assert(is_index(hit, table(s1, by_name())));
    lemma_normal(spheres, hit, columns(x, y, z), table(s1, by_name()));
    lemma_two_vectors(
        (x, y, z),
        point_at(ray_origin(prefix), ray_direction(prefix), t),
        (nx, ny, nz),
        hit_normal(spheres, hit, columns(x, y, z)),
        there,
    );
}

// ---------------------------------------------------------------------------
// Light
// ---------------------------------------------------------------------------

/// Whether the columns of a shadow ray are numbers.
spec fn shadow_of_numbers(prefix: Seq<char>) -> bool {
    &&& by_name()(prefix + "shadow_ox"@) is Number
    &&& by_name()(prefix + "shadow_oy"@) is Number
    &&& by_name()(prefix + "shadow_oz"@) is Number
    &&& by_name()(prefix + "shadow_dx"@) is Number
    &&& by_name()(prefix + "shadow_dy"@) is Number
    &&& by_name()(prefix + "shadow_dz"@) is Number
    &&& by_name()(prefix + "light_dist"@) is Number
    &&& forall|name: Seq<char>| #[trigger] by_name()(prefix + "shadow_t_"@ + name) is Number
}

/// The three shadow rays are made of numbers.
proof fn lemma_shadow_names(prefix: Seq<char>)
    requires
        prefix == ""@ || prefix == "reflect_"@ || prefix == "refract_"@,
    ensures
        shadow_of_numbers(prefix),
{
    reveal_strlit("");
    reveal_strlit("reflect_");
    reveal_strlit("refract_");
    reveal_strlit("shadow_ox");
    reveal_strlit("shadow_oy");
    reveal_strlit("shadow_oz");
    reveal_strlit("shadow_dx");
    reveal_strlit("shadow_dy");
    reveal_strlit("shadow_dz");
    reveal_strlit("light_dist");
    reveal_strlit("shadow_t_");
    assert(prefix.len() == 0 || prefix.len() == 8 && prefix[0] == 'r');
    lemma_shadow_name(prefix, "shadow_ox"@);
    lemma_shadow_name(prefix, "shadow_oy"@);
    lemma_shadow_name(prefix, "shadow_oz"@);
    lemma_shadow_name(prefix, "shadow_dx"@);
    lemma_shadow_name(prefix, "shadow_dy"@);
    lemma_shadow_name(prefix, "shadow_dz"@);
    lemma_shadow_name(prefix, "light_dist"@);
    assert forall|name: Seq<char>| #[trigger]
        by_name()(prefix + "shadow_t_"@ + name) is Number by {
        assert(prefix + "shadow_t_"@ + name =~= prefix + ("shadow_t_"@ + name));
        lemma_shadow_name(prefix, "shadow_t_"@ + name);
    }
}

proof fn lemma_shadow_name(prefix: Seq<char>, name: Seq<char>)
    requires
        prefix.len() == 0 || prefix.len() == 8 && prefix[0] == 'r',
        name.len() > 0,
        name[0] == 's' || name[0] == 'l',
    ensures
        by_name()(prefix + name) is Number,
{
    let full = prefix + name;
    if prefix.len() == 0 {
        assert(full[0] == name[0]);
    } else {
        assert(full[0] == prefix[0]);
        assert(full[8] == name[0]);
    }
    lemma_numbers_by_name(full);
}

/// The names of a shadow ray's columns by its prefix.
proof fn lemma_shadow_columns(prefix: Seq<char>)
    ensures
        prefix + "shadow"@ + "_ox"@ == prefix + "shadow_ox"@,
        prefix + "shadow"@ + "_oy"@ == prefix + "shadow_oy"@,
        prefix + "shadow"@ + "_oz"@ == prefix + "shadow_oz"@,
        prefix + "shadow"@ + "_dx"@ == prefix + "shadow_dx"@,
        prefix + "shadow"@ + "_dy"@ == prefix + "shadow_dy"@,
        prefix + "shadow"@ + "_dz"@ == prefix + "shadow_dz"@,
{
    lemma_shadow_prefix();
    assert(prefix + "shadow"@ + "_ox"@ =~= prefix + ("shadow"@ + "_ox"@));
    assert(prefix + "shadow"@ + "_oy"@ =~= prefix + ("shadow"@ + "_oy"@));
    assert(prefix + "shadow"@ + "_oz"@ =~= prefix + ("shadow"@ + "_oz"@));
    assert(prefix + "shadow"@ + "_dx"@ =~= prefix + ("shadow"@ + "_dx"@));
    assert(prefix + "shadow"@ + "_dy"@ =~= prefix + ("shadow"@ + "_dy"@));
    assert(prefix + "shadow"@ + "_dz"@ =~= prefix + ("shadow"@ + "_dz"@));
}

/// The shadow ray is sound.
proof fn lemma_shadow_ray(
    light: Light,
    prefix: Seq<char>,
    hit_prefix: Seq<char>,
    there: Set<Seq<char>>,
)
    requires
        has_vector(there, hit_prefix),
        vector_of_numbers(hit_prefix),
        has_vector(there, prefix + "normal"@),
        vector_of_numbers(prefix + "normal"@),
        shadow_of_numbers(prefix),
    ensures
        is_sound(shadow_ray_steps(light, prefix, hit_prefix), there, by_name()),
        names(shadow_ray_steps(light, prefix, hit_prefix)) == set![prefix + "shadow_ox"@, prefix
            + "shadow_oy"@, prefix + "shadow_oz"@, prefix + "shadow_dx"@, prefix + "shadow_dy"@,
            prefix + "shadow_dz"@, prefix + "light_dist"@],
{
    let point = vector_in(hit_prefix);
    let normal = vector_in(prefix + "normal"@);
    let to_light = light.position().minus(point);
    let a = (prefix + "shadow_ox"@, prefix + "shadow_oy"@, prefix + "shadow_oz"@);
    let b = (prefix + "shadow_dx"@, prefix + "shadow_dy"@, prefix + "shadow_dz"@);
    lemma_vector(hit_prefix, there);
    lemma_vector(prefix + "normal"@, there);
    lemma_moved(point, normal, SHADOW_BIAS, table(there, by_name()));
    let s1 = there.union(set![a.0, a.1, a.2]);
    lemma_vector(hit_prefix, s1);
    lemma_numbers(light.x.bits, light.y.bits, light.z.bits, table(s1, by_name()));
    lemma_between(point, light.position(), table(s1, by_name()));
    let origin = point.plus(normal.times(number(SHADOW_BIAS)));
    lemma_two_vectors(a, origin, b, to_light.normalized(), there);
    let first = vector_steps(a.0, a.1, a.2, origin) + vector_steps(
        b.0,
        b.1,
        b.2,
        to_light.normalized(),
    );
    let s2 = there.union(names(first));
    lemma_vector(hit_prefix, s2);
    lemma_numbers(light.x.bits, light.y.bits, light.z.bits, table(s2, by_name()));
    lemma_between(point, light.position(), table(s2, by_name()));
    lemma_one_step(prefix + "light_dist"@, to_light.length(), s2, by_name());
    let second = seq![(prefix + "light_dist"@, to_light.length())];
    lemma_sound_append(first, second, there, by_name());
    assert(names(first).union(names(second)) =~= set![a.0, a.1, a.2, b.0, b.1, b.2, prefix
        + "light_dist"@]);
}

/// The parameters of the shadow ray are sound.
proof fn lemma_shadow_parameters(spheres: Seq<Sphere>, prefix: Seq<char>, there: Set<Seq<char>>)
    requires
        has_ray(there, prefix + "shadow"@),
        there.contains(prefix + "light_dist"@),
        shadow_of_numbers(prefix),
    ensures
        is_sound(shadow_steps(spheres, prefix), there, by_name()),
        forall|i: int|
            0 <= i < opaque(spheres).len() ==> names(shadow_steps(spheres, prefix)).contains(
                prefix + "shadow_t_"@ + (#[trigger] opaque(spheres)[i]).label(),
            ),
{
    let sorts = table(there, by_name());
    let blocking = opaque(spheres);
    let steps = shadow_steps(spheres, prefix);
    lemma_shadow_columns(prefix);
    lemma_ray(prefix + "shadow"@, there);
    let origin = ray_origin(prefix + "shadow"@);
    let direction = ray_direction(prefix + "shadow"@);
    let limit = column(prefix + "light_dist"@);
    assert(is_number(limit, sorts));
    assert forall|i: int| 0 <= i < steps.len() implies sort_of((#[trigger] steps[i]).1, sorts)
        == Some(by_name()(steps[i].0)) by {
        let ball = blocking[i].shape();
        lemma_meeting(origin, direction, ball, Side::Near, sorts);
        lemma_ahead_before(meeting(origin, direction, ball, Side::Near), limit, sorts);
        assert(steps[i] == shadow_step(blocking[i], prefix));
        assert(by_name()(prefix + "shadow_t_"@ + blocking[i].name@) is Number);
    }
    lemma_sound_at_once(steps, there, by_name());
    assert forall|i: int| 0 <= i < blocking.len() implies names(steps).contains(
        prefix + "shadow_t_"@ + (#[trigger] blocking[i]).label(),
    ) by {
        assert(steps[i].0 == prefix + "shadow_t_"@ + blocking[i].name@);
    }
}

/// Whether a point lies in shadow is sound.
proof fn lemma_point_shadow(
    spheres: Seq<Sphere>,
    light: Light,
    prefix: Seq<char>,
    hit_prefix: Seq<char>,
    there: Set<Seq<char>>,
)
    requires
        has_vector(there, hit_prefix),
        vector_of_numbers(hit_prefix),
        has_vector(there, prefix + "normal"@),
        vector_of_numbers(prefix + "normal"@),
        shadow_of_numbers(prefix),
        by_name()(prefix + "in_shadow"@) is Truth,
    ensures
        is_sound(point_shadow_steps(spheres, light, prefix, hit_prefix), there, by_name()),
        names(point_shadow_steps(spheres, light, prefix, hit_prefix)).contains(
            prefix + "in_shadow"@,
        ),
{
    let ray = shadow_ray_steps(light, prefix, hit_prefix);
    lemma_shadow_ray(light, prefix, hit_prefix, there);
    lemma_shadow_columns(prefix);
    let s1 = there.union(names(ray));
    lemma_shadow_parameters(spheres, prefix, s1);
    let blocks = shadow_steps(spheres, prefix);
    lemma_sound_append(ray, blocks, there, by_name());
    let s2 = s1.union(names(blocks));
    let ts = sphere_columns(opaque(spheres), prefix + "shadow_t_"@);
    lemma_sphere_columns(opaque(spheres), prefix + "shadow_t_"@, s2, by_name());
    lemma_any_present(ts, table(s2, by_name()));
    lemma_one_step(prefix + "in_shadow"@, any_present(ts), s2, by_name());
    let last = seq![in_shadow_step(spheres, prefix)];
    lemma_sound_append(ray + blocks, last, there, by_name());
}

/// How bright a point is, is a number.
proof fn lemma_lighting(
    light: Light,
    ambient: Number,
    hit_prefix: Seq<char>,
    normal_prefix: Seq<char>,
    shadow: Seq<char>,
    result: Seq<char>,
    there: Set<Seq<char>>,
)
    requires
        has_vector(there, hit_prefix),
        vector_of_numbers(hit_prefix),
        has_vector(there, normal_prefix),
        vector_of_numbers(normal_prefix),
        there.contains(shadow),
        by_name()(shadow) is Truth,
        by_name()(result) is Number,
    ensures
        is_sound(
            seq![lighting_step(light, ambient, hit_prefix, normal_prefix, shadow, result)],
            there,
            by_name(),
        ),
        names(seq![lighting_step(light, ambient, hit_prefix, normal_prefix, shadow, result)])
            == set![result],
{
    let sorts = table(there, by_name());
    lemma_vector(hit_prefix, there);
    lemma_vector(normal_prefix, there);
    lemma_numbers(light.x.bits, light.y.bits, light.z.bits, sorts);
    assert(is_truth(column(shadow), sorts));
    lemma_brightness(
        light.position(),
        light.intensity.bits,
        ambient.bits,
        vector_in(hit_prefix),
        vector_in(normal_prefix),
        column(shadow),
        sorts,
    );
    lemma_one_step(
        result,
        lighting_step(light, ambient, hit_prefix, normal_prefix, shadow, result).1,
        there,
        by_name(),
    );
}

// ---------------------------------------------------------------------------
// Colour
// ---------------------------------------------------------------------------

/// The colour of what is hit is a vector.
pub(crate) proof fn lemma_color_of_hit(
    spheres: Seq<Sphere>,
    hit: Node,
    bright: Node,
    opaque_only: bool,
    sorts: Sorts,
)
    requires
        is_index(hit, sorts),
        is_number(bright, sorts),
        is_number(column("y"@), sorts),
    ensures
        is_vector(color_of_hit(spheres, hit, bright, opaque_only), sorts),
    decreases spheres.len(),
{
    lemma_sky_color(sorts);
    if spheres.len() > 0 {
        let sphere = spheres.last();
        lemma_color_of_hit(spheres.drop_last(), hit, bright, opaque_only, sorts);
        lemma_surface(sphere.color_r.bits, bright, sorts);
        lemma_surface(sphere.color_g.bits, bright, sorts);
        lemma_surface(sphere.color_b.bits, bright, sorts);
        let this = Node::Index((spheres.len() - 1) as i32);
        assert(is_index(this, sorts));
        assert(is_truth(hit.equals(this), sorts));
        lemma_if_else(
            hit.equals(this),
            surface_color(sphere, bright),
            color_of_hit(spheres.drop_last(), hit, bright, opaque_only),
            sorts,
        );
    }
}

proof fn lemma_sky_color(sorts: Sorts)
    requires
        is_number(column("y"@), sorts),
    ensures
        is_vector(sky_color(), sorts),
{
    lemma_sky(HEIGHT as nat, HORIZON_R, sorts);
    lemma_sky(HEIGHT as nat, HORIZON_G, sorts);
    lemma_sky(HEIGHT as nat, HORIZON_B, sorts);
}

/// A mixture of two colours is a vector.
pub(crate) proof fn lemma_mixture(a: Triple, b: Triple, share: Node, sorts: Sorts)
    requires
        is_vector(a, sorts),
        is_vector(b, sorts),
        is_number(share, sorts),
    ensures
        is_vector(glass_color(a, b, share), sorts),
        is_vector(opaque_color(a, b, share), sorts),
{
    broadcast use group_sorts;

}

/// Whether all that the colour is made of is there.
spec fn has_light(there: Set<Seq<char>>) -> bool {
    set!["y"@, "primary_hit_idx"@, "reflect_hit_idx"@, "refract_hit_idx"@, "primary_t_nearest"@,
        "hit_ior"@, "fresnel"@, "primary_brightness"@, "reflect_brightness"@,
        "refract_brightness"@].subset_of(there)
}

/// The colour is sound.
proof fn lemma_colors(spheres: Seq<Sphere>, there: Set<Seq<char>>)
    requires
        has_light(there),
    ensures
        is_sound(color_steps(spheres), there, by_name()),
        names(color_steps(spheres)) == set!["final_r"@, "final_g"@, "final_b"@],
{
    lemma_literals();
    lemma_others_by_name();
    let sorts = table(there, by_name());
    let hit = column("primary_hit_idx"@);
    assert(is_number(column("y"@), sorts));
    assert(is_index(hit, sorts));
    assert(is_index(column("reflect_hit_idx"@), sorts));
    assert(is_index(column("refract_hit_idx"@), sorts));
    assert(is_number(column("primary_brightness"@), sorts));
    assert(is_number(column("reflect_brightness"@), sorts));
    assert(is_number(column("refract_brightness"@), sorts));
    assert(is_number(column("fresnel"@), sorts));
    let surface = color_of_hit(spheres, hit, column("primary_brightness"@), true);
    let reflection = color_of_hit(
        spheres,
        column("reflect_hit_idx"@),
        column("reflect_brightness"@),
        false,
    );
    let behind = color_of_hit(
        spheres,
        column("refract_hit_idx"@),
        column("refract_brightness"@),
        false,
    );
    lemma_color_of_hit(spheres, hit, column("primary_brightness"@), true, sorts);
    lemma_color_of_hit(
        spheres,
        column("reflect_hit_idx"@),
        column("reflect_brightness"@),
        false,
        sorts,
    );
    lemma_color_of_hit(
        spheres,
        column("refract_hit_idx"@),
        column("refract_brightness"@),
        false,
        sorts,
    );
    let options = reflectivities(spheres);
    assert forall|i: int| 0 <= i < options.len() implies is_number(#[trigger] options[i], sorts) by {}
    lemma_chosen(hit, options, number(ZERO), sorts);
    let reflectivity = chosen(hit, options, number(ZERO));
    lemma_mixture(reflection, behind, column("fresnel"@), sorts);
    lemma_mixture(surface, reflection, reflectivity, sorts);
    let glass = glass_color(reflection, behind, column("fresnel"@));
    let dull = opaque_color(surface, reflection, reflectivity);
    lemma_conditions(sorts);
    let on_glass = column("hit_ior"@).gt(number(ZERO));
    lemma_if_else(on_glass, glass, dull, sorts);
    lemma_sky_color(sorts);
    lemma_if_else(
        column("primary_t_nearest"@).is_not_null(),
        Triple::if_else(on_glass, glass, dull),
        sky_color(),
        sorts,
    );
    let seen = seen_color(spheres);
    lemma_clamped(seen.x, sorts);
    lemma_clamped(seen.y, sorts);
    lemma_clamped(seen.z, sorts);
    lemma_vector_steps(
        "final_r"@,
        "final_g"@,
        "final_b"@,
        Triple { x: clamped(seen.x), y: clamped(seen.y), z: clamped(seen.z) },
        there,
        by_name(),
    );
}

/// Whether glass is hit, and whether anything is, are truth values.
proof fn lemma_conditions(sorts: Sorts)
    requires
        sorts.contains_key("hit_ior"@) && sorts["hit_ior"@] is Number,
        sorts.contains_key("primary_t_nearest"@),
    ensures
        is_truth(column("hit_ior"@).gt(number(ZERO)), sorts),
        is_truth(column("primary_t_nearest"@).is_not_null(), sorts),
{
    broadcast use group_sorts;

}

// ---------------------------------------------------------------------------
// The scene
// ---------------------------------------------------------------------------

/// What the camera sees.
spec fn view_steps(width: nat, height: nat, spheres: Seq<Sphere>) -> Steps {
    ray_steps(width, height) + trace_steps(spheres, "ray"@, "primary"@) + primary_hit_steps(spheres)
}

/// What is there once it is known what the camera sees.
spec fn has_view(there: Set<Seq<char>>) -> bool {
    &&& has_ray(there, "ray"@)
    &&& has_vector(there, "hit"@)
    &&& has_vector(there, "normal"@)
    &&& there.contains("primary_t_nearest"@)
    &&& there.contains("primary_hit_idx"@)
    &&& there.contains("hit_ior"@)
}

proof fn lemma_view(width: nat, height: nat, spheres: Seq<Sphere>)
    requires
        spheres.len() > 0,
    ensures
        is_sound(view_steps(width, height, spheres), pixel_table(), by_name()),
        has_view(pixel_table().union(names(view_steps(width, height, spheres)))),
{
    lemma_literals();
    lemma_others_by_name();
    lemma_ray_prefix();
    lemma_primary_prefix();
    lemma_point_prefixes();
    lemma_parameters("primary"@);
    let s0 = pixel_table();
    let rays = ray_steps(width, height);
    lemma_camera_rays(width, height, s0);
    let s1 = s0.union(names(rays));
    lemma_trace(spheres, "ray"@, "primary"@, s1);
    let met = trace_steps(spheres, "ray"@, "primary"@);
    lemma_sound_append(rays, met, s0, by_name());
    let s2 = s1.union(names(met));
    lemma_primary_hit(spheres, s2);
    let hits = primary_hit_steps(spheres);
    lemma_sound_append(rays + met, hits, s0, by_name());
}

/// How the rays go on.
spec fn onward_steps(glass: Sphere) -> Steps {
    reflection_steps() + entry_steps() + (seq![exit_step(glass, "internal"@, "internal"@)]
        + exit_point_steps(glass)) + refraction_exit_steps()
}

proof fn lemma_onward(glass: Sphere, there: Set<Seq<char>>)
    requires
        has_view(there),
    ensures
        is_sound(onward_steps(glass), there, by_name()),
        has_ray(names(onward_steps(glass)), "reflect"@),
        has_ray(names(onward_steps(glass)), "refract"@),
        names(onward_steps(glass)).contains("fresnel"@),
{
    lemma_internal_prefix();
    lemma_reflect_prefix();
    lemma_refract_prefix();
    lemma_reflection(there);
    let s1 = there.union(names(reflection_steps()));
    lemma_entry(s1);
    lemma_sound_append(reflection_steps(), entry_steps(), there, by_name());
    let s2 = s1.union(names(entry_steps()));
    lemma_exit(glass, s2);
    let exit = seq![exit_step(glass, "internal"@, "internal"@)] + exit_point_steps(glass);
    lemma_sound_append(reflection_steps() + entry_steps(), exit, there, by_name());
    let s3 = s2.union(names(exit));
    lemma_refraction_exit(s3);
    lemma_sound_append(
        reflection_steps() + entry_steps() + exit,
        refraction_exit_steps(),
        there,
        by_name(),
    );
}

/// What is there once it is known where a ray arrives.
spec fn has_arrival(there: Set<Seq<char>>, prefix: Seq<char>) -> bool {
    &&& there.contains(prefix + "_hit_idx"@)
    &&& there.contains(prefix + "_hit_x"@)
    &&& there.contains(prefix + "_hit_y"@)
    &&& there.contains(prefix + "_hit_z"@)
    &&& there.contains(prefix + "_normal_x"@)
    &&& there.contains(prefix + "_normal_y"@)
    &&& there.contains(prefix + "_normal_z"@)
}

/// The columns of the points where the two rays arrive are numbers.
proof fn lemma_arrival_names(prefix: Seq<char>)
    requires
        prefix == "reflect"@ || prefix == "refract"@,
    ensures
        ray_of_numbers(prefix),
        by_name()(prefix + "_t_nearest"@) is Number,
        by_name()(prefix + "_hit_idx"@) is Index,
        by_name()(prefix + "_hit_x"@) is Number,
        by_name()(prefix + "_hit_y"@) is Number,
        by_name()(prefix + "_hit_z"@) is Number,
        by_name()(prefix + "_normal_x"@) is Number,
        by_name()(prefix + "_normal_y"@) is Number,
        by_name()(prefix + "_normal_z"@) is Number,
{
    lemma_literals();
    lemma_others_by_name();
    lemma_reflect_prefix();
    lemma_refract_prefix();
    reveal_strlit("reflect");
    reveal_strlit("refract");
    reveal_strlit("_hit_x");
    reveal_strlit("_hit_y");
    reveal_strlit("_hit_z");
    reveal_strlit("_normal_x");
    reveal_strlit("_normal_y");
    reveal_strlit("_normal_z");
    assert(prefix.len() == 7);
    lemma_numbers_by_name(prefix + "_hit_x"@);
    lemma_numbers_by_name(prefix + "_hit_y"@);
    lemma_numbers_by_name(prefix + "_hit_z"@);
    lemma_numbers_by_name(prefix + "_normal_x"@);
    lemma_numbers_by_name(prefix + "_normal_y"@);
    lemma_numbers_by_name(prefix + "_normal_z"@);
}

/// Where the reflected or the refracted ray goes is sound.
proof fn lemma_bounce(spheres: Seq<Sphere>, prefix: Seq<char>, there: Set<Seq<char>>)
    requires
        spheres.len() > 0,
        prefix == "reflect"@ || prefix == "refract"@,
        has_ray(there, prefix),
    ensures
        is_sound(
            trace_steps(spheres, prefix, prefix) + arrival_steps(spheres, prefix),
            there,
            by_name(),
        ),
        has_arrival(
            names(trace_steps(spheres, prefix, prefix) + arrival_steps(spheres, prefix)),
            prefix,
        ),
{
    lemma_arrival_names(prefix);
    lemma_parameters(prefix);
    lemma_trace(spheres, prefix, prefix, there);
    let met = trace_steps(spheres, prefix, prefix);
    let s1 = there.union(names(met));
    lemma_arrival(spheres, prefix, s1);
    lemma_sound_append(met, arrival_steps(spheres, prefix), there, by_name());
}

/// The rays are sound.
proof fn lemma_ray_paths(width: nat, height: nat, spheres: Seq<Sphere>, glass: Sphere)
    requires
        spheres.len() > 0,
    ensures
        is_sound(ray_path_steps(width, height, spheres, glass), pixel_table(), by_name()),
        ({
            let there = pixel_table().union(names(ray_path_steps(width, height, spheres, glass)));
            &&& has_view(there)
            &&& has_arrival(there, "reflect"@)
            &&& has_arrival(there, "refract"@)
            &&& there.contains("fresnel"@)
        }),
{
    let s0 = pixel_table();
    let view = view_steps(width, height, spheres);
    lemma_view(width, height, spheres);
    let s1 = s0.union(names(view));
    let onward = onward_steps(glass);
    lemma_onward(glass, s1);
    lemma_sound_append(view, onward, s0, by_name());
    let s2 = s1.union(names(onward));
    let one = trace_steps(spheres, "reflect"@, "reflect"@) + arrival_steps(spheres, "reflect"@);
    lemma_bounce(spheres, "reflect"@, s2);
    lemma_sound_append(view + onward, one, s0, by_name());
    let s3 = s2.union(names(one));
    let two = trace_steps(spheres, "refract"@, "refract"@) + arrival_steps(spheres, "refract"@);
    lemma_bounce(spheres, "refract"@, s3);
    lemma_sound_append(view + onward + one, two, s0, by_name());
    lemma_ray_path_parts(width, height, spheres, glass);
}

/// The parts of the rays' columns.
proof fn lemma_ray_path_parts(width: nat, height: nat, spheres: Seq<Sphere>, glass: Sphere)
    ensures
        view_steps(width, height, spheres) + onward_steps(glass) + (trace_steps(
            spheres,
            "reflect"@,
            "reflect"@,
        ) + arrival_steps(spheres, "reflect"@)) + (trace_steps(spheres, "refract"@, "refract"@)
            + arrival_steps(spheres, "refract"@)) == ray_path_steps(width, height, spheres, glass),
{
    let view = view_steps(width, height, spheres);
    let exit = seq![exit_step(glass, "internal"@, "internal"@)];
    let (r, e, p, x) = (
        reflection_steps(),
        entry_steps(),
        exit_point_steps(glass),
        refraction_exit_steps(),
    );
    let t1 = trace_steps(spheres, "reflect"@, "reflect"@);
    let a1 = arrival_steps(spheres, "reflect"@);
    let t2 = trace_steps(spheres, "refract"@, "refract"@);
    let a2 = arrival_steps(spheres, "refract"@);
    assert(view + (r + e + (exit + p) + x) =~= view + r + e + exit + p + x);
    let start = view + r + e + exit + p + x;
    assert(start + (t1 + a1) + (t2 + a2) =~= start + t1 + a1 + t2 + a2);
}

/// The vectors that the light falls on.
proof fn lemma_lit_vectors(there: Set<Seq<char>>)
    requires
        has_view(there),
        has_arrival(there, "reflect"@),
        has_arrival(there, "refract"@),
    ensures
        vector_of_numbers("hit"@) && vector_of_numbers("normal"@),
        vector_of_numbers("reflect_hit"@) && vector_of_numbers("reflect_normal"@),
        vector_of_numbers("refract_hit"@) && vector_of_numbers("refract_normal"@),
        has_vector(there, "hit"@) && has_vector(there, "normal"@),
        has_vector(there, "reflect_hit"@) && has_vector(there, "reflect_normal"@),
        has_vector(there, "refract_hit"@) && has_vector(there, "refract_normal"@),
        ""@ + "normal"@ == "normal"@,
        "reflect_"@ + "normal"@ == "reflect_normal"@,
        "refract_"@ + "normal"@ == "refract_normal"@,
        ""@ + "in_shadow"@ == "in_shadow"@,
        "reflect_"@ + "in_shadow"@ == "reflect_in_shadow"@,
        "refract_"@ + "in_shadow"@ == "refract_in_shadow"@,
{
    lemma_literals();
    lemma_point_prefixes();
    lemma_reflect_points();
    lemma_refract_points();
    lemma_arrival_names("reflect"@);
    lemma_arrival_names("refract"@);
    reveal_strlit("");
    assert(""@ + "normal"@ =~= "normal"@);
    assert(""@ + "in_shadow"@ =~= "in_shadow"@);
}

/// The light is sound.
proof fn lemma_light(
    spheres: Seq<Sphere>,
    light: Light,
    ambient: Number,
    there: Set<Seq<char>>,
)
    requires
        has_view(there),
        has_arrival(there, "reflect"@),
        has_arrival(there, "refract"@),
    ensures
        is_sound(light_steps(spheres, light, ambient), there, by_name()),
        set!["primary_brightness"@, "reflect_brightness"@, "refract_brightness"@].subset_of(
            names(light_steps(spheres, light, ambient)),
        ),
{
    lemma_literals();
    lemma_others_by_name();
    lemma_lit_vectors(there);
    lemma_shadow_names(""@);
    lemma_shadow_names("reflect_"@);
    lemma_shadow_names("refract_"@);
    let a = point_shadow_steps(spheres, light, ""@, "hit"@);
    lemma_point_shadow(spheres, light, ""@, "hit"@, there);
    let s1 = there.union(names(a));
    let b = point_shadow_steps(spheres, light, "reflect_"@, "reflect_hit"@);
    lemma_point_shadow(spheres, light, "reflect_"@, "reflect_hit"@, s1);
    lemma_sound_append(a, b, there, by_name());
    let s2 = s1.union(names(b));
    let c = point_shadow_steps(spheres, light, "refract_"@, "refract_hit"@);
    lemma_point_shadow(spheres, light, "refract_"@, "refract_hit"@, s2);
    lemma_sound_append(a + b, c, there, by_name());
    let s3 = s2.union(names(c));
    let lights = lemma_three_lights(light, ambient, s3);
    lemma_sound_append(a + b + c, lights, there, by_name());
}

/// How bright the three points are is sound.
proof fn lemma_three_lights(light: Light, ambient: Number, there: Set<Seq<char>>) -> (lights: Steps)
    requires
        has_view(there),
        has_arrival(there, "reflect"@),
        has_arrival(there, "refract"@),
        set!["in_shadow"@, "reflect_in_shadow"@, "refract_in_shadow"@].subset_of(there),
    ensures
        lights == seq![
            lighting_step(
                light,
                ambient,
                "hit"@,
                "normal"@,
                "in_shadow"@,
                "primary_brightness"@,
            ),
            lighting_step(
                light,
                ambient,
                "reflect_hit"@,
                "reflect_normal"@,
                "reflect_in_shadow"@,
                "reflect_brightness"@,
            ),
            lighting_step(
                light,
                ambient,
                "refract_hit"@,
                "refract_normal"@,
                "refract_in_shadow"@,
                "refract_brightness"@,
            ),
        ],
        is_sound(lights, there, by_name()),
        names(lights) == set!["primary_brightness"@, "reflect_brightness"@,
            "refract_brightness"@],
{
    lemma_literals();
    lemma_others_by_name();
    lemma_lit_vectors(there);
    let one = lighting_step(
        light,
        ambient,
        "hit"@,
        "normal"@,
        "in_shadow"@,
        "primary_brightness"@,
    );
    let two = lighting_step(
        light,
        ambient,
        "reflect_hit"@,
        "reflect_normal"@,
        "reflect_in_shadow"@,
        "reflect_brightness"@,
    );
    let three = lighting_step(
        light,
        ambient,
        "refract_hit"@,
        "refract_normal"@,
        "refract_in_shadow"@,
        "refract_brightness"@,
    );
    lemma_lighting(
        light,
        ambient,
        "hit"@,
        "normal"@,
        "in_shadow"@,
        "primary_brightness"@,
        there,
    );
    let s1 = there.union(names(seq![one]));
    lemma_lighting(
        light,
        ambient,
        "reflect_hit"@,
        "reflect_normal"@,
        "reflect_in_shadow"@,
        "reflect_brightness"@,
        s1,
    );
    lemma_sound_append(seq![one], seq![two], there, by_name());
    let s2 = s1.union(names(seq![two]));
    lemma_lighting(
        light,
        ambient,
        "refract_hit"@,
        "refract_normal"@,
        "refract_in_shadow"@,
        "refract_brightness"@,
        s2,
    );
    lemma_sound_append(seq![one] + seq![two], seq![three], there, by_name());
    assert(seq![one] + seq![two] + seq![three] =~= seq![one, two, three]);
    assert(names(seq![one]).union(names(seq![two])).union(names(seq![three]))
        =~= set!["primary_brightness"@, "reflect_brightness"@, "refract_brightness"@]);
    seq![one, two, three]
}

/// The plan of the scene with refraction is sound and gives the columns of the
/// colour.
pub proof fn law_refraction_is_sound(
    width: nat,
    height: nat,
    spheres: Seq<Sphere>,
    glass: Sphere,
    light: Light,
    ambient: Number,
)
    requires
        spheres.len() > 0,
    ensures
        is_sound(
            scene_steps(width, height, spheres, glass, light, ambient),
            pixel_table(),
            by_name(),
        ),
        set!["final_r"@, "final_g"@, "final_b"@].subset_of(
            names(scene_steps(width, height, spheres, glass, light, ambient)),
        ),
{
    lemma_reflect_prefix();
    lemma_refract_prefix();
    let s0 = pixel_table();
    let paths = ray_path_steps(width, height, spheres, glass);
    lemma_ray_paths(width, height, spheres, glass);
    let s1 = s0.union(names(paths));
    let lights = light_steps(spheres, light, ambient);
    lemma_light(spheres, light, ambient, s1);
    lemma_sound_append(paths, lights, s0, by_name());
    let s2 = s1.union(names(lights));
    lemma_colors(spheres, s2);
    lemma_sound_append(paths + lights, color_steps(spheres), s0, by_name());
}

} // verus!

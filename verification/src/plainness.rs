//! Names that the engine takes as they are written.
use crate::dataframe_sphere;
use crate::engine::{has_plain_names, is_plain, is_small_letter};
use crate::multi_sphere;
use crate::number::Number;
use crate::plan::Steps;
use crate::refraction;
use crate::refraction_soundness::{by_name, law_refraction_is_sound};
use crate::shadows;
use crate::soundness::{
    hit_and_shadow, law_dataframe_sphere_is_sound, law_multi_sphere_is_sound, law_shadows_is_sound,
    law_sound_names_stay, only_numbers, pixel_table,
};
use crate::trace::{Camera, ray_steps};
use vstd::prelude::*;

verus! {

/// Whether all columns that a plan adds have plain names.
pub open spec fn adds_plain_names(steps: Steps) -> bool {
    forall|i: int| 0 <= i < steps.len() ==> is_plain((#[trigger] steps[i]).0)
}

/// A plain text behind another one gives a plain text.
proof fn lemma_joined(a: Seq<char>, b: Seq<char>)
    requires
        is_plain(a),
        is_plain(b),
    ensures
        is_plain(a + b),
{
    let both = a + b;
    assert(both[0] == a[0]);
    assert forall|i: int| 0 <= i < both.len() implies is_small_letter(#[trigger] both[i]) || '0'
        <= both[i] <= '9' || both[i] == '_' by {
        if i < a.len() {
            assert(both[i] == a[i]);
        } else {
            assert(both[i] == b[i - a.len()]);
        }
    }
}

proof fn lemma_both(a: Steps, b: Steps)
    requires
        adds_plain_names(a),
        adds_plain_names(b),
    ensures
        adds_plain_names(a + b),
{
    let both = a + b;
    assert forall|i: int| 0 <= i < both.len() implies is_plain((#[trigger] both[i]).0) by {
        if i < a.len() {
            assert(both[i] == a[i]);
        } else {
            assert(both[i] == b[i - a.len()]);
        }
    }
}

proof fn lemma_pixel_and_ray_names()
    ensures
        is_plain("x"@),
        is_plain("y"@),
        is_plain("origin_x"@),
        is_plain("origin_y"@),
        is_plain("origin_z"@),
        is_plain("dir_x"@),
        is_plain("dir_y"@),
        is_plain("dir_z"@),
        is_plain("t"@),
        is_plain("t_"@),
        is_plain("t_nearest"@),
        is_plain("hit_sphere"@),
{
    reveal_strlit("x");
    reveal_strlit("y");
    reveal_strlit("origin_x");
    reveal_strlit("origin_y");
    reveal_strlit("origin_z");
    reveal_strlit("dir_x");
    reveal_strlit("dir_y");
    reveal_strlit("dir_z");
    reveal_strlit("t");
    reveal_strlit("t_");
    reveal_strlit("t_nearest");
    reveal_strlit("hit_sphere");
}

proof fn lemma_result_and_point_names()
    ensures
        is_plain("final_r"@),
        is_plain("final_g"@),
        is_plain("final_b"@),
        is_plain("hit_x"@),
        is_plain("hit_y"@),
        is_plain("hit_z"@),
        is_plain("normal_x"@),
        is_plain("normal_y"@),
        is_plain("normal_z"@),
{
    reveal_strlit("final_r");
    reveal_strlit("final_g");
    reveal_strlit("final_b");
    reveal_strlit("hit_x");
    reveal_strlit("hit_y");
    reveal_strlit("hit_z");
    reveal_strlit("normal_x");
    reveal_strlit("normal_y");
    reveal_strlit("normal_z");
}

proof fn lemma_shadow_names()
    ensures
        is_plain("shadow_ox"@),
        is_plain("shadow_oy"@),
        is_plain("shadow_oz"@),
        is_plain("shadow_dx"@),
        is_plain("shadow_dy"@),
        is_plain("shadow_dz"@),
        is_plain("light_dist"@),
        is_plain("shadow_t_"@),
        is_plain("in_shadow"@),
        is_plain("brightness"@),
{
    reveal_strlit("shadow_ox");
    reveal_strlit("shadow_oy");
    reveal_strlit("shadow_oz");
    reveal_strlit("shadow_dx");
    reveal_strlit("shadow_dy");
    reveal_strlit("shadow_dz");
    reveal_strlit("light_dist");
    reveal_strlit("shadow_t_");
    reveal_strlit("in_shadow");
    reveal_strlit("brightness");
}

/// The names of the spheres in the scenes are plain.
pub(crate) proof fn lemma_sphere_names()
    ensures
        is_plain("s0"@),
        is_plain("red"@),
        is_plain("green"@),
        is_plain("blue"@),
        is_plain("yellow"@),
        is_plain("ground"@),
        is_plain("glass"@),
{
    reveal_strlit("s0");
    reveal_strlit("red");
    reveal_strlit("green");
    reveal_strlit("blue");
    reveal_strlit("yellow");
    reveal_strlit("ground");
    reveal_strlit("glass");
}

proof fn lemma_camera_names()
    ensures
        is_plain("ray_ox"@),
        is_plain("ray_oy"@),
        is_plain("ray_oz"@),
        is_plain("ray_dx"@),
        is_plain("ray_dy"@),
        is_plain("ray_dz"@),
        is_plain("hit_ior"@),
        is_plain("fresnel"@),
{
    reveal_strlit("ray_ox");
    reveal_strlit("ray_oy");
    reveal_strlit("ray_oz");
    reveal_strlit("ray_dx");
    reveal_strlit("ray_dy");
    reveal_strlit("ray_dz");
    reveal_strlit("hit_ior");
    reveal_strlit("fresnel");
}

proof fn lemma_reflect_names()
    ensures
        is_plain("reflect_ox"@),
        is_plain("reflect_oy"@),
        is_plain("reflect_oz"@),
        is_plain("reflect_dx"@),
        is_plain("reflect_dy"@),
        is_plain("reflect_dz"@),
{
    reveal_strlit("reflect_ox");
    reveal_strlit("reflect_oy");
    reveal_strlit("reflect_oz");
    reveal_strlit("reflect_dx");
    reveal_strlit("reflect_dy");
    reveal_strlit("reflect_dz");
}

proof fn lemma_internal_names()
    ensures
        is_plain("internal_ox"@),
        is_plain("internal_oy"@),
        is_plain("internal_oz"@),
        is_plain("internal_dx"@),
        is_plain("internal_dy"@),
        is_plain("internal_dz"@),
{
    reveal_strlit("internal_ox");
    reveal_strlit("internal_oy");
    reveal_strlit("internal_oz");
    reveal_strlit("internal_dx");
    reveal_strlit("internal_dy");
    reveal_strlit("internal_dz");
}

proof fn lemma_exit_names()
    ensures
        is_plain("exit_x"@),
        is_plain("exit_y"@),
        is_plain("exit_z"@),
        is_plain("exit_normal_x"@),
        is_plain("exit_normal_y"@),
        is_plain("exit_normal_z"@),
{
    reveal_strlit("exit_x");
    reveal_strlit("exit_y");
    reveal_strlit("exit_z");
    reveal_strlit("exit_normal_x");
    reveal_strlit("exit_normal_y");
    reveal_strlit("exit_normal_z");
}

proof fn lemma_refract_names()
    ensures
        is_plain("refract_ox"@),
        is_plain("refract_oy"@),
        is_plain("refract_oz"@),
        is_plain("refract_dx"@),
        is_plain("refract_dy"@),
        is_plain("refract_dz"@),
{
    reveal_strlit("refract_ox");
    reveal_strlit("refract_oy");
    reveal_strlit("refract_oz");
    reveal_strlit("refract_dx");
    reveal_strlit("refract_dy");
    reveal_strlit("refract_dz");
}

proof fn lemma_light_names()
    ensures
        is_plain("total_internal_reflection"@),
        is_plain("primary_brightness"@),
        is_plain("reflect_brightness"@),
        is_plain("refract_brightness"@),
{
    reveal_strlit("total_internal_reflection");
    reveal_strlit("primary_brightness");
    reveal_strlit("reflect_brightness");
    reveal_strlit("refract_brightness");
}

proof fn lemma_prefix_names()
    ensures
        is_plain("primary"@),
        is_plain("reflect"@),
        is_plain("refract"@),
        is_plain("internal"@),
        is_plain("reflect_"@),
        is_plain("refract_"@),
{
    reveal_strlit("primary");
    reveal_strlit("reflect");
    reveal_strlit("refract");
    reveal_strlit("internal");
    reveal_strlit("reflect_");
    reveal_strlit("refract_");
}

proof fn lemma_suffix_names()
    ensures
        is_plain("_normal_x"@),
        is_plain("_normal_y"@),
        is_plain("_normal_z"@),
        is_plain("_r"@),
        is_plain("_g"@),
        is_plain("_b"@),
        is_plain("_nx"@),
        is_plain("_ny"@),
        is_plain("_nz"@),
        is_plain("_t_"@),
        is_plain("_t_nearest"@),
        is_plain("_hit_idx"@),
        is_plain("_exit_t"@),
        is_plain("_hit_x"@),
        is_plain("_hit_y"@),
        is_plain("_hit_z"@),
{
    reveal_strlit("_normal_x");
    reveal_strlit("_normal_y");
    reveal_strlit("_normal_z");
    reveal_strlit("_r");
    reveal_strlit("_g");
    reveal_strlit("_b");
    reveal_strlit("_nx");
    reveal_strlit("_ny");
    reveal_strlit("_nz");
    reveal_strlit("_t_");
    reveal_strlit("_t_nearest");
    reveal_strlit("_hit_idx");
    reveal_strlit("_exit_t");
    reveal_strlit("_hit_x");
    reveal_strlit("_hit_y");
    reveal_strlit("_hit_z");
}

/// The camera's rays.
proof fn lemma_rays(width: nat, height: nat, camera: Camera)
    ensures
        adds_plain_names(ray_steps(width, height, camera)),
{
    lemma_pixel_and_ray_names();
}

/// The pixel table has plain names.
proof fn lemma_pixel_table()
    ensures
        forall|name: Seq<char>| #[trigger] pixel_table().contains(name) ==> is_plain(name),
{
    lemma_pixel_and_ray_names();
}

/// The names in the scene with a single sphere stay as they are written.
pub proof fn law_dataframe_sphere_names_stay(
    width: nat,
    height: nat,
    camera: Camera,
    sphere: dataframe_sphere::Sphere,
)
    ensures
        ({
            let steps = dataframe_sphere::scene_steps(width, height, camera, sphere);
            forall|i: int| 0 <= i < steps.len() ==> has_plain_names((#[trigger] steps[i]).1)
        }),
{
    let steps = dataframe_sphere::scene_steps(width, height, camera, sphere);
    let rays = ray_steps(width, height, camera);
    let hit = dataframe_sphere::intersect_steps(sphere, "t"@);
    let normals = dataframe_sphere::normal_steps(sphere, "t"@, "s0"@);
    let colors = dataframe_sphere::color_steps("t"@, "s0"@);
    lemma_rays(width, height, camera);
    lemma_pixel_and_ray_names();
    lemma_sphere_names();
    lemma_suffix_names();
    lemma_joined("s0"@, "_normal_x"@);
    lemma_joined("s0"@, "_normal_y"@);
    lemma_joined("s0"@, "_normal_z"@);
    lemma_joined("s0"@, "_r"@);
    lemma_joined("s0"@, "_g"@);
    lemma_joined("s0"@, "_b"@);
    lemma_both(rays, hit);
    lemma_both(rays + hit, normals);
    lemma_both(rays + hit + normals, colors);
    lemma_pixel_table();
    law_dataframe_sphere_is_sound(width, height, camera, sphere);
    law_sound_names_stay(steps, pixel_table(), only_numbers());
}

/// The columns of the spheres' normals.
proof fn lemma_all_normals(spheres: Seq<multi_sphere::Sphere>)
    requires
        forall|i: int| 0 <= i < spheres.len() ==> is_plain((#[trigger] spheres[i]).name@),
    ensures
        adds_plain_names(multi_sphere::all_normal_steps(spheres)),
    decreases spheres.len(),
{
    if spheres.len() > 0 {
        let before = spheres.drop_last();
        let name = spheres.last().name@;
        assert forall|i: int| 0 <= i < before.len() implies is_plain((#[trigger] before[i]).name@) by {
            assert(before[i] == spheres[i]);
        }
        lemma_all_normals(before);
        assert(spheres.last() == spheres[spheres.len() - 1]);
        lemma_suffix_names();
        lemma_joined(name, "_nx"@);
        lemma_joined(name, "_ny"@);
        lemma_joined(name, "_nz"@);
        lemma_both(
            multi_sphere::all_normal_steps(before),
            multi_sphere::normal_steps(spheres.last()),
        );
    }
}

/// The names in the scene with several spheres stay as they are written, if those
/// of the spheres are plain.
pub proof fn law_multi_sphere_names_stay(
    width: nat,
    height: nat,
    camera: Camera,
    spheres: Seq<multi_sphere::Sphere>,
)
    requires
        spheres.len() > 0,
        forall|i: int| 0 <= i < spheres.len() ==> is_plain((#[trigger] spheres[i]).name@),
    ensures
        ({
            let steps = multi_sphere::scene_steps(width, height, camera, spheres);
            forall|i: int| 0 <= i < steps.len() ==> has_plain_names((#[trigger] steps[i]).1)
        }),
{
    let steps = multi_sphere::scene_steps(width, height, camera, spheres);
    let rays = ray_steps(width, height, camera);
    let met = multi_sphere::intersect_steps(spheres);
    let hits = seq![multi_sphere::nearest_step(spheres), multi_sphere::index_step(spheres)];
    let normals = multi_sphere::all_normal_steps(spheres);
    let colors = multi_sphere::color_steps(spheres);
    lemma_rays(width, height, camera);
    lemma_pixel_and_ray_names();
    lemma_result_and_point_names();
    assert forall|i: int| 0 <= i < met.len() implies is_plain((#[trigger] met[i]).0) by {
        lemma_joined("t_"@, spheres[i].name@);
    }
    lemma_all_normals(spheres);
    lemma_both(rays, met);
    lemma_both(rays + met, hits);
    lemma_both(rays + met + hits, normals);
    lemma_both(rays + met + hits + normals, colors);
    lemma_pixel_table();
    law_multi_sphere_is_sound(width, height, camera, spheres);
    law_sound_names_stay(steps, pixel_table(), hit_and_shadow());
}

/// The parts of the scene with shadows.
proof fn lemma_shadows_parts(
    spheres: Seq<shadows::Sphere>,
    light: shadows::Light,
    ambient: Number,
)
    requires
        forall|i: int| 0 <= i < spheres.len() ==> is_plain((#[trigger] spheres[i]).name@),
    ensures
        adds_plain_names(shadows::intersect_steps(spheres)),
        adds_plain_names(seq![shadows::nearest_step(spheres), shadows::index_step(spheres)]),
        adds_plain_names(shadows::point_steps(spheres)),
        adds_plain_names(shadows::shadow_ray_steps(light)),
        adds_plain_names(shadows::shadow_steps(spheres)),
        adds_plain_names(
            seq![shadows::in_shadow_step(spheres), shadows::lighting_step(light, ambient)],
        ),
        adds_plain_names(shadows::color_steps(spheres)),
{
    lemma_pixel_and_ray_names();
    lemma_result_and_point_names();
    lemma_shadow_names();
    let met = shadows::intersect_steps(spheres);
    let blocks = shadows::shadow_steps(spheres);
    assert forall|i: int| 0 <= i < met.len() implies is_plain((#[trigger] met[i]).0) by {
        lemma_joined("t_"@, spheres[i].name@);
    }
    assert forall|i: int| 0 <= i < blocks.len() implies is_plain((#[trigger] blocks[i]).0) by {
        lemma_joined("shadow_t_"@, spheres[i].name@);
    }
}

/// The names in the scene with shadows stay as they are written, if those of the
/// spheres are plain.
pub proof fn law_shadows_names_stay(
    width: nat,
    height: nat,
    camera: Camera,
    spheres: Seq<shadows::Sphere>,
    light: shadows::Light,
    ambient: Number,
)
    requires
        spheres.len() > 0,
        forall|i: int| 0 <= i < spheres.len() ==> is_plain((#[trigger] spheres[i]).name@),
    ensures
        ({
            let steps = shadows::scene_steps(width, height, camera, spheres, light, ambient);
            forall|i: int| 0 <= i < steps.len() ==> has_plain_names((#[trigger] steps[i]).1)
        }),
{
    let steps = shadows::scene_steps(width, height, camera, spheres, light, ambient);
    let rays = ray_steps(width, height, camera);
    let met = shadows::intersect_steps(spheres);
    let hits = seq![shadows::nearest_step(spheres), shadows::index_step(spheres)];
    let points = shadows::point_steps(spheres);
    let ray = shadows::shadow_ray_steps(light);
    let blocks = shadows::shadow_steps(spheres);
    let lights = seq![shadows::in_shadow_step(spheres), shadows::lighting_step(light, ambient)];
    let colors = shadows::color_steps(spheres);
    lemma_rays(width, height, camera);
    lemma_shadows_parts(spheres, light, ambient);
    lemma_both(rays, met);
    lemma_both(rays + met, hits);
    lemma_both(rays + met + hits, points);
    lemma_both(rays + met + hits + points, ray);
    lemma_both(rays + met + hits + points + ray, blocks);
    lemma_both(rays + met + hits + points + ray + blocks, lights);
    lemma_both(rays + met + hits + points + ray + blocks + lights, colors);
    lemma_pixel_table();
    law_shadows_is_sound(width, height, camera, spheres, light, ambient);
    law_sound_names_stay(steps, pixel_table(), hit_and_shadow());
}

/// What a ray meets.
proof fn lemma_trace(
    spheres: Seq<refraction::Sphere>,
    ray_prefix: Seq<char>,
    result_prefix: Seq<char>,
)
    requires
        forall|i: int| 0 <= i < spheres.len() ==> is_plain((#[trigger] spheres[i]).name@),
        is_plain(result_prefix),
    ensures
        adds_plain_names(refraction::trace_steps(spheres, ray_prefix, result_prefix)),
{
    lemma_suffix_names();
    lemma_joined(result_prefix, "_t_"@);
    lemma_joined(result_prefix, "_t_nearest"@);
    lemma_joined(result_prefix, "_hit_idx"@);
    let met = refraction::intersect_steps(spheres, ray_prefix, result_prefix);
    let hits = seq![
        refraction::nearest_step(spheres, result_prefix),
        refraction::index_step(spheres, result_prefix),
    ];
    assert forall|i: int| 0 <= i < met.len() implies is_plain((#[trigger] met[i]).0) by {
        lemma_joined(result_prefix + "_t_"@, spheres[i].name@);
    }
    lemma_both(met, hits);
}

/// Where a ray arrives.
proof fn lemma_arrival(spheres: Seq<refraction::Sphere>, prefix: Seq<char>)
    requires
        is_plain(prefix),
    ensures
        adds_plain_names(refraction::arrival_steps(spheres, prefix)),
{
    lemma_suffix_names();
    lemma_joined(prefix, "_hit_x"@);
    lemma_joined(prefix, "_hit_y"@);
    lemma_joined(prefix, "_hit_z"@);
    lemma_joined(prefix, "_normal_x"@);
    lemma_joined(prefix, "_normal_y"@);
    lemma_joined(prefix, "_normal_z"@);
}

/// A plain text behind nothing or another one gives a plain text.
proof fn lemma_behind(prefix: Seq<char>, name: Seq<char>)
    requires
        prefix.len() == 0 || is_plain(prefix),
        is_plain(name),
    ensures
        is_plain(prefix + name),
{
    if prefix.len() == 0 {
        assert(prefix + name =~= name);
    } else {
        lemma_joined(prefix, name);
    }
}

/// The opaque ones among spheres with plain names have plain names.
proof fn lemma_opaque_names(spheres: Seq<refraction::Sphere>)
    requires
        forall|i: int| 0 <= i < spheres.len() ==> is_plain((#[trigger] spheres[i]).name@),
    ensures
        forall|i: int|
            0 <= i < refraction::opaque(spheres).len() ==> is_plain(
                (#[trigger] refraction::opaque(spheres)[i]).name@,
            ),
    decreases spheres.len(),
{
    reveal(Seq::filter);
    if spheres.len() > 0 {
        let before = spheres.drop_last();
        assert forall|i: int| 0 <= i < before.len() implies is_plain((#[trigger] before[i]).name@) by {
            assert(before[i] == spheres[i]);
        }
        lemma_opaque_names(before);
        assert(spheres.last() == spheres[spheres.len() - 1]);
        let kept = refraction::opaque(before);
        assert(refraction::opaque(spheres) == if spheres.last().transparent() {
            kept
        } else {
            kept.push(spheres.last())
        });
        assert forall|i: int| 0 <= i < refraction::opaque(spheres).len() implies is_plain(
            (#[trigger] refraction::opaque(spheres)[i]).name@,
        ) by {
            if i < kept.len() {
                assert(refraction::opaque(spheres)[i] == kept[i]);
            }
        }
    }
}

/// Whether a point lies in shadow.
proof fn lemma_point_shadow(
    spheres: Seq<refraction::Sphere>,
    light: refraction::Light,
    prefix: Seq<char>,
    hit_prefix: Seq<char>,
)
    requires
        forall|i: int| 0 <= i < spheres.len() ==> is_plain((#[trigger] spheres[i]).name@),
        prefix.len() == 0 || is_plain(prefix),
    ensures
        adds_plain_names(refraction::point_shadow_steps(spheres, light, prefix, hit_prefix)),
{
    lemma_shadow_names();
    lemma_behind(prefix, "shadow_ox"@);
    lemma_behind(prefix, "shadow_oy"@);
    lemma_behind(prefix, "shadow_oz"@);
    lemma_behind(prefix, "shadow_dx"@);
    lemma_behind(prefix, "shadow_dy"@);
    lemma_behind(prefix, "shadow_dz"@);
    lemma_behind(prefix, "light_dist"@);
    lemma_behind(prefix, "shadow_t_"@);
    lemma_behind(prefix, "in_shadow"@);
    let ray = refraction::shadow_ray_steps(light, prefix, hit_prefix);
    let blocking = refraction::opaque(spheres);
    let blocks = refraction::shadow_steps(spheres, prefix);
    let last = seq![refraction::in_shadow_step(spheres, prefix)];
    lemma_opaque_names(spheres);
    assert forall|i: int| 0 <= i < blocks.len() implies is_plain((#[trigger] blocks[i]).0) by {
        lemma_joined(prefix + "shadow_t_"@, blocking[i].name@);
    }
    lemma_both(ray, blocks);
    lemma_both(ray + blocks, last);
}

/// The parts of the rays' columns that do not depend on the spheres' names.
proof fn lemma_path_parts(
    width: nat,
    height: nat,
    spheres: Seq<refraction::Sphere>,
    glass: refraction::Sphere,
)
    ensures
        adds_plain_names(refraction::ray_steps(width, height)),
        adds_plain_names(refraction::primary_hit_steps(spheres)),
        adds_plain_names(refraction::reflection_steps()),
        adds_plain_names(refraction::entry_steps()),
        adds_plain_names(seq![refraction::exit_step(glass, "internal"@, "internal"@)]),
        adds_plain_names(refraction::exit_point_steps(glass)),
        adds_plain_names(refraction::refraction_exit_steps()),
{
    lemma_camera_names();
    lemma_result_and_point_names();
    lemma_reflect_names();
    lemma_internal_names();
    lemma_exit_names();
    lemma_refract_names();
    lemma_light_names();
    lemma_prefix_names();
    lemma_suffix_names();
    lemma_joined("internal"@, "_exit_t"@);
}

/// The rays.
proof fn lemma_paths(
    width: nat,
    height: nat,
    spheres: Seq<refraction::Sphere>,
    glass: refraction::Sphere,
)
    requires
        forall|i: int| 0 <= i < spheres.len() ==> is_plain((#[trigger] spheres[i]).name@),
    ensures
        adds_plain_names(refraction::ray_path_steps(width, height, spheres, glass)),
{
    let rays = refraction::ray_steps(width, height);
    let t0 = refraction::trace_steps(spheres, "ray"@, "primary"@);
    let hits = refraction::primary_hit_steps(spheres);
    let bounce = refraction::reflection_steps();
    let entry = refraction::entry_steps();
    let exit = seq![refraction::exit_step(glass, "internal"@, "internal"@)];
    let points = refraction::exit_point_steps(glass);
    let on = refraction::refraction_exit_steps();
    let t1 = refraction::trace_steps(spheres, "reflect"@, "reflect"@);
    let a1 = refraction::arrival_steps(spheres, "reflect"@);
    let t2 = refraction::trace_steps(spheres, "refract"@, "refract"@);
    let a2 = refraction::arrival_steps(spheres, "refract"@);
    lemma_prefix_names();
    lemma_path_parts(width, height, spheres, glass);
    lemma_trace(spheres, "ray"@, "primary"@);
    lemma_trace(spheres, "reflect"@, "reflect"@);
    lemma_trace(spheres, "refract"@, "refract"@);
    lemma_arrival(spheres, "reflect"@);
    lemma_arrival(spheres, "refract"@);
    let s1 = rays + t0;
    lemma_both(rays, t0);
    let s2 = s1 + hits;
    lemma_both(s1, hits);
    let s3 = s2 + bounce;
    lemma_both(s2, bounce);
    let s4 = s3 + entry;
    lemma_both(s3, entry);
    let s5 = s4 + exit;
    lemma_both(s4, exit);
    let s6 = s5 + points;
    lemma_both(s5, points);
    let s7 = s6 + on;
    lemma_both(s6, on);
    let s8 = s7 + t1;
    lemma_both(s7, t1);
    let s9 = s8 + a1;
    lemma_both(s8, a1);
    let s10 = s9 + t2;
    lemma_both(s9, t2);
    lemma_both(s10, a2);
}

/// The names in the scene with refraction stay as they are written, if those of the
/// spheres are plain.
pub proof fn law_refraction_names_stay(
    width: nat,
    height: nat,
    spheres: Seq<refraction::Sphere>,
    glass: refraction::Sphere,
    light: refraction::Light,
    ambient: Number,
)
    requires
        spheres.len() > 0,
        forall|i: int| 0 <= i < spheres.len() ==> is_plain((#[trigger] spheres[i]).name@),
    ensures
        ({
            let steps = refraction::scene_steps(width, height, spheres, glass, light, ambient);
            forall|i: int| 0 <= i < steps.len() ==> has_plain_names((#[trigger] steps[i]).1)
        }),
{
    let steps = refraction::scene_steps(width, height, spheres, glass, light, ambient);
    let paths = refraction::ray_path_steps(width, height, spheres, glass);
    let a = refraction::point_shadow_steps(spheres, light, ""@, "hit"@);
    let b = refraction::point_shadow_steps(spheres, light, "reflect_"@, "reflect_hit"@);
    let c = refraction::point_shadow_steps(spheres, light, "refract_"@, "refract_hit"@);
    lemma_paths(width, height, spheres, glass);
    lemma_prefix_names();
    reveal_strlit("");
    lemma_point_shadow(spheres, light, ""@, "hit"@);
    lemma_point_shadow(spheres, light, "reflect_"@, "reflect_hit"@);
    lemma_point_shadow(spheres, light, "refract_"@, "refract_hit"@);
    lemma_light_names();
    lemma_result_and_point_names();
    lemma_both(a, b);
    lemma_both(a + b, c);
    let lights = refraction::light_steps(spheres, light, ambient);
    let last = lights.skip((a + b + c).len() as int);
    assert(adds_plain_names(last));
    assert(lights =~= a + b + c + last);
    lemma_both(a + b + c, last);
    lemma_both(paths, lights);
    lemma_both(paths + lights, refraction::color_steps(spheres));
    lemma_pixel_table();
    law_refraction_is_sound(width, height, spheres, glass, light, ambient);
    law_sound_names_stay(steps, pixel_table(), by_name());
}

} // verus!

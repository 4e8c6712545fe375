//! Pixels stay where they are: no scene touches the columns of a pixel's place.
use crate::dataframe_sphere;
use crate::meaning::{Arithmetic, Row};
use crate::multi_sphere;
use crate::number::Number;
use crate::plan::Steps;
use crate::refraction;
use crate::shadows;
use crate::trace::{Camera, ray_steps};
use vstd::prelude::*;

verus! {

/// Whether a plan leaves the place of the pixel as it is.
pub open spec fn keeps_place(steps: Steps) -> bool {
    forall|i: int|
        0 <= i < steps.len() ==> (#[trigger] steps[i]).0 != "x"@ && steps[i].0 != "y"@
}

/// Where a plan leaves the place of the pixel as it is, so does carrying it out.
pub proof fn law_place_is_kept(m: Arithmetic, steps: Steps, row: Row)
    requires
        keeps_place(steps),
        row.contains_key("x"@),
        row.contains_key("y"@),
    ensures
        m.run(steps, row).contains_key("x"@) && m.run(steps, row)["x"@] == row["x"@],
        m.run(steps, row).contains_key("y"@) && m.run(steps, row)["y"@] == row["y"@],
    decreases steps.len(),
{
    if steps.len() > 0 {
        let before = steps.drop_last();
        assert forall|i: int| 0 <= i < before.len() implies (#[trigger] before[i]).0 != "x"@
            && before[i].0 != "y"@ by {
            assert(before[i] == steps[i]);
        }
        law_place_is_kept(m, before, row);
        assert(steps.last() == steps[steps.len() - 1]);
    }
}

/// Whether all names have more than one character.
spec fn has_long_names(steps: Steps) -> bool {
    forall|i: int| 0 <= i < steps.len() ==> (#[trigger] steps[i]).0.len() > 1
}

proof fn lemma_long_names(steps: Steps)
    requires
        has_long_names(steps),
    ensures
        keeps_place(steps),
{
    reveal_strlit("x");
    reveal_strlit("y");
    assert forall|i: int| 0 <= i < steps.len() implies (#[trigger] steps[i]).0 != "x"@
        && steps[i].0 != "y"@ by {
        assert(steps[i].0.len() > 1);
    }
}

proof fn lemma_both(a: Steps, b: Steps)
    requires
        has_long_names(a),
        has_long_names(b),
    ensures
        has_long_names(a + b),
{
    let both = a + b;
    assert forall|i: int| 0 <= i < both.len() implies (#[trigger] both[i]).0.len() > 1 by {
        if i < a.len() {
            assert(both[i] == a[i]);
        } else {
            assert(both[i] == b[i - a.len()]);
        }
    }
}

/// The camera's rays.
proof fn lemma_rays(width: nat, height: nat, camera: Camera)
    ensures
        has_long_names(ray_steps(width, height, camera)),
{
    reveal_strlit("origin_x");
    reveal_strlit("origin_y");
    reveal_strlit("origin_z");
    reveal_strlit("dir_x");
    reveal_strlit("dir_y");
    reveal_strlit("dir_z");
}

/// The scene with a single sphere leaves pixels where they are.
pub proof fn law_dataframe_sphere_keeps_place(
    width: nat,
    height: nat,
    camera: Camera,
    sphere: dataframe_sphere::Sphere,
)
    ensures
        keeps_place(dataframe_sphere::scene_steps(width, height, camera, sphere)),
{
    let rays = ray_steps(width, height, camera);
    let hit = dataframe_sphere::intersect_steps(sphere, "t"@);
    let normals = dataframe_sphere::normal_steps(sphere, "t"@, "s0"@);
    let colors = dataframe_sphere::color_steps("t"@, "s0"@);
    lemma_rays(width, height, camera);
    lemma_long_names(rays);
    reveal_strlit("s0");
    lemma_long_names(normals);
    lemma_long_names(colors);
    reveal_strlit("t");
    reveal_strlit("x");
    reveal_strlit("y");
    assert("t"@[0] == 't' && "x"@[0] == 'x' && "y"@[0] == 'y');
    let steps = dataframe_sphere::scene_steps(width, height, camera, sphere);
    assert forall|i: int| 0 <= i < steps.len() implies (#[trigger] steps[i]).0 != "x"@ && steps[i].0
        != "y"@ by {
        let (a, b, c) = (rays.len(), rays.len() + 1, rays.len() + 1 + normals.len());
        if i < a {
            assert(steps[i] == rays[i]);
        } else if i < b {
            assert(steps[i] == hit[0]);
        } else if i < c {
            assert(steps[i] == normals[i - b]);
        } else {
            assert(steps[i] == colors[i - c]);
        }
    }
}

/// The columns of the spheres' normals.
proof fn lemma_all_normals(spheres: Seq<multi_sphere::Sphere>)
    ensures
        has_long_names(multi_sphere::all_normal_steps(spheres)),
    decreases spheres.len(),
{
    if spheres.len() > 0 {
        lemma_all_normals(spheres.drop_last());
        reveal_strlit("_nx");
        reveal_strlit("_ny");
        reveal_strlit("_nz");
        lemma_both(
            multi_sphere::all_normal_steps(spheres.drop_last()),
            multi_sphere::normal_steps(spheres.last()),
        );
    }
}

/// The scene with several spheres leaves pixels where they are.
pub proof fn law_multi_sphere_keeps_place(
    width: nat,
    height: nat,
    camera: Camera,
    spheres: Seq<multi_sphere::Sphere>,
)
    ensures
        keeps_place(multi_sphere::scene_steps(width, height, camera, spheres)),
{
    let rays = ray_steps(width, height, camera);
    let met = multi_sphere::intersect_steps(spheres);
    let hits = seq![multi_sphere::nearest_step(spheres), multi_sphere::index_step(spheres)];
    let normals = multi_sphere::all_normal_steps(spheres);
    let colors = multi_sphere::color_steps(spheres);
    reveal_strlit("t_");
    reveal_strlit("t_nearest");
    reveal_strlit("hit_sphere");
    reveal_strlit("final_r");
    reveal_strlit("final_g");
    reveal_strlit("final_b");
    lemma_rays(width, height, camera);
    lemma_all_normals(spheres);
    lemma_both(rays, met);
    lemma_both(rays + met, hits);
    lemma_both(rays + met + hits, normals);
    lemma_both(rays + met + hits + normals, colors);
    lemma_long_names(multi_sphere::scene_steps(width, height, camera, spheres));
}

/// The scene with shadows leaves pixels where they are.
pub proof fn law_shadows_keeps_place(
    width: nat,
    height: nat,
    camera: Camera,
    spheres: Seq<shadows::Sphere>,
    light: shadows::Light,
    ambient: Number,
)
    ensures
        keeps_place(shadows::scene_steps(width, height, camera, spheres, light, ambient)),
{
    let rays = ray_steps(width, height, camera);
    let met = shadows::intersect_steps(spheres);
    let hits = seq![shadows::nearest_step(spheres), shadows::index_step(spheres)];
    let points = shadows::point_steps(spheres);
    let ray = shadows::shadow_ray_steps(light);
    let blocks = shadows::shadow_steps(spheres);
    let lights = seq![shadows::in_shadow_step(spheres), shadows::lighting_step(light, ambient)];
    let colors = shadows::color_steps(spheres);
    lemma_rays(width, height, camera);
    lemma_shadows_sections(spheres, light, ambient);
    lemma_both(rays, met);
    lemma_both(rays + met, hits);
    lemma_both(rays + met + hits, points);
    lemma_both(rays + met + hits + points, ray);
    lemma_both(rays + met + hits + points + ray, blocks);
    lemma_both(rays + met + hits + points + ray + blocks, lights);
    lemma_both(rays + met + hits + points + ray + blocks + lights, colors);
    lemma_long_names(shadows::scene_steps(width, height, camera, spheres, light, ambient));
}

proof fn lemma_shadows_sections(
    spheres: Seq<shadows::Sphere>,
    light: shadows::Light,
    ambient: Number,
)
    ensures
        has_long_names(shadows::intersect_steps(spheres)),
        has_long_names(seq![shadows::nearest_step(spheres), shadows::index_step(spheres)]),
        has_long_names(shadows::point_steps(spheres)),
        has_long_names(shadows::shadow_ray_steps(light)),
        has_long_names(shadows::shadow_steps(spheres)),
        has_long_names(
            seq![shadows::in_shadow_step(spheres), shadows::lighting_step(light, ambient)],
        ),
        has_long_names(shadows::color_steps(spheres)),
{
    reveal_strlit("t_");
    reveal_strlit("t_nearest");
    reveal_strlit("hit_sphere");
    reveal_strlit("hit_x");
    reveal_strlit("hit_y");
    reveal_strlit("hit_z");
    reveal_strlit("normal_x");
    reveal_strlit("normal_y");
    reveal_strlit("normal_z");
    reveal_strlit("shadow_ox");
    reveal_strlit("shadow_oy");
    reveal_strlit("shadow_oz");
    reveal_strlit("shadow_dx");
    reveal_strlit("shadow_dy");
    reveal_strlit("shadow_dz");
    reveal_strlit("light_dist");
    reveal_strlit("shadow_t_");
    reveal_strlit("in_shadow");
    reveal_strlit("brightness");
    reveal_strlit("final_r");
    reveal_strlit("final_g");
    reveal_strlit("final_b");
}

/// What a ray meets.
proof fn lemma_trace(
    spheres: Seq<refraction::Sphere>,
    ray_prefix: Seq<char>,
    result_prefix: Seq<char>,
)
    ensures
        has_long_names(refraction::trace_steps(spheres, ray_prefix, result_prefix)),
{
    reveal_strlit("_t_");
    reveal_strlit("_t_nearest");
    reveal_strlit("_hit_idx");
    let met = refraction::intersect_steps(spheres, ray_prefix, result_prefix);
    let hits = seq![
        refraction::nearest_step(spheres, result_prefix),
        refraction::index_step(spheres, result_prefix),
    ];
    assert(has_long_names(met));
    lemma_both(met, hits);
}

/// Where a ray arrives.
proof fn lemma_arrival(spheres: Seq<refraction::Sphere>, prefix: Seq<char>)
    ensures
        has_long_names(refraction::arrival_steps(spheres, prefix)),
{
    reveal_strlit("_hit_x");
    reveal_strlit("_hit_y");
    reveal_strlit("_hit_z");
    reveal_strlit("_normal_x");
    reveal_strlit("_normal_y");
    reveal_strlit("_normal_z");
}

/// Whether a point lies in shadow.
proof fn lemma_point_shadow(
    spheres: Seq<refraction::Sphere>,
    light: refraction::Light,
    prefix: Seq<char>,
    hit_prefix: Seq<char>,
)
    ensures
        has_long_names(refraction::point_shadow_steps(spheres, light, prefix, hit_prefix)),
{
    reveal_strlit("shadow_ox");
    reveal_strlit("shadow_oy");
    reveal_strlit("shadow_oz");
    reveal_strlit("shadow_dx");
    reveal_strlit("shadow_dy");
    reveal_strlit("shadow_dz");
    reveal_strlit("light_dist");
    reveal_strlit("shadow_t_");
    reveal_strlit("in_shadow");
    let ray = refraction::shadow_ray_steps(light, prefix, hit_prefix);
    let blocks = refraction::shadow_steps(spheres, prefix);
    let last = seq![refraction::in_shadow_step(spheres, prefix)];
    assert(has_long_names(ray));
    assert(has_long_names(blocks));
    lemma_both(ray, blocks);
    lemma_both(ray + blocks, last);
}

/// The camera's rays and how they go on.
proof fn lemma_paths(
    width: nat,
    height: nat,
    spheres: Seq<refraction::Sphere>,
    glass: refraction::Sphere,
)
    ensures
        has_long_names(refraction::ray_path_steps(width, height, spheres, glass)),
{
    let rays = refraction::ray_steps(width, height);
    let t0 = refraction::trace_steps(spheres, "ray"@, "primary"@);
    let hits = refraction::primary_hit_steps(spheres);
    let bounce = refraction::reflection_steps();
    let entry = refraction::entry_steps();
    let exit = seq![refraction::exit_step(glass, "internal"@, "internal"@)];
    let points = refraction::exit_point_steps(glass);
    let on = refraction::refraction_exit_steps();
    let t1 = refraction::trace_steps(spheres, "reflect"@, "reflect"@);
    let a1 = refraction::arrival_steps(spheres, "reflect"@);
    let t2 = refraction::trace_steps(spheres, "refract"@, "refract"@);
    let a2 = refraction::arrival_steps(spheres, "refract"@);
    lemma_path_sections(width, height, spheres, glass);
    lemma_trace(spheres, "ray"@, "primary"@);
    lemma_trace(spheres, "reflect"@, "reflect"@);
    lemma_trace(spheres, "refract"@, "refract"@);
    lemma_arrival(spheres, "reflect"@);
    lemma_arrival(spheres, "refract"@);
    let s1 = rays + t0;
    lemma_both(rays, t0);
    let s2 = s1 + hits;
    lemma_both(s1, hits);
    let s3 = s2 + bounce;
    lemma_both(s2, bounce);
    let s4 = s3 + entry;
    lemma_both(s3, entry);
    let s5 = s4 + exit;
    lemma_both(s4, exit);
    let s6 = s5 + points;
    lemma_both(s5, points);
    let s7 = s6 + on;
    lemma_both(s6, on);
    let s8 = s7 + t1;
    lemma_both(s7, t1);
    let s9 = s8 + a1;
    lemma_both(s8, a1);
    let s10 = s9 + t2;
    lemma_both(s9, t2);
    lemma_both(s10, a2);
}

proof fn lemma_path_sections(
    width: nat,
    height: nat,
    spheres: Seq<refraction::Sphere>,
    glass: refraction::Sphere,
)
    ensures
        has_long_names(refraction::ray_steps(width, height)),
        has_long_names(refraction::primary_hit_steps(spheres)),
        has_long_names(refraction::reflection_steps()),
        has_long_names(refraction::entry_steps()),
        has_long_names(seq![refraction::exit_step(glass, "internal"@, "internal"@)]),
        has_long_names(refraction::exit_point_steps(glass)),
        has_long_names(refraction::refraction_exit_steps()),
{
    reveal_strlit("ray_ox");
    reveal_strlit("ray_oy");
    reveal_strlit("ray_oz");
    reveal_strlit("ray_dx");
    reveal_strlit("ray_dy");
    reveal_strlit("ray_dz");
    reveal_strlit("hit_x");
    reveal_strlit("hit_y");
    reveal_strlit("hit_z");
    reveal_strlit("normal_x");
    reveal_strlit("normal_y");
    reveal_strlit("normal_z");
    reveal_strlit("hit_ior");
    reveal_strlit("reflect_ox");
    reveal_strlit("reflect_oy");
    reveal_strlit("reflect_oz");
    reveal_strlit("reflect_dx");
    reveal_strlit("reflect_dy");
    reveal_strlit("reflect_dz");
    reveal_strlit("internal_ox");
    reveal_strlit("internal_oy");
    reveal_strlit("internal_oz");
    reveal_strlit("internal_dx");
    reveal_strlit("internal_dy");
    reveal_strlit("internal_dz");
    reveal_strlit("fresnel");
    reveal_strlit("_exit_t");
    reveal_strlit("exit_x");
    reveal_strlit("exit_y");
    reveal_strlit("exit_z");
    reveal_strlit("exit_normal_x");
    reveal_strlit("exit_normal_y");
    reveal_strlit("exit_normal_z");
    reveal_strlit("refract_ox");
    reveal_strlit("refract_oy");
    reveal_strlit("refract_oz");
    reveal_strlit("refract_dx");
    reveal_strlit("refract_dy");
    reveal_strlit("refract_dz");
    reveal_strlit("total_internal_reflection");
}

/// The scene with refraction leaves pixels where they are.
pub proof fn law_refraction_keeps_place(
    width: nat,
    height: nat,
    spheres: Seq<refraction::Sphere>,
    glass: refraction::Sphere,
    light: refraction::Light,
    ambient: Number,
)
    ensures
        keeps_place(refraction::scene_steps(width, height, spheres, glass, light, ambient)),
{
    let paths = refraction::ray_path_steps(width, height, spheres, glass);
    let a = refraction::point_shadow_steps(spheres, light, ""@, "hit"@);
    let b = refraction::point_shadow_steps(spheres, light, "reflect_"@, "reflect_hit"@);
    let c = refraction::point_shadow_steps(spheres, light, "refract_"@, "refract_hit"@);
    lemma_paths(width, height, spheres, glass);
    lemma_point_shadow(spheres, light, ""@, "hit"@);
    lemma_point_shadow(spheres, light, "reflect_"@, "reflect_hit"@);
    lemma_point_shadow(spheres, light, "refract_"@, "refract_hit"@);
    reveal_strlit("primary_brightness");
    reveal_strlit("reflect_brightness");
    reveal_strlit("refract_brightness");
    reveal_strlit("final_r");
    reveal_strlit("final_g");
    reveal_strlit("final_b");
    lemma_both(a, b);
    lemma_both(a + b, c);
    let lights = refraction::light_steps(spheres, light, ambient);
    let last = lights.skip((a + b + c).len() as int);
    assert(has_long_names(last));
    assert(lights =~= a + b + c + last);
    lemma_both(a + b + c, last);
    lemma_both(paths, lights);
    lemma_both(paths + lights, refraction::color_steps(spheres));
    lemma_long_names(refraction::scene_steps(width, height, spheres, glass, light, ambient));
}

} // verus!

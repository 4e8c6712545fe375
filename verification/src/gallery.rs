//! What is rendered for a scene.
use crate::dataframe_sphere;
use crate::engine::{has_plain_names, can_be_lowered};
use crate::gradient;
use crate::multi_sphere;
use crate::number::Number;
use crate::plainness::{
    law_dataframe_sphere_names_stay, law_multi_sphere_names_stay, law_refraction_names_stay,
    law_shadows_names_stay, lemma_sphere_names,
};
use crate::plan::Rendering;
use crate::refraction;
use crate::refraction_soundness::{by_name, law_refraction_is_sound};
use crate::scene::Scene;
use crate::shadows;
use crate::soundness::{
    hit_and_shadow, law_dataframe_sphere_is_sound, law_multi_sphere_is_sound,
    law_shadows_is_sound, law_sound_can_be_lowered, only_numbers, pixel_table,
};
use crate::sphere;
use vstd::prelude::*;

verus! {

/// What is rendered for a scene. There is nothing for `All`, which stands for the
/// others, nor for the scenes that are not in this library.
pub fn rendering(scene: Scene) -> (rendering: Option<Rendering>)
    ensures
        match scene {
            Scene::Gradient => rendering matches Some(r) && gradient::is_rendering(r),
            Scene::Sphere => rendering matches Some(r) && sphere::is_rendering(r),
            Scene::DataframeSphere => rendering matches Some(r) && dataframe_sphere::is_rendering(
                r,
            ),
            Scene::MultiSphere => rendering matches Some(r) && multi_sphere::is_rendering(r),
            Scene::Shadows => rendering matches Some(r) && shadows::is_rendering(r),
            Scene::Refraction => rendering matches Some(r) && refraction::is_rendering(r),
            Scene::All | Scene::LitScene | Scene::Reflections | Scene::Antialiased =>
                rendering is None,
        },
{
    match scene {
        Scene::Gradient => Some(gradient::render()),
        Scene::Sphere => Some(sphere::render()),
        Scene::DataframeSphere => Some(dataframe_sphere::render()),
        Scene::MultiSphere => Some(multi_sphere::render()),
        Scene::Shadows => Some(shadows::render()),
        Scene::Refraction => Some(refraction::render()),
        Scene::All | Scene::LitScene | Scene::Reflections | Scene::Antialiased => None,
    }
}

/// Whether that is what one of the scenes asks for.
pub open spec fn is_of_a_scene(rendering: Rendering) -> bool {
    ||| gradient::is_rendering(rendering)
    ||| sphere::is_rendering(rendering)
    ||| dataframe_sphere::is_rendering(rendering)
    ||| multi_sphere::is_rendering(rendering)
    ||| shadows::is_rendering(rendering)
    ||| refraction::is_rendering(rendering)
}

/// Every column that a scene asks for can be lowered: no case in it has literals of
/// two kinds as outcomes. Its names stay as they are written, so that the engine's
/// expression is the scene's tree.
pub proof fn law_every_column_can_be_lowered(rendering: Rendering)
    requires
        is_of_a_scene(rendering),
    ensures
        forall|i: int|
            0 <= i < rendering.plan@.len() ==> can_be_lowered((#[trigger] rendering.plan@[i]).1)
                && has_plain_names(rendering.plan@[i].1),
{
    let steps = rendering.plan@;
    lemma_sphere_names();
    if dataframe_sphere::is_rendering(rendering) {
        let (width, height) = (dataframe_sphere::WIDTH as nat, dataframe_sphere::HEIGHT as nat);
        let camera = dataframe_sphere::scene_camera();
        let ball = dataframe_sphere::the_sphere();
        law_dataframe_sphere_is_sound(width, height, camera, ball);
        law_sound_can_be_lowered(steps, pixel_table(), only_numbers());
        law_dataframe_sphere_names_stay(width, height, camera, ball);
    } else if multi_sphere::is_rendering(rendering) {
        let (width, height) = (multi_sphere::WIDTH as nat, multi_sphere::HEIGHT as nat);
        let camera = multi_sphere::scene_camera();
        let spheres = choose|spheres: Seq<multi_sphere::Sphere>| #[trigger]
            multi_sphere::is_the_scene(spheres) && steps == multi_sphere::scene_steps(
                width,
                height,
                camera,
                spheres,
            );
        law_multi_sphere_is_sound(width, height, camera, spheres);
        law_sound_can_be_lowered(steps, pixel_table(), hit_and_shadow());
        law_multi_sphere_names_stay(width, height, camera, spheres);
    } else if shadows::is_rendering(rendering) {
        let (width, height) = (shadows::WIDTH as nat, shadows::HEIGHT as nat);
        let (camera, light) = (shadows::scene_camera(), shadows::the_light());
        let ambient = Number { bits: shadows::AMBIENT };
        let spheres = choose|spheres: Seq<shadows::Sphere>| #[trigger]
            shadows::is_the_scene(spheres) && steps == shadows::scene_steps(
                width,
                height,
                camera,
                spheres,
                light,
                ambient,
            );
        law_shadows_is_sound(width, height, camera, spheres, light, ambient);
        law_sound_can_be_lowered(steps, pixel_table(), hit_and_shadow());
        law_shadows_names_stay(width, height, camera, spheres, light, ambient);
    } else if refraction::is_rendering(rendering) {
        let (width, height) = (refraction::WIDTH as nat, refraction::HEIGHT as nat);
        let light = refraction::the_light();
        let ambient = Number { bits: refraction::AMBIENT };
        let spheres = choose|spheres: Seq<refraction::Sphere>| #[trigger]
            refraction::is_the_scene(spheres) && steps == refraction::scene_steps(
                width,
                height,
                spheres,
                spheres[0],
                light,
                ambient,
            );
        law_refraction_is_sound(width, height, spheres, spheres[0], light, ambient);
        law_sound_can_be_lowered(steps, pixel_table(), by_name());
        law_refraction_names_stay(width, height, spheres, spheres[0], light, ambient);
    }
}

} // verus!

use datafusion_raytracer::scene::{Scene, SceneError};

const NAMES: [&str; 10] = [
    "all",
    "gradient",
    "sphere",
    "dataframe_sphere",
    "multi_sphere",
    "lit_scene",
    "shadows",
    "reflections",
    "refraction",
    "antialiased",
];

#[test]
fn names_of_all_scenes() {
    let names: Vec<String> = Scene::variants().iter().map(|s| s.name().to_string()).collect();
    assert_eq!(names, NAMES);
}

#[test]
fn every_name_gives_its_scene() {
    for scene in Scene::variants() {
        assert_eq!(Scene::select(Some(scene.name().to_string())), Ok(scene));
        assert_eq!(Scene::parse(&scene.name().to_string()), Some(scene));
    }
}

#[test]
fn runnable_is_all_but_all() {
    let names: Vec<String> = Scene::runnable().iter().map(|s| s.name().to_string()).collect();
    assert_eq!(names, NAMES[1..]);
    assert!(!Scene::runnable().contains(&Scene::All));
}

#[test]
fn all_renders_every_scene() {
    assert_eq!(Scene::All.renders(), Scene::runnable());
    assert_eq!(Scene::Shadows.renders(), vec![Scene::Shadows]);
}

#[test]
fn usage_lists_the_scenes() {
    assert_eq!(
        Scene::usage(),
        "Usage: cargo run --release -- [all|gradient|sphere|dataframe_sphere|multi_sphere|\
         lit_scene|shadows|reflections|refraction|antialiased]"
    );
}

#[test]
fn a_missing_name() {
    assert_eq!(Scene::select(None), Err(SceneError::MissingArgument));
    assert_eq!(
        SceneError::MissingArgument.message(),
        format!("Missing argument. {}", Scene::usage())
    );
}

#[test]
fn an_unknown_name() {
    for name in ["", "Sphere", "spheres", "lit-scene", "all "] {
        assert_eq!(Scene::select(Some(name.to_string())), Err(SceneError::UnknownScene));
    }
    assert_eq!(
        SceneError::UnknownScene.message(),
        format!("Unknown scene. {}", Scene::usage())
    );
}

#[test]
fn scenes_follow_each_other_until_one_fails() {
    let started = |asked: Scene, failing: Option<Scene>| {
        let mut list = Vec::new();
        let mut failed = false;
        while let Some(scene) = asked.next(list.len(), failed) {
            failed = Some(scene) == failing;
            list.push(scene);
        }
        (list, failed)
    };
    assert_eq!(started(Scene::All, None), (Scene::runnable(), false));
    assert_eq!(
        started(Scene::All, Some(Scene::DataframeSphere)),
        (vec![Scene::Gradient, Scene::Sphere, Scene::DataframeSphere], true)
    );
    assert_eq!(started(Scene::All, Some(Scene::Antialiased)), (Scene::runnable(), true));
    assert_eq!(started(Scene::Refraction, None), (vec![Scene::Refraction], false));
    assert_eq!(started(Scene::Refraction, Some(Scene::Refraction)), (vec![Scene::Refraction], true));
    assert_eq!(Scene::All.next(0, true), None);
    assert_eq!(Scene::All.next(9, false), None);
    assert_eq!(Scene::All.next(usize::MAX, false), None);
}

//! The scenes that can be rendered, and how one is asked for by name.
use crate::text::join;
use vstd::prelude::*;

verus! {

/// A scene, or all of them.
#[derive(Clone, Copy, Debug, PartialEq, Eq, Structural)]
pub enum Scene {
    All,
    Gradient,
    Sphere,
    DataframeSphere,
    MultiSphere,
    LitScene,
    Shadows,
    Reflections,
    Refraction,
    Antialiased,
}

/// Why no scene was selected.
#[derive(Clone, Copy, Debug, PartialEq, Eq, Structural)]
pub enum SceneError {
    /// No name was given.
    MissingArgument,
    /// The name is that of no scene.
    UnknownScene,
}

impl Scene {
    /// Every scene, in the order of their declaration.
    pub open spec fn all() -> Seq<Scene> {
        seq![
            Scene::All,
            Scene::Gradient,
            Scene::Sphere,
            Scene::DataframeSphere,
            Scene::MultiSphere,
            Scene::LitScene,
            Scene::Shadows,
            Scene::Reflections,
            Scene::Refraction,
            Scene::Antialiased,
        ]
    }

    /// The name that a scene goes by.
    pub open spec fn spelled(self) -> Seq<char> {
        match self {
            Scene::All => "all"@,
            Scene::Gradient => "gradient"@,
            Scene::Sphere => "sphere"@,
            Scene::DataframeSphere => "dataframe_sphere"@,
            Scene::MultiSphere => "multi_sphere"@,
            Scene::LitScene => "lit_scene"@,
            Scene::Shadows => "shadows"@,
            Scene::Reflections => "reflections"@,
            Scene::Refraction => "refraction"@,
            Scene::Antialiased => "antialiased"@,
        }
    }

    /// The scenes that stand for themselves: all but `All`, in order.
    pub open spec fn single() -> Seq<Scene> {
        Scene::all().filter(|scene: Scene| scene != Scene::All)
    }

    /// The names of the first scenes, with a bar between two.
    pub open spec fn alternatives(count: int) -> Seq<char>
        decreases count,
    {
        if count <= 0 {
            ""@
        } else if count == 1 {
            Scene::all()[0].spelled()
        } else {
            Scene::alternatives(count - 1) + "|"@ + Scene::all()[count - 1].spelled()
        }
    }

    /// How the program is called.
    pub open spec fn usage_text() -> Seq<char> {
        "Usage: cargo run --release -- ["@ + Scene::alternatives(Scene::all().len() as int) + "]"@
    }

    /// Every scene, in the order of their declaration.
    pub fn variants() -> (scenes: Vec<Scene>)
        ensures
            scenes@ == Scene::all(),
    {
        let scenes: Vec<Scene> = vec![
            Scene::All,
            Scene::Gradient,
            Scene::Sphere,
            Scene::DataframeSphere,
            Scene::MultiSphere,
            Scene::LitScene,
            Scene::Shadows,
            Scene::Reflections,
            Scene::Refraction,
            Scene::Antialiased,
        ];
        assert(scenes@ =~= Scene::all());
        scenes
    }

    /// The scenes that stand for themselves: all but `All`, in order.
    pub fn runnable() -> (scenes: Vec<Scene>)
        ensures
            scenes@ == Scene::single(),
    {
        let variants: Vec<Scene> = Scene::variants();
        let mut scenes: Vec<Scene> = Vec::new();
        let ghost keep = |scene: Scene| scene != Scene::All;
        let mut i: usize = 0;
        while i < variants.len()
            invariant
                i <= variants.len(),
                variants@ == Scene::all(),
                keep == (|scene: Scene| scene != Scene::All),
                scenes@ == variants@.take(i as int).filter(keep),
            decreases variants.len() - i,
        {
            let scene: Scene = variants[i];
            proof {
                reveal(Seq::filter);
                assert(variants@.take(i + 1).drop_last() =~= variants@.take(i as int));
                assert(variants@.take(i + 1).last() == scene);
            }
            if scene != Scene::All {
                scenes.push(scene);
            }
            i = i + 1;
        }
        assert(variants@.take(i as int) =~= variants@);
        scenes
    }

    /// The scenes that are rendered, one after the other, when `self` is asked for.
    pub open spec fn rendered(self) -> Seq<Scene> {
        if self == Scene::All {
            Scene::single()
        } else {
            seq![self]
        }
    }

    /// The scenes that are rendered, one after the other, when `self` is asked for.
    pub fn renders(self) -> (scenes: Vec<Scene>)
        ensures
            scenes@ == self.rendered(),
    {
        if self == Scene::All {
            Scene::runnable()
        } else {
            let scenes: Vec<Scene> = vec![self];
            assert(scenes@ =~= seq![self]);
            scenes
        }
    }

    /// The scene to render next, when `self` is asked for and so many scenes are done:
    /// none after a failure, or when all are done.
    pub open spec fn following(self, done: nat, failed: bool) -> Option<Scene> {
        if failed || done >= self.rendered().len() {
            None
        } else {
            Some(self.rendered()[done as int])
        }
    }

    /// The scene to render next, when `self` is asked for and so many scenes are done:
    /// none after a failure, or when all are done.
    pub fn next(self, done: usize, failed: bool) -> (scene: Option<Scene>)
        ensures
            scene == self.following(done as nat, failed),
    {
        let scenes: Vec<Scene> = self.renders();
        if failed || done >= scenes.len() {
            None
        } else {
            Some(scenes[done])
        }
    }

    /// The scenes that are started, one after the other, when so many are done and each
    /// is followed by the next; `fails` says which of them fail.
    pub open spec fn course(self, fails: spec_fn(Scene) -> bool, done: nat) -> Seq<Scene>
        decreases self.rendered().len() - done,
    {
        match self.following(done, false) {
            None => Seq::empty(),
            Some(scene) => seq![scene] + match self.following(done + 1, fails(scene)) {
                None => Seq::empty(),
                Some(_) => self.course(fails, done + 1),
            },
        }
    }

    /// The name that the scene goes by.
    pub fn name(self) -> (name: String)
        ensures
            name@ == self.spelled(),
    {
        let text: &str = match self {
            Scene::All => "all",
            Scene::Gradient => "gradient",
            Scene::Sphere => "sphere",
            Scene::DataframeSphere => "dataframe_sphere",
            Scene::MultiSphere => "multi_sphere",
            Scene::LitScene => "lit_scene",
            Scene::Shadows => "shadows",
            Scene::Reflections => "reflections",
            Scene::Refraction => "refraction",
            Scene::Antialiased => "antialiased",
        };
        text.to_owned()
    }

    /// The scene of that name.
    pub fn parse(name: &String) -> (scene: Option<Scene>)
        ensures
            match scene {
                Some(found) => found.spelled() == name@,
                None => forall|s: Scene| #[trigger] s.spelled() != name@,
            },
    {
        let variants: Vec<Scene> = Scene::variants();
        let mut i: usize = 0;
        while i < variants.len()
            invariant
                i <= variants.len(),
                variants@ == Scene::all(),
                forall|j: int| 0 <= j < i ==> (#[trigger] variants@[j]).spelled() != name@,
            decreases variants.len() - i,
        {
            if variants[i].name() == *name {
                return Some(variants[i]);
            }
            i = i + 1;
        }
        proof {
            assert forall|s: Scene| #[trigger] s.spelled() != name@ by {
                Scene::law_all_is_everything(s);
                let j = choose|j: int| 0 <= j < Scene::all().len() && Scene::all()[j] == s;
                assert(variants@[j].spelled() != name@);
            }
        }
        None
    }

    /// How the program is called.
    pub fn usage() -> (text: String)
        ensures
            text@ == Scene::usage_text(),
    {
        let variants: Vec<Scene> = Scene::variants();
        let mut names: String = variants[0].name();
        let mut i: usize = 1;
        while i < variants.len()
            invariant
                1 <= i <= variants.len(),
                variants@ == Scene::all(),
                names@ == Scene::alternatives(i as int),
            decreases variants.len() - i,
        {
            names.append("|");
            names.append(variants[i].name().as_str());
            i = i + 1;
        }
        let mut text: String = join("Usage: cargo run --release -- [", names.as_str());
        text.append("]");
        text
    }

    /// The scene that the program's argument asks for.
    pub fn select(argument: Option<String>) -> (scene: Result<Scene, SceneError>)
        ensures
            match argument {
                None => scene == Err::<Scene, SceneError>(SceneError::MissingArgument),
                Some(name) => match scene {
                    Ok(found) => found.spelled() == name@,
                    Err(error) => error == SceneError::UnknownScene && forall|s: Scene|
                        #[trigger] s.spelled() != name@,
                },
            },
    {
        match argument {
            None => Err(SceneError::MissingArgument),
            Some(name) => match Scene::parse(&name) {
                Some(found) => Ok(found),
                None => Err(SceneError::UnknownScene),
            },
        }
    }

    /// Every scene has its place in the list of all.
    pub proof fn law_all_is_everything(scene: Scene)
        ensures
            Scene::all().contains(scene),
    {
        let all = Scene::all();
        let at = match scene {
            Scene::All => 0int,
            Scene::Gradient => 1int,
            Scene::Sphere => 2int,
            Scene::DataframeSphere => 3int,
            Scene::MultiSphere => 4int,
            Scene::LitScene => 5int,
            Scene::Shadows => 6int,
            Scene::Reflections => 7int,
            Scene::Refraction => 8int,
            Scene::Antialiased => 9int,
        };
        assert(all[at] == scene);
    }

    /// No two scenes go by the same name, so the name of a scene is parsed as
    /// that scene and no other.
    pub proof fn law_names_differ(a: Scene, b: Scene)
        requires
            a.spelled() == b.spelled(),
        ensures
            a == b,
    {
        reveal_strlit("all");
        reveal_strlit("gradient");
        reveal_strlit("sphere");
        reveal_strlit("dataframe_sphere");
        reveal_strlit("multi_sphere");
        reveal_strlit("lit_scene");
        reveal_strlit("shadows");
        reveal_strlit("reflections");
        reveal_strlit("refraction");
        reveal_strlit("antialiased");
        let s = a.spelled();
        let t = b.spelled();
        assert(s.len() == t.len());
        assert(s[0] == t[0]);
        assert(s[1] == t[1]);
        assert(s[2] == t[2]);
        assert(s.len() > 3 ==> s[3] == t[3]);
    }

    /// The single scenes are all but the first.
    proof fn lemma_single()
        ensures
            Scene::single() == Scene::all().skip(1),
    {
        let keep = |scene: Scene| scene != Scene::All;
        let first = seq![Scene::All];
        let rest = Scene::all().skip(1);
        assert(Scene::all() =~= first + rest);
        Seq::filter_distributes_over_add(first, rest, keep);
        assert(first.filter(keep) =~= Seq::empty()) by {
            reveal_with_fuel(Seq::filter, 2);
            assert(first.drop_last() =~= Seq::empty());
            assert(!keep(first.last()));
        }
        Scene::lemma_filter_keeps(rest, keep);
        assert(Scene::single() =~= rest);
    }

    /// Asking for all scenes renders every other scene exactly once.
    pub proof fn law_single_is_the_rest()
        ensures
            Scene::single().no_duplicates(),
            forall|scene: Scene|
                Scene::single().contains(scene) <==> #[trigger] Scene::all().contains(scene)
                    && scene != Scene::All,
    {
        Scene::lemma_single();
        let rest = Scene::all().skip(1);
        assert forall|scene: Scene|
            rest.contains(scene) <==> #[trigger] Scene::all().contains(scene) && scene
                != Scene::All by {
            if Scene::all().contains(scene) && scene != Scene::All {
                let j = Scene::all().index_of(scene);
                assert(rest[j - 1] == scene);
            }
            if rest.contains(scene) {
                let j = rest.index_of(scene);
                assert(Scene::all()[j + 1] == scene);
            }
        }
    }

    /// The scenes that are asked for are started in order, each once and none of them
    /// `All`. The first that fails is the last to be started; without one all are.
    pub proof fn law_course(self, fails: spec_fn(Scene) -> bool)
        ensures
            ({
                let started = self.course(fails, 0);
                &&& started.no_duplicates()
                &&& started.len() <= self.rendered().len()
                &&& started == self.rendered().take(started.len() as int)
                &&& forall|i: int| 0 <= i < started.len() - 1 ==> !fails(#[trigger] started[i])
                &&& started.len() < self.rendered().len() ==> started.len() > 0 && fails(
                    started.last(),
                )
                &&& self == Scene::All ==> !started.contains(Scene::All)
            }),
    {
        let started = self.course(fails, 0);
        self.lemma_course(fails, 0);
        assert(self.rendered().skip(0) =~= self.rendered());
        Scene::law_single_is_the_rest();
        assert(self.rendered().no_duplicates());
        assert forall|i: int, j: int|
            0 <= i < started.len() && 0 <= j < started.len() && i != j implies started[i]
            != started[j] by {
            assert(started[i] == self.rendered()[i] && started[j] == self.rendered()[j]);
        }
        if self == Scene::All && started.contains(Scene::All) {
            let i = choose|i: int| 0 <= i < started.len() && started[i] == Scene::All;
            assert(Scene::single()[i] == Scene::All);
            assert(Scene::single().contains(Scene::All));
            assert(Scene::all().contains(Scene::All));
        }
    }

    proof fn lemma_course(self, fails: spec_fn(Scene) -> bool, done: nat)
        requires
            done <= self.rendered().len(),
        ensures
            ({
                let started = self.course(fails, done);
                let rest = self.rendered().skip(done as int);
                &&& started.len() <= rest.len()
                &&& started == rest.take(started.len() as int)
                &&& forall|i: int| 0 <= i < started.len() - 1 ==> !fails(#[trigger] started[i])
                &&& started.len() < rest.len() ==> started.len() > 0 && fails(started.last())
            }),
        decreases self.rendered().len() - done,
    {
        let started = self.course(fails, done);
        let rest = self.rendered().skip(done as int);
        match self.following(done, false) {
            None => {
                assert(rest.len() == 0);
                assert(started =~= rest.take(0));
            },
            Some(scene) => {
                assert(rest[0] == scene);
                if !fails(scene) {
                    self.lemma_course(fails, done + 1);
                    let later = self.course(fails, done + 1);
                    assert(self.rendered().skip((done + 1) as int) =~= rest.skip(1));
                    assert(started =~= seq![scene] + later);
                    assert forall|i: int| 0 <= i < started.len() - 1 implies !fails(
                        #[trigger] started[i],
                    ) by {
                        if i > 0 {
                            assert(started[i] == later[i - 1]);
                        }
                    }
                    if later.len() > 0 {
                        assert(started.last() == later.last());
                    }
                }
                assert(started =~= rest.take(started.len() as int));
            },
        }
    }

    /// A filter that lets every element through changes nothing.
    proof fn lemma_filter_keeps(scenes: Seq<Scene>, keep: spec_fn(Scene) -> bool)
        requires
            forall|i: int| 0 <= i < scenes.len() ==> keep(#[trigger] scenes[i]),
        ensures
            scenes.filter(keep) == scenes,
        decreases scenes.len(),
    {
        reveal(Seq::filter);
        if scenes.len() > 0 {
            Scene::lemma_filter_keeps(scenes.drop_last(), keep);
            assert(scenes.drop_last().push(scenes.last()) =~= scenes);
        }
    }
}

impl SceneError {
    /// What went wrong, followed by how the program is called.
    pub open spec fn described(self) -> Seq<char> {
        match self {
            SceneError::MissingArgument => "Missing argument. "@ + Scene::usage_text(),
            SceneError::UnknownScene => "Unknown scene. "@ + Scene::usage_text(),
        }
    }

    /// What went wrong, followed by how the program is called.
    pub fn message(self) -> (text: String)
        ensures
            text@ == self.described(),
    {
        let usage: String = Scene::usage();
        match self {
            SceneError::MissingArgument => join("Missing argument. ", usage.as_str()),
            SceneError::UnknownScene => join("Unknown scene. ", usage.as_str()),
        }
    }
}

} // verus!

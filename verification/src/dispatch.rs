//! Build dispatch: which build system governs the project, and what to run.
//!
//! A project is a Maven project where one of the Maven build files stands at
//! its root, and a Gradle project where the wrapper script does. Maven wins
//! where both are there.

use vstd::prelude::*;
use crate::error::{StageError, StageErrorView};
use crate::text::{same_text, texts};

verus! {

/// The build system that governs a project.
#[derive(Clone, Copy, Debug, PartialEq, Eq, Structural)]
pub enum BuildSystem {
    Maven,
    Gradle,
    /// Neither marker set was found.
    Unknown,
}

/// The file names that mark a Maven project.
pub open spec fn maven_markers() -> Seq<Seq<char>> {
    seq![
        "pom.xml"@,
        "pom.atom"@,
        "pom.clj"@,
        "pom.groovy"@,
        "pom.rb"@,
        "pom.scala"@,
        "pom.yaml"@,
        "pom.yml"@,
    ]
}

/// The file name that marks a Gradle project.
pub open spec fn gradle_marker() -> Seq<char> {
    "gradlew"@
}

/// Some name of `names` is a Maven marker.
pub open spec fn has_maven_marker(names: Seq<Seq<char>>) -> bool {
    exists|i: int| 0 <= i < names.len() && maven_markers().contains(#[trigger] names[i])
}

/// Some name of `names` is the Gradle marker.
pub open spec fn has_gradle_marker(names: Seq<Seq<char>>) -> bool {
    exists|i: int| 0 <= i < names.len() && #[trigger] names[i] == gradle_marker()
}

/// The build system of a project whose root holds `names`.
pub open spec fn detected(names: Seq<Seq<char>>) -> BuildSystem {
    if has_maven_marker(names) {
        BuildSystem::Maven
    } else if has_gradle_marker(names) {
        BuildSystem::Gradle
    } else {
        BuildSystem::Unknown
    }
}

/// Detection looks at which names are present and at nothing else: two
/// listings that hold the same names, in whatever order and however often,
/// give the same build system.
pub proof fn lemma_detection_ignores_order(a: Seq<Seq<char>>, b: Seq<Seq<char>>)
    requires
        a.to_set() == b.to_set(),
    ensures
        detected(a) == detected(b),
{
    lemma_markers_carry_over(a, b);
    lemma_markers_carry_over(b, a);
}

/// Markers found in `a` are found in every listing that holds all of `a`'s
/// names.
proof fn lemma_markers_carry_over(a: Seq<Seq<char>>, b: Seq<Seq<char>>)
    requires
        a.to_set() == b.to_set(),
    ensures
        has_maven_marker(a) ==> has_maven_marker(b),
        has_gradle_marker(a) ==> has_gradle_marker(b),
{
    if has_maven_marker(a) {
        let i = choose|i: int| 0 <= i < a.len() && maven_markers().contains(#[trigger] a[i]);
        assert(a.to_set().contains(a[i]));
        assert(b.contains(a[i]));
        let j = choose|j: int| 0 <= j < b.len() && b[j] == a[i];
        assert(maven_markers().contains(b[j]));
    }
    if has_gradle_marker(a) {
        let i = choose|i: int| 0 <= i < a.len() && #[trigger] a[i] == gradle_marker();
        assert(a.to_set().contains(a[i]));
        assert(b.contains(a[i]));
        let j = choose|j: int| 0 <= j < b.len() && b[j] == a[i];
        assert(b[j] == gradle_marker());
    }
}

/// Maven has priority: where any Maven marker is present the project is a
/// Maven project, whether or not the Gradle wrapper script is there too.
pub proof fn lemma_maven_has_priority(names: Seq<Seq<char>>, i: int)
    requires
        0 <= i < names.len(),
        maven_markers().contains(names[i]),
    ensures
        detected(names) == BuildSystem::Maven,
{
}

/// Whether `name` is one of the Maven build files.
pub fn is_maven_marker(name: &str) -> (found: bool)
    ensures
        found == maven_markers().contains(name@),
{
    let found = same_text(name, "pom.xml") || same_text(name, "pom.atom") || same_text(
        name,
        "pom.clj",
    ) || same_text(name, "pom.groovy") || same_text(name, "pom.rb") || same_text(
        name,
        "pom.scala",
    ) || same_text(name, "pom.yaml") || same_text(name, "pom.yml");
    proof {
        let m = maven_markers();
        if found {
            let k = choose|k: int| 0 <= k < 8 && m[k] == name@;
            assert(m[k] == name@);
        }
    }
    found
}

/// Whether `name` is the Gradle wrapper script.
pub fn is_gradle_marker(name: &str) -> (found: bool)
    ensures
        found == (name@ == gradle_marker()),
{
    same_text(name, "gradlew")
}

/// Detects the build system from the names present at the project root.
pub fn detect(names: &Vec<String>) -> (kind: BuildSystem)
    ensures
        kind == detected(texts(names@)),
{
    let ghost view = texts(names@);
    let mut gradle: bool = false;
    let mut i: usize = 0;
    while i < names.len()
        invariant
            i <= names.len(),
            view == texts(names@),
            forall|k: int| 0 <= k < i ==> !maven_markers().contains(#[trigger] view[k]),
            gradle == exists|k: int| 0 <= k < i && #[trigger] view[k] == gradle_marker(),
        decreases names.len() - i,
    {
        let name = names[i].as_str();
        assert(view[i as int] == name@);
        if is_maven_marker(name) {
            return BuildSystem::Maven;
        }
        if is_gradle_marker(name) {
            gradle = true;
        }
        i += 1;
    }
    if gradle {
        BuildSystem::Gradle
    } else {
        BuildSystem::Unknown
    }
}

/// One external command: the program and its arguments.
#[derive(Debug, PartialEq, Eq)]
pub struct Invocation {
    pub program: String,
    pub args: Vec<String>,
}

/// The mathematical value of an [`Invocation`].
pub struct InvocationView {
    pub program: Seq<char>,
    pub args: Seq<Seq<char>>,
}

impl View for Invocation {
    type V = InvocationView;

    open spec fn view(&self) -> InvocationView {
        InvocationView { program: self.program@, args: texts(self.args@) }
    }
}

/// What to run for a build system, and where its artifacts appear.
#[derive(Debug, PartialEq, Eq)]
pub struct BuildPlan {
    /// A command whose output is only shown, run before the build.
    pub probe: Option<Invocation>,
    /// The build itself: packaging only, no tests.
    pub build: Invocation,
    /// The directory, relative to the project root, that receives the
    /// artifacts.
    pub artifact_dir: String,
}

/// The mathematical value of a [`BuildPlan`].
pub struct BuildPlanView {
    pub probe: Option<InvocationView>,
    pub build: InvocationView,
    pub artifact_dir: Seq<char>,
}

impl View for BuildPlan {
    type V = BuildPlanView;

    open spec fn view(&self) -> BuildPlanView {
        BuildPlanView {
            probe: match self.probe {
                Some(p) => Some(p@),
                None => None,
            },
            build: self.build@,
            artifact_dir: self.artifact_dir@,
        }
    }
}

/// The plan for a Maven project: print the version, then `clean package`
/// with tests skipped; artifacts appear under `target/`.
pub open spec fn maven_plan() -> BuildPlanView {
    BuildPlanView {
        probe: Some(InvocationView { program: "mvn"@, args: seq!["--version"@] }),
        build: InvocationView {
            program: "mvn"@,
            args: seq!["clean"@, "package"@, "-Dmaven.test.skip=true"@],
        },
        artifact_dir: "target/"@,
    }
}

/// The plan for a Gradle project: `clean build` through the wrapper script,
/// without the check and test tasks; artifacts appear under `build/libs/`.
pub open spec fn gradle_plan() -> BuildPlanView {
    BuildPlanView {
        probe: None,
        build: InvocationView {
            program: "./gradlew"@,
            args: seq!["clean"@, "build"@, "-x"@, "check"@, "-x"@, "test"@],
        },
        artifact_dir: "build/libs/"@,
    }
}

/// The plan for each build system; for none, the failure.
pub open spec fn planned(kind: BuildSystem) -> Result<BuildPlanView, StageErrorView> {
    match kind {
        BuildSystem::Maven => Ok(maven_plan()),
        BuildSystem::Gradle => Ok(gradle_plan()),
        BuildSystem::Unknown => Err(StageErrorView::NoBuildSystem),
    }
}

/// Appends a copy of `word` to `args`.
fn push_arg(args: &mut Vec<String>, word: &str)
    ensures
        texts(final(args)@) == texts(old(args)@).push(word@),
{
    let owned = word.to_owned();
    args.push(owned);
    assert(texts(args@) =~= texts(old(args)@).push(word@));
}

/// Chooses the commands and the artifact directory for a build system.
/// With no build system there is nothing to run, and the run fails before
/// any command is started.
pub fn plan(kind: BuildSystem) -> (outcome: Result<BuildPlan, StageError>)
    ensures
        match outcome {
            Ok(p) => planned(kind) == Ok::<BuildPlanView, StageErrorView>(p@),
            Err(e) => planned(kind) == Err::<BuildPlanView, StageErrorView>(e@),
        },
{
    match kind {
        BuildSystem::Maven => {
            let mut probe_args: Vec<String> = Vec::new();
            assert(texts(probe_args@) =~= Seq::<Seq<char>>::empty());
            push_arg(&mut probe_args, "--version");
            let mut args: Vec<String> = Vec::new();
            assert(texts(args@) =~= Seq::<Seq<char>>::empty());
            push_arg(&mut args, "clean");
            push_arg(&mut args, "package");
            push_arg(&mut args, "-Dmaven.test.skip=true");
            let plan = BuildPlan {
                probe: Some(Invocation { program: "mvn".to_owned(), args: probe_args }),
                build: Invocation { program: "mvn".to_owned(), args },
                artifact_dir: "target/".to_owned(),
            };
            assert(plan@.probe->0.args =~= maven_plan().probe->0.args);
            assert(plan@.build.args =~= maven_plan().build.args);
            Ok(plan)
        },
        BuildSystem::Gradle => {
            let mut args: Vec<String> = Vec::new();
            assert(texts(args@) =~= Seq::<Seq<char>>::empty());
            push_arg(&mut args, "clean");
            push_arg(&mut args, "build");
            push_arg(&mut args, "-x");
            push_arg(&mut args, "check");
            push_arg(&mut args, "-x");
            push_arg(&mut args, "test");
            let plan = BuildPlan {
                probe: None,
                build: Invocation { program: "./gradlew".to_owned(), args },
                artifact_dir: "build/libs/".to_owned(),
            };
            assert(plan@.build.args =~= gradle_plan().build.args);
            Ok(plan)
        },
        BuildSystem::Unknown => Err(StageError::NoBuildSystem),
    }
}

} // verus!

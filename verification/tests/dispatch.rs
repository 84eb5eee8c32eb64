use jarbuild::dispatch::{
    detect, is_gradle_marker, is_maven_marker, plan, BuildPlan, BuildSystem, Invocation,
};
use jarbuild::error::StageError;

fn names(list: &[&str]) -> Vec<String> {
    list.iter().map(|s| s.to_string()).collect()
}

#[test]
fn every_maven_marker_is_recognized() {
    for marker in [
        "pom.xml",
        "pom.atom",
        "pom.clj",
        "pom.groovy",
        "pom.rb",
        "pom.scala",
        "pom.yaml",
        "pom.yml",
    ] {
        assert!(is_maven_marker(marker));
        assert!(!is_gradle_marker(marker));
        assert_eq!(detect(&names(&["README.md", marker, "src"])), BuildSystem::Maven);
    }
}

#[test]
fn other_names_are_no_maven_marker() {
    for name in ["pom", "pom.", "pom.json", "POM.XML", "pom.xml.bak", "xpom.xml", "", "gradlew"] {
        assert!(!is_maven_marker(name));
    }
}

#[test]
fn gradle_wrapper_is_recognized() {
    assert!(is_gradle_marker("gradlew"));
    assert!(!is_gradle_marker("gradlew.bat"));
    assert!(!is_gradle_marker("gradle"));
    assert!(!is_gradle_marker("build.gradle"));
    assert_eq!(detect(&names(&["gradlew", "build.gradle"])), BuildSystem::Gradle);
}

#[test]
fn maven_wins_over_gradle_in_any_order() {
    assert_eq!(detect(&names(&["pom.xml", "gradlew"])), BuildSystem::Maven);
    assert_eq!(detect(&names(&["gradlew", "pom.xml"])), BuildSystem::Maven);
    assert_eq!(detect(&names(&["gradlew", "src", "pom.yml", "gradlew"])), BuildSystem::Maven);
}

#[test]
fn detection_ignores_order_and_repetition() {
    let a = names(&["src", "pom.rb", "pom.clj", "README"]);
    let b = names(&["README", "pom.clj", "src", "pom.rb", "src"]);
    assert_eq!(detect(&a), detect(&b));
    let c = names(&["a", "gradlew", "b"]);
    let d = names(&["b", "a", "gradlew"]);
    assert_eq!(detect(&c), BuildSystem::Gradle);
    assert_eq!(detect(&d), BuildSystem::Gradle);
}

#[test]
fn no_marker_means_no_build_system() {
    assert_eq!(detect(&names(&[])), BuildSystem::Unknown);
    assert_eq!(
        detect(&names(&["build.gradle", "Makefile", "archive.tar.gz", "src"])),
        BuildSystem::Unknown
    );
}

#[test]
fn run_fails_before_any_command_without_build_system() {
    let kind = detect(&names(&["archive.tar.gz", "main.c"]));
    assert_eq!(kind, BuildSystem::Unknown);
    assert_eq!(plan(kind), Err(StageError::NoBuildSystem));
}

#[test]
fn maven_plan_packages_without_tests() {
    let expected = BuildPlan {
        probe: Some(Invocation { program: "mvn".to_string(), args: names(&["--version"]) }),
        build: Invocation {
            program: "mvn".to_string(),
            args: names(&["clean", "package", "-Dmaven.test.skip=true"]),
        },
        artifact_dir: "target/".to_string(),
    };
    assert_eq!(plan(BuildSystem::Maven), Ok(expected));
}

#[test]
fn gradle_plan_builds_without_check_and_test() {
    let expected = BuildPlan {
        probe: None,
        build: Invocation {
            program: "./gradlew".to_string(),
            args: names(&["clean", "build", "-x", "check", "-x", "test"]),
        },
        artifact_dir: "build/libs/".to_string(),
    };
    assert_eq!(plan(BuildSystem::Gradle), Ok(expected));
}

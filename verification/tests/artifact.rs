use jarbuild::artifact::{candidates, has_artifact_name, select, select_artifact};
use jarbuild::dispatch::BuildSystem;
use jarbuild::entry::{Entry, EntryKind};
use jarbuild::error::StageError;

fn names(list: &[&str]) -> Vec<String> {
    list.iter().map(|s| s.to_string()).collect()
}

fn chosen(list: &[&str], kind: BuildSystem) -> String {
    let names = names(list);
    let index = select(&names, kind).unwrap();
    names[index].clone()
}

#[test]
fn maven_prefers_the_shaded_jar() {
    let list = ["app-1.0.jar", "original-app-1.0.jar", "app-1.0-shaded.jar"];
    assert_eq!(chosen(&list, BuildSystem::Maven), "app-1.0-shaded.jar");
    assert_eq!(select(&names(&list), BuildSystem::Maven), Ok(2));
}

#[test]
fn maven_falls_back_to_the_sole_original() {
    let list = ["original-app-1.0.jar"];
    assert_eq!(chosen(&list, BuildSystem::Maven), "original-app-1.0.jar");
}

#[test]
fn gradle_takes_the_longer_name() {
    let list = ["app.jar", "app-sources.jar"];
    assert_eq!(chosen(&list, BuildSystem::Gradle), "app-sources.jar");
    let list = ["app-sources.jar", "app.jar"];
    assert_eq!(chosen(&list, BuildSystem::Gradle), "app-sources.jar");
}

#[test]
fn no_candidate_is_a_failure() {
    let none: Vec<String> = Vec::new();
    assert_eq!(select(&none, BuildSystem::Maven), Err(StageError::NoArtifact));
    assert_eq!(select(&none, BuildSystem::Gradle), Err(StageError::NoArtifact));
    assert_eq!(select(&none, BuildSystem::Unknown), Err(StageError::NoArtifact));
    let entries: Vec<Entry> = Vec::new();
    assert_eq!(select_artifact(&entries, BuildSystem::Maven), Err(StageError::NoArtifact));
    assert_eq!(select_artifact(&entries, BuildSystem::Gradle), Err(StageError::NoArtifact));
}

#[test]
fn selection_is_repeatable() {
    let list = names(&["b.jar", "original-a.jar", "a.jar", "c-shaded.jar", "d-shaded.jar"]);
    for kind in [BuildSystem::Maven, BuildSystem::Gradle, BuildSystem::Unknown] {
        assert_eq!(select(&list, kind), select(&list, kind));
    }
    assert_eq!(select(&list, BuildSystem::Maven), Ok(3));
    assert_eq!(select(&list, BuildSystem::Gradle), Ok(1));
}

#[test]
fn maven_takes_the_first_shaded_jar() {
    let list = ["a.jar", "x-shaded.jar", "much-longer-name-shaded.jar"];
    assert_eq!(select(&names(&list), BuildSystem::Maven), Ok(1));
}

#[test]
fn maven_without_shaded_takes_the_first_unprefixed() {
    let list = ["original-app.jar", "app.jar", "app-with-dependencies.jar"];
    assert_eq!(select(&names(&list), BuildSystem::Maven), Ok(1));
}

#[test]
fn maven_with_only_originals_takes_the_longest() {
    let list = ["original-a.jar", "original-abc.jar", "original-ab.jar"];
    assert_eq!(select(&names(&list), BuildSystem::Maven), Ok(1));
}

#[test]
fn shaded_beats_the_original_prefix() {
    let list = ["app.jar", "original-app-shaded.jar"];
    assert_eq!(select(&names(&list), BuildSystem::Maven), Ok(1));
}

#[test]
fn shaded_suffix_must_end_the_name() {
    let list = ["app-shaded.jar.jar", "-shaded.jar"];
    assert_eq!(select(&names(&list), BuildSystem::Maven), Ok(1));
    let list = ["original-x-shaded.jar.bak.jar", "y.jar"];
    assert_eq!(select(&names(&list), BuildSystem::Maven), Ok(1));
}

#[test]
fn original_prefix_must_begin_the_name() {
    let list = ["original-a.jar", "an-original-a.jar"];
    assert_eq!(select(&names(&list), BuildSystem::Maven), Ok(1));
    let list = ["original-a.jar", "original.jar"];
    assert_eq!(select(&names(&list), BuildSystem::Maven), Ok(1));
    let list = ["original-a.jar", "Original-b.jar"];
    assert_eq!(select(&names(&list), BuildSystem::Maven), Ok(1));
}

#[test]
fn gradle_ignores_the_maven_rules() {
    let list = ["a-shaded.jar", "original-app-1.0.jar", "app.jar"];
    assert_eq!(select(&names(&list), BuildSystem::Gradle), Ok(1));
    assert_eq!(select(&names(&list), BuildSystem::Unknown), Ok(1));
    assert_eq!(select(&names(&list), BuildSystem::Maven), Ok(0));
}

#[test]
fn equally_long_names_give_the_first() {
    let list = ["aa.jar", "bb.jar", "c.jar", "dd.jar"];
    assert_eq!(select(&names(&list), BuildSystem::Gradle), Ok(0));
    let list = ["c.jar", "aa.jar", "bb.jar"];
    assert_eq!(select(&names(&list), BuildSystem::Gradle), Ok(1));
    let list = ["original-b.jar", "original-a.jar"];
    assert_eq!(select(&names(&list), BuildSystem::Maven), Ok(0));
}

#[test]
fn length_is_counted_in_bytes() {
    // Seven characters in ten bytes against nine characters in nine bytes.
    let list = ["aaaaa.jar", "\u{e9}\u{e9}\u{e9}.jar"];
    assert_eq!(select(&names(&list), BuildSystem::Gradle), Ok(1));
    // Six bytes each: the first stays.
    let list = ["ab.jar", "\u{e9}.jar"];
    assert_eq!(select(&names(&list), BuildSystem::Gradle), Ok(0));
}

#[test]
fn artifact_names_have_the_jar_extension() {
    assert!(has_artifact_name("app.jar"));
    assert!(has_artifact_name("a.jar"));
    assert!(has_artifact_name("app.tar.jar"));
    assert!(has_artifact_name("..jar"));
    assert!(has_artifact_name("\u{e9}.jar"));
    assert!(!has_artifact_name(".jar"));
    assert!(!has_artifact_name("jar"));
    assert!(!has_artifact_name(""));
    assert!(!has_artifact_name("app.JAR"));
    assert!(!has_artifact_name("app.jar.txt"));
    assert!(!has_artifact_name("app.war"));
    assert!(!has_artifact_name("appjar"));
    assert!(!has_artifact_name("app.jar "));
}

#[test]
fn candidates_are_the_jar_files_in_listing_order() {
    let entries = vec![
        Entry::new("classes", EntryKind::Directory),
        Entry::new("b.jar", EntryKind::File),
        Entry::new("lib.jar", EntryKind::Directory),
        Entry::new("notes.txt", EntryKind::File),
        Entry::new("a.jar", EntryKind::File),
        Entry::new("pipe.jar", EntryKind::Other),
        Entry::new(".jar", EntryKind::File),
    ];
    assert_eq!(candidates(&entries), names(&["b.jar", "a.jar"]));
    assert_eq!(candidates(&Vec::new()), Vec::<String>::new());
}

#[test]
fn selector_works_on_the_listing() {
    let entries = vec![
        Entry::new("classes", EntryKind::Directory),
        Entry::new("app-1.0.jar", EntryKind::File),
        Entry::new("app-1.0-shaded.jar", EntryKind::Directory),
        Entry::new("original-app-1.0.jar", EntryKind::File),
        Entry::new("maven-status", EntryKind::Directory),
    ];
    assert_eq!(select_artifact(&entries, BuildSystem::Maven), Ok("app-1.0.jar".to_string()));
    assert_eq!(
        select_artifact(&entries, BuildSystem::Gradle),
        Ok("original-app-1.0.jar".to_string())
    );
}

#[test]
fn directory_without_jars_is_a_failure() {
    let entries = vec![
        Entry::new("classes", EntryKind::Directory),
        Entry::new("app.war", EntryKind::File),
        Entry::new("libs.jar", EntryKind::Directory),
    ];
    assert_eq!(select_artifact(&entries, BuildSystem::Maven), Err(StageError::NoArtifact));
    assert_eq!(select_artifact(&entries, BuildSystem::Gradle), Err(StageError::NoArtifact));
}

//! Artifact selection: which of the files that the build left is the one to
//! publish.
//!
//! A build may leave several JARs side by side: the plain one, sources,
//! javadoc, a shaded one. Under Maven a shaded JAR is preferred, then one that
//! the shade plugin has not set aside as `original-`; otherwise, and always
//! under Gradle, the longest name wins, the first of them where several are
//! equally long.

use vstd::prelude::*;
use vstd::utf8::encode_utf8;
use crate::dispatch::BuildSystem;
use crate::entry::{listing, Entry, EntryKind, EntryView};
use crate::error::{StageError, StageErrorView};
use crate::text::{ends_with, starts_with, texts};

verus! {

/// The name has the extension `jar`: it ends in `.jar` and has something
/// before the dot.
pub open spec fn is_artifact_name(name: Seq<char>) -> bool {
    ".jar"@.is_suffix_of(name) && name.len() > ".jar"@.len()
}

/// A regular file with an artifact's name.
pub open spec fn is_candidate(e: EntryView) -> bool {
    e.kind == EntryKind::File && is_artifact_name(e.name)
}

/// The names of the candidates among `entries`, in listing order.
pub open spec fn candidate_names(entries: Seq<EntryView>) -> Seq<Seq<char>>
    decreases entries.len(),
{
    if entries.len() == 0 {
        Seq::empty()
    } else if is_candidate(entries.last()) {
        candidate_names(entries.drop_last()).push(entries.last().name)
    } else {
        candidate_names(entries.drop_last())
    }
}

/// The name marks a JAR that bundles its dependencies.
pub open spec fn is_shaded(name: Seq<char>) -> bool {
    "-shaded.jar"@.is_suffix_of(name)
}

/// The name marks a JAR that the shade plugin has set aside.
pub open spec fn is_original(name: Seq<char>) -> bool {
    "original-"@.is_prefix_of(name)
}

/// The length by which names are compared: that of the UTF-8 encoding.
pub open spec fn name_length(name: Seq<char>) -> nat {
    encode_utf8(name).len()
}

/// Name `i` is shaded and none before it is.
pub open spec fn is_first_shaded(names: Seq<Seq<char>>, i: int) -> bool {
    &&& 0 <= i < names.len()
    &&& is_shaded(names[i])
    &&& forall|k: int| 0 <= k < i ==> !is_shaded(#[trigger] names[k])
}

/// Name `i` is not set aside as original and every one before it is.
pub open spec fn is_first_unprefixed(names: Seq<Seq<char>>, i: int) -> bool {
    &&& 0 <= i < names.len()
    &&& !is_original(names[i])
    &&& forall|k: int| 0 <= k < i ==> is_original(#[trigger] names[k])
}

/// No name is longer than name `i`, and every one before it is shorter.
pub open spec fn is_first_longest(names: Seq<Seq<char>>, i: int) -> bool {
    &&& 0 <= i < names.len()
    &&& forall|k: int| 0 <= k < names.len() ==> name_length(#[trigger] names[k]) <= name_length(names[i])
    &&& forall|k: int| 0 <= k < i ==> name_length(#[trigger] names[k]) < name_length(names[i])
}

/// Some name is shaded.
pub open spec fn has_shaded(names: Seq<Seq<char>>) -> bool {
    exists|k: int| 0 <= k < names.len() && is_shaded(#[trigger] names[k])
}

/// Some name is not set aside as original.
pub open spec fn has_unprefixed(names: Seq<Seq<char>>) -> bool {
    exists|k: int| 0 <= k < names.len() && !is_original(#[trigger] names[k])
}

/// The selection policy: name `i` is the one to publish.
///
/// Under Maven the first shaded name; with none, the first that is not set
/// aside as original; with none of those either, and under every other build
/// system, the first of the longest names.
pub open spec fn is_choice(names: Seq<Seq<char>>, kind: BuildSystem, i: int) -> bool {
    if kind == BuildSystem::Maven && has_shaded(names) {
        is_first_shaded(names, i)
    } else if kind == BuildSystem::Maven && has_unprefixed(names) {
        is_first_unprefixed(names, i)
    } else {
        is_first_longest(names, i)
    }
}

/// The index that the policy selects; with no candidate, the failure.
pub open spec fn selected(names: Seq<Seq<char>>, kind: BuildSystem) -> Result<int, StageErrorView> {
    if names.len() == 0 {
        Err(StageErrorView::NoArtifact)
    } else {
        Ok(choose|i: int| is_choice(names, kind, i))
    }
}

/// Selection is deterministic: the policy accepts at most one index, so the
/// same candidates under the same build system always give the same choice.
pub proof fn lemma_choice_is_unique(names: Seq<Seq<char>>, kind: BuildSystem, i: int, j: int)
    requires
        is_choice(names, kind, i),
        is_choice(names, kind, j),
    ensures
        i == j,
        selected(names, kind) == Ok::<int, StageErrorView>(i),
{
    let c = choose|c: int| is_choice(names, kind, c);
    lemma_two_choices_agree(names, kind, i, j);
    lemma_two_choices_agree(names, kind, i, c);
}

/// Two indices that the policy accepts are one.
proof fn lemma_two_choices_agree(names: Seq<Seq<char>>, kind: BuildSystem, i: int, j: int)
    requires
        is_choice(names, kind, i),
        is_choice(names, kind, j),
    ensures
        i == j,
{
    let (a, b) = if i < j { (i, j) } else { (j, i) };
    if a < b {
        // What the later index says of every earlier one contradicts what
        // the earlier index says of itself.
        if kind == BuildSystem::Maven && has_shaded(names) {
            assert(!is_shaded(names[a]));
        } else if kind == BuildSystem::Maven && has_unprefixed(names) {
            assert(is_original(names[a]));
        } else {
            assert(name_length(names[a]) < name_length(names[b]));
        }
    }
}

/// Where there is a candidate the policy accepts one: with the law above,
/// exactly one.
pub proof fn lemma_choice_exists(names: Seq<Seq<char>>, kind: BuildSystem)
    requires
        names.len() > 0,
    ensures
        selected(names, kind) is Ok,
        is_choice(names, kind, selected(names, kind)->Ok_0),
{
    if kind == BuildSystem::Maven && has_shaded(names) {
        let k = choose|k: int| 0 <= k < names.len() && is_shaded(#[trigger] names[k]);
        let p = |i: int| is_shaded(names[i]);
        let i = lemma_least_index(p, k);
        assert forall|j: int| 0 <= j < i implies !is_shaded(#[trigger] names[j]) by {
            assert(!p(j));
        }
        lemma_choice_is_unique(names, kind, i, i);
    } else if kind == BuildSystem::Maven && has_unprefixed(names) {
        let k = choose|k: int| 0 <= k < names.len() && !is_original(#[trigger] names[k]);
        let p = |i: int| !is_original(names[i]);
        let i = lemma_least_index(p, k);
        assert forall|j: int| 0 <= j < i implies is_original(#[trigger] names[j]) by {
            assert(!p(j));
        }
        lemma_choice_is_unique(names, kind, i, i);
    } else {
        let i = lemma_first_longest_exists(names);
        lemma_choice_is_unique(names, kind, i, i);
    }
}

/// Below an index with a property stands the least index with it.
proof fn lemma_least_index(p: spec_fn(int) -> bool, k: int) -> (least: int)
    requires
        0 <= k,
        p(k),
    ensures
        0 <= least <= k,
        p(least),
        forall|j: int| 0 <= j < least ==> !#[trigger] p(j),
    decreases k,
{
    if exists|j: int| 0 <= j < k && #[trigger] p(j) {
        let j = choose|j: int| 0 <= j < k && #[trigger] p(j);
        lemma_least_index(p, j)
    } else {
        k
    }
}

/// Every non-empty sequence of names has a first longest one.
proof fn lemma_first_longest_exists(names: Seq<Seq<char>>) -> (best: int)
    requires
        names.len() > 0,
    ensures
        is_first_longest(names, best),
    decreases names.len(),
{
    if names.len() == 1 {
        0
    } else {
        let front = names.drop_last();
        let b = lemma_first_longest_exists(front);
        assert forall|k: int| 0 <= k < front.len() implies #[trigger] names[k] == front[k] by {}
        if name_length(names.last()) > name_length(front[b]) {
            names.len() - 1
        } else {
            b
        }
    }
}

/// Whether `name` has the extension `jar`.
pub fn has_artifact_name(name: &str) -> (found: bool)
    ensures
        found == is_artifact_name(name@),
{
    ends_with(name, ".jar") && name.unicode_len() > ".jar".unicode_len()
}

/// Collects the names of the build artifacts among the entries of the output
/// directory: the regular files with the extension `jar`, in listing order.
/// Subdirectories are not searched.
pub fn candidates(entries: &Vec<Entry>) -> (names: Vec<String>)
    ensures
        texts(names@) == candidate_names(listing(entries@)),
{
    let ghost view = listing(entries@);
    let mut names: Vec<String> = Vec::new();
    let mut i: usize = 0;
    assert(view.take(0) =~= Seq::<EntryView>::empty());
    assert(texts(names@) =~= Seq::<Seq<char>>::empty());
    while i < entries.len()
        invariant
            i <= entries.len(),
            view == listing(entries@),
            texts(names@) == candidate_names(view.take(i as int)),
        decreases entries.len() - i,
    {
        let entry = &entries[i];
        let ghost before = names@;
        proof {
            assert(view[i as int] == entry@);
            assert(view.take(i + 1).drop_last() =~= view.take(i as int));
            assert(view.take(i + 1).last() == entry@);
        }
        if entry.kind == EntryKind::File && has_artifact_name(entry.name.as_str()) {
            names.push(entry.name.clone());
            assert(texts(names@) =~= texts(before).push(entry.name@));
        }
        i += 1;
    }
    assert(view.take(i as int) =~= view);
    names
}

/// The first shaded name, if there is one.
fn first_shaded(names: &Vec<String>) -> (found: Option<usize>)
    ensures
        match found {
            Some(i) => is_first_shaded(texts(names@), i as int),
            None => !has_shaded(texts(names@)),
        },
{
    let ghost view = texts(names@);
    let mut i: usize = 0;
    while i < names.len()
        invariant
            i <= names.len(),
            view == texts(names@),
            forall|k: int| 0 <= k < i ==> !is_shaded(#[trigger] view[k]),
        decreases names.len() - i,
    {
        assert(view[i as int] == names[i as int]@);
        if ends_with(names[i].as_str(), "-shaded.jar") {
            return Some(i);
        }
        i += 1;
    }
    None
}

/// The first name that is not set aside as original, if there is one.
fn first_unprefixed(names: &Vec<String>) -> (found: Option<usize>)
    ensures
        match found {
            Some(i) => is_first_unprefixed(texts(names@), i as int),
            None => !has_unprefixed(texts(names@)),
        },
{
    let ghost view = texts(names@);
    let mut i: usize = 0;
    while i < names.len()
        invariant
            i <= names.len(),
            view == texts(names@),
            forall|k: int| 0 <= k < i ==> is_original(#[trigger] view[k]),
        decreases names.len() - i,
    {
        assert(view[i as int] == names[i as int]@);
        if !starts_with(names[i].as_str(), "original-") {
            return Some(i);
        }
        i += 1;
    }
    None
}

/// The first of the longest names.
fn first_longest(names: &Vec<String>) -> (best: usize)
    requires
        names.len() > 0,
    ensures
        is_first_longest(texts(names@), best as int),
{
    let ghost view = texts(names@);
    let mut best: usize = 0;
    let mut best_len: usize = names[0].as_str().as_bytes().len();
    let mut i: usize = 1;
    assert(view[0] == names[0]@);
    while i < names.len()
        invariant
            1 <= i <= names.len(),
            view == texts(names@),
            best < i,
            best_len == name_length(view[best as int]),
            forall|k: int| 0 <= k < i ==> name_length(#[trigger] view[k]) <= best_len,
            forall|k: int| 0 <= k < best ==> name_length(#[trigger] view[k]) < best_len,
        decreases names.len() - i,
    {
        assert(view[i as int] == names[i as int]@);
        let len: usize = names[i].as_str().as_bytes().len();
        if len > best_len {
            best = i;
            best_len = len;
        }
        i += 1;
    }
    best
}

/// Selects the artifact to publish among the candidates and returns its
/// index. Fails where there is no candidate.
pub fn select(names: &Vec<String>, kind: BuildSystem) -> (outcome: Result<usize, StageError>)
    ensures
        match outcome {
            Ok(i) => i < names.len() && is_choice(texts(names@), kind, i as int) && selected(
                texts(names@),
                kind,
            ) == Ok::<int, StageErrorView>(i as int),
            Err(e) => selected(texts(names@), kind) == Err::<int, StageErrorView>(e@),
        },
{
    let ghost view = texts(names@);
    if names.len() == 0 {
        return Err(StageError::NoArtifact);
    }
    if kind == BuildSystem::Maven {
        match first_shaded(names) {
            Some(i) => {
                proof {
                    lemma_choice_is_unique(view, kind, i as int, i as int);
                }
                return Ok(i);
            },
            None => {},
        }
        match first_unprefixed(names) {
            Some(i) => {
                proof {
                    lemma_choice_is_unique(view, kind, i as int, i as int);
                }
                return Ok(i);
            },
            None => {},
        }
    }
    let best = first_longest(names);
    proof {
        lemma_choice_is_unique(view, kind, best as int, best as int);
    }
    Ok(best)
}

/// The artifact selector as one step: collects the candidates among the
/// entries of the output directory and returns the name of the one to
/// publish. Fails where the directory holds no candidate.
pub fn select_artifact(entries: &Vec<Entry>, kind: BuildSystem) -> (outcome: Result<
    String,
    StageError,
>)
    ensures
        match outcome {
            Ok(name) => {
                let names = candidate_names(listing(entries@));
                &&& selected(names, kind) is Ok
                &&& 0 <= selected(names, kind)->Ok_0 < names.len()
                &&& name@ == names[selected(names, kind)->Ok_0]
            },
            Err(e) => selected(candidate_names(listing(entries@)), kind) == Err::<
                int,
                StageErrorView,
            >(e@),
        },
{
    let names = candidates(entries);
    match select(&names, kind) {
        Ok(i) => {
            assert(texts(names@)[i as int] == names[i as int]@);
            Ok(names[i].clone())
        },
        Err(e) => Err(e),
    }
}

} // verus!

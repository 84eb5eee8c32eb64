//! Layout normalization: a source archive usually wraps its contents in one
//! top-level directory, and build tools expect them at the root.
//!
//! The destination directory holds what was unpacked and the archive file
//! itself. If exactly one directory stands there, it is the wrapper: its
//! entries move up to the root and the wrapper goes. With no directory, or
//! with several, the tree stays as it was unpacked.

use vstd::prelude::*;
use crate::entry::{distinct_names, listing, Entry, EntryKind, EntryView};
use crate::error::{StageError, StageErrorView};
use crate::text::same_text;

verus! {

/// A directory that is not named like the archive file.
pub open spec fn is_wrapper_candidate(e: EntryView, archive: Seq<char>) -> bool {
    e.kind == EntryKind::Directory && e.name != archive
}

/// Entry `i` is a wrapper candidate and the only one in `root`.
pub open spec fn is_sole_wrapper(root: Seq<EntryView>, archive: Seq<char>, i: int) -> bool {
    &&& 0 <= i < root.len()
    &&& is_wrapper_candidate(root[i], archive)
    &&& forall|j: int|
        0 <= j < root.len() && is_wrapper_candidate(#[trigger] root[j], archive) ==> j == i
}

/// The index of the wrapper directory, if `root` has exactly one candidate.
pub open spec fn sole_wrapper(root: Seq<EntryView>, archive: Seq<char>) -> Option<int> {
    if exists|i: int| is_sole_wrapper(root, archive, i) {
        Some(choose|i: int| is_sole_wrapper(root, archive, i))
    } else {
        None
    }
}

/// When the turn of child `j` comes, its name is already in use at the root:
/// by an entry that was there (the wrapper and the archive file among them),
/// or by a child moved before it.
pub open spec fn name_taken(root: Seq<EntryView>, children: Seq<EntryView>, j: int) -> bool {
    ||| exists|i: int| 0 <= i < root.len() && (#[trigger] root[i]).name == children[j].name
    ||| exists|k: int| 0 <= k < j && (#[trigger] children[k]).name == children[j].name
}

/// Child `j` is the first whose name is taken.
pub open spec fn is_first_collision(
    root: Seq<EntryView>,
    children: Seq<EntryView>,
    j: int,
) -> bool {
    &&& 0 <= j < children.len()
    &&& name_taken(root, children, j)
    &&& forall|k: int| 0 <= k < j ==> !name_taken(root, children, k)
}

/// The index of the first child that cannot move up, if there is one.
pub open spec fn first_collision(root: Seq<EntryView>, children: Seq<EntryView>) -> Option<int> {
    if exists|j: int| is_first_collision(root, children, j) {
        Some(choose|j: int| is_first_collision(root, children, j))
    } else {
        None
    }
}

/// The root listing after normalization, or the collision that forbids it.
/// `children` is the listing of the wrapper directory; where `root` has no
/// wrapper it plays no part.
pub open spec fn normalized(
    root: Seq<EntryView>,
    archive: Seq<char>,
    children: Seq<EntryView>,
) -> Result<Seq<EntryView>, StageErrorView> {
    match sole_wrapper(root, archive) {
        None => Ok(root),
        Some(w) => match first_collision(root, children) {
            Some(j) => Err(StageErrorView::NameCollision(children[j].name)),
            None => Ok(root.remove(w) + children),
        },
    }
}

/// At most one index is the sole wrapper.
pub proof fn lemma_sole_wrapper_unique(root: Seq<EntryView>, archive: Seq<char>, i: int)
    requires
        is_sole_wrapper(root, archive, i),
    ensures
        sole_wrapper(root, archive) == Some(i),
{
    let c = choose|c: int| is_sole_wrapper(root, archive, c);
    assert(is_wrapper_candidate(root[c], archive));
}

/// At most one index is the first collision.
pub proof fn lemma_first_collision_unique(root: Seq<EntryView>, children: Seq<EntryView>, j: int)
    requires
        is_first_collision(root, children, j),
    ensures
        first_collision(root, children) == Some(j),
{
    let c = choose|c: int| is_first_collision(root, children, c);
    assert(c == j) by {
        if c < j {
            assert(!name_taken(root, children, c));
        } else if j < c {
            assert(!name_taken(root, children, j));
        }
    }
}

/// Where `root` lists each name once, holds exactly one wrapper candidate
/// `w`, and no child's name is in use at the root, the listing after
/// normalization is the root's without the wrapper followed by the children:
/// every child stands at the root, every entry there is a child or stood
/// beside the wrapper before, no name occurs twice, and the wrapper's name is
/// gone.
pub proof fn lemma_single_wrapper_is_flattened(
    root: Seq<EntryView>,
    archive: Seq<char>,
    children: Seq<EntryView>,
    w: int,
)
    requires
        distinct_names(root),
        is_sole_wrapper(root, archive, w),
        first_collision(root, children) is None,
    ensures
        normalized(root, archive, children) == Ok::<Seq<EntryView>, StageErrorView>(
            root.remove(w) + children,
        ),
        forall|j: int|
            0 <= j < children.len() ==> (root.remove(w) + children).contains(
                #[trigger] children[j],
            ),
        forall|k: int|
            0 <= k < (root.remove(w) + children).len() ==> {
                let e = #[trigger] (root.remove(w) + children)[k];
                children.contains(e) || exists|i: int|
                    0 <= i < root.len() && i != w && root[i] == e
            },
        forall|k: int|
            0 <= k < (root.remove(w) + children).len() ==> (#[trigger] (root.remove(w)
                + children)[k]).name != root[w].name,
        distinct_names(root.remove(w) + children),
{
    let rest = root.remove(w);
    let after = rest + children;
    lemma_sole_wrapper_unique(root, archive, w);
    lemma_collision_free(root, children);
    assert forall|j: int| 0 <= j < children.len() implies after.contains(
        #[trigger] children[j],
    ) by {
        assert(after[rest.len() + j] == children[j]);
    }
    assert forall|k: int| 0 <= k < after.len() implies {
        let e = #[trigger] after[k];
        children.contains(e) || exists|i: int| 0 <= i < root.len() && i != w && root[i] == e
    } by {
        if k < w {
            assert(root[k] == after[k]);
        } else if k < rest.len() {
            assert(root[k + 1] == after[k]);
        } else {
            assert(children[k - rest.len()] == after[k]);
        }
    }
    assert forall|k: int| 0 <= k < after.len() implies (#[trigger] after[k]).name
        != root[w].name by {
        if k < w {
            assert(root[k] == after[k]);
        } else if k < rest.len() {
            assert(root[k + 1] == after[k]);
        } else {
            assert(!name_taken(root, children, k - rest.len()));
        }
    }
    assert forall|a: int, b: int|
        0 <= a < after.len() && 0 <= b < after.len() && a != b implies after[a].name
        != after[b].name by {
        if a < b {
            lemma_distinct_after(root, children, w, a, b);
        } else {
            lemma_distinct_after(root, children, w, b, a);
        }
    }
}

/// With no first collision, no child's name is taken.
proof fn lemma_collision_free(root: Seq<EntryView>, children: Seq<EntryView>)
    requires
        first_collision(root, children) is None,
    ensures
        forall|j: int| 0 <= j < children.len() ==> !name_taken(root, children, j),
{
    assert forall|j: int| 0 <= j < children.len() implies !name_taken(root, children, j) by {
        if name_taken(root, children, j) {
            let first = lemma_least_taken(root, children, j);
            assert(is_first_collision(root, children, first));
        }
    }
}

/// Below a child whose name is taken stands the first such child.
proof fn lemma_least_taken(root: Seq<EntryView>, children: Seq<EntryView>, j: int) -> (first: int)
    requires
        0 <= j < children.len(),
        name_taken(root, children, j),
    ensures
        is_first_collision(root, children, first),
        first <= j,
    decreases j,
{
    if exists|k: int| 0 <= k < j && name_taken(root, children, k) {
        let k = choose|k: int| 0 <= k < j && name_taken(root, children, k);
        lemma_least_taken(root, children, k)
    } else {
        j
    }
}

/// Two places of the flattened listing hold different names.
proof fn lemma_distinct_after(
    root: Seq<EntryView>,
    children: Seq<EntryView>,
    w: int,
    a: int,
    b: int,
)
    requires
        distinct_names(root),
        0 <= w < root.len(),
        forall|j: int| 0 <= j < children.len() ==> !name_taken(root, children, j),
        0 <= a < b < (root.remove(w) + children).len(),
    ensures
        (root.remove(w) + children)[a].name != (root.remove(w) + children)[b].name,
{
    let rest = root.remove(w);
    let after = rest + children;
    let ia = if a < w { a } else { a + 1 };
    let ib = if b < w { b } else { b + 1 };
    if b < rest.len() {
        assert(after[a] == root[ia]);
        assert(after[b] == root[ib]);
    } else {
        let jb = b - rest.len();
        assert(after[b] == children[jb]);
        assert(!name_taken(root, children, jb));
        if a < rest.len() {
            assert(after[a] == root[ia]);
        } else {
            assert(after[a] == children[a - rest.len()]);
        }
    }
}

/// Where `root` holds no wrapper candidate, or two or more, normalization
/// leaves the listing as it was unpacked, whatever `children` holds.
pub proof fn lemma_no_single_wrapper_is_noop(
    root: Seq<EntryView>,
    archive: Seq<char>,
    children: Seq<EntryView>,
)
    requires
        (forall|i: int| 0 <= i < root.len() ==> !is_wrapper_candidate(#[trigger] root[i], archive))
            || (exists|i: int, j: int|
            0 <= i < j < root.len() && is_wrapper_candidate(root[i], archive)
                && is_wrapper_candidate(root[j], archive)),
    ensures
        normalized(root, archive, children) == Ok::<Seq<EntryView>, StageErrorView>(root),
{
    assert forall|c: int| !is_sole_wrapper(root, archive, c) by {
        if is_sole_wrapper(root, archive, c) {
            if forall|i: int|
                0 <= i < root.len() ==> !is_wrapper_candidate(#[trigger] root[i], archive) {
                assert(!is_wrapper_candidate(root[c], archive));
            } else {
                let (i, j) = choose|i: int, j: int|
                    0 <= i < j < root.len() && is_wrapper_candidate(root[i], archive)
                        && is_wrapper_candidate(root[j], archive);
                assert(is_wrapper_candidate(root[i], archive));
                assert(is_wrapper_candidate(root[j], archive));
            }
        }
    }
}

/// Finds the wrapper directory: the one directory of `root` that is not named
/// like the archive file. `None` where there is no such directory or more than
/// one.
pub fn find_wrapper(root: &Vec<Entry>, archive_name: &str) -> (found: Option<usize>)
    ensures
        match found {
            Some(i) => sole_wrapper(listing(root@), archive_name@) == Some(i as int),
            None => sole_wrapper(listing(root@), archive_name@) is None,
        },
{
    let ghost view = listing(root@);
    let mut found: Option<usize> = None;
    let mut i: usize = 0;
    while i < root.len()
        invariant
            i <= root.len(),
            view == listing(root@),
            match found {
                Some(w) => w < i && is_wrapper_candidate(view[w as int], archive_name@)
                    && forall|j: int|
                    0 <= j < i && is_wrapper_candidate(#[trigger] view[j], archive_name@) ==> j
                        == w,
                None => forall|j: int|
                    0 <= j < i ==> !is_wrapper_candidate(#[trigger] view[j], archive_name@),
            },
        decreases root.len() - i,
    {
        let entry = &root[i];
        assert(view[i as int] == entry@);
        if entry.kind == EntryKind::Directory && !same_text(entry.name.as_str(), archive_name) {
            match found {
                Some(w) => {
                    proof {
                        assert forall|c: int| !is_sole_wrapper(view, archive_name@, c) by {
                            if is_sole_wrapper(view, archive_name@, c) {
                                assert(is_wrapper_candidate(view[w as int], archive_name@));
                                assert(is_wrapper_candidate(view[i as int], archive_name@));
                            }
                        }
                    }
                    return None;
                },
                None => {
                    found = Some(i);
                },
            }
        }
        i += 1;
    }
    proof {
        match found {
            Some(w) => {
                lemma_sole_wrapper_unique(view, archive_name@, w as int);
            },
            None => {
                assert forall|c: int| !is_sole_wrapper(view, archive_name@, c) by {
                    if is_sole_wrapper(view, archive_name@, c) {
                        assert(!is_wrapper_candidate(view[c], archive_name@));
                    }
                }
            },
        }
    }
    found
}

/// Whether some entry of `entries[..upto]` has the given name.
fn has_name(entries: &Vec<Entry>, upto: usize, name: &str) -> (found: bool)
    requires
        upto <= entries.len(),
    ensures
        found == exists|i: int| 0 <= i < upto && (#[trigger] listing(entries@)[i]).name == name@,
{
    let ghost view = listing(entries@);
    let mut i: usize = 0;
    while i < upto
        invariant
            i <= upto <= entries.len(),
            view == listing(entries@),
            forall|k: int| 0 <= k < i ==> (#[trigger] view[k]).name != name@,
        decreases upto - i,
    {
        assert(view[i as int] == entries[i as int]@);
        if same_text(entries[i].name.as_str(), name) {
            return true;
        }
        i += 1;
    }
    false
}

/// Finds the first entry of `children` that cannot move up into `root`
/// because its name is in use there.
pub fn find_collision(root: &Vec<Entry>, children: &Vec<Entry>) -> (found: Option<usize>)
    ensures
        match found {
            Some(j) => first_collision(listing(root@), listing(children@)) == Some(j as int),
            None => first_collision(listing(root@), listing(children@)) is None,
        },
{
    let ghost r = listing(root@);
    let ghost c = listing(children@);
    let mut j: usize = 0;
    while j < children.len()
        invariant
            j <= children.len(),
            r == listing(root@),
            c == listing(children@),
            forall|k: int| 0 <= k < j ==> !name_taken(r, c, k),
        decreases children.len() - j,
    {
        let name = children[j].name.as_str();
        assert(c[j as int] == children[j as int]@);
        if has_name(root, root.len(), name) || has_name(children, j, name) {
            proof {
                assert(name_taken(r, c, j as int));
                lemma_first_collision_unique(r, c, j as int);
            }
            return Some(j);
        }
        j += 1;
    }
    proof {
        assert forall|k: int| !is_first_collision(r, c, k) by {}
    }
    None
}

/// Normalizes the layout of the destination directory, on listings.
///
/// `root` lists the destination directory after unpacking, `archive_name` is
/// the file name of the archive that lies in it, and `children` lists the
/// wrapper directory that [`find_wrapper`] names (it is not looked at where
/// there is none). Returns the listing that the root has once every child has
/// moved up and the wrapper is gone: the entries that were there, in their
/// order and without the wrapper, then the children in theirs. Where there is
/// no wrapper the listing comes back unchanged. Where a child's name is
/// already in use at the root nothing may move, and the name of the first
/// such child is the error.
pub fn normalize(root: &Vec<Entry>, archive_name: &str, children: &Vec<Entry>) -> (outcome: Result<
    Vec<Entry>,
    StageError,
>)
    ensures
        match outcome {
            Ok(after) => normalized(listing(root@), archive_name@, listing(children@)) == Ok::<
                Seq<EntryView>,
                StageErrorView,
            >(listing(after@)),
            Err(e) => normalized(listing(root@), archive_name@, listing(children@)) == Err::<
                Seq<EntryView>,
                StageErrorView,
            >(e@),
        },
{
    let ghost r = listing(root@);
    let ghost c = listing(children@);
    let mut after: Vec<Entry> = Vec::new();
    match find_wrapper(root, archive_name) {
        None => {
            append_copies(&mut after, root, 0, root.len());
            assert(listing(after@) =~= r);
            Ok(after)
        },
        Some(w) => {
            assert(is_sole_wrapper(r, archive_name@, w as int));
            match find_collision(root, children) {
                Some(j) => {
                    assert(c[j as int] == children[j as int]@);
                    Err(StageError::NameCollision(children[j].name.clone()))
                },
                None => {
                    assert(w < root.len());
                    append_copies(&mut after, root, 0, w);
                    append_copies(&mut after, root, w + 1, root.len());
                    append_copies(&mut after, children, 0, children.len());
                    assert(listing(after@) =~= r.remove(w as int) + c);
                    Ok(after)
                },
            }
        },
    }
}

/// Appends copies of `source[from..to]` to `target`.
fn append_copies(target: &mut Vec<Entry>, source: &Vec<Entry>, from: usize, to: usize)
    requires
        from <= to <= source.len(),
    ensures
        listing(final(target)@) == listing(old(target)@) + listing(source@).subrange(
            from as int,
            to as int,
        ),
{
    let ghost before = listing(target@);
    let ghost s = listing(source@);
    let mut i: usize = from;
    while i < to
        invariant
            from <= i <= to <= source.len(),
            s == listing(source@),
            listing(target@) == before + s.subrange(from as int, i as int),
        decreases to - i,
    {
        let ghost prev = target@;
        let copy = source[i].duplicate();
        target.push(copy);
        proof {
            assert(target@ == prev.push(copy));
            assert(s[i as int] == source[i as int]@);
            assert(listing(target@) =~= listing(prev).push(copy@));
            assert(s.subrange(from as int, i + 1) =~= s.subrange(from as int, i as int).push(
                s[i as int],
            ));
        }
        i += 1;
    }
}

} // verus!

//! Directory listings as plain values.

use vstd::prelude::*;

verus! {

/// What kind of file-system object an entry is, symbolic links followed.
#[derive(Clone, Copy, Debug, PartialEq, Eq, Structural)]
pub enum EntryKind {
    /// A regular file.
    File,
    /// A directory.
    Directory,
    /// Anything else: a socket, a device, a dangling link.
    Other,
}

/// One entry of a directory listing: its file name and its kind.
#[derive(Debug, PartialEq, Eq)]
pub struct Entry {
    pub name: String,
    pub kind: EntryKind,
}

/// The mathematical value of an [`Entry`].
pub struct EntryView {
    pub name: Seq<char>,
    pub kind: EntryKind,
}

impl View for Entry {
    type V = EntryView;

    open spec fn view(&self) -> EntryView {
        EntryView { name: self.name@, kind: self.kind }
    }
}

/// A listing as a sequence of entry values, in listing order.
pub open spec fn listing(entries: Seq<Entry>) -> Seq<EntryView> {
    entries.map_values(|e: Entry| e@)
}

/// No name occurs twice, as in every listing read from a file system.
pub open spec fn distinct_names(entries: Seq<EntryView>) -> bool {
    forall|i: int, j: int|
        0 <= i < entries.len() && 0 <= j < entries.len() && i != j
            ==> entries[i].name != entries[j].name
}

impl Entry {
    /// An entry with the given name and kind.
    pub fn new(name: &str, kind: EntryKind) -> (e: Entry)
        ensures
            e@ == (EntryView { name: name@, kind }),
    {
        Entry { name: name.to_owned(), kind }
    }

    /// A copy of this entry.
    pub fn duplicate(&self) -> (e: Entry)
        ensures
            e == *self,
    {
        Entry { name: self.name.clone(), kind: self.kind }
    }
}

} // verus!

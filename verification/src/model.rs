//! Snapshot model of a scanned filesystem location.
//!
//! A `Directory` holds the immediate children of one scanned root, each an
//! `Entry` carrying the plain facts the engine reasons about: the entry's
//! name as bytes, its age in whole seconds since last modification (`None`
//! when the modification time could not be read), and either a file size or
//! the child entries of a subdirectory. Unreadable files are captured with
//! size zero and unreadable subdirectories with no children, so a single
//! permission error never poisons a whole computation.

use vstd::prelude::*;

verus! {

/// What an entry is: a file with a size in bytes, or a directory with its
/// own child entries.
pub enum EntryKind {
    File { size: u64 },
    Dir { children: Vec<Entry> },
}

/// One filesystem entry in a snapshot.
pub struct Entry {
    /// The entry's bare name (not its full path), as bytes.
    pub name: Vec<u8>,
    /// Whole seconds elapsed since the entry was last modified, or `None`
    /// when the modification time could not be read.
    pub age_secs: Option<u64>,
    pub kind: EntryKind,
}

/// The immediate children of one scanned root. A root that does not exist
/// or cannot be listed is captured as an empty directory.
pub struct Directory {
    pub entries: Vec<Entry>,
}

/// Recursive size of an entry in bytes: a file's own size, or the sum over
/// a directory's whole subtree.
pub open spec fn entry_size(e: Entry) -> nat
    decreases e, 0int,
{
    match e.kind {
        EntryKind::File { size } => size as nat,
        EntryKind::Dir { children } => entries_size_from(children@, 0),
    }
}

/// Sum of `entry_size` over `s[i..]`.
pub open spec fn entries_size_from(s: Seq<Entry>, i: int) -> nat
    decreases s, s.len() - i,
{
    if i < 0 || i >= s.len() {
        0
    } else {
        entry_size(s[i]) + entries_size_from(s, i + 1)
    }
}

/// Total size of a directory snapshot: the sum over all entries' subtrees.
pub open spec fn dir_size(d: Directory) -> nat {
    entries_size_from(d.entries@, 0)
}

impl Directory {
    /// The snapshot is small enough that every byte total the engine
    /// computes over it fits in a `u64`.
    pub open spec fn wf(self) -> bool {
        dir_size(self) <= u64::MAX
    }
}

/// Each entry's subtree weighs no more than the suffix sum it is part of.
pub proof fn lemma_entry_le_suffix(s: Seq<Entry>, i: int)
    requires
        0 <= i < s.len(),
    ensures
        entry_size(s[i]) <= entries_size_from(s, i),
        entries_size_from(s, i + 1) <= entries_size_from(s, i),
{
}

/// Computes `entry_size` of one entry.
pub fn entry_total_size(e: &Entry) -> (r: u64)
    requires
        entry_size(*e) <= u64::MAX,
    ensures
        r == entry_size(*e),
    decreases *e, 0int,
{
    match &e.kind {
        EntryKind::File { size } => *size,
        EntryKind::Dir { children } => entries_total_size_from(children, 0),
    }
}

/// Computes the sum of `entry_size` over `v[i..]`.
pub fn entries_total_size_from(v: &Vec<Entry>, i: usize) -> (r: u64)
    requires
        i <= v.len(),
        entries_size_from(v@, i as int) <= u64::MAX,
    ensures
        r == entries_size_from(v@, i as int),
    decreases v@, v.len() - i,
{
    if i == v.len() {
        0
    } else {
        proof {
            lemma_entry_le_suffix(v@, i as int);
        }
        let first = entry_total_size(&v[i]);
        let rest = entries_total_size_from(v, i + 1);
        first + rest
    }
}

/// Recursive size of a whole directory snapshot, in bytes.
pub fn directory_size(d: &Directory) -> (r: u64)
    requires
        d.wf(),
    ensures
        r == dir_size(*d),
{
    entries_total_size_from(&d.entries, 0)
}

} // verus!

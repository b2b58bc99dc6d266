//! Depth-bounded recursive search for entries matching a name or extension
//! predicate — how dependency caches and interpreter cache files are found.
//!
//! Traversal prunes into a matched directory without descending further:
//! once a directory matches, its interior is not separately visited. It
//! also refuses to descend into dot-directories and a small denylist of
//! high-cost subtrees, to bound scan cost. Matches come back in traversal
//! order, each with its full subtree size measured at scan time and its
//! path relative to the searched root.

use vstd::prelude::*;
use crate::bytes::bytes_eq;
use crate::bytes::copy_tail;
use crate::model::Directory;
use crate::model::Entry;
use crate::model::EntryKind;
use crate::model::entries_size_from;
use crate::model::entry_size;
use crate::model::entry_total_size;
use crate::model::lemma_entry_le_suffix;

verus! {

/// What to look for: a directory with one fixed name, or a file whose
/// extension stands in a list; and which directory names never to enter.
pub struct FindQuery {
    /// Matches a directory of exactly this name, when present.
    pub dir_name: Option<Vec<u8>>,
    /// Matches a file whose name extension equals one of these.
    pub file_exts: Vec<Vec<u8>>,
    /// Directory names the search never descends into (dot-directories are
    /// always skipped as well).
    pub deny_dirs: Vec<Vec<u8>>,
}

/// One search hit as handed to the caller.
#[derive(Clone, Debug)]
pub struct FoundEntry {
    /// Path relative to the searched root: component names joined by `/`.
    pub path: Vec<u8>,
    /// Subtree size in bytes, measured at scan time.
    pub size: u64,
    pub is_dir: bool,
}

/// The mathematical shadow of a `FoundEntry`.
pub struct FoundRec {
    pub path: Seq<u8>,
    pub size: nat,
    pub is_dir: bool,
}

pub open spec fn rec_of(f: FoundEntry) -> FoundRec {
    FoundRec { path: f.path@, size: f.size as nat, is_dir: f.is_dir }
}

pub open spec fn recs_of(v: Seq<FoundEntry>) -> Seq<FoundRec> {
    v.map_values(|f: FoundEntry| rec_of(f))
}

/// Index of the last dot strictly before position `i`, or `-1`.
pub open spec fn last_dot_before(s: Seq<u8>, i: int) -> int
    decreases i,
{
    if i <= 0 {
        -1
    } else if s[i - 1] == 46u8 {
        i - 1
    } else {
        last_dot_before(s, i - 1)
    }
}

/// The name's extension: what follows the final dot, provided that dot is
/// neither the name's first byte nor absent.
pub open spec fn extension_of(name: Seq<u8>) -> Option<Seq<u8>> {
    let d = last_dot_before(name, name.len() as int);
    if d <= 0 {
        None
    } else {
        Some(name.subrange(d + 1, name.len() as int))
    }
}

pub open spec fn spec_ext_matches(name: Seq<u8>, exts: Seq<Vec<u8>>) -> bool {
    exists|j: int| 0 <= j < exts.len() && extension_of(name) == Some(#[trigger] exts[j]@)
}

/// Does the entry match the query: a directory of the sought name, or a
/// file with one of the sought extensions?
pub open spec fn spec_entry_matches(e: Entry, q: FindQuery) -> bool {
    match e.kind {
        EntryKind::Dir { .. } => match q.dir_name {
            Some(n) => e.name@ == n@,
            None => false,
        },
        EntryKind::File { .. } => spec_ext_matches(e.name@, q.file_exts@),
    }
}

/// A directory name the search never descends into: a dot-directory or a
/// denylisted name.
pub open spec fn spec_denied(name: Seq<u8>, q: FindQuery) -> bool {
    (name.len() > 0 && name[0] == 46u8) || exists|j: int|
        0 <= j < q.deny_dirs@.len() && #[trigger] q.deny_dirs@[j]@ == name
}

/// `prefix/name`, or just `name` under the root.
pub open spec fn spec_joined(prefix: Seq<u8>, name: Seq<u8>) -> Seq<u8> {
    if prefix.len() == 0 {
        name
    } else {
        prefix + seq![47u8] + name
    }
}

/// Every match in `s[i..]`, seen from depth `depth`, in traversal order: a
/// matched entry is reported once and — when it is a directory — not
/// descended into; an unmatched, undenied directory is searched one level
/// deeper, as long as the depth bound allows.
pub open spec fn find_matches_from(
    s: Seq<Entry>,
    i: int,
    depth: int,
    max_depth: int,
    prefix: Seq<u8>,
    q: FindQuery,
) -> Seq<FoundRec>
    decreases s, s.len() - i,
{
    if depth > max_depth || i < 0 || i >= s.len() {
        Seq::empty()
    } else {
        let e = s[i];
        let here = if spec_entry_matches(e, q) {
            seq![
                FoundRec {
                    path: spec_joined(prefix, e.name@),
                    size: entry_size(e),
                    is_dir: e.kind is Dir,
                },
            ]
        } else {
            Seq::empty()
        };
        let below = match e.kind {
            EntryKind::Dir { children } => {
                if !spec_entry_matches(e, q) && !spec_denied(e.name@, q) {
                    find_matches_from(children@, 0, depth + 1, max_depth, spec_joined(prefix, e.name@), q)
                } else {
                    Seq::empty()
                }
            },
            EntryKind::File { .. } => Seq::empty(),
        };
        here + below + find_matches_from(s, i + 1, depth, max_depth, prefix, q)
    }
}

fn file_ext_matches(name: &Vec<u8>, exts: &Vec<Vec<u8>>) -> (r: bool)
    ensures
        r == spec_ext_matches(name@, exts@),
{
    let n = name.len();
    let mut i: usize = n;
    let mut found = false;
    while i > 0 && !found
        invariant
            i <= n,
            n == name.len(),
            !found ==> last_dot_before(name@, n as int) == last_dot_before(name@, i as int),
            found ==> 1 <= i && name@[i as int - 1] == 46u8
                && last_dot_before(name@, n as int) == i - 1,
        decreases i + (if found {
            0int
        } else {
            1int
        }),
    {
        if name[i - 1] == 46u8 {
            proof {
                assert(last_dot_before(name@, i as int) == i - 1);
            }
            found = true;
        } else {
            i = i - 1;
        }
    }
    if !found || i <= 1 {
        // No dot, or only a leading one: no extension.
        proof {
            if !found {
                assert(i == 0);
                assert(last_dot_before(name@, 0) == -1);
            }
            assert(extension_of(name@) is None);
        }
        return false;
    }
    let ext = copy_tail(name, i);
    assert(ext@ =~= name@.subrange(i as int, n as int));
    assert(extension_of(name@) == Some(ext@));
    let m = exts.len();
    let mut j: usize = 0;
    while j < m
        invariant
            j <= m,
            m == exts.len(),
            ext@ == name@.subrange(i as int, n as int),
            extension_of(name@) == Some(ext@),
            forall|k: int| 0 <= k < j ==> #[trigger] exts@[k]@ != ext@,
        decreases m - j,
    {
        if bytes_eq(&ext, &exts[j]) {
            return true;
        }
        j = j + 1;
    }
    false
}

fn entry_matches(e: &Entry, q: &FindQuery) -> (r: bool)
    ensures
        r == spec_entry_matches(*e, *q),
{
    match &e.kind {
        EntryKind::Dir { .. } => match &q.dir_name {
            Some(n) => bytes_eq(&e.name, n),
            None => false,
        },
        EntryKind::File { .. } => file_ext_matches(&e.name, &q.file_exts),
    }
}

fn name_denied(name: &Vec<u8>, q: &FindQuery) -> (r: bool)
    ensures
        r == spec_denied(name@, *q),
{
    if name.len() > 0 && name[0] == 46u8 {
        return true;
    }
    let m = q.deny_dirs.len();
    let mut j: usize = 0;
    while j < m
        invariant
            j <= m,
            m == q.deny_dirs.len(),
            forall|k: int| 0 <= k < j ==> #[trigger] q.deny_dirs@[k]@ != name@,
        decreases m - j,
    {
        if bytes_eq(&q.deny_dirs[j], name) {
            return true;
        }
        j = j + 1;
    }
    false
}

/// Builds `prefix/name` (bare `name` under the root).
pub fn join_path(prefix: &Vec<u8>, name: &Vec<u8>) -> (r: Vec<u8>)
    ensures
        r@ == spec_joined(prefix@, name@),
{
    let mut out: Vec<u8> = Vec::new();
    let mut i: usize = 0;
    while i < prefix.len()
        invariant
            i <= prefix.len(),
            out@ =~= prefix@.subrange(0, i as int),
        decreases prefix.len() - i,
    {
        out.push(prefix[i]);
        i = i + 1;
    }
    if prefix.len() > 0 {
        out.push(47);
    }
    let mut j: usize = 0;
    while j < name.len()
        invariant
            j <= name.len(),
            out@ =~= (if prefix@.len() == 0 {
                name@.subrange(0, j as int)
            } else {
                prefix@ + seq![47u8] + name@.subrange(0, j as int)
            }),
        decreases name.len() - j,
    {
        out.push(name[j]);
        j = j + 1;
    }
    proof {
        assert(out@ =~= spec_joined(prefix@, name@));
    }
    out
}

proof fn lemma_recs_push(v: Seq<FoundEntry>, f: FoundEntry)
    ensures
        recs_of(v.push(f)) == recs_of(v).push(rec_of(f)),
{
    assert(recs_of(v.push(f)) =~= recs_of(v).push(rec_of(f)));
}

fn find_into(
    v: &Vec<Entry>,
    i: usize,
    depth: u64,
    max_depth: u64,
    prefix: &Vec<u8>,
    q: &FindQuery,
    out: &mut Vec<FoundEntry>,
)
    requires
        i <= v.len(),
        max_depth < u64::MAX,
        entries_size_from(v@, i as int) <= u64::MAX,
    ensures
        recs_of(final(out)@) == recs_of(old(out)@) + find_matches_from(
            v@,
            i as int,
            depth as int,
            max_depth as int,
            prefix@,
            *q,
        ),
    decreases v@, v.len() - i,
{
    if depth > max_depth || i >= v.len() {
        proof {
            assert(recs_of(out@) =~= recs_of(out@) + Seq::<FoundRec>::empty());
        }
        return ;
    }
    let ghost before = out@;
    let ghost eg = v@[i as int];
    let ghost here: Seq<FoundRec> = (if spec_entry_matches(eg, *q) {
        seq![
            FoundRec {
                path: spec_joined(prefix@, eg.name@),
                size: entry_size(eg),
                is_dir: eg.kind is Dir,
            },
        ]
    } else {
        Seq::empty()
    });
    let ghost below: Seq<FoundRec> = (match eg.kind {
        EntryKind::Dir { children } => {
            if !spec_entry_matches(eg, *q) && !spec_denied(eg.name@, *q) {
                find_matches_from(
                    children@,
                    0,
                    depth as int + 1,
                    max_depth as int,
                    spec_joined(prefix@, eg.name@),
                    *q,
                )
            } else {
                Seq::empty()
            }
        },
        EntryKind::File { .. } => Seq::empty(),
    });
    let ghost rest = find_matches_from(
        v@,
        i as int + 1,
        depth as int,
        max_depth as int,
        prefix@,
        *q,
    );
    proof {
        lemma_entry_le_suffix(v@, i as int);
        assert(find_matches_from(v@, i as int, depth as int, max_depth as int, prefix@, *q)
            == here + below + rest);
    }
    let e = &v[i];
    if entry_matches(e, q) {
        let sz = entry_total_size(e);
        let p = join_path(prefix, &e.name);
        let is_dir = match &e.kind {
            EntryKind::Dir { .. } => true,
            EntryKind::File { .. } => false,
        };
        let hit = FoundEntry { path: p, size: sz, is_dir };
        proof {
            lemma_recs_push(out@, hit);
            assert(rec_of(hit) == here[0]);
        }
        out.push(hit);
        proof {
            assert(recs_of(out@) =~= recs_of(before) + here + below);
        }
    } else {
        match &e.kind {
            EntryKind::Dir { children } => {
                if !name_denied(&e.name, q) {
                    let p = join_path(prefix, &e.name);
                    find_into(children, 0, depth + 1, max_depth, &p, q, out);
                    proof {
                        assert(recs_of(out@) =~= recs_of(before) + here + below);
                    }
                } else {
                    proof {
                        assert(recs_of(out@) =~= recs_of(before) + here + below);
                    }
                }
            },
            EntryKind::File { .. } => {
                proof {
                    assert(recs_of(out@) =~= recs_of(before) + here + below);
                }
            },
        }
    }
    find_into(v, i + 1, depth, max_depth, prefix, q, out);
    proof {
        assert(recs_of(out@) =~= recs_of(before) + (here + below + rest));
    }
}

/// Sum of the sizes of the matches `m[i..]`.
pub open spec fn found_sizes_from(m: Seq<FoundRec>, i: int) -> nat
    decreases m.len() - i,
{
    if i < 0 || i >= m.len() {
        0
    } else {
        m[i].size + found_sizes_from(m, i + 1)
    }
}

/// How many matches of `[i..]` the outcomes report as removed.
pub open spec fn removed_count_from(ok: Seq<bool>, i: int) -> nat
    decreases ok.len() - i,
{
    if i < 0 || i >= ok.len() {
        0
    } else {
        (if ok[i] {
            1nat
        } else {
            0nat
        }) + removed_count_from(ok, i + 1)
    }
}

/// The bytes of the matches of `[i..]` whose removal the outcomes report
/// as done.
pub open spec fn removed_sizes_from(m: Seq<FoundRec>, ok: Seq<bool>, i: int) -> nat
    decreases m.len() - i,
{
    if i < 0 || i >= m.len() || i >= ok.len() {
        0
    } else {
        (if ok[i] {
            m[i].size
        } else {
            0
        }) + removed_sizes_from(m, ok, i + 1)
    }
}

proof fn lemma_removed_le_found(m: Seq<FoundRec>, ok: Seq<bool>, i: int)
    requires
        0 <= i,
    ensures
        removed_sizes_from(m, ok, i) <= found_sizes_from(m, i),
    decreases m.len() - i,
{
    if i < m.len() {
        lemma_removed_le_found(m, ok, i + 1);
    }
}

/// Total size of a match set, as reported when presenting a found batch.
pub fn total_found_size(found: &Vec<FoundEntry>) -> (r: u64)
    requires
        found_sizes_from(recs_of(found@), 0) <= u64::MAX,
    ensures
        r == found_sizes_from(recs_of(found@), 0),
{
    let n = found.len();
    let ghost m = recs_of(found@);
    let mut size: u64 = 0;
    let mut i: usize = 0;
    while i < n
        invariant
            n == found.len(),
            i <= n,
            m == recs_of(found@),
            size + found_sizes_from(m, i as int) == found_sizes_from(m, 0),
            found_sizes_from(m, 0) <= u64::MAX,
        decreases n - i,
    {
        proof {
            assert(m[i as int] == rec_of(found@[i as int]));
        }
        size = size + found[i].size;
        i = i + 1;
    }
    size
}

/// Statistics of a batch removal of found matches, from the caller's
/// per-match outcomes: a match whose removal failed is not counted and its
/// size is not added.
pub fn batch_stats(found: &Vec<FoundEntry>, outcomes: &Vec<bool>) -> (s: crate::stats::CleanupStats)
    requires
        outcomes@.len() == found@.len(),
        found_sizes_from(recs_of(found@), 0) <= u64::MAX,
    ensures
        s.files_removed == removed_count_from(outcomes@, 0),
        s.space_freed == removed_sizes_from(recs_of(found@), outcomes@, 0),
        s.files_removed <= found@.len(),
{
    let n = found.len();
    let ghost m = recs_of(found@);
    let mut count: usize = 0;
    let mut size: u64 = 0;
    let mut i: usize = 0;
    proof {
        lemma_removed_le_found(m, outcomes@, 0);
    }
    while i < n
        invariant
            n == found.len() == outcomes.len(),
            i <= n,
            count <= i,
            m == recs_of(found@),
            count + removed_count_from(outcomes@, i as int) == removed_count_from(outcomes@, 0),
            size + removed_sizes_from(m, outcomes@, i as int) == removed_sizes_from(m, outcomes@, 0),
            removed_sizes_from(m, outcomes@, 0) <= u64::MAX,
        decreases n - i,
    {
        proof {
            assert(m[i as int] == rec_of(found@[i as int]));
        }
        if outcomes[i] {
            count = count + 1;
            size = size + found[i].size;
        }
        i = i + 1;
    }
    crate::stats::CleanupStats { files_removed: count, space_freed: size }
}

/// When every removal of a found batch succeeds, the batch statistics are
/// exactly the presented ones: every match counted, the full found size
/// freed — what a simulation of the batch reports.
pub proof fn lemma_batch_all_successes(m: Seq<FoundRec>, ok: Seq<bool>)
    requires
        ok.len() == m.len(),
        forall|j: int| 0 <= j < ok.len() ==> ok[j],
    ensures
        removed_count_from(ok, 0) == m.len(),
        removed_sizes_from(m, ok, 0) == found_sizes_from(m, 0),
{
    lemma_batch_all_successes_from(m, ok, 0);
}

proof fn lemma_batch_all_successes_from(m: Seq<FoundRec>, ok: Seq<bool>, i: int)
    requires
        0 <= i <= m.len(),
        ok.len() == m.len(),
        forall|j: int| 0 <= j < ok.len() ==> ok[j],
    ensures
        removed_count_from(ok, i) == m.len() - i,
        removed_sizes_from(m, ok, i) == found_sizes_from(m, i),
    decreases m.len() - i,
{
    if i < m.len() {
        lemma_batch_all_successes_from(m, ok, i + 1);
    }
}

/// Searches one snapshot directory, depth-bounded, for the query's
/// matches; see `find_matches_from` for the exact result.
pub fn find_in_directory(d: &Directory, q: &FindQuery, max_depth: u64) -> (out: Vec<FoundEntry>)
    requires
        d.wf(),
        max_depth < u64::MAX,
    ensures
        recs_of(out@) == find_matches_from(d.entries@, 0, 0, max_depth as int, Seq::empty(), *q),
{
    let mut out: Vec<FoundEntry> = Vec::new();
    let prefix: Vec<u8> = Vec::new();
    proof {
        assert(recs_of(Seq::<FoundEntry>::empty()) =~= Seq::<FoundRec>::empty());
    }
    find_into(&d.entries, 0, 0, max_depth, &prefix, q, &mut out);
    proof {
        assert(recs_of(out@) =~= find_matches_from(d.entries@, 0, 0, max_depth as int, Seq::<u8>::empty(), *q));
    }
    out
}

} // verus!

//! The parts of a v9 `pnpm-lock.yaml` that the install logic reads.
//!
//! A package key is written the way the lockfile writes it:
//! `name@version`, optionally followed by a peer suffix such as
//! `(react@17.0.2)`; scoped names keep their leading `@`
//! (`@scope/name@1.0.0`).
use vstd::prelude::*;
use crate::text::{concat3, find_char, lemma_find_props, spec_find, str_eq, substr};

verus! {

/// A dependency reference inside a snapshot: a version (with its peer
/// suffix) of the package named by the alias, or the full key of the
/// package an npm-alias points at.
#[derive(Debug, Clone, PartialEq, Eq)]
pub enum SnapshotDepRef {
    Plain(String),
    Alias(String),
}

/// One `alias: reference` entry of a snapshot's dependency map.
#[derive(Debug, Clone, PartialEq, Eq)]
pub struct DepEdge {
    pub alias: String,
    pub dep_ref: SnapshotDepRef,
}

/// A `snapshots:` entry.
#[derive(Debug, Clone, Default, PartialEq, Eq)]
pub struct SnapshotEntry {
    pub dependencies: Option<Vec<DepEdge>>,
    pub optional_dependencies: Option<Vec<DepEdge>>,
    pub optional: bool,
}

/// A snapshot together with its key.
#[derive(Debug, Clone, PartialEq, Eq)]
pub struct Snapshot {
    pub key: String,
    pub entry: SnapshotEntry,
}

/// The version an importer's direct dependency resolved to: a
/// registry version (with its peer suffix), or a `link:` target path.
#[derive(Debug, Clone, PartialEq, Eq)]
pub enum ImporterDepVersion {
    Regular(String),
    Link(String),
}

/// One direct dependency of a project: its name and resolved version.
#[derive(Debug, Clone, PartialEq, Eq)]
pub struct ImporterDep {
    pub name: String,
    pub version: ImporterDepVersion,
}

/// An `importers:` entry: the project's resolved direct dependencies
/// per group.
#[derive(Debug, Clone, Default, PartialEq, Eq)]
pub struct ProjectSnapshot {
    pub dependencies: Option<Vec<ImporterDep>>,
    pub optional_dependencies: Option<Vec<ImporterDep>>,
    pub dev_dependencies: Option<Vec<ImporterDep>>,
}

/// A project of the workspace with its lockfile id (`.` for the root).
#[derive(Debug, Clone, PartialEq, Eq)]
pub struct Importer {
    pub id: String,
    pub snapshot: ProjectSnapshot,
}

/// The key a dependency reference resolves to.
pub open spec fn spec_resolve(alias: Seq<char>, dep_ref: SnapshotDepRef) -> Seq<char> {
    match dep_ref {
        SnapshotDepRef::Plain(v) => alias + "@"@ + v@,
        SnapshotDepRef::Alias(k) => k@,
    }
}

/// The keys a sequence of dependency edges resolve to, in order.
pub open spec fn spec_resolve_all(edges: Seq<DepEdge>) -> Seq<Seq<char>> {
    edges.map_values(|e: DepEdge| spec_resolve(e.alias@, e.dep_ref))
}

/// The edges of an optional dependency map (none when absent).
pub open spec fn opt_edges(m: Option<Vec<DepEdge>>) -> Seq<DepEdge> {
    match m {
        Some(v) => v@,
        None => Seq::empty(),
    }
}

/// `dependencies` followed by `optionalDependencies`.
pub open spec fn spec_all_edges(entry: SnapshotEntry) -> Seq<DepEdge> {
    opt_edges(entry.dependencies) + opt_edges(entry.optional_dependencies)
}

/// The key of a snapshot with its peer suffix removed.
pub open spec fn spec_without_peer(key: Seq<char>) -> Seq<char> {
    match spec_find(key, '(', 0) {
        Some(i) => key.take(i),
        None => key,
    }
}

/// The keys of a list of snapshots, in order.
pub open spec fn snapshot_keys(s: Seq<Snapshot>) -> Seq<Seq<char>> {
    s.map_values(|x: Snapshot| x.key@)
}

/// Resolve a dependency reference to the key it points at.
pub fn resolve(alias: &str, dep_ref: &SnapshotDepRef) -> (r: String)
    ensures
        r@ == spec_resolve(alias@, *dep_ref),
{
    match dep_ref {
        SnapshotDepRef::Plain(v) => concat3(alias, "@", v.as_str()),
        SnapshotDepRef::Alias(k) => k.clone(),
    }
}

/// Strip the peer suffix (everything from the first `(`) off a key.
pub fn without_peer(key: &str) -> (r: String)
    ensures
        r@ == spec_without_peer(key@),
{
    match find_char(key, '(', 0) {
        Some(i) => {
            proof {
                lemma_find_props(key@, '(', 0);
            }
            substr(key, 0, i)
        },
        None => key.to_owned(),
    }
}

/// Position of `key` among the snapshot keys, if present.
pub fn find_snapshot(snapshots: &Vec<Snapshot>, key: &str) -> (r: Option<usize>)
    ensures
        r matches Some(i) ==> i < snapshots@.len() && snapshots@[i as int].key@ == key@,
        r is None ==> !snapshot_keys(snapshots@).contains(key@),
{
    let mut i: usize = 0;
    while i < snapshots.len()
        invariant
            i <= snapshots@.len(),
            forall|j: int| 0 <= j < i ==> snapshots@[j].key@ != key@,
        decreases snapshots.len() - i,
    {
        if str_eq(snapshots[i].key.as_str(), key) {
            return Some(i);
        }
        i = i + 1;
    }
    proof {
        if snapshot_keys(snapshots@).contains(key@) {
            let j = choose|j: int| 0 <= j < snapshot_keys(snapshots@).len() && snapshot_keys(snapshots@)[j] == key@;
            assert(snapshots@[j].key@ == key@);
        }
    }
    None
}

/// Whether `s` holds `x`.
pub fn contains_str(s: &Vec<String>, x: &str) -> (r: bool)
    ensures
        r == string_seq_views(s@).contains(x@),
{
    let mut i: usize = 0;
    while i < s.len()
        invariant
            i <= s@.len(),
            forall|j: int| 0 <= j < i ==> s@[j]@ != x@,
        decreases s.len() - i,
    {
        if str_eq(s[i].as_str(), x) {
            assert(string_seq_views(s@)[i as int] == x@);
            return true;
        }
        i = i + 1;
    }
    proof {
        if string_seq_views(s@).contains(x@) {
            let j = choose|j: int| 0 <= j < string_seq_views(s@).len() && string_seq_views(s@)[j] == x@;
            assert(s@[j]@ == x@);
        }
    }
    false
}

/// The views of a sequence of strings.
pub open spec fn string_seq_views(s: Seq<String>) -> Seq<Seq<char>> {
    s.map_values(|x: String| x@)
}

} // verus!

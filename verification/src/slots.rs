//! Paths inside a package's virtual-store slot: where its files go, the
//! links to its dependencies, the directories to create before its
//! files are imported; and the lockfile entries of a package installed
//! straight from the registry.
use vstd::prelude::*;
use crate::lockfile::{resolve, spec_resolve, DepEdge, SnapshotDepRef, SnapshotEntry};
use crate::path::{join, spec_join};
use crate::text::{concat3, find_char, lemma_find_props, lemma_rfind_props, replace_char, rfind_char, spec_find, spec_replace, spec_rfind, str_eq, substr, views_of};
use crate::virtual_store::{PackageEntry, Resolution};

verus! {

broadcast use vstd::seq_lib::group_seq_properties;

/// The flat directory name of a key in a project's virtual store: `/`
/// becomes `+`.
pub open spec fn spec_flat_name(key: Seq<char>) -> Seq<char> {
    spec_replace(key, '/', '+')
}

/// The flat directory name of a key.
pub fn flat_name(key: &str) -> (r: String)
    ensures
        r@ == spec_flat_name(key@),
{
    proof {
        reveal_strlit("+");
    }
    replace_char(key, '/', "+")
}

/// The package name of a key: up to the `@` that starts the version (the
/// first `@` after the first character).
pub open spec fn spec_key_name(key: Seq<char>) -> Seq<char> {
    match spec_find(key, '@', 1) {
        Some(i) => key.take(i),
        None => key,
    }
}

/// The package name of a key.
pub fn key_name(key: &str) -> (r: String)
    ensures
        r@ == spec_key_name(key@),
{
    proof {
        lemma_find_props(key@, '@', 1);
    }
    match find_char(key, '@', 1) {
        Some(i) => substr(key, 0, i),
        None => key.to_owned(),
    }
}

/// The directory of a package inside its slot:
/// `<virtual store>/<flat name>/node_modules/<name>`.
pub open spec fn spec_slot_package_dir(virtual_store_dir: Seq<char>, key: Seq<char>) -> Seq<char> {
    spec_join(spec_join(spec_join(virtual_store_dir, spec_flat_name(key)), "node_modules"@), spec_key_name(key))
}

/// Where a snapshot's files are imported.
pub fn slot_package_dir(virtual_store_dir: &str, key: &str) -> (r: String)
    ensures
        r@ == spec_slot_package_dir(virtual_store_dir@, key@),
{
    proof {
        reveal_strlit("node_modules");
    }
    let a = join(virtual_store_dir, flat_name(key).as_str());
    let b = join(a.as_str(), "node_modules");
    join(b.as_str(), key_name(key).as_str())
}

/// The link of one dependency in a slot's `node_modules`: from
/// `<slot dir>/<alias>` to the dependency's package directory (found by
/// the key its reference resolves to).
pub open spec fn spec_symlink_pair(edge: DepEdge, virtual_root: Seq<char>, node_modules_dir: Seq<char>) -> (Seq<char>, Seq<char>) {
    let target = spec_resolve(edge.alias@, edge.dep_ref);
    (spec_slot_package_dir(virtual_root, target), spec_join(node_modules_dir, edge.alias@))
}

/// The `(target, link)` pairs of a slot's dependency links, in order.
pub fn create_symlink_layout(dependencies: &Vec<DepEdge>, virtual_root: &str, virtual_node_modules_dir: &str) -> (r: Vec<(String, String)>)
    ensures
        r@.len() == dependencies@.len(),
        forall|i: int| 0 <= i < r@.len() ==> (#[trigger] r@[i].0@, r@[i].1@)
            == spec_symlink_pair(dependencies@[i], virtual_root@, virtual_node_modules_dir@),
{
    let mut out: Vec<(String, String)> = Vec::new();
    let mut i: usize = 0;
    while i < dependencies.len()
        invariant
            i <= dependencies@.len(),
            out@.len() == i,
            forall|j: int| 0 <= j < i ==> (#[trigger] out@[j].0@, out@[j].1@)
                == spec_symlink_pair(dependencies@[j], virtual_root@, virtual_node_modules_dir@),
        decreases dependencies.len() - i,
    {
        let e = &dependencies[i];
        let target = resolve(e.alias.as_str(), &e.dep_ref);
        let from = slot_package_dir(virtual_root, target.as_str());
        let link = join(virtual_node_modules_dir, e.alias.as_str());
        out.push((from, link));
        i = i + 1;
    }
    out
}

/// The directory an index entry sits in: what precedes its last `/`
/// (empty for an entry at the package root).
pub open spec fn spec_entry_dir(entry: Seq<char>) -> Seq<char> {
    match spec_rfind(entry, '/') {
        Some(i) => entry.take(i),
        None => Seq::empty(),
    }
}

/// Lengths that never decrease.
pub open spec fn by_length(s: Seq<Seq<char>>) -> bool {
    forall|i: int, j: int| 0 <= i < j < s.len() ==> #[trigger] s[i].len() <= #[trigger] s[j].len()
}

/// The directories to create inside a package before importing its files:
/// each non-empty directory of an entry once, shortest first (so each
/// directory's parent is made before it).
pub fn cas_dirs(entries: &Vec<String>) -> (r: Vec<String>)
    ensures
        views_of(r@).no_duplicates(),
        by_length(views_of(r@)),
        views_of(r@).to_set() == Set::new(|d: Seq<char>| d.len() > 0
            && exists|i: int| 0 <= i < entries@.len() && spec_entry_dir(#[trigger] entries@[i]@) == d),
{
    let mut dirs: Vec<String> = Vec::new();
    let mut k: usize = 0;
    while k < entries.len()
        invariant
            k <= entries@.len(),
            views_of(dirs@).no_duplicates(),
            by_length(views_of(dirs@)),
            views_of(dirs@).to_set() == Set::new(|d: Seq<char>| d.len() > 0
                && exists|i: int| 0 <= i < k && spec_entry_dir(#[trigger] entries@[i]@) == d),
        decreases entries.len() - k,
    {
        let entry = &entries[k];
        proof {
            lemma_rfind_props(entry@, '/');
        }
        let dir = match rfind_char(entry.as_str(), '/') {
            Some(i) => substr(entry.as_str(), 0, i),
            None => String::new(),
        };
        let ghost old_set = views_of(dirs@).to_set();
        if dir.unicode_len() > 0 {
            insert_by_length(&mut dirs, dir);
        }
        proof {
            let new_set = Set::new(|d: Seq<char>| d.len() > 0
                && exists|i: int| 0 <= i < k + 1 && spec_entry_dir(#[trigger] entries@[i]@) == d);
            assert forall|d: Seq<char>| views_of(dirs@).to_set().contains(d) <==> new_set.contains(d) by {
                if new_set.contains(d) {
                    let i = choose|i: int| 0 <= i < k + 1 && spec_entry_dir(#[trigger] entries@[i]@) == d;
                    if i < k {
                        assert(old_set.contains(d));
                    }
                }
                if old_set.contains(d) {
                    let i = choose|i: int| 0 <= i < k && spec_entry_dir(#[trigger] entries@[i]@) == d;
                    assert(0 <= i < k + 1);
                }
            }
            assert(views_of(dirs@).to_set() =~= new_set);
        }
        k = k + 1;
    }
    dirs
}

/// Insert `x` (absent from `dirs`) keeping lengths nondecreasing.
fn insert_by_length(dirs: &mut Vec<String>, x: String)
    requires
        views_of(old(dirs)@).no_duplicates(),
        by_length(views_of(old(dirs)@)),
    ensures
        views_of(final(dirs)@).no_duplicates(),
        by_length(views_of(final(dirs)@)),
        views_of(final(dirs)@).to_set() == views_of(old(dirs)@).to_set().insert(x@),
{
    let ghost before = views_of(dirs@);
    let mut i: usize = 0;
    while i < dirs.len()
        invariant
            dirs@ == old(dirs)@,
            before == views_of(dirs@),
            views_of(old(dirs)@).no_duplicates(),
            by_length(views_of(old(dirs)@)),
            i <= dirs@.len(),
            forall|j: int| 0 <= j < i ==> dirs@[j]@ != x@,
        decreases dirs.len() - i,
    {
        if str_eq(dirs[i].as_str(), x.as_str()) {
            assert(before[i as int] == x@);
            assert(before.to_set().insert(x@) =~= before.to_set());
            return;
        }
        i = i + 1;
    }
    let n = x.unicode_len();
    let mut pos: usize = 0;
    while pos < dirs.len() && dirs[pos].unicode_len() <= n
        invariant
            dirs@ == old(dirs)@,
            before == views_of(dirs@),
            views_of(old(dirs)@).no_duplicates(),
            by_length(views_of(old(dirs)@)),
            pos <= dirs@.len(),
            n == x@.len(),
            forall|j: int| 0 <= j < pos ==> #[trigger] dirs@[j]@.len() <= n,
        decreases dirs.len() - pos,
    {
        pos = pos + 1;
    }
    assert(!before.contains(x@)) by {
        if before.contains(x@) {
            let j = choose|j: int| 0 <= j < before.len() && before[j] == x@;
            assert(dirs@[j]@ == x@);
        }
    }
    dirs.insert(pos, x);
    let ghost after = views_of(dirs@);
    assert(after =~= before.insert(pos as int, x@));
    assert forall|a: int, b: int| 0 <= a < b < after.len() implies #[trigger] after[a].len() <= #[trigger] after[b].len() by {
        if a < pos && b == pos {
            assert(dirs@[a]@ == before[a]);
        } else if a == pos && b > pos {
            assert(before[pos as int].len() > n);
            if b - 1 > pos {
                assert(before[pos as int].len() <= before[b - 1].len());
            }
        } else if a < pos && b > pos {
            assert(before[a].len() <= before[b - 1].len());
        } else if a > pos {
            assert(before[a - 1].len() <= before[b - 1].len());
        } else {
            assert(before[a].len() <= before[b].len());
        }
    }
    assert(after.no_duplicates()) by {
        assert forall|a: int, b: int| 0 <= a < after.len() && 0 <= b < after.len() && a != b implies after[a] != after[b] by {
            if a == pos {
                if b < pos { assert(before.contains(before[b])); } else { assert(before.contains(before[b - 1])); }
            } else if b == pos {
                if a < pos { assert(before.contains(before[a])); } else { assert(before.contains(before[a - 1])); }
            }
        }
    }
    assert(after.to_set() =~= before.to_set().insert(x@)) by {
        assert forall|y: Seq<char>| after.contains(y) <==> (before.contains(y) || y == x@) by {
            if after.contains(y) {
                let k = choose|k: int| 0 <= k < after.len() && after[k] == y;
                if k < pos { assert(before[k] == y); } else if k > pos { assert(before[k - 1] == y); }
            }
            if before.contains(y) {
                let k = choose|k: int| 0 <= k < before.len() && before[k] == y;
                if k < pos { assert(after[k] == y); } else { assert(after[k + 1] == y); }
            }
            if y == x@ {
                assert(after[pos as int] == y);
            }
        }
    }
}

/// A package installed from the registry: name, version and the
/// integrity the registry gave (if any).
#[derive(Debug)]
pub struct RegistryPackage {
    pub name: String,
    pub version: String,
    pub integrity: Option<String>,
}

/// The lockfile entries of a package installed from the registry.
#[derive(Debug)]
pub struct BuiltSnapshot {
    pub package_key: String,
    pub metadata: PackageEntry,
    pub snapshot: SnapshotEntry,
}

/// Why a package cannot be written into the lockfile.
#[derive(Debug, PartialEq, Eq)]
pub enum BuildSnapshotError {
    /// The registry gave no integrity.
    MissingIntegrity { name: String, version: String },
}

/// Whether `e` is the plain edge `alias: version` of a resolved pair.
pub open spec fn edge_is(e: DepEdge, pair: (String, String)) -> bool {
    e.alias@ == pair.0@ && (e.dep_ref matches SnapshotDepRef::Plain(v) && v@ == pair.1@)
}

/// The key of a package installed from the registry: `name@version`, with
/// no leading `/` and no peer suffix.
pub fn registry_package_key(package: &RegistryPackage) -> (r: String)
    ensures
        r@ == package.name@ + "@"@ + package.version@,
{
    concat3(package.name.as_str(), "@", package.version.as_str())
}

/// The lockfile entries of a package installed from the registry: a
/// registry resolution with its integrity, and a snapshot whose
/// dependencies are the resolved `(name, version)` pairs (absent when
/// there are none).
pub fn build_package_snapshot(package: &RegistryPackage, resolved_dependencies: &Vec<(String, String)>) -> (r: Result<BuiltSnapshot, BuildSnapshotError>)
    ensures
        package.integrity is None <==> r is Err,
        r matches Err(BuildSnapshotError::MissingIntegrity { name, version }) ==> name@ == package.name@
            && version@ == package.version@,
        r matches Ok(b) ==> {
            &&& b.package_key@ == package.name@ + "@"@ + package.version@
            &&& b.metadata.key@ == b.package_key@
            &&& b.metadata.resolution matches Resolution::Registry { integrity } && package.integrity matches Some(i)
                && integrity@ == i@
            &&& !b.snapshot.optional
            &&& b.snapshot.optional_dependencies is None
            &&& (resolved_dependencies@.len() == 0 ==> b.snapshot.dependencies is None)
            &&& (resolved_dependencies@.len() > 0 ==> (b.snapshot.dependencies matches Some(d) && d@.len() == resolved_dependencies@.len()
                && forall|i: int| 0 <= i < d@.len() ==> #[trigger] edge_is(d@[i], resolved_dependencies@[i])))
        },
{
    let key = registry_package_key(package);
    let integrity = match &package.integrity {
        Some(i) => i.clone(),
        None => {
            return Err(BuildSnapshotError::MissingIntegrity { name: package.name.clone(), version: package.version.clone() });
        },
    };
    let mut deps: Vec<DepEdge> = Vec::new();
    let mut i: usize = 0;
    while i < resolved_dependencies.len()
        invariant
            i <= resolved_dependencies@.len(),
            deps@.len() == i,
            forall|j: int| 0 <= j < i ==> #[trigger] edge_is(deps@[j], resolved_dependencies@[j]),
        decreases resolved_dependencies.len() - i,
    {
        deps.push(DepEdge {
            alias: resolved_dependencies[i].0.clone(),
            dep_ref: SnapshotDepRef::Plain(resolved_dependencies[i].1.clone()),
        });
        i = i + 1;
    }
    let dependencies = if deps.len() == 0 { None } else { Some(deps) };
    let metadata = PackageEntry { key: key.clone(), resolution: Resolution::Registry { integrity } };
    Ok(BuiltSnapshot {
        package_key: key,
        metadata,
        snapshot: SnapshotEntry { dependencies, optional_dependencies: None, optional: false },
    })
}

} // verus!

verus! {

/// What occupies the directory a package is imported into.
#[derive(Debug, Clone, Copy, PartialEq, Eq, Structural)]
pub enum ImportTarget {
    Absent,
    NotADirectory,
    Directory,
}

/// How a package is imported into its directory.
#[derive(Debug, Clone, Copy, PartialEq, Eq, Structural)]
pub enum ImportPlan {
    /// Import the files into the fresh directory.
    Create,
    /// Remove the file or symlink in the way, then import.
    ClearThenCreate,
    /// Import into a sibling staging directory, keep the old
    /// `node_modules`, and swap the staged tree in.
    StageAndSwap,
}

/// How a package is imported, given what occupies its directory.
pub fn import_plan(target: ImportTarget) -> (r: ImportPlan)
    ensures
        r == match target {
            ImportTarget::Absent => ImportPlan::Create,
            ImportTarget::NotADirectory => ImportPlan::ClearThenCreate,
            ImportTarget::Directory => ImportPlan::StageAndSwap,
        },
{
    match target {
        ImportTarget::Absent => ImportPlan::Create,
        ImportTarget::NotADirectory => ImportPlan::ClearThenCreate,
        ImportTarget::Directory => ImportPlan::StageAndSwap,
    }
}

/// What happens to the old `node_modules` during a swap.
#[derive(Debug, Clone, Copy, PartialEq, Eq, Structural)]
pub enum PreserveModules {
    /// Move it into the staged tree.
    Move,
    /// The staged tree already has one: refuse to merge.
    Collision,
    /// There is no real directory to keep.
    Nothing,
}

/// What happens to the old `node_modules`: a real directory moves into
/// the staged tree unless the staged tree already has one.
pub fn preserve_modules(target_modules_is_dir: bool, staged_modules_exists: bool) -> (r: PreserveModules)
    ensures
        r == if !target_modules_is_dir {
            PreserveModules::Nothing
        } else if staged_modules_exists {
            PreserveModules::Collision
        } else {
            PreserveModules::Move
        },
{
    if !target_modules_is_dir {
        PreserveModules::Nothing
    } else if staged_modules_exists {
        PreserveModules::Collision
    } else {
        PreserveModules::Move
    }
}

} // verus!

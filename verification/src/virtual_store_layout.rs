//! Where each snapshot's files live: a flat per-project virtual store
//! (`<virtual_store_dir>/<name@version with / as +>`), or the global
//! virtual store (`<global dir>/<suffix>`, with suffixes computed from
//! the dependency graph's hashes).
use vstd::prelude::*;
use crate::build_modules::{key_verdict, AllowBuildPolicy};
use crate::lockfile::{resolve, spec_resolve, DepEdge, Snapshot, SnapshotEntry, opt_edges};
use crate::path::{join, spec_join};
use crate::text::{concat3, str_eq, views_of};
use crate::virtual_store::{opt_integrity, PackageEntry, Resolution};
use crate::slots::{flat_name, spec_flat_name};

verus! {

broadcast use vstd::seq_lib::group_seq_properties;

/// The computed layout of the virtual store for one install.
#[derive(Debug)]
pub struct VirtualStoreLayout {
    package_store_dir: String,
    gvs_suffixes: Option<Vec<(String, String)>>,
}

/// The suffix recorded for `key` (the first entry for it).
pub open spec fn suffix_lookup(suffixes: Seq<(String, String)>, key: Seq<char>) -> Option<Seq<char>>
    decreases suffixes.len(),
{
    if suffixes.len() == 0 {
        None
    } else if suffixes[0].0@ == key {
        Some(suffixes[0].1@)
    } else {
        suffix_lookup(suffixes.drop_first(), key)
    }
}

impl VirtualStoreLayout {
    /// The directory holding every snapshot's directory.
    pub closed spec fn store_dir(&self) -> Seq<char> {
        self.package_store_dir@
    }

    /// The global-store suffixes, when the global virtual store is on.
    pub closed spec fn suffixes(&self) -> Option<Seq<(String, String)>> {
        match self.gvs_suffixes {
            Some(v) => Some(v@),
            None => None,
        }
    }

    /// A flat layout under `root`, whatever the configuration says.
    pub fn legacy(root: String) -> (r: Self)
        ensures
            r.store_dir() == root@,
            r.suffixes() is None,
    {
        VirtualStoreLayout { package_store_dir: root, gvs_suffixes: None }
    }

    /// The layout of one install: under the global virtual store
    /// directory with the given suffixes when it is enabled, flat under
    /// the project's virtual store directory otherwise.
    pub fn new(
        enable_global_virtual_store: bool,
        virtual_store_dir: String,
        global_virtual_store_dir: String,
        gvs_suffixes: Vec<(String, String)>,
    ) -> (r: Self)
        ensures
            r.store_dir() == if enable_global_virtual_store { global_virtual_store_dir@ } else { virtual_store_dir@ },
            r.suffixes() == if enable_global_virtual_store { Some(gvs_suffixes@) } else { None::<Seq<(String, String)>> },
    {
        if enable_global_virtual_store {
            VirtualStoreLayout { package_store_dir: global_virtual_store_dir, gvs_suffixes: Some(gvs_suffixes) }
        } else {
            VirtualStoreLayout { package_store_dir: virtual_store_dir, gvs_suffixes: None }
        }
    }

    /// The directory holding every snapshot's directory.
    pub fn package_store_dir(&self) -> (r: &str)
        ensures
            r@ == self.store_dir(),
    {
        self.package_store_dir.as_str()
    }

    /// Whether the global virtual store is in use.
    pub fn enable_global_virtual_store(&self) -> (r: bool)
        ensures
            r == self.suffixes() is Some,
    {
        self.gvs_suffixes.is_some()
    }

    /// The directory that holds `node_modules/<name>` for a snapshot: the
    /// store directory joined with the snapshot's global-store suffix,
    /// or with its flat name when the global store is off or has no
    /// suffix for it.
    pub fn slot_dir(&self, key: &str) -> (r: String)
        ensures
            r@ == spec_join(self.store_dir(), match self.suffixes() {
                Some(s) => match suffix_lookup(s, key@) {
                    Some(x) => x,
                    None => spec_flat_name(key@),
                },
                None => spec_flat_name(key@),
            }),
    {
        let suffix = match &self.gvs_suffixes {
            Some(map) => match lookup_suffix(map, key) {
                Some(x) => x,
                None => flat_name(key),
            },
            None => flat_name(key),
        };
        join(self.package_store_dir.as_str(), suffix.as_str())
    }
}

fn lookup_suffix(suffixes: &Vec<(String, String)>, key: &str) -> (r: Option<String>)
    ensures
        r matches Some(x) ==> suffix_lookup(suffixes@, key@) == Some(x@),
        r is None ==> suffix_lookup(suffixes@, key@) is None,
{
    let mut i: usize = 0;
    assert(suffixes@.skip(0) =~= suffixes@);
    while i < suffixes.len()
        invariant
            i <= suffixes@.len(),
            suffix_lookup(suffixes@, key@) == suffix_lookup(suffixes@.skip(i as int), key@),
        decreases suffixes.len() - i,
    {
        assert(suffixes@.skip(i as int).drop_first() =~= suffixes@.skip(i + 1));
        if str_eq(suffixes[i].0.as_str(), key) {
            return Some(suffixes[i].1.clone());
        }
        i = i + 1;
    }
    None
}

/// The keys whose scripts the policy allows; the global-store hash of a
/// subgraph without them leaves the engine out.
pub fn built_dep_paths(snapshots: &Vec<Snapshot>, policy: &AllowBuildPolicy) -> (r: Vec<String>)
    ensures
        views_of(r@) == snapshots@.filter(|s: Snapshot| key_verdict(*policy, s.key@) == Some(true)).map_values(
            |s: Snapshot| s.key@,
        ),
{
    let mut out: Vec<String> = Vec::new();
    let mut i: usize = 0;
    let ghost pred = |s: Snapshot| key_verdict(*policy, s.key@) == Some(true);
    assert(snapshots@.take(0) =~= Seq::<Snapshot>::empty());
    while i < snapshots.len()
        invariant
            i <= snapshots@.len(),
            pred == (|s: Snapshot| key_verdict(*policy, s.key@) == Some(true)),
            views_of(out@) == snapshots@.take(i as int).filter(pred).map_values(|s: Snapshot| s.key@),
        decreases snapshots.len() - i,
    {
        let ghost before = snapshots@.take(i as int);
        assert(snapshots@.take(i + 1) =~= before.push(snapshots@[i as int]));
        proof {
            before.lemma_filter_push(snapshots@[i as int], pred);
        }
        let key = &snapshots[i].key;
        let bare = crate::lockfile::without_peer(key.as_str());
        let (name, version) = crate::build_modules::parse_name_version_from_key(bare.as_str());
        if policy.check(name.as_str(), version.as_str()) == Some(true) {
            let ghost b = views_of(out@);
            out.push(key.clone());
            assert(views_of(out@) =~= b.push(key@));
        }
        i = i + 1;
    }
    assert(snapshots@.take(snapshots@.len() as int) =~= snapshots@);
    out
}

/// `<pkg_id>:<integrity>` when the resolution has an integrity, else the
/// bare package id.
pub open spec fn spec_full_pkg_id(pkg_id: Seq<char>, entry: Option<&PackageEntry>) -> Seq<char> {
    match opt_integrity(entry) {
        Some(i) => pkg_id + ":"@ + i,
        None => pkg_id,
    }
}

/// The identity of a package in the graph hash.
pub fn create_full_pkg_id(pkg_id: &str, entry: Option<&PackageEntry>) -> (r: String)
    ensures
        r@ == spec_full_pkg_id(pkg_id@, entry),
{
    match entry {
        Some(e) => match &e.resolution {
            Resolution::Tarball { integrity, .. } => match integrity {
                Some(i) => concat3(pkg_id, ":", i.as_str()),
                None => pkg_id.to_owned(),
            },
            Resolution::Registry { integrity } => concat3(pkg_id, ":", integrity.as_str()),
            Resolution::Binary(b) => concat3(pkg_id, ":", b.integrity.as_str()),
            _ => pkg_id.to_owned(),
        },
        None => pkg_id.to_owned(),
    }
}

/// The children map of a snapshot, built by inserting its
/// `dependencies` and then its `optionalDependencies` (a later alias
/// replaces an earlier one).
pub open spec fn spec_children(edges: Seq<DepEdge>) -> Map<Seq<char>, Seq<char>>
    decreases edges.len(),
{
    if edges.len() == 0 {
        Map::empty()
    } else {
        spec_children(edges.drop_last()).insert(edges.last().alias@, spec_resolve(edges.last().alias@, edges.last().dep_ref))
    }
}

/// Alias → child key pairs as a map (the first pair for an alias).
pub open spec fn pairs_map(pairs: Seq<(String, String)>) -> Map<Seq<char>, Seq<char>>
    decreases pairs.len(),
{
    if pairs.len() == 0 {
        Map::empty()
    } else {
        pairs_map(pairs.drop_first()).insert(pairs[0].0@, pairs[0].1@)
    }
}

/// The aliases of a list of pairs.
pub open spec fn pair_keys(pairs: Seq<(String, String)>) -> Seq<Seq<char>> {
    pairs.map_values(|p: (String, String)| p.0@)
}

pub(crate) fn set_pair(pairs: &mut Vec<(String, String)>, key: String, value: String)
    requires
        pair_keys(old(pairs)@).no_duplicates(),
    ensures
        pair_keys(final(pairs)@).no_duplicates(),
        pairs_map(final(pairs)@) == pairs_map(old(pairs)@).insert(key@, value@),
{
    let ghost before = pairs@;
    let mut i: usize = 0;
    while i < pairs.len()
        invariant
            pairs@ == before,
            before == old(pairs)@,
            pair_keys(before).no_duplicates(),
            i <= pairs@.len(),
            forall|j: int| 0 <= j < i ==> pairs@[j].0@ != key@,
        decreases pairs.len() - i,
    {
        if str_eq(pairs[i].0.as_str(), key.as_str()) {
            let k = pairs[i].0.clone();
            let ghost v = value@;
            pairs.set(i, (k, value));
            proof {
                lemma_pairs_map_update(before, i as int, pairs@, key@, v);
            }
            assert(pairs_map(pairs@) == pairs_map(before).insert(key@, v));
            assert(pair_keys(pairs@) =~= pair_keys(before));
            return;
        }
        i = i + 1;
    }
    pairs.push((key, value));
    proof {
        lemma_pairs_map_push(before, key@, value@, pairs@);
        assert(pair_keys(pairs@) =~= pair_keys(before).push(key@));
        assert(!pair_keys(before).contains(key@)) by {
            if pair_keys(before).contains(key@) {
                let j = choose|j: int| 0 <= j < pair_keys(before).len() && pair_keys(before)[j] == key@;
                assert(before[j].0@ == key@);
            }
        }
    }
}

proof fn lemma_pairs_map_push(before: Seq<(String, String)>, k: Seq<char>, v: Seq<char>, after: Seq<(String, String)>)
    requires
        after.len() == before.len() + 1,
        forall|j: int| 0 <= j < before.len() ==> after[j] == before[j],
        after.last().0@ == k,
        after.last().1@ == v,
        forall|j: int| 0 <= j < before.len() ==> before[j].0@ != k,
    ensures
        pairs_map(after) == pairs_map(before).insert(k, v),
    decreases before.len(),
{
    if before.len() == 0 {
        assert(after.drop_first() =~= Seq::<(String, String)>::empty());
        assert(after[0].0@ == k && after[0].1@ == v);
        assert(pairs_map(after.drop_first()) =~= Map::<Seq<char>, Seq<char>>::empty());
        assert(pairs_map(after) =~= Map::<Seq<char>, Seq<char>>::empty().insert(k, v));
    } else {
        lemma_pairs_map_push(before.drop_first(), k, v, after.drop_first());
        assert(pairs_map(after) =~= pairs_map(before).insert(k, v));
    }
}

proof fn lemma_pairs_map_update(before: Seq<(String, String)>, i: int, after: Seq<(String, String)>, k: Seq<char>, v: Seq<char>)
    requires
        0 <= i < before.len(),
        after.len() == before.len(),
        forall|j: int| 0 <= j < before.len() && j != i ==> after[j] == before[j],
        before[i].0@ == k,
        after[i].0@ == k,
        after[i].1@ == v,
        pair_keys(before).no_duplicates(),
    ensures
        pairs_map(after) == pairs_map(before).insert(k, v),
    decreases before.len(),
{
    if i == 0 {
        assert(after.drop_first() =~= before.drop_first());
        assert forall|j: int| 0 <= j < before.drop_first().len() implies before.drop_first()[j].0@ != k by {
            assert(pair_keys(before)[j + 1] != pair_keys(before)[0]);
        }
        lemma_pairs_map_absent(before.drop_first(), k);
        assert(pairs_map(after) =~= pairs_map(before).insert(k, v));
    } else {
        assert(pair_keys(before.drop_first()) =~= pair_keys(before).drop_first());
        lemma_pairs_map_update(before.drop_first(), i - 1, after.drop_first(), k, v);
        assert(before[0].0@ != k) by {
            assert(pair_keys(before)[0] != pair_keys(before)[i]);
        }
        assert(pairs_map(after) =~= pairs_map(before).insert(k, v));
    }
}

proof fn lemma_pairs_map_absent(pairs: Seq<(String, String)>, k: Seq<char>)
    requires
        forall|j: int| 0 <= j < pairs.len() ==> pairs[j].0@ != k,
    ensures
        !pairs_map(pairs).dom().contains(k),
    decreases pairs.len(),
{
    if pairs.len() > 0 {
        lemma_pairs_map_absent(pairs.drop_first(), k);
    }
}

/// The children of a snapshot as alias → key pairs, each alias once:
/// `dependencies` then `optionalDependencies`, a later alias replacing
/// an earlier one.
pub fn collect_children(snapshot: &SnapshotEntry) -> (r: Vec<(String, String)>)
    ensures
        pair_keys(r@).no_duplicates(),
        pairs_map(r@) == spec_children(opt_edges(snapshot.dependencies) + opt_edges(snapshot.optional_dependencies)),
{
    let mut children: Vec<(String, String)> = Vec::new();
    assert(pairs_map(children@) =~= Map::<Seq<char>, Seq<char>>::empty());
    let ghost empty_edges = Seq::<DepEdge>::empty();
    assert(spec_children(empty_edges) =~= Map::<Seq<char>, Seq<char>>::empty());
    let ghost mut done: Seq<DepEdge> = Seq::empty();
    match &snapshot.dependencies {
        Some(deps) => {
            merge_into_children(&mut children, deps, Ghost(done));
            proof {
                done = done + deps@;
            }
        },
        None => {},
    }
    assert(done =~= opt_edges(snapshot.dependencies));
    match &snapshot.optional_dependencies {
        Some(deps) => {
            merge_into_children(&mut children, deps, Ghost(done));
            proof {
                done = done + deps@;
            }
        },
        None => {},
    }
    assert(done =~= opt_edges(snapshot.dependencies) + opt_edges(snapshot.optional_dependencies));
    children
}

fn merge_into_children(children: &mut Vec<(String, String)>, deps: &Vec<DepEdge>, Ghost(done): Ghost<Seq<DepEdge>>)
    requires
        pair_keys(old(children)@).no_duplicates(),
        pairs_map(old(children)@) == spec_children(done),
    ensures
        pair_keys(final(children)@).no_duplicates(),
        pairs_map(final(children)@) == spec_children(done + deps@),
{
    let mut i: usize = 0;
    assert(done + deps@.take(0) =~= done);
    while i < deps.len()
        invariant
            i <= deps@.len(),
            pair_keys(children@).no_duplicates(),
            pairs_map(children@) == spec_children(done + deps@.take(i as int)),
        decreases deps.len() - i,
    {
        let e = &deps[i];
        let resolved = resolve(e.alias.as_str(), &e.dep_ref);
        let ghost prefix = done + deps@.take(i as int);
        let ghost next = done + deps@.take(i + 1);
        assert(next =~= prefix.push(deps@[i as int]));
        assert(spec_children(next) == spec_children(prefix).insert(
            deps@[i as int].alias@,
            spec_resolve(deps@[i as int].alias@, deps@[i as int].dep_ref),
        )) by {
            assert(next.drop_last() =~= prefix);
        }
        set_pair(children, e.alias.clone(), resolved);
        i = i + 1;
    }
    assert(deps@.take(deps@.len() as int) =~= deps@);
}

} // verus!

verus! {

/// A node of the dependency graph the build cache hashes.
#[derive(Debug)]
pub struct DepsGraphNode {
    /// The snapshot key.
    pub key: String,
    /// The package id (the key without peers).
    pub pkg_id: String,
    /// `<pkg_id>:<integrity>` when the resolution has an integrity;
    /// `None` when the identity comes from a hash of the resolution.
    pub full_pkg_id: Option<String>,
    /// Alias → child key pairs, each alias once.
    pub children: Vec<(String, String)>,
}

/// Whether a graph node is the one a snapshot calls for.
pub open spec fn node_matches(n: DepsGraphNode, s: Snapshot, packages: Seq<PackageEntry>) -> bool {
    let mk = crate::lockfile::spec_without_peer(s.key@);
    &&& n.key@ == s.key@
    &&& n.pkg_id@ == mk
    &&& (match crate::virtual_store::package_for(packages, mk) {
        Some(e) => match crate::virtual_store::spec_integrity(e.resolution) {
            Some(i) => n.full_pkg_id matches Some(f) && f@ == mk + ":"@ + i,
            None => n.full_pkg_id is None,
        },
        None => false,
    })
    &&& pair_keys(n.children@).no_duplicates()
    &&& pairs_map(n.children@) == spec_children(opt_edges(s.entry.dependencies) + opt_edges(s.entry.optional_dependencies))
}

/// The snapshots that have a `packages:` entry, in order.
pub open spec fn with_metadata(snapshots: Seq<Snapshot>, packages: Seq<PackageEntry>) -> Seq<Snapshot> {
    snapshots.filter(|s: Snapshot| crate::virtual_store::package_for(packages, crate::lockfile::spec_without_peer(s.key@)) is Some)
}

/// The dependency graph of a lockfile: a node per snapshot that has a
/// `packages:` entry (the others are passed over), in order.
pub fn build_deps_graph(snapshots: &Vec<Snapshot>, packages: &Vec<PackageEntry>) -> (r: Vec<DepsGraphNode>)
    ensures
        r@.len() == with_metadata(snapshots@, packages@).len(),
        forall|i: int| 0 <= i < r@.len() ==> #[trigger] node_matches(r@[i], with_metadata(snapshots@, packages@)[i], packages@),
{
    proof {
        reveal_strlit(":");
    }
    let ghost pred = |s: Snapshot| crate::virtual_store::package_for(packages@, crate::lockfile::spec_without_peer(s.key@)) is Some;
    let mut out: Vec<DepsGraphNode> = Vec::new();
    let mut i: usize = 0;
    assert(snapshots@.take(0) =~= Seq::<Snapshot>::empty());
    while i < snapshots.len()
        invariant
            i <= snapshots@.len(),
            pred == (|s: Snapshot| crate::virtual_store::package_for(packages@, crate::lockfile::spec_without_peer(s.key@)) is Some),
            out@.len() == snapshots@.take(i as int).filter(pred).len(),
            forall|j: int| 0 <= j < out@.len() ==> #[trigger] node_matches(out@[j], snapshots@.take(i as int).filter(pred)[j], packages@),
        decreases snapshots.len() - i,
    {
        let ghost before = snapshots@.take(i as int);
        assert(snapshots@.take(i + 1) =~= before.push(snapshots@[i as int]));
        proof {
            before.lemma_filter_push(snapshots@[i as int], pred);
        }
        let s = &snapshots[i];
        let mk = crate::lockfile::without_peer(s.key.as_str());
        match crate::virtual_store::find_package(packages, mk.as_str()) {
            Some(p) => {
                let full = match &packages[p].resolution {
                    Resolution::Tarball { integrity, .. } => match integrity {
                        Some(v) => Some(concat3(mk.as_str(), ":", v.as_str())),
                        None => None,
                    },
                    Resolution::Registry { integrity } => Some(concat3(mk.as_str(), ":", integrity.as_str())),
                    Resolution::Binary(b) => Some(concat3(mk.as_str(), ":", b.integrity.as_str())),
                    _ => None,
                };
                let children = collect_children(&s.entry);
                out.push(DepsGraphNode { key: s.key.clone(), pkg_id: mk, full_pkg_id: full, children });
            },
            None => {},
        }
        i = i + 1;
    }
    assert(snapshots@.take(snapshots@.len() as int) =~= snapshots@);
    out
}

} // verus!

//! Decisions of populating the virtual store from a lockfile: which
//! snapshots the previous install already placed, which still need
//! work, what each one's store-index entry is derived from, and which
//! of them the store can serve without a download.
use vstd::prelude::*;
use crate::installability::SkippedSnapshots;
use crate::lockfile::{opt_edges, spec_without_peer, without_peer, DepEdge, Snapshot, SnapshotDepRef, SnapshotEntry};
use crate::text::{str_eq, views_of};

verus! {

/// How a package of the lockfile is fetched.
#[derive(Debug, PartialEq, Eq)]
pub enum Resolution {
    /// A tarball URL, with the integrity when the lockfile has one;
    /// `git_hosted` marks a tarball of a git host, which is prepared
    /// after download.
    Tarball { tarball: String, integrity: Option<String>, git_hosted: bool },
    /// A registry package, always with an integrity.
    Registry { integrity: String },
    /// A local directory.
    Directory { directory: String },
    /// A git repository at a commit.
    Git { repo: String, commit: String },
    /// A runtime binary (Node.js, Bun, Deno) for one platform.
    Binary(BinaryResolution),
    /// Runtime binaries for several platforms, one of which is picked
    /// for the host.
    Variations { variants: Vec<PlatformVariant> },
}

/// How a runtime binary's archive is packed.
#[derive(Debug, Clone, Copy, PartialEq, Eq, Structural)]
pub enum BinaryArchive {
    Tarball,
    Zip,
}

/// A runtime binary to download: its URL, integrity, archive kind and
/// the top-level directory of the archive to strip.
#[derive(Debug, PartialEq, Eq)]
pub struct BinaryResolution {
    pub url: String,
    pub integrity: String,
    pub archive: BinaryArchive,
    pub prefix: Option<String>,
}

/// A platform a runtime binary variant is built for.
#[derive(Debug, Clone, PartialEq, Eq)]
pub struct PlatformTarget {
    pub os: String,
    pub cpu: String,
    pub libc: Option<String>,
}

/// What one variant of a `variations` resolution holds: a binary, or a
/// resolution of another kind (named by its kind).
#[derive(Debug, PartialEq, Eq)]
pub enum VariantResolution {
    Binary(BinaryResolution),
    Tarball,
    Registry,
    Directory,
    Git,
    Variations,
}

/// One variant of a `variations` resolution: the platforms it targets
/// and what it resolves to.
#[derive(Debug, PartialEq, Eq)]
pub struct PlatformVariant {
    pub targets: Vec<PlatformTarget>,
    pub resolution: VariantResolution,
}

/// A variant by its view: its targets and what it resolves to.
pub open spec fn variant_view(v: PlatformVariant) -> (Seq<PlatformTarget>, VariantResolution) {
    (v.targets@, v.resolution)
}

/// A resolution by its view: the variants of a `variations` resolution
/// taken as a sequence, any other resolution as it is.
pub enum ResolutionView {
    Single(Resolution),
    Variations(Seq<(Seq<PlatformTarget>, VariantResolution)>),
}

/// The view of a resolution.
pub open spec fn resolution_view(r: Resolution) -> ResolutionView {
    match r {
        Resolution::Variations { variants } => ResolutionView::Variations(variants@.map_values(|v: PlatformVariant| variant_view(v))),
        _ => ResolutionView::Single(r),
    }
}

fn copy_opt_string(o: &Option<String>) -> (c: Option<String>)
    ensures
        c == *o,
{
    match o {
        Some(x) => Some(x.clone()),
        None => None,
    }
}

/// A copy of a binary resolution.
pub fn copy_binary(b: &BinaryResolution) -> (c: BinaryResolution)
    ensures
        c == *b,
{
    BinaryResolution { url: b.url.clone(), integrity: b.integrity.clone(), archive: b.archive, prefix: copy_opt_string(&b.prefix) }
}

fn copy_targets(t: &Vec<PlatformTarget>) -> (c: Vec<PlatformTarget>)
    ensures
        c@ == t@,
{
    let mut out: Vec<PlatformTarget> = Vec::new();
    let mut i: usize = 0;
    while i < t.len()
        invariant
            i <= t@.len(),
            out@ == t@.take(i as int),
        decreases t.len() - i,
    {
        let x = &t[i];
        out.push(PlatformTarget { os: x.os.clone(), cpu: x.cpu.clone(), libc: copy_opt_string(&x.libc) });
        assert(out@ =~= t@.take(i + 1));
        i = i + 1;
    }
    assert(t@.take(t@.len() as int) =~= t@);
    out
}

fn copy_variants(v: &Vec<PlatformVariant>) -> (c: Vec<PlatformVariant>)
    ensures
        c@.map_values(|x: PlatformVariant| variant_view(x)) == v@.map_values(|x: PlatformVariant| variant_view(x)),
{
    let mut out: Vec<PlatformVariant> = Vec::new();
    let mut i: usize = 0;
    while i < v.len()
        invariant
            i <= v@.len(),
            out@.len() == i,
            forall|j: int| 0 <= j < i ==> #[trigger] variant_view(out@[j]) == variant_view(v@[j]),
        decreases v.len() - i,
    {
        let x = &v[i];
        let resolution = match &x.resolution {
            VariantResolution::Binary(b) => VariantResolution::Binary(copy_binary(b)),
            VariantResolution::Tarball => VariantResolution::Tarball,
            VariantResolution::Registry => VariantResolution::Registry,
            VariantResolution::Directory => VariantResolution::Directory,
            VariantResolution::Git => VariantResolution::Git,
            VariantResolution::Variations => VariantResolution::Variations,
        };
        assert(resolution == x.resolution);
        let item = PlatformVariant { targets: copy_targets(&x.targets), resolution };
        assert(variant_view(item) == variant_view(v@[i as int]));
        out.push(item);
        i = i + 1;
    }
    assert(out@.map_values(|x: PlatformVariant| variant_view(x)) =~= v@.map_values(
        |x: PlatformVariant| variant_view(x),
    ));
    out
}

/// A copy of a resolution.
pub fn copy_resolution(r: &Resolution) -> (c: Resolution)
    ensures
        resolution_view(c) == resolution_view(*r),
{
    match r {
        Resolution::Tarball { tarball, integrity, git_hosted } => Resolution::Tarball {
            tarball: tarball.clone(),
            integrity: match integrity {
                Some(i) => Some(i.clone()),
                None => None,
            },
            git_hosted: *git_hosted,
        },
        Resolution::Registry { integrity } => Resolution::Registry { integrity: integrity.clone() },
        Resolution::Directory { directory } => Resolution::Directory { directory: directory.clone() },
        Resolution::Git { repo, commit } => Resolution::Git { repo: repo.clone(), commit: commit.clone() },
        Resolution::Binary(b) => Resolution::Binary(copy_binary(b)),
        Resolution::Variations { variants } => Resolution::Variations { variants: copy_variants(variants) },
    }
}

/// A `packages:` entry: its key (without peers) and its resolution.
#[derive(Debug, PartialEq, Eq)]
pub struct PackageEntry {
    pub key: String,
    pub resolution: Resolution,
}

/// A dependency reference by its view: whether it is an npm alias, and
/// its text.
pub open spec fn dep_ref_view(r: SnapshotDepRef) -> (bool, Seq<char>) {
    match r {
        SnapshotDepRef::Plain(v) => (false, v@),
        SnapshotDepRef::Alias(k) => (true, k@),
    }
}

/// The reference recorded for `alias` in a dependency map (the first
/// entry for it).
pub open spec fn edge_lookup(edges: Seq<DepEdge>, alias: Seq<char>) -> Option<(bool, Seq<char>)>
    decreases edges.len(),
{
    if edges.len() == 0 {
        None
    } else if edges[0].alias@ == alias {
        Some(dep_ref_view(edges[0].dep_ref))
    } else {
        edge_lookup(edges.drop_first(), alias)
    }
}

/// Two dependency maps are equal when every alias maps to the same
/// reference in both; an absent map is an empty one.
pub open spec fn spec_maps_equal(a: Option<Vec<DepEdge>>, b: Option<Vec<DepEdge>>) -> bool {
    forall|alias: Seq<char>| #[trigger] edge_lookup(opt_edges(a), alias) == edge_lookup(opt_edges(b), alias)
}

/// Whether two snapshots agree on `dependencies` and on
/// `optionalDependencies`.
pub open spec fn spec_snapshot_deps_equal(current: SnapshotEntry, wanted: SnapshotEntry) -> bool {
    spec_maps_equal(current.dependencies, wanted.dependencies)
        && spec_maps_equal(current.optional_dependencies, wanted.optional_dependencies)
}

proof fn lemma_edge_lookup_found(edges: Seq<DepEdge>, alias: Seq<char>)
    ensures
        edge_lookup(edges, alias) is Some <==> exists|i: int| 0 <= i < edges.len() && #[trigger] edges[i].alias@ == alias,
    decreases edges.len(),
{
    if edges.len() > 0 {
        lemma_edge_lookup_found(edges.drop_first(), alias);
        if edges[0].alias@ != alias {
            if exists|i: int| 0 <= i < edges.len() && #[trigger] edges[i].alias@ == alias {
                let i = choose|i: int| 0 <= i < edges.len() && #[trigger] edges[i].alias@ == alias;
                assert(edges.drop_first()[i - 1].alias@ == alias);
            }
            if exists|i: int| 0 <= i < edges.drop_first().len() && #[trigger] edges.drop_first()[i].alias@ == alias {
                let i = choose|i: int| 0 <= i < edges.drop_first().len() && #[trigger] edges.drop_first()[i].alias@ == alias;
                assert(edges[i + 1].alias@ == alias);
            }
        }
    }
}

fn lookup_edge(edges: &Vec<DepEdge>, alias: &str) -> (r: Option<usize>)
    ensures
        r matches Some(i) ==> i < edges@.len() && edge_lookup(edges@, alias@) == Some(dep_ref_view(edges@[i as int].dep_ref)),
        r is None ==> edge_lookup(edges@, alias@) is None,
{
    let mut i: usize = 0;
    assert(edges@.skip(0) =~= edges@);
    while i < edges.len()
        invariant
            i <= edges@.len(),
            edge_lookup(edges@, alias@) == edge_lookup(edges@.skip(i as int), alias@),
        decreases edges.len() - i,
    {
        assert(edges@.skip(i as int).drop_first() =~= edges@.skip(i + 1));
        if str_eq(edges[i].alias.as_str(), alias) {
            return Some(i);
        }
        i = i + 1;
    }
    None
}

fn dep_ref_eq(a: &SnapshotDepRef, b: &SnapshotDepRef) -> (r: bool)
    ensures
        r == (dep_ref_view(*a) == dep_ref_view(*b)),
{
    match (a, b) {
        (SnapshotDepRef::Plain(x), SnapshotDepRef::Plain(y)) => str_eq(x.as_str(), y.as_str()),
        (SnapshotDepRef::Alias(x), SnapshotDepRef::Alias(y)) => str_eq(x.as_str(), y.as_str()),
        _ => false,
    }
}

/// Whether every alias of `a` maps in `b` to what it maps to in `a`.
fn covered_by(a: &Vec<DepEdge>, b: &Vec<DepEdge>) -> (r: bool)
    ensures
        r == forall|i: int| 0 <= i < a@.len() ==> edge_lookup(a@, #[trigger] a@[i].alias@) == edge_lookup(b@, a@[i].alias@),
{
    let mut i: usize = 0;
    while i < a.len()
        invariant
            i <= a@.len(),
            forall|j: int| 0 <= j < i ==> edge_lookup(a@, #[trigger] a@[j].alias@) == edge_lookup(b@, a@[j].alias@),
        decreases a.len() - i,
    {
        let x = lookup_edge(a, a[i].alias.as_str());
        let y = lookup_edge(b, a[i].alias.as_str());
        let same = match (x, y) {
            (Some(p), Some(q)) => dep_ref_eq(&a[p].dep_ref, &b[q].dep_ref),
            (None, None) => true,
            _ => false,
        };
        if !same {
            return false;
        }
        i = i + 1;
    }
    true
}

fn maps_equal(a: &Option<Vec<DepEdge>>, b: &Option<Vec<DepEdge>>) -> (r: bool)
    ensures
        r == spec_maps_equal(*a, *b),
{
    let empty: Vec<DepEdge> = Vec::new();
    let x: &Vec<DepEdge> = match a {
        Some(v) => v,
        None => &empty,
    };
    let y: &Vec<DepEdge> = match b {
        Some(v) => v,
        None => &empty,
    };
    assert(x@ == opt_edges(*a));
    assert(y@ == opt_edges(*b));
    let r = covered_by(x, y) && covered_by(y, x);
    proof {
        if r {
            assert forall|alias: Seq<char>| #[trigger] edge_lookup(x@, alias) == edge_lookup(y@, alias) by {
                lemma_edge_lookup_found(x@, alias);
                lemma_edge_lookup_found(y@, alias);
                if edge_lookup(x@, alias) is Some {
                    let i = choose|i: int| 0 <= i < x@.len() && #[trigger] x@[i].alias@ == alias;
                    assert(edge_lookup(x@, x@[i].alias@) == edge_lookup(y@, x@[i].alias@));
                } else if edge_lookup(y@, alias) is Some {
                    let i = choose|i: int| 0 <= i < y@.len() && #[trigger] y@[i].alias@ == alias;
                    assert(edge_lookup(y@, y@[i].alias@) == edge_lookup(x@, y@[i].alias@));
                }
            }
        } else {
            if covered_by_spec_fails(x@, y@) {
                let i = choose|i: int| 0 <= i < x@.len() && edge_lookup(x@, #[trigger] x@[i].alias@) != edge_lookup(y@, x@[i].alias@);
                assert(edge_lookup(opt_edges(*a), x@[i].alias@) != edge_lookup(opt_edges(*b), x@[i].alias@));
            } else {
                let i = choose|i: int| 0 <= i < y@.len() && edge_lookup(y@, #[trigger] y@[i].alias@) != edge_lookup(x@, y@[i].alias@);
                assert(edge_lookup(opt_edges(*a), y@[i].alias@) != edge_lookup(opt_edges(*b), y@[i].alias@));
            }
        }
    }
    r
}

spec fn covered_by_spec_fails(a: Seq<DepEdge>, b: Seq<DepEdge>) -> bool {
    !(forall|i: int| 0 <= i < a.len() ==> edge_lookup(a, #[trigger] a[i].alias@) == edge_lookup(b, a[i].alias@))
}

/// Whether two snapshots agree on dependency wiring: both
/// `dependencies` and `optionalDependencies` are equal as maps, an
/// absent map being an empty one.
pub fn snapshot_deps_equal(current: &SnapshotEntry, wanted: &SnapshotEntry) -> (r: bool)
    ensures
        r == spec_snapshot_deps_equal(*current, *wanted),
{
    maps_equal(&current.dependencies, &wanted.dependencies)
        && maps_equal(&current.optional_dependencies, &wanted.optional_dependencies)
}

/// The integrity of a resolution: tarball, registry and binary
/// resolutions carry one; directory, git and variations resolutions do
/// not.
pub open spec fn spec_integrity(r: Resolution) -> Option<Seq<char>> {
    match r {
        Resolution::Tarball { integrity, .. } => match integrity {
            Some(i) => Some(i@),
            None => None,
        },
        Resolution::Registry { integrity } => Some(integrity@),
        Resolution::Binary(b) => Some(b.integrity@),
        _ => None,
    }
}

/// The integrity of an optional `packages:` entry.
pub open spec fn opt_integrity(m: Option<&PackageEntry>) -> Option<Seq<char>> {
    match m {
        Some(e) => spec_integrity(e.resolution),
        None => None,
    }
}

fn integrity_of(m: Option<&PackageEntry>) -> (r: Option<&str>)
    ensures
        r matches Some(s) ==> opt_integrity(m) == Some(s@),
        r is None ==> opt_integrity(m) is None,
{
    match m {
        Some(e) => match &e.resolution {
            Resolution::Tarball { integrity, .. } => match integrity {
                Some(i) => Some(i.as_str()),
                None => None,
            },
            Resolution::Registry { integrity } => Some(integrity.as_str()),
            Resolution::Binary(b) => Some(b.integrity.as_str()),
            _ => None,
        },
        None => None,
    }
}

/// Whether two `packages:` entries have the same integrity; two
/// entries without one (or two absent entries) count as the same.
pub fn integrity_equal(current: Option<&PackageEntry>, wanted: Option<&PackageEntry>) -> (r: bool)
    ensures
        r == (opt_integrity(current) == opt_integrity(wanted)),
{
    match (integrity_of(current), integrity_of(wanted)) {
        (Some(a), Some(b)) => str_eq(a, b),
        (None, None) => true,
        _ => false,
    }
}

/// The position of the entry of `packages` for `key` at or after
/// `from` (the first one).
pub open spec fn package_index(packages: Seq<PackageEntry>, key: Seq<char>, from: int) -> Option<int>
    decreases packages.len() - from,
{
    if from < 0 || from >= packages.len() {
        None
    } else if packages[from].key@ == key {
        Some(from)
    } else {
        package_index(packages, key, from + 1)
    }
}

/// The position of the entry of `packages` for `key`.
pub open spec fn package_lookup(packages: Seq<PackageEntry>, key: Seq<char>) -> Option<int> {
    package_index(packages, key, 0)
}

/// The position of the `packages:` entry for `key`.
pub fn find_package(packages: &Vec<PackageEntry>, key: &str) -> (r: Option<usize>)
    ensures
        r matches Some(i) ==> i < packages@.len() && package_lookup(packages@, key@) == Some(i as int),
        r is None ==> package_lookup(packages@, key@) is None,
{
    let mut i: usize = 0;
    while i < packages.len()
        invariant
            i <= packages@.len(),
            package_lookup(packages@, key@) == package_index(packages@, key@, i as int),
        decreases packages.len() - i,
    {
        if str_eq(packages[i].key.as_str(), key) {
            return Some(i);
        }
        i = i + 1;
    }
    None
}

/// The entry of `packages` for `key`, as an optional reference.
pub open spec fn package_for(packages: Seq<PackageEntry>, key: Seq<char>) -> Option<PackageEntry> {
    match package_lookup(packages, key) {
        Some(i) => Some(packages[i]),
        None => None,
    }
}

/// What a snapshot's store-index entry is derived from: the integrity
/// and the package id (the key without peers).
#[derive(Debug, PartialEq, Eq)]
pub struct CacheKeySource {
    pub integrity: String,
    pub pkg_id: String,
}

/// Why a snapshot that must be installed cannot be.
#[derive(Debug, PartialEq, Eq)]
pub enum SlotError {
    /// No `packages:` entry for the snapshot's key without peers.
    MissingPackageMetadata { snapshot_key: String, metadata_key: String },
    /// A tarball resolution without an integrity.
    MissingTarballIntegrity { package_key: String },
    /// A resolution kind this installer does not fetch here.
    UnsupportedResolution { package_key: String, resolution_kind: String },
    /// The lockfile has snapshots but no `packages:` section.
    MissingPackagesSection,
}

/// The cache-key source of a snapshot, by views: `Ok(Some((integrity,
/// pkg_id)))` for tarball and registry resolutions, `Ok(None)` for git
/// and runtime binaries (fetched without the prefetched store index), and
/// an error for a missing entry, a tarball without integrity, or a
/// directory resolution.
pub open spec fn spec_cache_key_source(packages: Seq<PackageEntry>, snapshot_key: Seq<char>) -> Result<Option<(Seq<char>, Seq<char>)>, int> {
    let mk = spec_without_peer(snapshot_key);
    match package_for(packages, mk) {
        None => Err(0),
        Some(e) => match e.resolution {
            Resolution::Tarball { integrity, .. } => match integrity {
                Some(i) => Ok(Some((i@, mk))),
                None => Err(1),
            },
            Resolution::Registry { integrity } => Ok(Some((integrity@, mk))),
            Resolution::Directory { .. } => Err(2),
            _ => Ok(None),
        },
    }
}

/// An error's kind as its position in the declaration.
pub open spec fn slot_error_kind(e: SlotError) -> int {
    match e {
        SlotError::MissingPackageMetadata { .. } => 0,
        SlotError::MissingTarballIntegrity { .. } => 1,
        SlotError::UnsupportedResolution { .. } => 2,
        SlotError::MissingPackagesSection => 3,
    }
}

/// A cache-key result by its views.
pub open spec fn cache_key_view(r: Result<Option<CacheKeySource>, SlotError>) -> Result<Option<(Seq<char>, Seq<char>)>, int> {
    match r {
        Ok(Some(s)) => Ok(Some((s.integrity@, s.pkg_id@))),
        Ok(None) => Ok(None),
        Err(e) => Err(slot_error_kind(e)),
    }
}

/// What a snapshot's store-index entry is derived from.
pub fn snapshot_cache_key(snapshot_key: &str, packages: &Vec<PackageEntry>) -> (r: Result<Option<CacheKeySource>, SlotError>)
    ensures
        cache_key_view(r) == spec_cache_key_source(packages@, snapshot_key@),
        r matches Err(SlotError::MissingPackageMetadata { snapshot_key: s, metadata_key: m })
            ==> s@ == snapshot_key@ && m@ == spec_without_peer(snapshot_key@),
        r matches Err(SlotError::MissingTarballIntegrity { package_key: p }) ==> p@ == snapshot_key@,
        r matches Err(SlotError::UnsupportedResolution { package_key: p, resolution_kind: k })
            ==> p@ == snapshot_key@ && k@ == "directory"@,
{
    let mk = without_peer(snapshot_key);
    match find_package(packages, mk.as_str()) {
        None => Err(SlotError::MissingPackageMetadata { snapshot_key: snapshot_key.to_owned(), metadata_key: mk }),
        Some(i) => match &packages[i].resolution {
            Resolution::Tarball { integrity, .. } => match integrity {
                Some(v) => Ok(Some(CacheKeySource { integrity: v.clone(), pkg_id: mk })),
                None => Err(SlotError::MissingTarballIntegrity { package_key: snapshot_key.to_owned() }),
            },
            Resolution::Registry { integrity } => Ok(Some(CacheKeySource { integrity: integrity.clone(), pkg_id: mk })),
            Resolution::Directory { .. } => {
                proof {
                    reveal_strlit("directory");
                }
                Err(SlotError::UnsupportedResolution {
                    package_key: snapshot_key.to_owned(),
                    resolution_kind: "directory".to_owned(),
                })
            },
            _ => Ok(None),
        },
    }
}

/// The snapshot of `current` with key `key` (the first one).
pub open spec fn snapshot_lookup(current: Seq<Snapshot>, key: Seq<char>) -> Option<SnapshotEntry>
    decreases current.len(),
{
    if current.len() == 0 {
        None
    } else if current[0].key@ == key {
        Some(current[0].entry)
    } else {
        snapshot_lookup(current.drop_first(), key)
    }
}

/// Whether the previous install placed this snapshot with the same
/// wiring and the same integrity (its slot is then reused if it still
/// exists on disk).
pub open spec fn spec_unchanged(
    key: Seq<char>,
    wanted: SnapshotEntry,
    packages: Seq<PackageEntry>,
    current_snapshots: Option<Vec<Snapshot>>,
    current_packages: Option<Vec<PackageEntry>>,
) -> bool {
    match current_snapshots {
        None => false,
        Some(cs) => match snapshot_lookup(cs@, key) {
            None => false,
            Some(c) => spec_snapshot_deps_equal(c, wanted) && (match current_packages {
                Some(cp) => opt_integrity_of(package_for(cp@, spec_without_peer(key))),
                None => None,
            }) == opt_integrity_of(package_for(packages, spec_without_peer(key))),
        },
    }
}

/// The integrity of an optional entry.
pub open spec fn opt_integrity_of(m: Option<PackageEntry>) -> Option<Seq<char>> {
    match m {
        Some(e) => spec_integrity(e.resolution),
        None => None,
    }
}

pub fn find_snapshot_entry(current: &Vec<Snapshot>, key: &str) -> (r: Option<usize>)
    ensures
        r matches Some(i) ==> i < current@.len() && snapshot_lookup(current@, key@) == Some(current@[i as int].entry),
        r is None ==> snapshot_lookup(current@, key@) is None,
{
    let mut i: usize = 0;
    assert(current@.skip(0) =~= current@);
    while i < current.len()
        invariant
            i <= current@.len(),
            snapshot_lookup(current@, key@) == snapshot_lookup(current@.skip(i as int), key@),
        decreases current.len() - i,
    {
        assert(current@.skip(i as int).drop_first() =~= current@.skip(i + 1));
        if str_eq(current[i].key.as_str(), key) {
            return Some(i);
        }
        i = i + 1;
    }
    None
}

/// Whether the previous install placed this snapshot with the same
/// dependency wiring and integrity.
pub fn snapshot_unchanged(
    key: &str,
    wanted: &SnapshotEntry,
    packages: &Vec<PackageEntry>,
    current_snapshots: &Option<Vec<Snapshot>>,
    current_packages: &Option<Vec<PackageEntry>>,
) -> (r: bool)
    ensures
        r == spec_unchanged(key@, *wanted, packages@, *current_snapshots, *current_packages),
{
    let cs = match current_snapshots {
        Some(cs) => cs,
        None => {
            return false;
        },
    };
    let c = match find_snapshot_entry(cs, key) {
        Some(i) => &cs[i].entry,
        None => {
            return false;
        },
    };
    if !snapshot_deps_equal(c, wanted) {
        return false;
    }
    let mk = without_peer(key);
    let current_entry: Option<&PackageEntry> = match current_packages {
        Some(cp) => match find_package(cp, mk.as_str()) {
            Some(i) => Some(&cp[i]),
            None => None,
        },
        None => None,
    };
    let wanted_entry: Option<&PackageEntry> = match find_package(packages, mk.as_str()) {
        Some(i) => Some(&packages[i]),
        None => None,
    };
    integrity_equal(current_entry, wanted_entry)
}

/// Which snapshots still need work.
#[derive(Debug)]
pub struct SlotPlan {
    /// Indices of the snapshots to install, in lockfile order.
    pub survivors: Vec<usize>,
    /// Indices of the snapshots kept from the previous install (their
    /// store-index rows still matter to the build step).
    pub kept: Vec<usize>,
}

/// Split the snapshots: those skipped on this host drop out; those the
/// previous install placed unchanged and whose slot is still on disk
/// (`slot_present[i]`, checked by the caller for unchanged snapshots)
/// are kept; the rest are installed.
pub fn partition_snapshots(
    snapshots: &Vec<Snapshot>,
    skipped: &SkippedSnapshots,
    unchanged: &Vec<bool>,
    slot_present: &Vec<bool>,
) -> (r: SlotPlan)
    requires
        unchanged@.len() == snapshots@.len(),
        slot_present@.len() == snapshots@.len(),
    ensures
        r.survivors@ == Seq::new(snapshots@.len() as nat, |i: int| i).filter(|i: int|
            !skipped@.contains(snapshots@[i].key@) && !(unchanged@[i] && slot_present@[i])).map_values(|i: int| i as usize),
        r.kept@ == Seq::new(snapshots@.len() as nat, |i: int| i).filter(|i: int|
            !skipped@.contains(snapshots@[i].key@) && unchanged@[i] && slot_present@[i]).map_values(|i: int| i as usize),
{
    let ghost idx = Seq::new(snapshots@.len() as nat, |i: int| i);
    let ghost keep_pred = |i: int| !skipped@.contains(snapshots@[i].key@) && unchanged@[i] && slot_present@[i];
    let ghost surv_pred = |i: int| !skipped@.contains(snapshots@[i].key@) && !(unchanged@[i] && slot_present@[i]);
    let mut survivors: Vec<usize> = Vec::new();
    let mut kept: Vec<usize> = Vec::new();
    let mut i: usize = 0;
    assert(idx.take(0) =~= Seq::<int>::empty());
    while i < snapshots.len()
        invariant
            i <= snapshots@.len(),
            unchanged@.len() == snapshots@.len(),
            slot_present@.len() == snapshots@.len(),
            idx == Seq::new(snapshots@.len() as nat, |i: int| i),
            keep_pred == (|i: int| !skipped@.contains(snapshots@[i].key@) && unchanged@[i] && slot_present@[i]),
            surv_pred == (|i: int| !skipped@.contains(snapshots@[i].key@) && !(unchanged@[i] && slot_present@[i])),
            survivors@ == idx.take(i as int).filter(surv_pred).map_values(|i: int| i as usize),
            kept@ == idx.take(i as int).filter(keep_pred).map_values(|i: int| i as usize),
        decreases snapshots.len() - i,
    {
        let ghost before = idx.take(i as int);
        assert(idx.take(i + 1) =~= before.push(i as int));
        proof {
            before.lemma_filter_push(i as int, surv_pred);
            before.lemma_filter_push(i as int, keep_pred);
        }
        let is_skipped = skipped.contains(snapshots[i].key.as_str());
        if !is_skipped {
            if unchanged[i] && slot_present[i] {
                let ghost b = kept@;
                kept.push(i);
                assert(kept@ =~= b.push(i));
                assert(kept@ =~= before.push(i as int).filter(keep_pred).map_values(|i: int| i as usize));
                assert(survivors@ =~= before.push(i as int).filter(surv_pred).map_values(|i: int| i as usize));
            } else {
                let ghost b = survivors@;
                survivors.push(i);
                assert(survivors@ =~= before.push(i as int).filter(surv_pred).map_values(|i: int| i as usize));
                assert(kept@ =~= before.push(i as int).filter(keep_pred).map_values(|i: int| i as usize));
            }
        } else {
            assert(survivors@ =~= before.push(i as int).filter(surv_pred).map_values(|i: int| i as usize));
            assert(kept@ =~= before.push(i as int).filter(keep_pred).map_values(|i: int| i as usize));
        }
        i = i + 1;
    }
    assert(idx.take(snapshots@.len() as int) =~= idx);
    SlotPlan { survivors, kept }
}

} // verus!

verus! {

/// Whether an optional key is the given one.
pub open spec fn has_key(o: Option<String>, k: Seq<char>) -> bool {
    o matches Some(s) && s@ == k
}

/// The store-index keys of a set of snapshots (those that have one).
pub open spec fn present_keys(keys: Seq<Option<String>>) -> Set<Seq<char>> {
    Set::new(|k: Seq<char>| exists|i: int| 0 <= i < keys.len() && #[trigger] has_key(keys[i], k))
}

/// The keys to prefetch from the store index: every key of a snapshot
/// to install or kept, sorted, each once.
pub fn prefetch_keys(keys: &Vec<Option<String>>) -> (r: Vec<String>)
    ensures
        crate::build_modules::strictly_sorted(views_of(r@)),
        views_of(r@).to_set() == present_keys(keys@),
{
    let mut out: Vec<String> = Vec::new();
    assert(views_of(out@).to_set() =~= present_keys(keys@.take(0)));
    let mut i: usize = 0;
    while i < keys.len()
        invariant
            i <= keys@.len(),
            crate::build_modules::strictly_sorted(views_of(out@)),
            views_of(out@).to_set() == present_keys(keys@.take(i as int)),
        decreases keys.len() - i,
    {
        let ghost before = views_of(out@).to_set();
        match &keys[i] {
            Some(k) => {
                crate::build_modules::insert_sorted(&mut out, k.clone());
                assert(present_keys(keys@.take(i + 1)) =~= present_keys(keys@.take(i as int)).insert(k@)) by {
                    assert(keys@.take(i + 1)[i as int] == keys@[i as int]);
                    assert(has_key(keys@.take(i + 1)[i as int], k@));
                    assert forall|x: Seq<char>| present_keys(keys@.take(i as int)).contains(x) implies present_keys(
                        keys@.take(i + 1),
                    ).contains(x) by {
                        let j = choose|j: int|
                            0 <= j < keys@.take(i as int).len() && #[trigger] has_key(keys@.take(i as int)[j], x);
                        assert(keys@.take(i + 1)[j] == keys@.take(i as int)[j]);
                        assert(has_key(keys@.take(i + 1)[j], x));
                    }
                    assert forall|x: Seq<char>| present_keys(keys@.take(i + 1)).contains(x) implies present_keys(
                        keys@.take(i as int),
                    ).insert(k@).contains(x) by {
                        let j = choose|j: int|
                            0 <= j < keys@.take(i + 1).len() && #[trigger] has_key(keys@.take(i + 1)[j], x);
                        if j < i {
                            assert(keys@.take(i as int)[j] == keys@.take(i + 1)[j]);
                            assert(has_key(keys@.take(i as int)[j], x));
                        }
                    }
                }
            },
            None => {
                assert(present_keys(keys@.take(i + 1)) =~= present_keys(keys@.take(i as int))) by {
                    assert forall|x: Seq<char>| present_keys(keys@.take(i as int)).contains(x) implies present_keys(
                        keys@.take(i + 1),
                    ).contains(x) by {
                        let j = choose|j: int|
                            0 <= j < keys@.take(i as int).len() && #[trigger] has_key(keys@.take(i as int)[j], x);
                        assert(keys@.take(i + 1)[j] == keys@.take(i as int)[j]);
                        assert(has_key(keys@.take(i + 1)[j], x));
                    }
                    assert forall|x: Seq<char>| present_keys(keys@.take(i + 1)).contains(x) implies present_keys(
                        keys@.take(i as int),
                    ).contains(x) by {
                        let j = choose|j: int|
                            0 <= j < keys@.take(i + 1).len() && #[trigger] has_key(keys@.take(i + 1)[j], x);
                        assert(j < i);
                        assert(keys@.take(i as int)[j] == keys@.take(i + 1)[j]);
                        assert(has_key(keys@.take(i as int)[j], x));
                    }
                }
            },
        }
        i = i + 1;
    }
    assert(keys@.take(keys@.len() as int) =~= keys@);
    out
}

/// Whether a snapshot can be placed from the store without a download:
/// it has a store-index key and the prefetch found files for it.
pub open spec fn is_warm(key: Option<String>, found: Seq<Seq<char>>) -> bool {
    key matches Some(k) && found.contains(k@)
}

/// The snapshots to install split by whether the store serves them
/// (`found`: the keys the prefetch returned files for): indices of the
/// warm ones and of the cold ones, each in order.
pub fn split_warm_cold(keys: &Vec<Option<String>>, found: &Vec<String>) -> (r: (Vec<usize>, Vec<usize>))
    ensures
        r.0@ == Seq::new(keys@.len() as nat, |i: int| i).filter(|i: int| is_warm(keys@[i], views_of(found@))).map_values(
            |i: int| i as usize,
        ),
        r.1@ == Seq::new(keys@.len() as nat, |i: int| i).filter(|i: int| !is_warm(keys@[i], views_of(found@))).map_values(
            |i: int| i as usize,
        ),
{
    let ghost idx = Seq::new(keys@.len() as nat, |i: int| i);
    let ghost warm_pred = |i: int| is_warm(keys@[i], views_of(found@));
    let ghost cold_pred = |i: int| !is_warm(keys@[i], views_of(found@));
    let mut warm: Vec<usize> = Vec::new();
    let mut cold: Vec<usize> = Vec::new();
    let mut i: usize = 0;
    assert(idx.take(0) =~= Seq::<int>::empty());
    while i < keys.len()
        invariant
            i <= keys@.len(),
            idx == Seq::new(keys@.len() as nat, |i: int| i),
            warm_pred == (|i: int| is_warm(keys@[i], views_of(found@))),
            cold_pred == (|i: int| !is_warm(keys@[i], views_of(found@))),
            warm@ == idx.take(i as int).filter(warm_pred).map_values(|i: int| i as usize),
            cold@ == idx.take(i as int).filter(cold_pred).map_values(|i: int| i as usize),
        decreases keys.len() - i,
    {
        let ghost before = idx.take(i as int);
        assert(idx.take(i + 1) =~= before.push(i as int));
        proof {
            before.lemma_filter_push(i as int, warm_pred);
            before.lemma_filter_push(i as int, cold_pred);
        }
        let hit = match &keys[i] {
            Some(k) => crate::lockfile::contains_str(found, k.as_str()),
            None => false,
        };
        proof {
            assert(crate::lockfile::string_seq_views(found@) == views_of(found@));
        }
        if hit {
            warm.push(i);
        } else {
            cold.push(i);
        }
        assert(warm@ =~= before.push(i as int).filter(warm_pred).map_values(|i: int| i as usize));
        assert(cold@ =~= before.push(i as int).filter(cold_pred).map_values(|i: int| i as usize));
        i = i + 1;
    }
    assert(idx.take(keys@.len() as int) =~= idx);
    (warm, cold)
}


/// Whether the virtual store has work to do: not without snapshots (an
/// empty result), an error when there are snapshots but no `packages:`
/// section, and yes otherwise.
pub fn store_preconditions(has_snapshots: bool, has_packages: bool) -> (r: Result<bool, SlotError>)
    ensures
        !has_snapshots ==> r == Ok::<bool, SlotError>(false),
        has_snapshots && !has_packages ==> r == Err::<bool, SlotError>(SlotError::MissingPackagesSection),
        has_snapshots && has_packages ==> r == Ok::<bool, SlotError>(true),
{
    if !has_snapshots {
        Ok(false)
    } else if !has_packages {
        Err(SlotError::MissingPackagesSection)
    } else {
        Ok(true)
    }
}

} // verus!

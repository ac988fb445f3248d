//! Planning the `node_modules/<name>` links of each importer: which
//! importer keys are safe, where an importer lives, and, per direct
//! dependency, the link to make and what is reported for it.
use vstd::prelude::*;
use crate::installability::SkippedSnapshots;
use crate::lockfile::{Importer, ImporterDep, ImporterDepVersion, ProjectSnapshot, spec_without_peer, without_peer};
use crate::package_manifest::DependencyGroup;
use crate::path::{join, spec_components, spec_join};
use crate::slots::{slot_package_dir, spec_slot_package_dir};
use crate::text::{
    concat2, concat3, find_char, lemma_find_props, sort_strings, spec_find, spec_sort, starts_with_char, str_eq, views_of,
};

verus! {

broadcast use vstd::seq_lib::group_seq_properties;

/// Errors of linking direct dependencies.
#[derive(Debug, PartialEq, Eq)]
pub enum SymlinkDirectDependenciesError {
    /// An importer key that would leave the workspace root.
    UnsafeImporterPath { importer_id: String },
    /// The lockfile has no root importer (`.`).
    MissingRootImporter { importer_id: String },
    /// A link could not be made (the message says why).
    SymlinkPackage { importer_id: String, name: String, message: String },
    /// The bins of the direct dependencies could not be linked.
    LinkBins(String),
}

/// The `/`-separated pieces of `s`.
pub open spec fn has_parent_segment(s: Seq<char>) -> bool {
    crate::path::spec_split(s).contains(".."@)
}

/// Whether an importer key is unsafe: empty, absolute, with a drive
/// prefix (`C:`), with a backslash, or with a `..` segment; `.` is the
/// root importer and is safe.
pub open spec fn spec_unsafe_importer(id: Seq<char>) -> bool {
    if id == "."@ {
        false
    } else {
        ||| id.len() == 0
        ||| id[0] == '/'
        ||| (id.len() >= 2 && id[1] == ':' && is_ascii_alpha(id[0]))
        ||| id.contains('\\')
        ||| has_parent_segment(id)
    }
}

/// An ASCII letter.
pub open spec fn is_ascii_alpha(c: char) -> bool {
    ('a' <= c && c <= 'z') || ('A' <= c && c <= 'Z')
}

/// Reject importer keys that would resolve outside the workspace root.
pub fn validate_importer_id(importer_id: &str) -> (r: Result<(), SymlinkDirectDependenciesError>)
    ensures
        r is Ok <==> !spec_unsafe_importer(importer_id@),
        r matches Err(e) ==> (e matches SymlinkDirectDependenciesError::UnsafeImporterPath { importer_id: i } && i@ == importer_id@),
{
    proof {
        reveal_strlit(".");
        reveal_strlit("..");
    }
    if str_eq(importer_id, ".") {
        return Ok(());
    }
    let n = importer_id.unicode_len();
    let unsafe_err = SymlinkDirectDependenciesError::UnsafeImporterPath { importer_id: importer_id.to_owned() };
    if n == 0 {
        return Err(unsafe_err);
    }
    if starts_with_char(importer_id, '/') {
        return Err(unsafe_err);
    }
    if n >= 2 && importer_id.get_char(1) == ':' {
        let c = importer_id.get_char(0);
        if ('a' <= c && c <= 'z') || ('A' <= c && c <= 'Z') {
            return Err(unsafe_err);
        }
    }
    proof {
        lemma_find_props(importer_id@, '\\', 0);
    }
    if find_char(importer_id, '\\', 0).is_some() {
        return Err(unsafe_err);
    }
    assert(!importer_id@.contains('\\'));
    let segments = crate::path::split_path(importer_id);
    let mut i: usize = 0;
    while i < segments.len()
        invariant
            i <= segments@.len(),
            importer_id@ != "."@,
            (unsafe_err matches SymlinkDirectDependenciesError::UnsafeImporterPath { importer_id: x } && x@ == importer_id@),
            views_of(segments@) == crate::path::spec_split(importer_id@),
            forall|j: int| 0 <= j < i ==> segments@[j]@ != ".."@,
        decreases segments.len() - i,
    {
        if str_eq(segments[i].as_str(), "..") {
            assert(views_of(segments@)[i as int] == ".."@);
            return Err(unsafe_err);
        }
        i = i + 1;
    }
    assert(!crate::path::spec_split(importer_id@).contains(".."@)) by {
        if crate::path::spec_split(importer_id@).contains(".."@) {
            let j = choose|j: int| 0 <= j < views_of(segments@).len() && views_of(segments@)[j] == ".."@;
            assert(segments@[j]@ == ".."@);
        }
    }
    Ok(())
}

/// The directory of an importer: the workspace root for `.`, the root
/// joined with the key otherwise.
pub open spec fn spec_importer_root_dir(workspace_root: Seq<char>, id: Seq<char>) -> Seq<char> {
    if id == "."@ { workspace_root } else { spec_join(workspace_root, id) }
}

/// Resolve an importer key against the workspace root.
pub fn importer_root_dir(workspace_root: &str, importer_id: &str) -> (r: String)
    ensures
        r@ == spec_importer_root_dir(workspace_root@, importer_id@),
{
    proof {
        reveal_strlit(".");
    }
    if str_eq(importer_id, ".") {
        workspace_root.to_owned()
    } else {
        join(workspace_root, importer_id)
    }
}

/// The direct dependencies of a project in one group (none for peers).
pub open spec fn group_deps(p: ProjectSnapshot, g: DependencyGroup) -> Seq<ImporterDep> {
    match g {
        DependencyGroup::Prod => crate::build_sequence::opt_deps(p.dependencies),
        DependencyGroup::Dev => crate::build_sequence::opt_deps(p.dev_dependencies),
        DependencyGroup::Optional => crate::build_sequence::opt_deps(p.optional_dependencies),
        DependencyGroup::Peer => Seq::empty(),
    }
}

/// A direct dependency to link, with the group it came from.
#[derive(Debug, PartialEq, Eq)]
pub struct DirectLink {
    pub name: String,
    pub group: DependencyGroup,
    /// Where the link points.
    pub target: String,
    /// The link itself, `<modules dir>/<name>`.
    pub link: String,
    /// The version reported for it: the version without peers, or
    /// `link:<path>`.
    pub version: String,
}

/// The key a regular direct dependency resolves to.
pub open spec fn dep_key(d: ImporterDep) -> Seq<char> {
    match d.version {
        ImporterDepVersion::Regular(v) => d.name@ + "@"@ + v@,
        ImporterDepVersion::Link(_) => Seq::empty(),
    }
}

/// Whether a direct dependency stays: `link:` dependencies always, regular
/// ones unless their snapshot is skipped on this host.
pub open spec fn dep_kept(d: ImporterDep, skipped: Set<Seq<char>>) -> bool {
    match d.version {
        ImporterDepVersion::Regular(_) => !skipped.contains(dep_key(d)),
        ImporterDepVersion::Link(_) => true,
    }
}

/// The `(name, group)` entries in group order, peers left out and each
/// name once (the first group that lists it wins).
pub open spec fn spec_entries(p: ProjectSnapshot, groups: Seq<DependencyGroup>) -> Seq<(ImporterDep, DependencyGroup)>
    decreases groups.len(),
{
    if groups.len() == 0 {
        Seq::empty()
    } else {
        let prev = spec_entries(p, groups.drop_last());
        add_group_entries(prev, group_deps(p, groups.last()), groups.last())
    }
}

/// `prev` followed by the dependencies of `deps` whose name is not yet
/// listed.
pub open spec fn add_group_entries(
    prev: Seq<(ImporterDep, DependencyGroup)>,
    deps: Seq<ImporterDep>,
    g: DependencyGroup,
) -> Seq<(ImporterDep, DependencyGroup)>
    decreases deps.len(),
{
    if deps.len() == 0 {
        prev
    } else {
        let before = add_group_entries(prev, deps.drop_last(), g);
        let d = deps.last();
        if entry_names(before).contains(d.name@) { before } else { before.push((d, g)) }
    }
}

/// The names of a list of entries.
pub open spec fn entry_names(e: Seq<(ImporterDep, DependencyGroup)>) -> Seq<Seq<char>> {
    e.map_values(|x: (ImporterDep, DependencyGroup)| x.0.name@)
}

/// The target of a direct dependency's link: its package directory in
/// the virtual store, or, for `link:<path>`, the path (absolute as is,
/// relative against the project directory).
pub open spec fn spec_link_target(d: ImporterDep, virtual_store_dir: Seq<char>, project_dir: Seq<char>) -> Seq<char> {
    match d.version {
        ImporterDepVersion::Regular(_) => spec_slot_package_dir(virtual_store_dir, dep_key(d)),
        ImporterDepVersion::Link(t) => if t@.len() > 0 && t@[0] == '/' { t@ } else { spec_join(project_dir, t@) },
    }
}

/// The version reported for a direct dependency.
pub open spec fn spec_reported_version(d: ImporterDep) -> Seq<char> {
    match d.version {
        ImporterDepVersion::Regular(v) => spec_without_peer(v@),
        ImporterDepVersion::Link(t) => "link:"@ + t@,
    }
}

/// Whether a planned link is the one an entry calls for.
pub open spec fn link_matches(l: DirectLink, e: (ImporterDep, DependencyGroup), virtual_store_dir: Seq<char>, project_dir: Seq<char>, modules_dir: Seq<char>) -> bool {
    &&& l.name@ == e.0.name@
    &&& l.group == e.1
    &&& l.target@ == spec_link_target(e.0, virtual_store_dir, project_dir)
    &&& l.link@ == spec_join(modules_dir, e.0.name@)
    &&& l.version@ == spec_reported_version(e.0)
}

fn link_for(d: &ImporterDep, group: DependencyGroup, virtual_store_dir: &str, project_dir: &str, modules_dir: &str) -> (r: DirectLink)
    ensures
        link_matches(r, (*d, group), virtual_store_dir@, project_dir@, modules_dir@),
{
    proof {
        reveal_strlit("link:");
    }
    let (target, version) = match &d.version {
        ImporterDepVersion::Regular(v) => {
            let key = concat3(d.name.as_str(), "@", v.as_str());
            (slot_package_dir(virtual_store_dir, key.as_str()), without_peer(v.as_str()))
        },
        ImporterDepVersion::Link(t) => {
            let target = if starts_with_char(t.as_str(), '/') { t.clone() } else { join(project_dir, t.as_str()) };
            (target, concat2("link:", t.as_str()))
        },
    };
    DirectLink { name: d.name.clone(), group, target, link: join(modules_dir, d.name.as_str()), version }
}

fn copy_dep(d: &ImporterDep) -> (r: ImporterDep)
    ensures
        r == *d,
{
    let version = match &d.version {
        ImporterDepVersion::Regular(v) => ImporterDepVersion::Regular(v.clone()),
        ImporterDepVersion::Link(t) => ImporterDepVersion::Link(t.clone()),
    };
    ImporterDep { name: d.name.clone(), version }
}

fn listed(entries: &Vec<(ImporterDep, DependencyGroup)>, name: &str) -> (r: bool)
    ensures
        r == entry_names(entries@).contains(name@),
{
    let mut k: usize = 0;
    while k < entries.len()
        invariant
            k <= entries@.len(),
            forall|j: int| 0 <= j < k ==> entries@[j].0.name@ != name@,
        decreases entries.len() - k,
    {
        if str_eq(entries[k].0.name.as_str(), name) {
            assert(entry_names(entries@)[k as int] == name@);
            return true;
        }
        k = k + 1;
    }
    assert(!entry_names(entries@).contains(name@)) by {
        if entry_names(entries@).contains(name@) {
            let j = choose|j: int| 0 <= j < entry_names(entries@).len() && entry_names(entries@)[j] == name@;
            assert(entries@[j].0.name@ == name@);
        }
    }
    false
}

fn group_list(p: &ProjectSnapshot, g: DependencyGroup) -> (r: Option<&Vec<ImporterDep>>)
    ensures
        group_deps(*p, g) == match r {
            Some(v) => v@,
            None => Seq::empty(),
        },
{
    let o = match g {
        DependencyGroup::Prod => &p.dependencies,
        DependencyGroup::Dev => &p.dev_dependencies,
        DependencyGroup::Optional => &p.optional_dependencies,
        DependencyGroup::Peer => {
            return None;
        },
    };
    match o {
        Some(v) => Some(v),
        None => None,
    }
}

/// The direct dependencies of one importer, group by group, peers left
/// out and each name once (the first group listing it wins).
pub fn direct_entries(p: &ProjectSnapshot, groups: &[DependencyGroup]) -> (r: Vec<(ImporterDep, DependencyGroup)>)
    ensures
        r@ == spec_entries(*p, groups@),
{
    let mut entries: Vec<(ImporterDep, DependencyGroup)> = Vec::new();
    let mut gi: usize = 0;
    assert(groups@.take(0) =~= Seq::<DependencyGroup>::empty());
    while gi < groups.len()
        invariant
            gi <= groups@.len(),
            entries@ == spec_entries(*p, groups@.take(gi as int)),
        decreases groups.len() - gi,
    {
        let g = groups[gi];
        assert(groups@.take(gi + 1).drop_last() =~= groups@.take(gi as int));
        assert(groups@.take(gi + 1).last() == g);
        let ghost prev = entries@;
        match group_list(p, g) {
            Some(deps) => {
                let mut k: usize = 0;
                assert(deps@.take(0) =~= Seq::<ImporterDep>::empty());
                while k < deps.len()
                    invariant
                        k <= deps@.len(),
                        entries@ == add_group_entries(prev, deps@.take(k as int), g),
                    decreases deps.len() - k,
                {
                    let d = &deps[k];
                    assert(deps@.take(k + 1).drop_last() =~= deps@.take(k as int));
                    assert(deps@.take(k + 1).last() == *d);
                    if !listed(&entries, d.name.as_str()) {
                        entries.push((copy_dep(d), g));
                    }
                    k = k + 1;
                }
                assert(deps@.take(deps@.len() as int) =~= deps@);
            },
            None => {
                assert(add_group_entries(prev, Seq::empty(), g) == prev);
            },
        }
        gi = gi + 1;
    }
    assert(groups@.take(groups@.len() as int) =~= groups@);
    entries
}

/// The entries that stay on this host.
pub open spec fn spec_kept_entries(p: ProjectSnapshot, groups: Seq<DependencyGroup>, skipped: Set<Seq<char>>) -> Seq<(ImporterDep, DependencyGroup)> {
    spec_entries(p, groups).filter(|e: (ImporterDep, DependencyGroup)| dep_kept(e.0, skipped))
}

/// The links to make for one importer: one per direct dependency that
/// stays, in order, each pointing at its package directory (or its
/// `link:` target) from `<modules dir>/<name>`.
pub fn link_one_importer(
    project_snapshot: &ProjectSnapshot,
    groups: &[DependencyGroup],
    skipped: &SkippedSnapshots,
    virtual_store_dir: &str,
    project_dir: &str,
    modules_dir: &str,
) -> (r: Vec<DirectLink>)
    ensures
        r@.len() == spec_kept_entries(*project_snapshot, groups@, skipped@).len(),
        forall|i: int| 0 <= i < r@.len() ==> #[trigger] link_matches(r@[i], spec_kept_entries(*project_snapshot, groups@, skipped@)[i],
            virtual_store_dir@, project_dir@, modules_dir@),
{
    let entries = direct_entries(project_snapshot, groups);
    let ghost kept = |e: (ImporterDep, DependencyGroup)| dep_kept(e.0, skipped@);
    let mut out: Vec<DirectLink> = Vec::new();
    let mut i: usize = 0;
    assert(entries@.take(0) =~= Seq::<(ImporterDep, DependencyGroup)>::empty());
    while i < entries.len()
        invariant
            i <= entries@.len(),
            entries@ == spec_entries(*project_snapshot, groups@),
            kept == (|e: (ImporterDep, DependencyGroup)| dep_kept(e.0, skipped@)),
            out@.len() == entries@.take(i as int).filter(kept).len(),
            forall|j: int| 0 <= j < out@.len() ==> #[trigger] link_matches(out@[j], entries@.take(i as int).filter(kept)[j],
                virtual_store_dir@, project_dir@, modules_dir@),
        decreases entries.len() - i,
    {
        let ghost before = entries@.take(i as int);
        assert(entries@.take(i + 1) =~= before.push(entries@[i as int]));
        proof {
            before.lemma_filter_push(entries@[i as int], kept);
        }
        let (d, g) = (&entries[i].0, entries[i].1);
        let keep = match &d.version {
            ImporterDepVersion::Regular(v) => {
                let key = concat3(d.name.as_str(), "@", v.as_str());
                !skipped.contains(key.as_str())
            },
            ImporterDepVersion::Link(_) => true,
        };
        if keep {
            out.push(link_for(d, g, virtual_store_dir, project_dir, modules_dir));
        }
        i = i + 1;
    }
    assert(entries@.take(entries@.len() as int) =~= entries@);
    out
}


/// A regular direct dependency `name: version` (the version with its
/// peer suffix, as the lockfile records it) is linked into the slot of
/// the full key `name@version`, the key its snapshot has, the skip check
/// tests and the virtual store populates; the version reported for it is
/// the version without peers. Each link of `link_one_importer` meets
/// `link_matches` for its entry.
pub proof fn law_direct_link_targets_full_key_slot(
    l: DirectLink,
    d: ImporterDep,
    g: DependencyGroup,
    v: String,
    virtual_store_dir: Seq<char>,
    project_dir: Seq<char>,
    modules_dir: Seq<char>,
    skipped: Set<Seq<char>>,
)
    requires
        link_matches(l, (d, g), virtual_store_dir, project_dir, modules_dir),
        d.version == ImporterDepVersion::Regular(v),
    ensures
        l.target@ == spec_slot_package_dir(virtual_store_dir, d.name@ + "@"@ + v@),
        l.link@ == spec_join(modules_dir, d.name@),
        l.version@ == spec_without_peer(v@),
        dep_kept(d, skipped) == !skipped.contains(d.name@ + "@"@ + v@),
{
}

} // verus!

verus! {

/// The name of the modules directory under each importer: the last
/// component of the configured modules directory (`node_modules` when it
/// has none).
pub open spec fn spec_modules_dir_name(modules_dir: Seq<char>) -> Seq<char> {
    let c = spec_components(modules_dir);
    if c.len() > 0 && c.last() != "/"@ && c.last() != "."@ && c.last() != ".."@ {
        c.last()
    } else {
        "node_modules"@
    }
}

/// The name of the modules directory under each importer.
pub fn modules_dir_name(modules_dir: &str) -> (r: String)
    ensures
        r@ == spec_modules_dir_name(modules_dir@),
{
    proof {
        reveal_strlit("/");
        reveal_strlit(".");
        reveal_strlit("..");
        reveal_strlit("node_modules");
    }
    let c = crate::path::path_components(modules_dir);
    let n = c.len();
    if n > 0 {
        let last = &c[n - 1];
        assert(views_of(c@)[n - 1] == last@);
        if !str_eq(last.as_str(), "/") && !str_eq(last.as_str(), ".") && !str_eq(last.as_str(), "..") {
            return last.clone();
        }
    }
    "node_modules".to_owned()
}

} // verus!

verus! {

/// The snapshot of the importer with a key (the first one with it).
pub open spec fn importer_lookup(importers: Seq<Importer>, id: Seq<char>) -> Option<ProjectSnapshot>
    decreases importers.len(),
{
    if importers.len() == 0 {
        None
    } else if importers[0].id@ == id {
        Some(importers[0].snapshot)
    } else {
        importer_lookup(importers.drop_first(), id)
    }
}

/// The importer keys in sorted order.
pub open spec fn sorted_importer_ids(importers: Seq<Importer>) -> Seq<Seq<char>> {
    spec_sort(importers.map_values(|i: Importer| i.id@))
}

/// The position of the first unsafe key (the length when all are safe).
pub open spec fn first_unsafe_index(ids: Seq<Seq<char>>) -> nat
    decreases ids.len(),
{
    if ids.len() == 0 {
        0
    } else if spec_unsafe_importer(ids[0]) {
        0
    } else {
        1 + first_unsafe_index(ids.drop_first())
    }
}

/// The links of one importer, with where it lives.
#[derive(Debug)]
pub struct ImporterLinks {
    pub importer_id: String,
    pub project_dir: String,
    pub modules_dir: String,
    pub links: Vec<DirectLink>,
}

/// That a plan is the one for the importer with the given key.
pub open spec fn importer_plan_matches(
    plan: ImporterLinks,
    id: Seq<char>,
    importers: Seq<Importer>,
    groups: Seq<DependencyGroup>,
    skipped: Set<Seq<char>>,
    virtual_store_dir: Seq<char>,
    workspace_root: Seq<char>,
    modules_dir_name: Seq<char>,
) -> bool {
    &&& plan.importer_id@ == id
    &&& plan.project_dir@ == spec_importer_root_dir(workspace_root, id)
    &&& plan.modules_dir@ == spec_join(plan.project_dir@, modules_dir_name)
    &&& importer_lookup(importers, id) matches Some(p) && {
        &&& plan.links@.len() == spec_kept_entries(p, groups, skipped).len()
        &&& forall|i: int|
            0 <= i < plan.links@.len() ==> #[trigger] link_matches(
                plan.links@[i],
                spec_kept_entries(p, groups, skipped)[i],
                virtual_store_dir,
                plan.project_dir@,
                plan.modules_dir@,
            )
    }
}

proof fn lemma_first_unsafe(ids: Seq<Seq<char>>)
    ensures
        first_unsafe_index(ids) <= ids.len(),
        forall|k: int| 0 <= k < first_unsafe_index(ids) ==> !spec_unsafe_importer(#[trigger] ids[k]),
        first_unsafe_index(ids) < ids.len() ==> spec_unsafe_importer(ids[first_unsafe_index(ids) as int]),
    decreases ids.len(),
{
    if ids.len() > 0 && !spec_unsafe_importer(ids[0]) {
        lemma_first_unsafe(ids.drop_first());
        assert forall|k: int| 0 <= k < first_unsafe_index(ids) implies !spec_unsafe_importer(#[trigger] ids[k]) by {
            if k > 0 {
                assert(ids[k] == ids.drop_first()[k - 1]);
            }
        }
    }
}

proof fn lemma_lookup_found(importers: Seq<Importer>, id: Seq<char>, m: int)
    requires
        0 <= m < importers.len(),
        importers[m].id@ == id,
    ensures
        importer_lookup(importers, id) is Some,
    decreases m,
{
    if m > 0 && importers[0].id@ != id {
        lemma_lookup_found(importers.drop_first(), id, m - 1);
    }
}

fn find_importer(importers: &Vec<Importer>, id: &str) -> (r: Option<usize>)
    ensures
        r matches Some(i) ==> i < importers@.len() && importer_lookup(importers@, id@) == Some(importers@[i as int].snapshot),
        r is None ==> importer_lookup(importers@, id@) is None,
{
    let mut i: usize = 0;
    assert(importers@.skip(0) =~= importers@);
    while i < importers.len()
        invariant
            i <= importers@.len(),
            importer_lookup(importers@, id@) == importer_lookup(importers@.skip(i as int), id@),
        decreases importers.len() - i,
    {
        assert(importers@.skip(i as int).drop_first() =~= importers@.skip(i + 1));
        if str_eq(importers[i].id.as_str(), id) {
            return Some(i);
        }
        i = i + 1;
    }
    None
}

/// Plan the direct links of every importer, in sorted key order: each
/// importer lives at its key under the workspace root, with its modules
/// directory named as the configured one; planning stops at the first
/// unsafe key, which is the error, after the plans of the keys before it.
/// Without a root importer (`.`) nothing is planned and that is the
/// error.
pub fn plan_direct_links(
    importers: &Vec<Importer>,
    groups: &[DependencyGroup],
    skipped: &SkippedSnapshots,
    virtual_store_dir: &str,
    workspace_root: &str,
    config_modules_dir: &str,
) -> (r: (Vec<ImporterLinks>, Option<SymlinkDirectDependenciesError>))
    ensures
        importer_lookup(importers@, "."@) is None ==> r.0@.len() == 0 && (r.1 matches Some(
            SymlinkDirectDependenciesError::MissingRootImporter { importer_id },
        ) && importer_id@ == "."@),
        importer_lookup(importers@, "."@) is Some ==> ({
            let ids = sorted_importer_ids(importers@);
            let n = first_unsafe_index(ids);
            &&& r.0@.len() == n
            &&& forall|k: int|
                0 <= k < n ==> #[trigger] importer_plan_matches(
                    r.0@[k],
                    ids[k],
                    importers@,
                    groups@,
                    skipped@,
                    virtual_store_dir@,
                    workspace_root@,
                    spec_modules_dir_name(config_modules_dir@),
                )
            &&& n < ids.len() ==> (r.1 matches Some(SymlinkDirectDependenciesError::UnsafeImporterPath { importer_id })
                && importer_id@ == ids[n as int])
            &&& n == ids.len() ==> r.1 is None
        }),
{
    proof {
        reveal_strlit(".");
    }
    if find_importer(importers, ".").is_none() {
        return (Vec::new(), Some(SymlinkDirectDependenciesError::MissingRootImporter { importer_id: ".".to_string() }));
    }
    let mut keys: Vec<String> = Vec::new();
    let mut j: usize = 0;
    while j < importers.len()
        invariant
            j <= importers@.len(),
            views_of(keys@) == importers@.take(j as int).map_values(|i: Importer| i.id@),
        decreases importers.len() - j,
    {
        let ghost b = views_of(keys@);
        keys.push(importers[j].id.clone());
        assert(views_of(keys@) =~= b.push(importers@[j as int].id@));
        assert(importers@.take(j + 1).map_values(|i: Importer| i.id@) =~= importers@.take(j as int).map_values(
            |i: Importer| i.id@,
        ).push(importers@[j as int].id@));
        j = j + 1;
    }
    assert(importers@.take(importers@.len() as int) =~= importers@);
    let ghost kv = views_of(keys@);
    let sorted = sort_strings(keys);
    let ghost ids = sorted_importer_ids(importers@);
    assert(views_of(sorted@) == ids);
    proof {
        lemma_first_unsafe(ids);
        ids.to_multiset_ensures();
        kv.to_multiset_ensures();
    }
    let name = modules_dir_name(config_modules_dir);
    let mut plans: Vec<ImporterLinks> = Vec::new();
    let mut k: usize = 0;
    while k < sorted.len()
        invariant
            k <= sorted@.len(),
            k <= first_unsafe_index(ids),
            first_unsafe_index(ids) <= ids.len(),
            ids == views_of(sorted@),
            ids == sorted_importer_ids(importers@),
            ids.to_multiset() == kv.to_multiset(),
            kv == importers@.map_values(|i: Importer| i.id@),
            forall|a: Seq<char>| ids.contains(a) <==> #[trigger] ids.to_multiset().count(a) > 0,
            forall|a: Seq<char>| kv.contains(a) <==> #[trigger] kv.to_multiset().count(a) > 0,
            name@ == spec_modules_dir_name(config_modules_dir@),
            importer_lookup(importers@, "."@) is Some,
            forall|m: int| 0 <= m < first_unsafe_index(ids) ==> !spec_unsafe_importer(#[trigger] ids[m]),
            first_unsafe_index(ids) < ids.len() ==> spec_unsafe_importer(ids[first_unsafe_index(ids) as int]),
            plans@.len() == k,
            forall|m: int|
                0 <= m < k ==> #[trigger] importer_plan_matches(
                    plans@[m],
                    ids[m],
                    importers@,
                    groups@,
                    skipped@,
                    virtual_store_dir@,
                    workspace_root@,
                    name@,
                ),
        decreases sorted.len() - k,
    {
        let id = &sorted[k];
        assert(ids[k as int] == id@);
        match validate_importer_id(id.as_str()) {
            Err(e) => {
                assert(k == first_unsafe_index(ids));
                return (plans, Some(e));
            },
            Ok(()) => {},
        }
        let project_dir = importer_root_dir(workspace_root, id.as_str());
        let modules_dir = join(project_dir.as_str(), name.as_str());
        let links = match find_importer(importers, id.as_str()) {
            Some(i) => link_one_importer(
                &importers[i].snapshot,
                groups,
                skipped,
                virtual_store_dir,
                project_dir.as_str(),
                modules_dir.as_str(),
            ),
            None => {
                proof {
                    assert(ids.contains(id@));
                    assert(ids.to_multiset().count(id@) > 0);
                    assert(kv.to_multiset().count(id@) > 0);
                    assert(kv.contains(id@));
                    let m = choose|m: int| 0 <= m < kv.len() && kv[m] == id@;
                    lemma_lookup_found(importers@, id@, m);
                }
                Vec::new()
            },
        };
        plans.push(ImporterLinks { importer_id: id.clone(), project_dir, modules_dir, links });
        k = k + 1;
    }
    (plans, None)
}


proof fn lemma_add_group_entries_unique(prev: Seq<(ImporterDep, DependencyGroup)>, deps: Seq<ImporterDep>, g: DependencyGroup)
    requires
        entry_names(prev).no_duplicates(),
    ensures
        entry_names(add_group_entries(prev, deps, g)).no_duplicates(),
    decreases deps.len(),
{
    if deps.len() > 0 {
        lemma_add_group_entries_unique(prev, deps.drop_last(), g);
        let before = add_group_entries(prev, deps.drop_last(), g);
        let d = deps.last();
        if !entry_names(before).contains(d.name@) {
            assert(entry_names(before.push((d, g))) =~= entry_names(before).push(d.name@));
        }
    }
}

proof fn lemma_entries_unique(p: ProjectSnapshot, groups: Seq<DependencyGroup>)
    ensures
        entry_names(spec_entries(p, groups)).no_duplicates(),
    decreases groups.len(),
{
    if groups.len() == 0 {
        assert(entry_names(spec_entries(p, groups)) =~= Seq::<Seq<char>>::empty());
    } else {
        lemma_entries_unique(p, groups.drop_last());
        lemma_add_group_entries_unique(spec_entries(p, groups.drop_last()), group_deps(p, groups.last()), groups.last());
    }
}

proof fn lemma_filter_names_unique(s: Seq<(ImporterDep, DependencyGroup)>, keep: spec_fn((ImporterDep, DependencyGroup)) -> bool)
    requires
        entry_names(s).no_duplicates(),
    ensures
        entry_names(s.filter(keep)).no_duplicates(),
    decreases s.len(),
{
    if s.len() == 0 {
        assert(s.filter(keep) =~= Seq::<(ImporterDep, DependencyGroup)>::empty()) by {
            reveal(Seq::filter);
        }
        assert(entry_names(s.filter(keep)) =~= Seq::<Seq<char>>::empty());
    } else {
        let init = s.drop_last();
        let x = s.last();
        assert(entry_names(init) =~= entry_names(s).drop_last());
        assert(entry_names(init).no_duplicates()) by {
            assert forall|i: int, j: int| 0 <= i < j < entry_names(init).len() implies entry_names(init)[i]
                != entry_names(init)[j] by {
                assert(entry_names(init)[i] == entry_names(s)[i]);
                assert(entry_names(init)[j] == entry_names(s)[j]);
            }
        }
        lemma_filter_names_unique(init, keep);
        assert(init.push(x) =~= s);
        init.lemma_filter_push(x, keep);
        if keep(x) {
            let f = init.filter(keep);
            assert(!entry_names(f).contains(x.0.name@)) by {
                if entry_names(f).contains(x.0.name@) {
                    let k = choose|k: int| 0 <= k < entry_names(f).len() && entry_names(f)[k] == x.0.name@;
                    assert(f.contains(f[k]));
                    init.lemma_filter_contains_rev(keep, f[k]);
                    let m = choose|m: int| 0 <= m < init.len() && init[m] == f[k];
                    assert(entry_names(s)[m] == x.0.name@);
                    assert(entry_names(s)[s.len() - 1] == x.0.name@);
                }
            }
            assert(entry_names(f.push(x)) =~= entry_names(f).push(x.0.name@));
        }
    }
}

/// Each dependency is linked into an importer's modules directory at
/// most once, whatever groups list it: the names of the planned links
/// are all different.
pub proof fn law_each_name_linked_once(p: ProjectSnapshot, groups: Seq<DependencyGroup>, skipped: Set<Seq<char>>)
    ensures
        entry_names(spec_kept_entries(p, groups, skipped)).no_duplicates(),
{
    lemma_entries_unique(p, groups);
    lemma_filter_names_unique(spec_entries(p, groups), |e: (ImporterDep, DependencyGroup)| dep_kept(e.0, skipped));
}

} // verus!

//! The directory-keyed dependency graph of a `nodeLinker: hoisted`
//! install, built by walking the hoister's tree: each hoisted node gets
//! a directory under its parent's `node_modules`, unless it is skipped
//! on this host; afterwards each node's children are resolved to the
//! first directory their package landed in.
use vstd::prelude::*;
use crate::build_modules::{insert_sorted, strictly_sorted};
use crate::lockfile::{opt_edges, resolve, spec_all_edges, spec_resolve, DepEdge, Snapshot, SnapshotEntry};
use crate::virtual_store_layout::{pair_keys, pairs_map, set_pair};
use crate::path::{join, spec_join};
use crate::fetch::spec_key_version;
use crate::slots::{key_name, spec_key_name};
use crate::text::{replace_char, spec_replace, str_eq, substr, views_of};
use crate::virtual_store::{copy_resolution, find_snapshot_entry, resolution_view, snapshot_lookup, Resolution, ResolutionView};

verus! {

broadcast use vstd::seq_lib::group_seq_properties;

/// A node of the hoister's result: the name it is placed under, the
/// snapshot keys it stands for (the first is its own), and the nodes
/// placed in its `node_modules`.
#[derive(Debug)]
pub struct HoisterNode {
    pub name: String,
    pub references: Vec<String>,
    pub dependencies: Vec<HoisterNode>,
}

/// The number of nodes in a forest.
pub open spec fn forest_size(nodes: Seq<HoisterNode>) -> nat
    decreases nodes,
{
    if nodes.len() == 0 {
        0
    } else {
        proof {
            assert(decreases_to!(nodes => nodes[0]));
        }
        1 + forest_size(nodes[0].dependencies@) + forest_size(nodes.drop_first())
    }
}

/// The number of nodes in a tree.
pub open spec fn tree_size(node: HoisterNode) -> nat {
    1 + forest_size(node.dependencies@)
}

proof fn lemma_tree_le_forest(nodes: Seq<HoisterNode>, i: int)
    requires
        0 <= i < nodes.len(),
    ensures
        tree_size(nodes[i]) <= forest_size(nodes),
    decreases i,
{
    if i > 0 {
        lemma_tree_le_forest(nodes.drop_first(), i - 1);
    }
}

/// What the walker needs of a `packages:` entry.
#[derive(Debug)]
pub struct WalkPackage {
    pub key: String,
    pub has_bin: bool,
    pub has_bundled_dependencies: bool,
    /// How the package is fetched; a directory resolution is an
    /// injected workspace package.
    pub resolution: Resolution,
}

/// The installability check's verdict on a package.
#[derive(Debug, PartialEq, Eq)]
pub enum Verdict {
    Installable,
    ProceedWithWarning,
    SkipOptional,
    /// A required package that cannot be installed; the message says why.
    Fail(String),
}

/// A node of the graph, keyed by its directory.
#[derive(Debug, PartialEq, Eq)]
pub struct DependenciesGraphNode {
    pub alias: String,
    pub dep_path: String,
    /// The package id the side-effects cache is keyed by.
    pub pkg_id_with_patch_hash: String,
    pub dir: String,
    pub modules: String,
    pub name: String,
    pub version: String,
    pub optional: bool,
    pub optional_dependencies: Vec<String>,
    pub has_bin: bool,
    pub has_bundled_dependencies: bool,
    /// Alias → directory of each child (each alias once).
    pub children: Vec<(String, String)>,
    pub resolution: Resolution,
}

/// The directory hierarchy: each directory with the hierarchy under its
/// `node_modules`, in the hoister's order.
#[derive(Debug, PartialEq, Eq)]
pub struct DepHierarchy(pub Vec<(String, DepHierarchy)>);

/// What the walk has gathered so far.
#[derive(Debug)]
pub struct WalkState {
    /// Skipped snapshot keys, sorted without repeats.
    pub skipped: Vec<String>,
    /// The nodes in the order they were placed.
    pub graph: Vec<DependenciesGraphNode>,
    /// `(dep path, directory)` in placement order.
    pub pkg_locations: Vec<(String, String)>,
    /// `(dep path, location relative to the lockfile directory)` in the
    /// order the nodes' subtrees were finished.
    pub hoisted_locations: Vec<(String, String)>,
    /// `(dep path, directory)` of injected workspace packages.
    pub injection_targets: Vec<(String, String)>,
}

/// A node by its views (its children are resolved after the walk).
pub struct NodeView {
    pub alias: Seq<char>,
    pub dep_path: Seq<char>,
    pub pkg_id_with_patch_hash: Seq<char>,
    pub dir: Seq<char>,
    pub modules: Seq<char>,
    pub name: Seq<char>,
    pub version: Seq<char>,
    pub optional: bool,
    pub optional_dependencies: Seq<Seq<char>>,
    pub has_bin: bool,
    pub has_bundled_dependencies: bool,
    pub resolution: ResolutionView,
}

/// A hierarchy by its views.
pub struct HierView(pub Seq<(Seq<char>, HierView)>);

/// The walk's state by its views.
pub struct StateView {
    pub skipped: Set<Seq<char>>,
    pub graph: Seq<NodeView>,
    pub pkg_locations: Seq<(Seq<char>, Seq<char>)>,
    pub hoisted_locations: Seq<(Seq<char>, Seq<char>)>,
    pub injection_targets: Seq<(Seq<char>, Seq<char>)>,
}

/// Pairs of strings by their views.
pub open spec fn pair_views(p: Seq<(String, String)>) -> Seq<(Seq<char>, Seq<char>)> {
    p.map_values(|x: (String, String)| (x.0@, x.1@))
}

impl DependenciesGraphNode {
    pub open spec fn view(&self) -> NodeView {
        NodeView {
            alias: self.alias@,
            dep_path: self.dep_path@,
            pkg_id_with_patch_hash: self.pkg_id_with_patch_hash@,
            dir: self.dir@,
            modules: self.modules@,
            name: self.name@,
            version: self.version@,
            optional: self.optional,
            optional_dependencies: views_of(self.optional_dependencies@),
            has_bin: self.has_bin,
            has_bundled_dependencies: self.has_bundled_dependencies,
            resolution: resolution_view(self.resolution),
        }
    }
}

impl WalkState {
    pub open spec fn view(&self) -> StateView {
        StateView {
            skipped: views_of(self.skipped@).to_set(),
            graph: self.graph@.map_values(|n: DependenciesGraphNode| n@),
            pkg_locations: pair_views(self.pkg_locations@),
            hoisted_locations: pair_views(self.hoisted_locations@),
            injection_targets: pair_views(self.injection_targets@),
        }
    }

    /// The skipped keys are kept sorted without repeats.
    pub open spec fn wf(&self) -> bool {
        strictly_sorted(views_of(self.skipped@))
    }
}

/// The verdict recorded for a key (the first entry for it); a key without
/// one is installable.
pub open spec fn verdict_for(verdicts: Seq<(String, Verdict)>, key: Seq<char>) -> Verdict
    decreases verdicts.len(),
{
    if verdicts.len() == 0 {
        Verdict::Installable
    } else if verdicts[0].0@ == key {
        verdicts[0].1
    } else {
        verdict_for(verdicts.drop_first(), key)
    }
}

/// The package entry for a key (the first one).
pub open spec fn walk_package(packages: Seq<WalkPackage>, key: Seq<char>) -> Option<WalkPackage>
    decreases packages.len(),
{
    if packages.len() == 0 {
        None
    } else if packages[0].key@ == key {
        Some(packages[0])
    } else {
        walk_package(packages.drop_first(), key)
    }
}

/// What the walk reads besides the tree.
pub struct WalkInput {
    pub snapshots: Seq<Snapshot>,
    pub packages: Seq<WalkPackage>,
    pub verdicts: Seq<(String, Verdict)>,
    /// Replay everything, with no installability check.
    pub force: bool,
    pub lockfile_dir: Seq<char>,
}

/// Whether a reference names a workspace package.
pub open spec fn is_workspace_ref(r: Seq<char>) -> bool {
    r.len() >= 10 && r.take(10) == "workspace:"@
}

/// A directory relative to the lockfile directory, with `\` written as
/// `/`: what follows the lockfile directory and a separator, or the whole
/// directory when it is not under the lockfile directory.
pub open spec fn spec_relative(dir: Seq<char>, base: Seq<char>) -> Seq<char> {
    let rest = if base.len() <= dir.len() && dir.take(base.len() as int) == base {
        if dir.len() == base.len() {
            Some(Seq::<char>::empty())
        } else if base.len() > 0 && base.last() == '/' {
            Some(dir.skip(base.len() as int))
        } else if dir[base.len() as int] == '/' {
            Some(dir.skip(base.len() + 1int))
        } else {
            None
        }
    } else {
        None
    };
    match rest {
        Some(r) => spec_replace(r, '\\', '/'),
        None => spec_replace(dir, '\\', '/'),
    }
}

/// The snapshot entry of a key, if any.
pub open spec fn optional_of(snapshots: Seq<Snapshot>, key: Seq<char>) -> bool {
    snapshot_lookup(snapshots, key) matches Some(s) && s.optional
}

/// The aliases of a key's `optionalDependencies`.
pub open spec fn optional_aliases(snapshots: Seq<Snapshot>, key: Seq<char>) -> Seq<Seq<char>> {
    match snapshot_lookup(snapshots, key) {
        Some(s) => opt_edges(s.optional_dependencies).map_values(|e: DepEdge| e.alias@),
        None => Seq::empty(),
    }
}

/// What one hoister node adds to the walk: nothing when it has no
/// reference, is skipped, is a workspace package or has no package entry;
/// a skip when the check says so; otherwise its node and location, then
/// its subtree, then its hoisted location. A failed check ends the walk.
pub open spec fn spec_walk_node(ctx: WalkInput, st: StateView, modules: Seq<char>, node: HoisterNode)
    -> Result<(StateView, Option<(Seq<char>, HierView)>), Seq<char>>
    decreases tree_size(node), 0nat,
{
    if node.references@.len() == 0 {
        Ok((st, None))
    } else {
        let reference = node.references@[0]@;
        if st.skipped.contains(reference) || is_workspace_ref(reference) {
            Ok((st, None))
        } else {
            match walk_package(ctx.packages, reference) {
                None => Ok((st, None)),
                Some(meta) => {
                    let verdict = if ctx.force { Verdict::Installable } else { verdict_for(ctx.verdicts, reference) };
                    match verdict {
                        Verdict::SkipOptional => Ok((StateView { skipped: st.skipped.insert(reference), ..st }, None)),
                        Verdict::Fail(m) => Err(m@),
                        _ => {
                            let dir = spec_join(modules, node.name@);
                            let nv = NodeView {
                                alias: node.name@,
                                dep_path: reference,
                                pkg_id_with_patch_hash: reference,
                                dir,
                                modules,
                                name: spec_key_name(reference),
                                version: spec_key_version(reference),
                                optional: optional_of(ctx.snapshots, reference),
                                optional_dependencies: optional_aliases(ctx.snapshots, reference),
                                has_bin: meta.has_bin,
                                has_bundled_dependencies: meta.has_bundled_dependencies,
                                resolution: resolution_view(meta.resolution),
                            };
                            let st1 = StateView {
                                graph: st.graph.push(nv),
                                pkg_locations: st.pkg_locations.push((reference, dir)),
                                injection_targets: if meta.resolution is Directory {
                                    st.injection_targets.push((reference, dir))
                                } else {
                                    st.injection_targets
                                },
                                ..st
                            };
                            match spec_walk_list(ctx, st1, Seq::empty(), spec_join(dir, "node_modules"@), node.dependencies@) {
                                Err(e) => Err(e),
                                Ok((st2, inner)) => Ok((
                                    StateView {
                                        hoisted_locations: st2.hoisted_locations.push(
                                            (reference, spec_relative(dir, ctx.lockfile_dir)),
                                        ),
                                        ..st2
                                    },
                                    Some((dir, HierView(inner))),
                                )),
                            }
                        },
                    }
                },
            }
        }
    }
}

/// The walk over a list of sibling nodes, each entry of the hierarchy
/// appended to `acc`.
pub open spec fn spec_walk_list(
    ctx: WalkInput,
    st: StateView,
    acc: Seq<(Seq<char>, HierView)>,
    modules: Seq<char>,
    nodes: Seq<HoisterNode>,
) -> Result<(StateView, Seq<(Seq<char>, HierView)>), Seq<char>>
    decreases forest_size(nodes), 1nat,
{
    if nodes.len() == 0 {
        Ok((st, acc))
    } else {
        match spec_walk_node(ctx, st, modules, nodes[0]) {
            Err(e) => Err(e),
            Ok((st1, entry)) => spec_walk_list(
                ctx,
                st1,
                match entry {
                    Some(x) => acc.push(x),
                    None => acc,
                },
                modules,
                nodes.drop_first(),
            ),
        }
    }
}


/// The hierarchy entries by their views.
pub open spec fn hier_entries(entries: Seq<(String, DepHierarchy)>) -> Seq<(Seq<char>, HierView)>
    decreases entries,
{
    if entries.len() == 0 {
        Seq::empty()
    } else {
        proof {
            assert(decreases_to!(entries => entries[entries.len() - 1]));
        }
        hier_entries(entries.drop_last()).push(
            (entries[entries.len() - 1].0@, HierView(hier_entries(entries[entries.len() - 1].1.0@))),
        )
    }
}

/// A hierarchy entry by its views.
pub open spec fn entry_view(x: Option<(String, DepHierarchy)>) -> Option<(Seq<char>, HierView)> {
    match x {
        Some(p) => Some((p.0@, HierView(hier_entries(p.1.0@)))),
        None => None,
    }
}

/// The walk input by its views.
pub open spec fn input_view(
    snapshots: &Vec<Snapshot>,
    packages: &Vec<WalkPackage>,
    verdicts: &Vec<(String, Verdict)>,
    force: bool,
    lockfile_dir: &str,
) -> WalkInput {
    WalkInput { snapshots: snapshots@, packages: packages@, verdicts: verdicts@, force, lockfile_dir: lockfile_dir@ }
}

fn find_verdict(verdicts: &Vec<(String, Verdict)>, key: &str) -> (r: Option<usize>)
    ensures
        r matches Some(i) ==> i < verdicts@.len() && verdict_for(verdicts@, key@) == verdicts@[i as int].1,
        r is None ==> verdict_for(verdicts@, key@) == Verdict::Installable,
{
    let mut i: usize = 0;
    assert(verdicts@.skip(0) =~= verdicts@);
    while i < verdicts.len()
        invariant
            i <= verdicts@.len(),
            verdict_for(verdicts@, key@) == verdict_for(verdicts@.skip(i as int), key@),
        decreases verdicts.len() - i,
    {
        assert(verdicts@.skip(i as int).drop_first() =~= verdicts@.skip(i + 1));
        if str_eq(verdicts[i].0.as_str(), key) {
            return Some(i);
        }
        i = i + 1;
    }
    None
}

fn find_walk_package(packages: &Vec<WalkPackage>, key: &str) -> (r: Option<usize>)
    ensures
        r matches Some(i) ==> i < packages@.len() && walk_package(packages@, key@) == Some(packages@[i as int]),
        r is None ==> walk_package(packages@, key@) is None,
{
    let mut i: usize = 0;
    assert(packages@.skip(0) =~= packages@);
    while i < packages.len()
        invariant
            i <= packages@.len(),
            walk_package(packages@, key@) == walk_package(packages@.skip(i as int), key@),
        decreases packages.len() - i,
    {
        assert(packages@.skip(i as int).drop_first() =~= packages@.skip(i + 1));
        if str_eq(packages[i].key.as_str(), key) {
            return Some(i);
        }
        i = i + 1;
    }
    None
}

fn holds(set: &Vec<String>, x: &str) -> (r: bool)
    ensures
        r == views_of(set@).to_set().contains(x@),
{
    let mut i: usize = 0;
    while i < set.len()
        invariant
            i <= set@.len(),
            forall|j: int| 0 <= j < i ==> set@[j]@ != x@,
        decreases set.len() - i,
    {
        if str_eq(set[i].as_str(), x) {
            assert(views_of(set@)[i as int] == x@);
            return true;
        }
        i = i + 1;
    }
    assert(!views_of(set@).contains(x@)) by {
        if views_of(set@).contains(x@) {
            let j = choose|j: int| 0 <= j < views_of(set@).len() && views_of(set@)[j] == x@;
            assert(set@[j]@ == x@);
        }
    }
    false
}

fn is_workspace(r: &str) -> (b: bool)
    ensures
        b == is_workspace_ref(r@),
{
    proof {
        reveal_strlit("workspace:");
    }
    if r.unicode_len() >= 10 {
        let p = substr(r, 0, 10);
        str_eq(p.as_str(), "workspace:")
    } else {
        false
    }
}

/// A directory relative to the lockfile directory, with `/` separators.
pub fn path_relative_to_lockfile_dir(dir: &str, lockfile_dir: &str) -> (r: String)
    ensures
        r@ == spec_relative(dir@, lockfile_dir@),
{
    proof {
        reveal_strlit("/");
    }
    let n = dir.unicode_len();
    let b = lockfile_dir.unicode_len();
    let mut rest: Option<String> = None;
    if b <= n {
        let head = substr(dir, 0, b);
        if str_eq(head.as_str(), lockfile_dir) {
            if n == b {
                rest = Some(String::new());
            } else if b > 0 && lockfile_dir.get_char(b - 1) == '/' {
                rest = Some(substr(dir, b, n));
            } else if dir.get_char(b) == '/' {
                rest = Some(substr(dir, b + 1, n));
            }
        }
    }
    match rest {
        Some(r) => replace_char(r.as_str(), '\\', "/"),
        None => replace_char(dir, '\\', "/"),
    }
}

fn optional_alias_list(snapshots: &Vec<Snapshot>, key: &str) -> (r: Vec<String>)
    ensures
        views_of(r@) == optional_aliases(snapshots@, key@),
{
    let mut out: Vec<String> = Vec::new();
    match find_snapshot_entry(snapshots, key) {
        Some(i) => match &snapshots[i].entry.optional_dependencies {
            Some(edges) => {
                let mut k: usize = 0;
                while k < edges.len()
                    invariant
                        k <= edges@.len(),
                        views_of(out@) == edges@.take(k as int).map_values(|e: DepEdge| e.alias@),
                    decreases edges.len() - k,
                {
                    let ghost b = views_of(out@);
                    out.push(edges[k].alias.clone());
                    assert(views_of(out@) =~= b.push(edges@[k as int].alias@));
                    assert(edges@.take(k + 1).map_values(|e: DepEdge| e.alias@) =~= edges@.take(k as int).map_values(
                        |e: DepEdge| e.alias@,
                    ).push(edges@[k as int].alias@));
                    k = k + 1;
                }
                assert(edges@.take(edges@.len() as int) =~= edges@);
            },
            None => {
                assert(views_of(out@) =~= Seq::<Seq<char>>::empty());
            },
        },
        None => {
            assert(views_of(out@) =~= Seq::<Seq<char>>::empty());
        },
    }
    out
}

fn optional_flag(snapshots: &Vec<Snapshot>, key: &str) -> (r: bool)
    ensures
        r == optional_of(snapshots@, key@),
{
    match find_snapshot_entry(snapshots, key) {
        Some(i) => snapshots[i].entry.optional,
        None => false,
    }
}

} // verus!

verus! {

/// Walk one hoister node (see `spec_walk_node`).
fn walk_node(
    snapshots: &Vec<Snapshot>,
    packages: &Vec<WalkPackage>,
    verdicts: &Vec<(String, Verdict)>,
    force: bool,
    lockfile_dir: &str,
    state: &mut WalkState,
    modules: &str,
    node: &HoisterNode,
) -> (r: Result<Option<(String, DepHierarchy)>, String>)
    requires
        old(state).wf(),
    ensures
        match spec_walk_node(input_view(snapshots, packages, verdicts, force, lockfile_dir), old(state)@, modules@, *node) {
            Ok((st, e)) => (r matches Ok(x) && final(state)@ == st && final(state).wf() && entry_view(x) == e),
            Err(m) => (r matches Err(y) && y@ == m),
        },
    decreases tree_size(*node), 0nat,
{
    proof {
        reveal_strlit("node_modules");
    }
    let ghost ctx = input_view(snapshots, packages, verdicts, force, lockfile_dir);
    let ghost st0 = state@;
    if node.references.len() == 0 {
        return Ok(None);
    }
    let reference = &node.references[0];
    if holds(&state.skipped, reference.as_str()) || is_workspace(reference.as_str()) {
        return Ok(None);
    }
    let meta = match find_walk_package(packages, reference.as_str()) {
        Some(i) => &packages[i],
        None => {
            return Ok(None);
        },
    };
    if !force {
        match find_verdict(verdicts, reference.as_str()) {
            Some(i) => match &verdicts[i].1 {
                Verdict::SkipOptional => {
                    insert_sorted(&mut state.skipped, reference.clone());
                    assert(state@.skipped =~= st0.skipped.insert(reference@));
                    return Ok(None);
                },
                Verdict::Fail(m) => {
                    return Err(m.clone());
                },
                _ => {},
            },
            None => {},
        }
    }
    let dir = join(modules, node.name.as_str());
    let graph_node = DependenciesGraphNode {
        alias: node.name.clone(),
        dep_path: reference.clone(),
        pkg_id_with_patch_hash: reference.clone(),
        dir: dir.clone(),
        modules: modules.to_owned(),
        name: key_name(reference.as_str()),
        version: crate::fetch::key_version(reference.as_str()),
        optional: optional_flag(snapshots, reference.as_str()),
        optional_dependencies: optional_alias_list(snapshots, reference.as_str()),
        has_bin: meta.has_bin,
        has_bundled_dependencies: meta.has_bundled_dependencies,
        children: Vec::new(),
        resolution: copy_resolution(&meta.resolution),
    };
    let injected = match &meta.resolution {
        Resolution::Directory { .. } => true,
        _ => false,
    };
    let ghost nv = graph_node@;
    state.graph.push(graph_node);
    state.pkg_locations.push((reference.clone(), dir.clone()));
    if injected {
        state.injection_targets.push((reference.clone(), dir.clone()));
    }
    proof {
        assert(state@.graph =~= st0.graph.push(nv));
        assert(state@.pkg_locations =~= st0.pkg_locations.push((reference@, dir@)));
        if injected {
            assert(state@.injection_targets =~= st0.injection_targets.push((reference@, dir@)));
        } else {
            assert(state@.injection_targets =~= st0.injection_targets);
        }
    }
    let inner_modules = join(dir.as_str(), "node_modules");
    let inner = match walk_deps(snapshots, packages, verdicts, force, lockfile_dir, state, inner_modules.as_str(), &node.dependencies) {
        Ok(h) => h,
        Err(e) => {
            return Err(e);
        },
    };
    let location = path_relative_to_lockfile_dir(dir.as_str(), lockfile_dir);
    let ghost st2 = state@;
    state.hoisted_locations.push((reference.clone(), location));
    proof {
        assert(state@.hoisted_locations =~= st2.hoisted_locations.push((reference@, spec_relative(dir@, lockfile_dir@))));
    }
    Ok(Some((dir, inner)))
}

/// Walk a list of sibling hoister nodes under `modules`, returning the
/// hierarchy of the directories made for them.
pub fn walk_deps(
    snapshots: &Vec<Snapshot>,
    packages: &Vec<WalkPackage>,
    verdicts: &Vec<(String, Verdict)>,
    force: bool,
    lockfile_dir: &str,
    state: &mut WalkState,
    modules: &str,
    deps: &Vec<HoisterNode>,
) -> (r: Result<DepHierarchy, String>)
    requires
        old(state).wf(),
    ensures
        match spec_walk_list(input_view(snapshots, packages, verdicts, force, lockfile_dir), old(state)@, Seq::empty(), modules@, deps@) {
            Ok((st, entries)) => (r matches Ok(h) && final(state)@ == st && final(state).wf() && hier_entries(h.0@) == entries),
            Err(m) => (r matches Err(y) && y@ == m),
        },
    decreases forest_size(deps@), 1nat,
{
    let ghost ctx = input_view(snapshots, packages, verdicts, force, lockfile_dir);
    let ghost st0 = state@;
    let mut entries: Vec<(String, DepHierarchy)> = Vec::new();
    let mut i: usize = 0;
    assert(deps@.skip(0) =~= deps@);
    assert(hier_entries(entries@) =~= Seq::<(Seq<char>, HierView)>::empty());
    while i < deps.len()
        invariant
            i <= deps@.len(),
            state.wf(),
            st0 == old(state)@,
            ctx == input_view(snapshots, packages, verdicts, force, lockfile_dir),
            spec_walk_list(ctx, st0, Seq::empty(), modules@, deps@)
                == spec_walk_list(ctx, state@, hier_entries(entries@), modules@, deps@.skip(i as int)),
        decreases deps.len() - i,
    {
        proof {
            lemma_tree_le_forest(deps@, i as int);
            assert(deps@.skip(i as int)[0] == deps@[i as int]);
            assert(deps@.skip(i as int).drop_first() =~= deps@.skip(i + 1));
        }
        let ghost acc = hier_entries(entries@);
        let ghost before = state@;
        match walk_node(snapshots, packages, verdicts, force, lockfile_dir, state, modules, &deps[i]) {
            Err(e) => {
                proof {
                    assert(spec_walk_list(ctx, before, acc, modules@, deps@.skip(i as int)) == Err::<
                        (StateView, Seq<(Seq<char>, HierView)>),
                        Seq<char>,
                    >(e@));
                }
                return Err(e);
            },
            Ok(entry) => {
                match entry {
                    Some(x) => {
                        let ghost xv = entry_view(Some(x));
                        let ghost before = entries@;
                        entries.push(x);
                        proof {
                            assert(entries@.drop_last() =~= before);
                            assert(hier_entries(entries@) == acc.push(xv->0));
                        }
                    },
                    None => {},
                }
            },
        }
        i = i + 1;
    }
    Ok(DepHierarchy(entries))
}

} // verus!

verus! {

/// The first directory recorded for a dep path.
pub open spec fn first_location(locs: Seq<(Seq<char>, Seq<char>)>, key: Seq<char>) -> Option<Seq<char>>
    decreases locs.len(),
{
    if locs.len() == 0 {
        None
    } else if locs[0].0 == key {
        Some(locs[0].1)
    } else {
        first_location(locs.drop_first(), key)
    }
}

/// Alias → directory for the edges whose target was placed: each edge
/// goes to the first directory its dep path landed in, and a later
/// edge of an alias replaces an earlier one.
pub open spec fn spec_placed_children(edges: Seq<DepEdge>, locs: Seq<(Seq<char>, Seq<char>)>) -> Map<
    Seq<char>,
    Seq<char>,
>
    decreases edges.len(),
{
    if edges.len() == 0 {
        Map::empty()
    } else {
        let prev = spec_placed_children(edges.drop_last(), locs);
        let e = edges.last();
        match first_location(locs, spec_resolve(e.alias@, e.dep_ref)) {
            Some(d) => prev.insert(e.alias@, d),
            None => prev,
        }
    }
}

/// The children of the node of a dep path: its `dependencies`, then its
/// `optionalDependencies`, each placed; none without a snapshot.
pub open spec fn spec_node_children(
    snapshots: Seq<Snapshot>,
    locs: Seq<(Seq<char>, Seq<char>)>,
    key: Seq<char>,
) -> Map<Seq<char>, Seq<char>> {
    match snapshot_lookup(snapshots, key) {
        Some(s) => spec_placed_children(spec_all_edges(s), locs),
        None => Map::empty(),
    }
}

fn find_first_location(locs: &Vec<(String, String)>, key: &str) -> (r: Option<usize>)
    ensures
        r matches Some(i) ==> i < locs@.len() && first_location(pair_views(locs@), key@) == Some(locs@[i as int].1@),
        r is None ==> first_location(pair_views(locs@), key@) is None,
{
    let ghost pv = pair_views(locs@);
    let mut i: usize = 0;
    assert(pv.skip(0) =~= pv);
    while i < locs.len()
        invariant
            i <= locs@.len(),
            pv == pair_views(locs@),
            first_location(pv, key@) == first_location(pv.skip(i as int), key@),
        decreases locs.len() - i,
    {
        assert(pv.skip(i as int).drop_first() =~= pv.skip(i + 1));
        assert(pv.skip(i as int)[0] == (locs@[i as int].0@, locs@[i as int].1@));
        if str_eq(locs[i].0.as_str(), key) {
            return Some(i);
        }
        i = i + 1;
    }
    None
}

fn add_placed(
    children: &mut Vec<(String, String)>,
    edges: &Vec<DepEdge>,
    locs: &Vec<(String, String)>,
    Ghost(done): Ghost<Seq<DepEdge>>,
)
    requires
        pair_keys(old(children)@).no_duplicates(),
        pairs_map(old(children)@) == spec_placed_children(done, pair_views(locs@)),
    ensures
        pair_keys(final(children)@).no_duplicates(),
        pairs_map(final(children)@) == spec_placed_children(done + edges@, pair_views(locs@)),
{
    let ghost pv = pair_views(locs@);
    let mut i: usize = 0;
    assert(done + edges@.take(0) =~= done);
    while i < edges.len()
        invariant
            i <= edges@.len(),
            pv == pair_views(locs@),
            pair_keys(children@).no_duplicates(),
            pairs_map(children@) == spec_placed_children(done + edges@.take(i as int), pv),
        decreases edges.len() - i,
    {
        let e = &edges[i];
        let ghost prefix = done + edges@.take(i as int);
        let ghost next = done + edges@.take(i + 1);
        assert(next =~= prefix.push(edges@[i as int]));
        assert(next.drop_last() =~= prefix);
        let target = resolve(e.alias.as_str(), &e.dep_ref);
        match find_first_location(locs, target.as_str()) {
            Some(k) => {
                set_pair(children, e.alias.clone(), locs[k].1.clone());
            },
            None => {},
        }
        i = i + 1;
    }
    assert(edges@.take(edges@.len() as int) =~= edges@);
}

/// The children of the node of a dep path, each alias once (see
/// `spec_node_children`).
fn node_children(snapshots: &Vec<Snapshot>, locs: &Vec<(String, String)>, key: &str) -> (r: Vec<(String, String)>)
    ensures
        pair_keys(r@).no_duplicates(),
        pairs_map(r@) == spec_node_children(snapshots@, pair_views(locs@), key@),
{
    let mut children: Vec<(String, String)> = Vec::new();
    assert(pairs_map(children@) =~= Map::<Seq<char>, Seq<char>>::empty());
    match find_snapshot_entry(snapshots, key) {
        None => children,
        Some(i) => {
            let entry = &snapshots[i].entry;
            let ghost mut done: Seq<DepEdge> = Seq::empty();
            assert(spec_placed_children(done, pair_views(locs@)) =~= Map::<Seq<char>, Seq<char>>::empty());
            match &entry.dependencies {
                Some(deps) => {
                    add_placed(&mut children, deps, locs, Ghost(done));
                    proof {
                        done = done + deps@;
                    }
                },
                None => {},
            }
            assert(done =~= opt_edges(entry.dependencies));
            match &entry.optional_dependencies {
                Some(deps) => {
                    add_placed(&mut children, deps, locs, Ghost(done));
                    proof {
                        done = done + deps@;
                    }
                },
                None => {},
            }
            assert(done =~= spec_all_edges(*entry));
            children
        },
    }
}

/// Second pass: with every directory recorded, resolve each node's
/// children from its snapshot.
fn fill_children(graph: &mut Vec<DependenciesGraphNode>, locs: &Vec<(String, String)>, snapshots: &Vec<Snapshot>)
    ensures
        final(graph)@.len() == old(graph)@.len(),
        forall|i: int|
            0 <= i < final(graph)@.len() ==> {
                &&& #[trigger] final(graph)@[i]@ == old(graph)@[i]@
                &&& pair_keys(final(graph)@[i].children@).no_duplicates()
                &&& pairs_map(final(graph)@[i].children@) == spec_node_children(
                    snapshots@,
                    pair_views(locs@),
                    old(graph)@[i].dep_path@,
                )
            },
{
    let ghost before = graph@;
    let mut i: usize = 0;
    while i < graph.len()
        invariant
            i <= graph@.len(),
            graph@.len() == before.len(),
            before == old(graph)@,
            forall|j: int| 0 <= j < graph@.len() ==> #[trigger] graph@[j]@ == before[j]@,
            forall|j: int|
                0 <= j < i ==> {
                    &&& pair_keys(#[trigger] graph@[j].children@).no_duplicates()
                    &&& pairs_map(graph@[j].children@) == spec_node_children(
                        snapshots@,
                        pair_views(locs@),
                        before[j].dep_path@,
                    )
                },
        decreases graph.len() - i,
    {
        let kids = node_children(snapshots, locs, graph[i].dep_path.as_str());
        let ghost g0 = graph@;
        let ghost k0 = kids;
        graph[i].children = kids;
        proof {
            assert(graph@.len() == g0.len());
            assert(graph@[i as int].children == k0);
            assert(graph@[i as int]@ == g0[i as int]@);
            assert(forall|j: int| 0 <= j < graph@.len() && j != i ==> graph@[j] == g0[j]);
        }
        i = i + 1;
    }
}

} // verus!

verus! {

/// The alias of the first node placed at a directory.
pub open spec fn alias_at(graph: Seq<NodeView>, dir: Seq<char>) -> Option<Seq<char>>
    decreases graph.len(),
{
    if graph.len() == 0 {
        None
    } else if graph[0].dir == dir {
        Some(graph[0].alias)
    } else {
        alias_at(graph.drop_first(), dir)
    }
}

/// The root's direct dependencies: alias → directory of each root entry
/// of the hierarchy that holds a node.
pub open spec fn spec_direct_deps(graph: Seq<NodeView>, entries: Seq<(Seq<char>, HierView)>) -> Map<
    Seq<char>,
    Seq<char>,
>
    decreases entries.len(),
{
    if entries.len() == 0 {
        Map::empty()
    } else {
        let prev = spec_direct_deps(graph, entries.drop_last());
        let d = entries.last().0;
        match alias_at(graph, d) {
            Some(a) => prev.insert(a, d),
            None => prev,
        }
    }
}

proof fn lemma_hier_entries(entries: Seq<(String, DepHierarchy)>)
    ensures
        hier_entries(entries).len() == entries.len(),
        forall|k: int| 0 <= k < entries.len() ==> #[trigger] hier_entries(entries)[k].0 == entries[k].0@,
    decreases entries.len(),
{
    if entries.len() > 0 {
        lemma_hier_entries(entries.drop_last());
    }
}

fn find_alias_at(graph: &Vec<DependenciesGraphNode>, dir: &str) -> (r: Option<usize>)
    ensures
        r matches Some(i) ==> i < graph@.len() && alias_at(graph@.map_values(|n: DependenciesGraphNode| n@), dir@)
            == Some(graph@[i as int].alias@),
        r is None ==> alias_at(graph@.map_values(|n: DependenciesGraphNode| n@), dir@) is None,
{
    let ghost gv = graph@.map_values(|n: DependenciesGraphNode| n@);
    let mut i: usize = 0;
    assert(gv.skip(0) =~= gv);
    while i < graph.len()
        invariant
            i <= graph@.len(),
            gv == graph@.map_values(|n: DependenciesGraphNode| n@),
            alias_at(gv, dir@) == alias_at(gv.skip(i as int), dir@),
        decreases graph.len() - i,
    {
        assert(gv.skip(i as int).drop_first() =~= gv.skip(i + 1));
        assert(gv.skip(i as int)[0] == graph@[i as int]@);
        if str_eq(graph[i].dir.as_str(), dir) {
            return Some(i);
        }
        i = i + 1;
    }
    None
}

/// The root's direct dependencies, each alias once (see
/// `spec_direct_deps`).
fn direct_deps(graph: &Vec<DependenciesGraphNode>, root: &DepHierarchy) -> (r: Vec<(String, String)>)
    ensures
        pair_keys(r@).no_duplicates(),
        pairs_map(r@) == spec_direct_deps(graph@.map_values(|n: DependenciesGraphNode| n@), hier_entries(root.0@)),
{
    let ghost gv = graph@.map_values(|n: DependenciesGraphNode| n@);
    let ghost he = hier_entries(root.0@);
    proof {
        lemma_hier_entries(root.0@);
    }
    let mut out: Vec<(String, String)> = Vec::new();
    assert(pairs_map(out@) =~= Map::<Seq<char>, Seq<char>>::empty());
    assert(spec_direct_deps(gv, he.take(0)) =~= Map::<Seq<char>, Seq<char>>::empty());
    let mut k: usize = 0;
    while k < root.0.len()
        invariant
            k <= root.0@.len(),
            he == hier_entries(root.0@),
            he.len() == root.0@.len(),
            forall|j: int| 0 <= j < root.0@.len() ==> #[trigger] he[j].0 == root.0@[j].0@,
            gv == graph@.map_values(|n: DependenciesGraphNode| n@),
            pair_keys(out@).no_duplicates(),
            pairs_map(out@) == spec_direct_deps(gv, he.take(k as int)),
        decreases root.0.len() - k,
    {
        assert(he.take(k + 1).drop_last() =~= he.take(k as int));
        assert(he.take(k + 1).last().0 == root.0@[k as int].0@);
        let dir = &root.0[k].0;
        match find_alias_at(graph, dir.as_str()) {
            Some(i) => {
                set_pair(&mut out, graph[i].alias.clone(), dir.clone());
            },
            None => {},
        }
        k = k + 1;
    }
    assert(he.take(root.0@.len() as int) =~= he);
    out
}

/// A lockfile as the walk reads it, with the hoister's result for it.
#[derive(Debug)]
pub struct HoistedLockfile {
    pub snapshots: Vec<Snapshot>,
    pub packages: Vec<WalkPackage>,
    /// The hoister's root: the nodes placed in `<lockfile dir>/node_modules`.
    pub hoisted: Vec<HoisterNode>,
}

/// What the walk is told besides the lockfile.
#[derive(Debug)]
pub struct LockfileToHoistedDepGraphOptions {
    /// The directory the lockfile sits in; the root `node_modules` is
    /// under it and recorded locations are relative to it.
    pub lockfile_dir: String,
    /// Dep paths an earlier install decided not to install.
    pub skipped: Vec<String>,
    /// Place every package with no installability check.
    pub force: bool,
    /// The installability check's verdict per dep path (none means
    /// installable).
    pub verdicts: Vec<(String, Verdict)>,
}

/// Why the walk failed.
#[derive(Debug)]
pub enum HoistedDepGraphError {
    /// A required package cannot be installed on this host.
    Installability(String),
}

/// Everything the walk hands to the linker.
#[derive(Debug)]
pub struct LockfileToDepGraphResult {
    /// The nodes in the order they were placed, each keyed by its `dir`.
    pub graph: Vec<DependenciesGraphNode>,
    /// Importer id → (alias → directory of each direct dependency).
    pub direct_dependencies_by_importer_id: Vec<(String, Vec<(String, String)>)>,
    /// Project root → the hierarchy under its `node_modules`.
    pub hierarchy: Vec<(String, DepHierarchy)>,
    /// `(dep path, location relative to the lockfile directory)`.
    pub hoisted_locations: Vec<(String, String)>,
    pub symlinked_direct_dependencies_by_importer_id: Vec<(String, Vec<(String, String)>)>,
    /// The graph of the previous install, when there was one.
    pub prev_graph: Option<Vec<DependenciesGraphNode>>,
    /// `(dep path, directory)` of each injected workspace package.
    pub injection_targets_by_dep_path: Vec<(String, String)>,
    /// Skipped dep paths, sorted without repeats.
    pub skipped: Vec<String>,
}

/// A graph by its views: each node with its children.
pub open spec fn graph_view(g: Seq<DependenciesGraphNode>) -> Seq<(NodeView, Map<Seq<char>, Seq<char>>)> {
    g.map_values(|n: DependenciesGraphNode| (n@, pairs_map(n.children@)))
}

/// Per-importer maps by their views.
pub open spec fn importers_view(v: Seq<(String, Vec<(String, String)>)>) -> Seq<(Seq<char>, Map<Seq<char>, Seq<char>>)> {
    v.map_values(|x: (String, Vec<(String, String)>)| (x.0@, pairs_map(x.1@)))
}

/// The walk's result by its views.
pub struct GraphResultView {
    pub graph: Seq<(NodeView, Map<Seq<char>, Seq<char>>)>,
    pub direct_dependencies_by_importer_id: Seq<(Seq<char>, Map<Seq<char>, Seq<char>>)>,
    pub hierarchy: Seq<(Seq<char>, HierView)>,
    pub hoisted_locations: Seq<(Seq<char>, Seq<char>)>,
    pub symlinked_direct_dependencies_by_importer_id: Seq<(Seq<char>, Map<Seq<char>, Seq<char>>)>,
    pub prev_graph: Option<Seq<(NodeView, Map<Seq<char>, Seq<char>>)>>,
    pub injection_targets_by_dep_path: Seq<(Seq<char>, Seq<char>)>,
    pub skipped: Set<Seq<char>>,
}

impl LockfileToDepGraphResult {
    pub open spec fn view(&self) -> GraphResultView {
        GraphResultView {
            graph: graph_view(self.graph@),
            direct_dependencies_by_importer_id: importers_view(self.direct_dependencies_by_importer_id@),
            hierarchy: hier_entries(self.hierarchy@),
            hoisted_locations: pair_views(self.hoisted_locations@),
            symlinked_direct_dependencies_by_importer_id: importers_view(
                self.symlinked_direct_dependencies_by_importer_id@,
            ),
            prev_graph: match self.prev_graph {
                Some(g) => Some(graph_view(g@)),
                None => None,
            },
            injection_targets_by_dep_path: pair_views(self.injection_targets_by_dep_path@),
            skipped: views_of(self.skipped@).to_set(),
        }
    }

    /// The skipped list is sorted without repeats.
    pub open spec fn wf(&self) -> bool {
        strictly_sorted(views_of(self.skipped@))
    }
}

/// The walk of one lockfile: the hoister's root placed under
/// `<lockfile dir>/node_modules`, each node's children resolved to the
/// first directory their package landed in, and the root's direct
/// dependencies read off the root of the hierarchy.
pub open spec fn spec_build(ctx: WalkInput, skipped: Set<Seq<char>>, tree: Seq<HoisterNode>) -> Result<
    GraphResultView,
    Seq<char>,
> {
    let init = StateView {
        skipped,
        graph: Seq::empty(),
        pkg_locations: Seq::empty(),
        hoisted_locations: Seq::empty(),
        injection_targets: Seq::empty(),
    };
    match spec_walk_list(ctx, init, Seq::empty(), spec_join(ctx.lockfile_dir, "node_modules"@), tree) {
        Err(m) => Err(m),
        Ok((st, entries)) => Ok(
            GraphResultView {
                graph: st.graph.map_values(
                    |n: NodeView| (n, spec_node_children(ctx.snapshots, st.pkg_locations, n.dep_path)),
                ),
                direct_dependencies_by_importer_id: seq![("."@, spec_direct_deps(st.graph, entries))],
                hierarchy: seq![(ctx.lockfile_dir, HierView(entries))],
                hoisted_locations: st.hoisted_locations,
                symlinked_direct_dependencies_by_importer_id: Seq::empty(),
                prev_graph: None,
                injection_targets_by_dep_path: st.injection_targets,
                skipped: st.skipped,
            },
        ),
    }
}

/// The walk input of a lockfile under the given options.
pub open spec fn walk_input(lockfile: HoistedLockfile, opts: LockfileToHoistedDepGraphOptions, force: bool) -> WalkInput {
    WalkInput {
        snapshots: lockfile.snapshots@,
        packages: lockfile.packages@,
        verdicts: opts.verdicts@,
        force,
        lockfile_dir: opts.lockfile_dir@,
    }
}

/// A result with its error by views.
pub open spec fn build_view(r: Result<LockfileToDepGraphResult, String>) -> Result<GraphResultView, Seq<char>> {
    match r {
        Ok(v) => Ok(v@),
        Err(m) => Err(m@),
    }
}

fn sorted_set(items: &Vec<String>) -> (r: Vec<String>)
    ensures
        strictly_sorted(views_of(r@)),
        views_of(r@).to_set() == views_of(items@).to_set(),
{
    let mut out: Vec<String> = Vec::new();
    assert(views_of(out@) =~= Seq::<Seq<char>>::empty());
    assert(views_of(items@.take(0)) =~= Seq::<Seq<char>>::empty());
    let mut k: usize = 0;
    while k < items.len()
        invariant
            k <= items@.len(),
            strictly_sorted(views_of(out@)),
            views_of(out@).to_set() == views_of(items@.take(k as int)).to_set(),
        decreases items.len() - k,
    {
        insert_sorted(&mut out, items[k].clone());
        proof {
            assert(views_of(items@.take(k + 1)) =~= views_of(items@.take(k as int)).push(items@[k as int]@));
            views_of(items@.take(k as int)).lemma_push_to_set_commute(items@[k as int]@);
        }
        k = k + 1;
    }
    assert(items@.take(items@.len() as int) =~= items@);
    out
}

/// Walk one lockfile (see `spec_build`).
fn build_dep_graph(
    lockfile: &HoistedLockfile,
    opts: &LockfileToHoistedDepGraphOptions,
    force: bool,
    skipped: &Vec<String>,
) -> (r: Result<LockfileToDepGraphResult, String>)
    ensures
        build_view(r) == spec_build(walk_input(*lockfile, *opts, force), views_of(skipped@).to_set(), lockfile.hoisted@),
        r matches Ok(v) ==> v.wf(),
{
    proof {
        reveal_strlit("node_modules");
        reveal_strlit(".");
    }
    let ghost ctx = walk_input(*lockfile, *opts, force);
    let mut state = WalkState {
        skipped: sorted_set(skipped),
        graph: Vec::new(),
        pkg_locations: Vec::new(),
        hoisted_locations: Vec::new(),
        injection_targets: Vec::new(),
    };
    let ghost init = state@;
    assert(init.graph =~= Seq::<NodeView>::empty());
    assert(init.pkg_locations =~= Seq::<(Seq<char>, Seq<char>)>::empty());
    assert(init.hoisted_locations =~= Seq::<(Seq<char>, Seq<char>)>::empty());
    assert(init.injection_targets =~= Seq::<(Seq<char>, Seq<char>)>::empty());
    assert(init == (StateView {
        skipped: views_of(skipped@).to_set(),
        graph: Seq::empty(),
        pkg_locations: Seq::empty(),
        hoisted_locations: Seq::empty(),
        injection_targets: Seq::empty(),
    }));
    let modules = join(opts.lockfile_dir.as_str(), "node_modules");
    let root = match walk_deps(
        &lockfile.snapshots,
        &lockfile.packages,
        &opts.verdicts,
        force,
        opts.lockfile_dir.as_str(),
        &mut state,
        modules.as_str(),
        &lockfile.hoisted,
    ) {
        Ok(h) => h,
        Err(e) => {
            return Err(e);
        },
    };
    let ghost st = state@;
    let WalkState { skipped, graph, pkg_locations, hoisted_locations, injection_targets } = state;
    let mut graph = graph;
    let ghost g0 = graph@;
    fill_children(&mut graph, &pkg_locations, &lockfile.snapshots);
    proof {
        assert(graph@.map_values(|n: DependenciesGraphNode| n@) =~= st.graph);
        assert(graph_view(graph@) =~= st.graph.map_values(
            |n: NodeView| (n, spec_node_children(ctx.snapshots, st.pkg_locations, n.dep_path)),
        ));
    }
    let direct = direct_deps(&graph, &root);
    let ghost rv = hier_entries(root.0@);
    let ghost root_ghost = root;
    let mut importers: Vec<(String, Vec<(String, String)>)> = Vec::new();
    importers.push((".".to_string(), direct));
    let mut hierarchy: Vec<(String, DepHierarchy)> = Vec::new();
    hierarchy.push((opts.lockfile_dir.clone(), root));
    let result = LockfileToDepGraphResult {
        graph,
        direct_dependencies_by_importer_id: importers,
        hierarchy,
        hoisted_locations,
        symlinked_direct_dependencies_by_importer_id: Vec::new(),
        prev_graph: None,
        injection_targets_by_dep_path: injection_targets,
        skipped,
    };
    proof {
        assert(result@.direct_dependencies_by_importer_id =~= seq![("."@, spec_direct_deps(st.graph, rv))]);
        assert(result.hierarchy@.drop_last() =~= Seq::<(String, DepHierarchy)>::empty());
        assert(hier_entries(result.hierarchy@.drop_last()) =~= Seq::<(Seq<char>, HierView)>::empty());
        assert(result.hierarchy@[0].1 == root_ghost);
        assert(result@.hierarchy =~= seq![(ctx.lockfile_dir, HierView(rv))]);
        assert(result@.symlinked_direct_dependencies_by_importer_id =~= Seq::<(Seq<char>, Map<Seq<char>, Seq<char>>)>::empty());
    }
    Ok(result)
}

/// The graph of a `nodeLinker: hoisted` install: the walk of the wanted
/// lockfile, with the graph of the previous install when a current
/// lockfile with packages is given (walked first, with every package
/// placed and nothing skipped).
pub open spec fn spec_hoisted_dep_graph(
    lockfile: HoistedLockfile,
    current: Option<HoistedLockfile>,
    opts: LockfileToHoistedDepGraphOptions,
) -> Result<GraphResultView, Seq<char>> {
    let prev = match current {
        Some(c) => if c.packages@.len() > 0 {
            Some(spec_build(walk_input(c, opts, true), Set::empty(), c.hoisted@))
        } else {
            None
        },
        None => None,
    };
    match prev {
        Some(Err(m)) => Err(m),
        _ => match spec_build(walk_input(lockfile, opts, opts.force), views_of(opts.skipped@).to_set(), lockfile.hoisted@) {
            Err(m) => Err(m),
            Ok(v) => Ok(
                GraphResultView {
                    prev_graph: match prev {
                        Some(Ok(p)) => Some(p.graph),
                        _ => None,
                    },
                    ..v
                },
            ),
        },
    }
}

/// The result with its error by views.
pub open spec fn hoisted_view(r: Result<LockfileToDepGraphResult, HoistedDepGraphError>) -> Result<GraphResultView, Seq<char>> {
    match r {
        Ok(v) => Ok(v@),
        Err(HoistedDepGraphError::Installability(m)) => Err(m@),
    }
}

/// Build the directory-keyed graph of a hoisted install from the wanted
/// lockfile and, when given, the current one (see
/// `spec_hoisted_dep_graph`).
pub fn lockfile_to_hoisted_dep_graph(
    lockfile: &HoistedLockfile,
    current_lockfile: Option<&HoistedLockfile>,
    opts: &LockfileToHoistedDepGraphOptions,
) -> (r: Result<LockfileToDepGraphResult, HoistedDepGraphError>)
    ensures
        hoisted_view(r) == spec_hoisted_dep_graph(
            *lockfile,
            match current_lockfile {
                Some(c) => Some(*c),
                None => None,
            },
            *opts,
        ),
        r matches Ok(v) ==> v.wf(),
{
    let no_skips: Vec<String> = Vec::new();
    assert(views_of(no_skips@).to_set() =~= Set::<Seq<char>>::empty());
    let prev_graph = match current_lockfile {
        Some(current) => {
            if current.packages.len() > 0 {
                match build_dep_graph(current, opts, true, &no_skips) {
                    Ok(p) => Some(p.graph),
                    Err(m) => {
                        return Err(HoistedDepGraphError::Installability(m));
                    },
                }
            } else {
                None
            }
        },
        None => None,
    };
    match build_dep_graph(lockfile, opts, opts.force, &opts.skipped) {
        Ok(result) => {
            let mut result = result;
            result.prev_graph = prev_graph;
            Ok(result)
        },
        Err(m) => Err(HoistedDepGraphError::Installability(m)),
    }
}

} // verus!

verus! {

impl Default for LockfileToDepGraphResult {
    fn default() -> (r: Self)
        ensures
            r.graph@.len() == 0,
            r.direct_dependencies_by_importer_id@.len() == 0,
            r.hierarchy@.len() == 0,
            r.hoisted_locations@.len() == 0,
            r.symlinked_direct_dependencies_by_importer_id@.len() == 0,
            r.prev_graph is None,
            r.injection_targets_by_dep_path@.len() == 0,
            r.skipped@.len() == 0,
    {
        LockfileToDepGraphResult {
            graph: Vec::new(),
            direct_dependencies_by_importer_id: Vec::new(),
            hierarchy: Vec::new(),
            hoisted_locations: Vec::new(),
            symlinked_direct_dependencies_by_importer_id: Vec::new(),
            prev_graph: None,
            injection_targets_by_dep_path: Vec::new(),
            skipped: Vec::new(),
        }
    }
}

impl Default for LockfileToHoistedDepGraphOptions {
    fn default() -> (r: Self)
        ensures
            r.lockfile_dir@.len() == 0,
            r.skipped@.len() == 0,
            !r.force,
            r.verdicts@.len() == 0,
    {
        LockfileToHoistedDepGraphOptions {
            lockfile_dir: String::new(),
            skipped: Vec::new(),
            force: false,
            verdicts: Vec::new(),
        }
    }
}

} // verus!

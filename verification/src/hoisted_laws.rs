//! What every hoisted walk keeps: skipped packages are never placed, the
//! skipped set only grows (and not at all when every package is placed
//! by force), and each child and direct dependency points at a directory
//! that holds a node.
use vstd::prelude::*;
use crate::hoisted::{
    alias_at, first_location, forest_size, is_workspace_ref, spec_build, spec_direct_deps, spec_hoisted_dep_graph,
    spec_node_children, spec_placed_children, spec_relative, spec_walk_list, spec_walk_node, tree_size, verdict_for,
    walk_input,
    walk_package, GraphResultView, HierView, HoistedLockfile, HoisterNode, LockfileToHoistedDepGraphOptions, NodeView,
    StateView, Verdict, WalkInput,
};
use crate::lockfile::{spec_all_edges, DepEdge, Snapshot};
use crate::text::views_of;
use crate::virtual_store::{resolution_view, snapshot_lookup};

verus! {

/// A placed node is not skipped, and (unless the walk is forced) its
/// verdict is not a skip.
pub open spec fn placed_ok(ctx: WalkInput, skipped: Set<Seq<char>>, n: NodeView) -> bool {
    &&& !skipped.contains(n.dep_path)
    &&& !ctx.force ==> !(verdict_for(ctx.verdicts, n.dep_path) is SkipOptional)
}

/// What the walk keeps: one recorded location per node, in step with
/// the graph, and every node placed legitimately.
pub open spec fn walk_inv(ctx: WalkInput, st: StateView) -> bool {
    &&& st.pkg_locations == st.graph.map_values(|n: NodeView| (n.dep_path, n.dir))
    &&& forall|i: int| 0 <= i < st.graph.len() ==> placed_ok(ctx, st.skipped, #[trigger] st.graph[i])
}

/// What a step of the walk does to the skipped set.
pub open spec fn skips_grow(ctx: WalkInput, before: Set<Seq<char>>, after: Set<Seq<char>>) -> bool {
    &&& before.subset_of(after)
    &&& ctx.force ==> after == before
}

proof fn lemma_walk_node(ctx: WalkInput, st: StateView, modules: Seq<char>, node: HoisterNode)
    requires
        walk_inv(ctx, st),
    ensures
        spec_walk_node(ctx, st, modules, node) matches Ok((st2, _)) ==> walk_inv(ctx, st2) && skips_grow(
            ctx,
            st.skipped,
            st2.skipped,
        ),
    decreases tree_size(node), 0nat,
{
    if node.references@.len() > 0 {
        let reference = node.references@[0]@;
        if !(st.skipped.contains(reference) || is_workspace_ref(reference)) {
            match walk_package(ctx.packages, reference) {
                None => {},
                Some(meta) => {
                    let verdict = if ctx.force { Verdict::Installable } else { verdict_for(ctx.verdicts, reference) };
                    match verdict {
                        Verdict::SkipOptional => {
                            let st2 = StateView { skipped: st.skipped.insert(reference), ..st };
                            assert forall|i: int| 0 <= i < st2.graph.len() implies placed_ok(
                                ctx,
                                st2.skipped,
                                #[trigger] st2.graph[i],
                            ) by {
                                assert(placed_ok(ctx, st.skipped, st.graph[i]));
                            }
                        },
                        Verdict::Fail(_) => {},
                        _ => {
                            let dir = crate::path::spec_join(modules, node.name@);
                            let st1 = StateView {
                                    graph: st.graph.push(
                                        NodeView {
                                            alias: node.name@,
                                            dep_path: reference,
                                            pkg_id_with_patch_hash: reference,
                                            dir,
                                            modules,
                                            name: crate::slots::spec_key_name(reference),
                                            version: crate::fetch::spec_key_version(reference),
                                            optional: crate::hoisted::optional_of(ctx.snapshots, reference),
                                            optional_dependencies: crate::hoisted::optional_aliases(
                                                ctx.snapshots,
                                                reference,
                                            ),
                                            has_bin: meta.has_bin,
                                            has_bundled_dependencies: meta.has_bundled_dependencies,
                                            resolution: resolution_view(meta.resolution),
                                        },
                                    ),
                                    pkg_locations: st.pkg_locations.push((reference, dir)),
                                    injection_targets: if meta.resolution is Directory {
                                        st.injection_targets.push((reference, dir))
                                    } else {
                                        st.injection_targets
                                    },
                                    ..st
                            };
                            assert(st1.pkg_locations =~= st1.graph.map_values(|n: NodeView| (n.dep_path, n.dir)));
                            assert forall|i: int| 0 <= i < st1.graph.len() implies placed_ok(
                                ctx,
                                st1.skipped,
                                #[trigger] st1.graph[i],
                            ) by {
                                if i < st.graph.len() {
                                    assert(placed_ok(ctx, st.skipped, st.graph[i]));
                                }
                            }
                            lemma_walk_list(
                                ctx,
                                st1,
                                Seq::empty(),
                                crate::path::spec_join(dir, "node_modules"@),
                                node.dependencies@,
                            );
                        },
                    }
                },
            }
        }
    }
}

proof fn lemma_walk_list(
    ctx: WalkInput,
    st: StateView,
    acc: Seq<(Seq<char>, HierView)>,
    modules: Seq<char>,
    nodes: Seq<HoisterNode>,
)
    requires
        walk_inv(ctx, st),
    ensures
        spec_walk_list(ctx, st, acc, modules, nodes) matches Ok((st2, _)) ==> walk_inv(ctx, st2) && skips_grow(
            ctx,
            st.skipped,
            st2.skipped,
        ),
    decreases forest_size(nodes), 1nat,
{
    if nodes.len() > 0 {
        lemma_walk_node(ctx, st, modules, nodes[0]);
        match spec_walk_node(ctx, st, modules, nodes[0]) {
            Err(_) => {},
            Ok((st1, entry)) => {
                let acc1 = match entry {
                    Some(x) => acc.push(x),
                    None => acc,
                };
                lemma_walk_list(ctx, st1, acc1, modules, nodes.drop_first());
            },
        }
    }
}

proof fn lemma_first_location(locs: Seq<(Seq<char>, Seq<char>)>, key: Seq<char>)
    ensures
        first_location(locs, key) matches Some(d) ==> exists|j: int| 0 <= j < locs.len() && #[trigger] locs[j].1 == d,
    decreases locs.len(),
{
    if locs.len() > 0 && locs[0].0 != key {
        lemma_first_location(locs.drop_first(), key);
        if let Some(d) = first_location(locs, key) {
            let j = choose|j: int| 0 <= j < locs.drop_first().len() && #[trigger] locs.drop_first()[j].1 == d;
            assert(locs[j + 1].1 == d);
        }
    }
}

proof fn lemma_placed_children(edges: Seq<DepEdge>, locs: Seq<(Seq<char>, Seq<char>)>)
    ensures
        forall|a: Seq<char>|
            #[trigger] spec_placed_children(edges, locs).contains_key(a) ==> exists|j: int|
                0 <= j < locs.len() && #[trigger] locs[j].1 == spec_placed_children(edges, locs)[a],
    decreases edges.len(),
{
    if edges.len() > 0 {
        let prev = spec_placed_children(edges.drop_last(), locs);
        let m = spec_placed_children(edges, locs);
        lemma_placed_children(edges.drop_last(), locs);
        let e = edges.last();
        let key = crate::lockfile::spec_resolve(e.alias@, e.dep_ref);
        lemma_first_location(locs, key);
        assert forall|a: Seq<char>| #[trigger] m.contains_key(a) implies exists|j: int|
            0 <= j < locs.len() && #[trigger] locs[j].1 == m[a] by {
            match first_location(locs, key) {
                Some(d) => {
                    if a == e.alias@ {
                        let j = choose|j: int| 0 <= j < locs.len() && #[trigger] locs[j].1 == d;
                        assert(locs[j].1 == m[a]);
                    } else {
                        assert(prev.contains_key(a) && m[a] == prev[a]);
                    }
                },
                None => {
                    assert(prev.contains_key(a) && m[a] == prev[a]);
                },
            }
        }
    }
}

proof fn lemma_node_children(snapshots: Seq<Snapshot>, locs: Seq<(Seq<char>, Seq<char>)>, key: Seq<char>)
    ensures
        forall|a: Seq<char>|
            #[trigger] spec_node_children(snapshots, locs, key).contains_key(a) ==> exists|j: int|
                0 <= j < locs.len() && #[trigger] locs[j].1 == spec_node_children(snapshots, locs, key)[a],
{
    if let Some(s) = snapshot_lookup(snapshots, key) {
        lemma_placed_children(spec_all_edges(s), locs);
    }
}

proof fn lemma_alias_at(graph: Seq<NodeView>, dir: Seq<char>)
    ensures
        alias_at(graph, dir) matches Some(a) ==> exists|j: int|
            0 <= j < graph.len() && (#[trigger] graph[j]).dir == dir && graph[j].alias == a,
    decreases graph.len(),
{
    if graph.len() > 0 && graph[0].dir != dir {
        lemma_alias_at(graph.drop_first(), dir);
        if let Some(a) = alias_at(graph, dir) {
            let j = choose|j: int|
                0 <= j < graph.drop_first().len() && (#[trigger] graph.drop_first()[j]).dir == dir
                    && graph.drop_first()[j].alias == a;
            assert(graph[j + 1] == graph.drop_first()[j]);
        }
    }
}

proof fn lemma_direct_deps(graph: Seq<NodeView>, entries: Seq<(Seq<char>, HierView)>)
    ensures
        forall|a: Seq<char>|
            #[trigger] spec_direct_deps(graph, entries).contains_key(a) ==> exists|j: int|
                0 <= j < graph.len() && (#[trigger] graph[j]).dir == spec_direct_deps(graph, entries)[a]
                    && graph[j].alias == a,
    decreases entries.len(),
{
    if entries.len() > 0 {
        let prev = spec_direct_deps(graph, entries.drop_last());
        let m = spec_direct_deps(graph, entries);
        lemma_direct_deps(graph, entries.drop_last());
        let d = entries.last().0;
        lemma_alias_at(graph, d);
        assert forall|a: Seq<char>| #[trigger] m.contains_key(a) implies exists|j: int|
            0 <= j < graph.len() && (#[trigger] graph[j]).dir == m[a] && graph[j].alias == a by {
            match alias_at(graph, d) {
                Some(b) => {
                    if a == b {
                        let j = choose|j: int| 0 <= j < graph.len() && (#[trigger] graph[j]).dir == d && graph[j].alias == b;
                        assert(graph[j].dir == m[a]);
                    } else {
                        assert(prev.contains_key(a) && m[a] == prev[a]);
                    }
                },
                None => {
                    assert(prev.contains_key(a) && m[a] == prev[a]);
                },
            }
        }
    }
}

/// A graph whose children all point at directories of its nodes, and
/// whose nodes are none of them skipped.
pub open spec fn graph_sound(graph: Seq<(NodeView, Map<Seq<char>, Seq<char>>)>, skipped: Set<Seq<char>>) -> bool {
    &&& forall|i: int| 0 <= i < graph.len() ==> !skipped.contains(#[trigger] graph[i].0.dep_path)
    &&& forall|i: int, a: Seq<char>|
        0 <= i < graph.len() && #[trigger] graph[i].1.contains_key(a) ==> exists|j: int|
            0 <= j < graph.len() && #[trigger] graph[j].0.dir == graph[i].1[a]
}

proof fn lemma_build(ctx: WalkInput, skipped: Set<Seq<char>>, tree: Seq<HoisterNode>)
    ensures
        spec_build(ctx, skipped, tree) matches Ok(v) ==> {
            &&& skips_grow(ctx, skipped, v.skipped)
            &&& graph_sound(v.graph, v.skipped)
            &&& v.direct_dependencies_by_importer_id.len() == 1
            &&& v.direct_dependencies_by_importer_id[0].0 == "."@
            &&& forall|a: Seq<char>|
                #[trigger] v.direct_dependencies_by_importer_id[0].1.contains_key(a) ==> exists|j: int|
                    0 <= j < v.graph.len() && #[trigger] v.graph[j].0.dir
                        == v.direct_dependencies_by_importer_id[0].1[a] && v.graph[j].0.alias == a
        },
{
    let init = StateView {
        skipped,
        graph: Seq::empty(),
        pkg_locations: Seq::empty(),
        hoisted_locations: Seq::empty(),
        injection_targets: Seq::empty(),
    };
    assert(init.pkg_locations =~= init.graph.map_values(|n: NodeView| (n.dep_path, n.dir)));
    let modules = crate::path::spec_join(ctx.lockfile_dir, "node_modules"@);
    lemma_walk_list(ctx, init, Seq::empty(), modules, tree);
    if let Ok((st, entries)) = spec_walk_list(ctx, init, Seq::empty(), modules, tree) {
        let v = spec_build(ctx, skipped, tree)->Ok_0;
        assert(v.graph.len() == st.graph.len());
        assert forall|i: int| 0 <= i < v.graph.len() implies !v.skipped.contains(#[trigger] v.graph[i].0.dep_path) by {
            assert(placed_ok(ctx, st.skipped, st.graph[i]));
        }
        assert forall|i: int, a: Seq<char>|
            0 <= i < v.graph.len() && #[trigger] v.graph[i].1.contains_key(a) implies exists|j: int|
                0 <= j < v.graph.len() && #[trigger] v.graph[j].0.dir == v.graph[i].1[a] by {
            lemma_node_children(ctx.snapshots, st.pkg_locations, st.graph[i].dep_path);
            let j = choose|j: int|
                0 <= j < st.pkg_locations.len() && #[trigger] st.pkg_locations[j].1 == v.graph[i].1[a];
            assert(st.pkg_locations[j] == (st.graph[j].dep_path, st.graph[j].dir));
            assert(v.graph[j].0.dir == v.graph[i].1[a]);
        }
        lemma_direct_deps(st.graph, entries);
        assert forall|a: Seq<char>| #[trigger] v.direct_dependencies_by_importer_id[0].1.contains_key(a) implies exists|
            j: int,
        |
            0 <= j < v.graph.len() && #[trigger] v.graph[j].0.dir == v.direct_dependencies_by_importer_id[0].1[a]
                && v.graph[j].0.alias == a by {
            let j = choose|j: int|
                0 <= j < st.graph.len() && (#[trigger] st.graph[j]).dir == spec_direct_deps(st.graph, entries)[a]
                    && st.graph[j].alias == a;
            assert(v.graph[j].0 == st.graph[j]);
        }
    }
}

/// The skipped set of a hoisted walk is the one it was given, extended:
/// nothing given is dropped, and a forced walk adds nothing.
pub proof fn law_skipped_extends_input(
    lockfile: HoistedLockfile,
    current: Option<HoistedLockfile>,
    opts: LockfileToHoistedDepGraphOptions,
)
    ensures
        spec_hoisted_dep_graph(lockfile, current, opts) matches Ok(v) ==> {
            &&& views_of(opts.skipped@).to_set().subset_of(v.skipped)
            &&& opts.force ==> v.skipped == views_of(opts.skipped@).to_set()
        },
{
    lemma_build(walk_input(lockfile, opts, opts.force), views_of(opts.skipped@).to_set(), lockfile.hoisted@);
}

/// No node of a hoisted graph, nor of the previous install's graph, is a
/// skipped package, and every child of a node points at the directory
/// of a node of the same graph.
pub proof fn law_graph_is_closed(
    lockfile: HoistedLockfile,
    current: Option<HoistedLockfile>,
    opts: LockfileToHoistedDepGraphOptions,
)
    ensures
        spec_hoisted_dep_graph(lockfile, current, opts) matches Ok(v) ==> {
            &&& graph_sound(v.graph, v.skipped)
            &&& v.prev_graph matches Some(p) ==> graph_sound(p, Set::empty())
        },
{
    lemma_build(walk_input(lockfile, opts, opts.force), views_of(opts.skipped@).to_set(), lockfile.hoisted@);
    if let Some(c) = current {
        lemma_build(walk_input(c, opts, true), Set::empty(), c.hoisted@);
    }
}

/// Each direct dependency of the root points at the directory of a node
/// placed under that alias.
pub proof fn law_direct_dependencies_are_placed(
    lockfile: HoistedLockfile,
    current: Option<HoistedLockfile>,
    opts: LockfileToHoistedDepGraphOptions,
)
    ensures
        spec_hoisted_dep_graph(lockfile, current, opts) matches Ok(v) ==> {
            &&& v.direct_dependencies_by_importer_id.len() == 1
            &&& v.direct_dependencies_by_importer_id[0].0 == "."@
            &&& forall|a: Seq<char>|
                #[trigger] v.direct_dependencies_by_importer_id[0].1.contains_key(a) ==> exists|j: int|
                    0 <= j < v.graph.len() && #[trigger] v.graph[j].0.dir
                        == v.direct_dependencies_by_importer_id[0].1[a] && v.graph[j].0.alias == a
        },
{
    let w = spec_build(walk_input(lockfile, opts, opts.force), views_of(opts.skipped@).to_set(), lockfile.hoisted@);
    lemma_build(walk_input(lockfile, opts, opts.force), views_of(opts.skipped@).to_set(), lockfile.hoisted@);
    if let Ok(v) = spec_hoisted_dep_graph(lockfile, current, opts) {
        let wv = w->Ok_0;
        assert(v.direct_dependencies_by_importer_id == wv.direct_dependencies_by_importer_id);
        assert(v.graph == wv.graph);
    }
}


/// The location a node is recorded at: its dep path and its directory
/// relative to the lockfile directory.
pub open spec fn location_of(ctx: WalkInput, n: NodeView) -> (Seq<char>, Seq<char>) {
    (n.dep_path, spec_relative(n.dir, ctx.lockfile_dir))
}

/// A later walk state extends an earlier one, and the locations it
/// records beyond the earlier ones are those of the nodes it placed
/// beyond the earlier ones, each once.
pub open spec fn records_placed(ctx: WalkInput, st: StateView, st2: StateView) -> bool {
    &&& st.graph.len() <= st2.graph.len()
    &&& st2.graph.take(st.graph.len() as int) == st.graph
    &&& st.hoisted_locations.len() <= st2.hoisted_locations.len()
    &&& st2.hoisted_locations.take(st.hoisted_locations.len() as int) == st.hoisted_locations
    &&& st2.hoisted_locations.skip(st.hoisted_locations.len() as int).to_multiset() == st2.graph.skip(
        st.graph.len() as int,
    ).map_values(|n: NodeView| location_of(ctx, n)).to_multiset()
}

proof fn lemma_records_same(ctx: WalkInput, st: StateView, st2: StateView)
    requires
        st2.graph == st.graph,
        st2.hoisted_locations == st.hoisted_locations,
    ensures
        records_placed(ctx, st, st2),
{
    assert(st2.graph.take(st.graph.len() as int) =~= st.graph);
    assert(st2.hoisted_locations.take(st.hoisted_locations.len() as int) =~= st.hoisted_locations);
    assert(st2.graph.skip(st.graph.len() as int) =~= Seq::<NodeView>::empty());
    assert(st2.hoisted_locations.skip(st.hoisted_locations.len() as int) =~= Seq::<(Seq<char>, Seq<char>)>::empty());
    assert(st2.graph.skip(st.graph.len() as int).map_values(|n: NodeView| location_of(ctx, n)) =~= Seq::<
        (Seq<char>, Seq<char>),
    >::empty());
}

proof fn lemma_records_trans(ctx: WalkInput, a: StateView, b: StateView, c: StateView)
    requires
        records_placed(ctx, a, b),
        records_placed(ctx, b, c),
    ensures
        records_placed(ctx, a, c),
{
    broadcast use vstd::seq_lib::lemma_multiset_commutative;

    let ga = a.graph.len() as int;
    let gb = b.graph.len() as int;
    let ha = a.hoisted_locations.len() as int;
    let hb = b.hoisted_locations.len() as int;
    assert(c.graph.take(ga) =~= c.graph.take(gb).take(ga));
    assert(c.hoisted_locations.take(ha) =~= c.hoisted_locations.take(hb).take(ha));
    assert(c.graph.skip(ga) =~= b.graph.skip(ga) + c.graph.skip(gb));
    assert(c.hoisted_locations.skip(ha) =~= b.hoisted_locations.skip(ha) + c.hoisted_locations.skip(hb));
    assert(c.graph.skip(ga).map_values(|n: NodeView| location_of(ctx, n)) =~= b.graph.skip(ga).map_values(
        |n: NodeView| location_of(ctx, n),
    ) + c.graph.skip(gb).map_values(|n: NodeView| location_of(ctx, n)));
}

proof fn lemma_walk_node_records(ctx: WalkInput, st: StateView, modules: Seq<char>, node: HoisterNode)
    ensures
        spec_walk_node(ctx, st, modules, node) matches Ok((st2, _)) ==> records_placed(ctx, st, st2),
    decreases tree_size(node), 0nat,
{
    if let Ok((st2, _)) = spec_walk_node(ctx, st, modules, node) {
        if st2.graph == st.graph && st2.hoisted_locations == st.hoisted_locations {
            lemma_records_same(ctx, st, st2);
        } else {
            let reference = node.references@[0]@;
            let meta = walk_package(ctx.packages, reference)->Some_0;
            let dir = crate::path::spec_join(modules, node.name@);
            let st1 = StateView {
                graph: st.graph.push(
                    NodeView {
                        alias: node.name@,
                        dep_path: reference,
                        pkg_id_with_patch_hash: reference,
                        dir,
                        modules,
                        name: crate::slots::spec_key_name(reference),
                        version: crate::fetch::spec_key_version(reference),
                        optional: crate::hoisted::optional_of(ctx.snapshots, reference),
                        optional_dependencies: crate::hoisted::optional_aliases(ctx.snapshots, reference),
                        has_bin: meta.has_bin,
                        has_bundled_dependencies: meta.has_bundled_dependencies,
                        resolution: resolution_view(meta.resolution),
                    },
                ),
                pkg_locations: st.pkg_locations.push((reference, dir)),
                injection_targets: if meta.resolution is Directory {
                    st.injection_targets.push((reference, dir))
                } else {
                    st.injection_targets
                },
                ..st
            };
            let inner = crate::path::spec_join(dir, "node_modules"@);
            lemma_walk_list_records(ctx, st1, Seq::empty(), inner, node.dependencies@);
            let st_sub = spec_walk_list(ctx, st1, Seq::empty(), inner, node.dependencies@)->Ok_0.0;
            let nv = st1.graph.last();
            // The subtree's walk extends `st1`; the node's own location
            // comes last.
            assert(st2.graph == st_sub.graph);
            assert(st2.hoisted_locations == st_sub.hoisted_locations.push(location_of(ctx, nv)));
            assert(records_placed(ctx, st1, st_sub));
            let g0 = st.graph.len() as int;
            let h0 = st.hoisted_locations.len() as int;
            assert(st2.graph.take(g0) =~= st_sub.graph.take(g0 + 1).take(g0));
            assert(st2.hoisted_locations.take(h0) =~= st_sub.hoisted_locations.take(h0));
            assert(st2.graph.skip(g0) =~= seq![nv] + st_sub.graph.skip(g0 + 1)) by {
                assert(st_sub.graph[g0] == st_sub.graph.take(g0 + 1)[g0]);
            }
            assert(st2.hoisted_locations.skip(h0) =~= st_sub.hoisted_locations.skip(h0).push(location_of(ctx, nv)));
            assert(st2.graph.take(g0) == st.graph);
            assert(st2.hoisted_locations.take(h0) == st.hoisted_locations);
            let sub_locs = st_sub.graph.skip(g0 + 1).map_values(|n: NodeView| location_of(ctx, n));
            assert(st2.graph.skip(g0).map_values(|n: NodeView| location_of(ctx, n)) =~= seq![location_of(ctx, nv)]
                + sub_locs);
            vstd::seq_lib::lemma_multiset_commutative(seq![location_of(ctx, nv)], sub_locs);
            vstd::seq_lib::lemma_multiset_commutative(st_sub.hoisted_locations.skip(h0), seq![location_of(ctx, nv)]);
            assert(st_sub.hoisted_locations.skip(h0).push(location_of(ctx, nv)) =~= st_sub.hoisted_locations.skip(h0)
                + seq![location_of(ctx, nv)]);
            assert(st2.hoisted_locations.skip(h0).to_multiset() == st2.graph.skip(g0).map_values(
                |n: NodeView| location_of(ctx, n),
            ).to_multiset());
        }
    }
}

proof fn lemma_walk_list_records(
    ctx: WalkInput,
    st: StateView,
    acc: Seq<(Seq<char>, HierView)>,
    modules: Seq<char>,
    nodes: Seq<HoisterNode>,
)
    ensures
        spec_walk_list(ctx, st, acc, modules, nodes) matches Ok((st2, _)) ==> records_placed(ctx, st, st2),
    decreases forest_size(nodes), 1nat,
{
    if nodes.len() == 0 {
        lemma_records_same(ctx, st, st);
    } else {
        lemma_walk_node_records(ctx, st, modules, nodes[0]);
        if let Ok((st1, entry)) = spec_walk_node(ctx, st, modules, nodes[0]) {
            let acc1 = match entry {
                Some(x) => acc.push(x),
                None => acc,
            };
            lemma_walk_list_records(ctx, st1, acc1, modules, nodes.drop_first());
            if let Ok((st2, _)) = spec_walk_list(ctx, st1, acc1, modules, nodes.drop_first()) {
                lemma_records_trans(ctx, st, st1, st2);
            }
        }
    }
}

/// Every node of a hoisted graph has its location recorded, once: the
/// recorded locations are, up to order, the dep path of each node with
/// its directory relative to the lockfile directory.
pub proof fn law_every_placed_node_is_recorded(
    lockfile: HoistedLockfile,
    current: Option<HoistedLockfile>,
    opts: LockfileToHoistedDepGraphOptions,
)
    ensures
        spec_hoisted_dep_graph(lockfile, current, opts) matches Ok(v) ==> v.hoisted_locations.to_multiset()
            == v.graph.map_values(
            |e: (NodeView, Map<Seq<char>, Seq<char>>)| (e.0.dep_path, spec_relative(e.0.dir, opts.lockfile_dir@)),
        ).to_multiset(),
{
    let ctx = walk_input(lockfile, opts, opts.force);
    let init = StateView {
        skipped: views_of(opts.skipped@).to_set(),
        graph: Seq::empty(),
        pkg_locations: Seq::empty(),
        hoisted_locations: Seq::empty(),
        injection_targets: Seq::empty(),
    };
    let modules = crate::path::spec_join(ctx.lockfile_dir, "node_modules"@);
    lemma_walk_list_records(ctx, init, Seq::empty(), modules, lockfile.hoisted@);
    if let Ok(v) = spec_hoisted_dep_graph(lockfile, current, opts) {
        let (st, _) = spec_walk_list(ctx, init, Seq::empty(), modules, lockfile.hoisted@)->Ok_0;
        assert(st.graph.skip(0) =~= st.graph);
        assert(st.hoisted_locations.skip(0) =~= st.hoisted_locations);
        assert(v.graph.map_values(
            |e: (NodeView, Map<Seq<char>, Seq<char>>)| (e.0.dep_path, spec_relative(e.0.dir, opts.lockfile_dir@)),
        ) =~= st.graph.map_values(|n: NodeView| location_of(ctx, n)));
    }
}


/// A name that `Path::join` appends rather than letting it replace the
/// base: it does not start with `/`.
pub open spec fn relative_name(name: Seq<char>) -> bool {
    !(name.len() > 0 && name[0] == '/')
}

/// Every node of a hoister forest has a relative name.
pub open spec fn forest_relative(nodes: Seq<HoisterNode>) -> bool
    decreases nodes,
{
    if nodes.len() == 0 {
        true
    } else {
        proof {
            assert(decreases_to!(nodes => nodes[0]));
        }
        relative_name(nodes[0].name@) && forest_relative(nodes[0].dependencies@) && forest_relative(nodes.drop_first())
    }
}

/// Each node sits at its alias under its modules directory, and (when
/// `root` is given) that modules directory lies under `root`.
pub open spec fn shape_inv(st: StateView, root: Option<Seq<char>>) -> bool {
    forall|i: int|
        0 <= i < st.graph.len() ==> {
            &&& (#[trigger] st.graph[i]).dir == crate::path::spec_join(st.graph[i].modules, st.graph[i].alias)
            &&& root matches Some(r) ==> r.is_prefix_of(st.graph[i].modules) && r.is_prefix_of(st.graph[i].dir)
        }
}

proof fn lemma_join_extends(a: Seq<char>, b: Seq<char>)
    requires
        relative_name(b),
    ensures
        a.is_prefix_of(crate::path::spec_join(a, b)),
{
    let j = crate::path::spec_join(a, b);
    if a.len() == 0 {
        assert(a =~= j.subrange(0, 0));
    } else if a.last() == '/' {
        assert(a =~= (a + b).subrange(0, a.len() as int));
    } else {
        assert(a =~= (a + "/"@ + b).subrange(0, a.len() as int));
    }
}

proof fn lemma_prefix_trans(a: Seq<char>, b: Seq<char>, c: Seq<char>)
    requires
        a.is_prefix_of(b),
        b.is_prefix_of(c),
    ensures
        a.is_prefix_of(c),
{
    assert forall|k: int| 0 <= k < a.len() implies a[k] == c[k] by {
        assert(a[k] == b.subrange(0, a.len() as int)[k]);
        assert(b[k] == c.subrange(0, b.len() as int)[k]);
    }
    assert(a =~= c.subrange(0, a.len() as int));
}

proof fn lemma_walk_node_shape(
    ctx: WalkInput,
    st: StateView,
    modules: Seq<char>,
    node: HoisterNode,
    root: Option<Seq<char>>,
)
    requires
        shape_inv(st, root),
        root matches Some(r) ==> r.is_prefix_of(modules) && relative_name(node.name@) && forest_relative(
            node.dependencies@,
        ),
    ensures
        spec_walk_node(ctx, st, modules, node) matches Ok((st2, _)) ==> shape_inv(st2, root),
    decreases tree_size(node), 0nat,
{
    if let Ok((st2, _)) = spec_walk_node(ctx, st, modules, node) {
        if st2.graph == st.graph {
        } else {
            let reference = node.references@[0]@;
            let meta = walk_package(ctx.packages, reference)->Some_0;
            let dir = crate::path::spec_join(modules, node.name@);
            let st1 = StateView {
                graph: st.graph.push(
                    NodeView {
                        alias: node.name@,
                        dep_path: reference,
                        pkg_id_with_patch_hash: reference,
                        dir,
                        modules,
                        name: crate::slots::spec_key_name(reference),
                        version: crate::fetch::spec_key_version(reference),
                        optional: crate::hoisted::optional_of(ctx.snapshots, reference),
                        optional_dependencies: crate::hoisted::optional_aliases(ctx.snapshots, reference),
                        has_bin: meta.has_bin,
                        has_bundled_dependencies: meta.has_bundled_dependencies,
                        resolution: resolution_view(meta.resolution),
                    },
                ),
                pkg_locations: st.pkg_locations.push((reference, dir)),
                injection_targets: if meta.resolution is Directory {
                    st.injection_targets.push((reference, dir))
                } else {
                    st.injection_targets
                },
                ..st
            };
            let inner = crate::path::spec_join(dir, "node_modules"@);
            reveal_strlit("node_modules");
            if let Some(r) = root {
                lemma_join_extends(modules, node.name@);
                lemma_prefix_trans(r, modules, dir);
                lemma_join_extends(dir, "node_modules"@);
                lemma_prefix_trans(r, dir, inner);
            }
            assert(shape_inv(st1, root)) by {
                assert forall|i: int| 0 <= i < st1.graph.len() implies {
                    &&& (#[trigger] st1.graph[i]).dir == crate::path::spec_join(st1.graph[i].modules, st1.graph[i].alias)
                    &&& root matches Some(r) ==> r.is_prefix_of(st1.graph[i].modules) && r.is_prefix_of(
                        st1.graph[i].dir,
                    )
                } by {
                    if i < st.graph.len() {
                        assert(st1.graph[i] == st.graph[i]);
                    }
                }
            }
            lemma_walk_list_shape(ctx, st1, Seq::empty(), inner, node.dependencies@, root);
        }
    }
}

proof fn lemma_walk_list_shape(
    ctx: WalkInput,
    st: StateView,
    acc: Seq<(Seq<char>, HierView)>,
    modules: Seq<char>,
    nodes: Seq<HoisterNode>,
    root: Option<Seq<char>>,
)
    requires
        shape_inv(st, root),
        root matches Some(r) ==> r.is_prefix_of(modules) && forest_relative(nodes),
    ensures
        spec_walk_list(ctx, st, acc, modules, nodes) matches Ok((st2, _)) ==> shape_inv(st2, root),
    decreases forest_size(nodes), 1nat,
{
    if nodes.len() > 0 {
        lemma_walk_node_shape(ctx, st, modules, nodes[0], root);
        if let Ok((st1, entry)) = spec_walk_node(ctx, st, modules, nodes[0]) {
            let acc1 = match entry {
                Some(x) => acc.push(x),
                None => acc,
            };
            lemma_walk_list_shape(ctx, st1, acc1, modules, nodes.drop_first(), root);
        }
    }
}

/// A graph whose every node sits at its alias under its modules
/// directory, that directory lying under `root` when one is given.
pub open spec fn graph_shaped(graph: Seq<(NodeView, Map<Seq<char>, Seq<char>>)>, root: Option<Seq<char>>) -> bool {
    forall|i: int|
        0 <= i < graph.len() ==> {
            &&& (#[trigger] graph[i]).0.dir == crate::path::spec_join(graph[i].0.modules, graph[i].0.alias)
            &&& root matches Some(r) ==> r.is_prefix_of(graph[i].0.modules) && r.is_prefix_of(graph[i].0.dir)
        }
}

proof fn lemma_build_shape(ctx: WalkInput, skipped: Set<Seq<char>>, tree: Seq<HoisterNode>, relative: bool)
    requires
        relative ==> forest_relative(tree),
    ensures
        spec_build(ctx, skipped, tree) matches Ok(v) ==> graph_shaped(
            v.graph,
            if relative { Some(crate::path::spec_join(ctx.lockfile_dir, "node_modules"@)) } else { None },
        ),
{
    let init = StateView {
        skipped,
        graph: Seq::empty(),
        pkg_locations: Seq::empty(),
        hoisted_locations: Seq::empty(),
        injection_targets: Seq::empty(),
    };
    let modules = crate::path::spec_join(ctx.lockfile_dir, "node_modules"@);
    let root = if relative { Some(modules) } else { None };
    assert(modules.is_prefix_of(modules)) by {
        assert(modules =~= modules.subrange(0, modules.len() as int));
    }
    lemma_walk_list_shape(ctx, init, Seq::empty(), modules, tree, root);
    if let Ok((st, _)) = spec_walk_list(ctx, init, Seq::empty(), modules, tree) {
        let v = spec_build(ctx, skipped, tree)->Ok_0;
        assert forall|i: int| 0 <= i < v.graph.len() implies {
            &&& (#[trigger] v.graph[i]).0.dir == crate::path::spec_join(v.graph[i].0.modules, v.graph[i].0.alias)
            &&& root matches Some(r) ==> r.is_prefix_of(v.graph[i].0.modules) && r.is_prefix_of(v.graph[i].0.dir)
        } by {
            assert(v.graph[i].0 == st.graph[i]);
        }
    }
}

/// Each node of a hoisted graph (and of the previous install's graph)
/// sits at its alias under its modules directory; when no name of the
/// hoister's tree starts with `/`, every such directory lies under
/// `<lockfile dir>/node_modules`.
pub proof fn law_nodes_sit_under_their_modules_dir(
    lockfile: HoistedLockfile,
    current: Option<HoistedLockfile>,
    opts: LockfileToHoistedDepGraphOptions,
)
    ensures
        spec_hoisted_dep_graph(lockfile, current, opts) matches Ok(v) ==> {
            &&& graph_shaped(v.graph, None)
            &&& forest_relative(lockfile.hoisted@) ==> graph_shaped(
                v.graph,
                Some(crate::path::spec_join(opts.lockfile_dir@, "node_modules"@)),
            )
            &&& v.prev_graph matches Some(p) ==> graph_shaped(p, None)
        },
{
    let ctx = walk_input(lockfile, opts, opts.force);
    let sk = views_of(opts.skipped@).to_set();
    lemma_build_shape(ctx, sk, lockfile.hoisted@, false);
    if forest_relative(lockfile.hoisted@) {
        lemma_build_shape(ctx, sk, lockfile.hoisted@, true);
    }
    if let Some(c) = current {
        lemma_build_shape(walk_input(c, opts, true), Set::empty(), c.hoisted@, false);
    }
}

} // verus!

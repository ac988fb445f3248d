//! Topologically ordered chunks of the packages that need building.
//!
//! The returned chunks are ordered children-first: every chunk may run
//! only after every preceding chunk has finished; members of one chunk
//! are independent of each other. Only packages reachable from an
//! importer whose subtree holds a build candidate take part.
use vstd::prelude::*;
use crate::lockfile::{
    DepEdge, Importer, ImporterDep, ImporterDepVersion, ProjectSnapshot, Snapshot,
    SnapshotEntry, contains_str, find_snapshot, opt_edges, resolve, snapshot_keys,
    spec_all_edges, spec_resolve, spec_resolve_all, spec_without_peer, string_seq_views,
    without_peer,
};
use crate::text::{concat3, sort_strings, spec_sort, str_eq, views_of};

verus! {

broadcast use vstd::seq_lib::group_seq_properties;

/// A snapshot key and the keys of its children in the dependency graph.
#[derive(Debug, Clone, PartialEq, Eq)]
pub struct ChildList {
    pub key: String,
    pub children: Vec<String>,
}

/// The membership predicate of a sequence of keys.
pub open spec fn in_keys(keys: Seq<Seq<char>>) -> spec_fn(Seq<char>) -> bool {
    |k: Seq<char>| keys.contains(k)
}

/// The children of a snapshot: the keys its `dependencies` and
/// `optionalDependencies` resolve to, keeping only keys that have a
/// snapshot of their own, sorted.
pub open spec fn spec_children_of(keys: Seq<Seq<char>>, entry: SnapshotEntry) -> Seq<Seq<char>> {
    spec_sort(spec_resolve_all(spec_all_edges(entry)).filter(in_keys(keys)))
}

/// The `node → children` adjacency of the snapshot graph, in snapshot
/// order.
pub open spec fn spec_children_map(snapshots: Seq<Snapshot>) -> Seq<(Seq<char>, Seq<Seq<char>>)> {
    snapshots.map_values(
        |s: Snapshot| (s.key@, spec_children_of(snapshot_keys(snapshots), s.entry)),
    )
}

/// The view of an adjacency list.
pub open spec fn graph_view(g: Seq<ChildList>) -> Seq<(Seq<char>, Seq<Seq<char>>)> {
    g.map_values(|c: ChildList| (c.key@, views_of(c.children@)))
}

/// Append the keys that `edges` resolve to and that have a snapshot.
fn push_resolved_in(edges: &Vec<DepEdge>, snapshots: &Vec<Snapshot>, out: &mut Vec<String>)
    ensures
        views_of(final(out)@) == views_of(old(out)@) + spec_resolve_all(edges@).filter(
            in_keys(snapshot_keys(snapshots@)),
        ),
{
    let ghost keys = snapshot_keys(snapshots@);
    let mut i: usize = 0;
    assert(spec_resolve_all(edges@.take(0)).filter(in_keys(keys)) =~= Seq::<Seq<char>>::empty());
    while i < edges.len()
        invariant
            keys == snapshot_keys(snapshots@),
            i <= edges@.len(),
            views_of(out@) == views_of(old(out)@) + spec_resolve_all(edges@.take(i as int)).filter(
                in_keys(keys),
            ),
        decreases edges.len() - i,
    {
        let k = resolve(edges[i].alias.as_str(), &edges[i].dep_ref);
        let ghost before = spec_resolve_all(edges@.take(i as int));
        assert(spec_resolve_all(edges@.take(i + 1)) =~= before.push(k@));
        proof {
            before.lemma_filter_push(k@, in_keys(keys));
        }
        let found = find_snapshot(snapshots, k.as_str());
        if let Some(idx) = found {
            assert(keys[idx as int] == k@);
            assert(in_keys(keys)(k@));
            let ghost prev = views_of(out@);
            out.push(k);
            assert(views_of(out@) =~= prev.push(k@));
            assert(before.push(k@).filter(in_keys(keys)) == before.filter(in_keys(keys)).push(k@));
            assert(views_of(out@) =~= views_of(old(out)@) + spec_resolve_all(edges@.take(i + 1)).filter(
                in_keys(keys),
            ));
        }
        i = i + 1;
    }
    assert(edges@.take(edges@.len() as int) =~= edges@);
}

/// The children of one snapshot entry.
fn children_of(snapshots: &Vec<Snapshot>, entry: &SnapshotEntry) -> (r: Vec<String>)
    ensures
        views_of(r@) == spec_children_of(snapshot_keys(snapshots@), *entry),
{
    let mut out: Vec<String> = Vec::new();
    let ghost keys = snapshot_keys(snapshots@);
    if let Some(deps) = &entry.dependencies {
        push_resolved_in(deps, snapshots, &mut out);
    }
    if let Some(deps) = &entry.optional_dependencies {
        push_resolved_in(deps, snapshots, &mut out);
    }
    proof {
        let a = opt_edges(entry.dependencies);
        let b = opt_edges(entry.optional_dependencies);
        assert(spec_resolve_all(a + b) =~= spec_resolve_all(a) + spec_resolve_all(b));
        Seq::filter_distributes_over_add(
            spec_resolve_all(a),
            spec_resolve_all(b),
            in_keys(keys),
        );
        assert(spec_resolve_all(Seq::<DepEdge>::empty()) =~= Seq::<Seq<char>>::empty());
        assert(views_of(Seq::<String>::empty()) =~= Seq::<Seq<char>>::empty());
    }
    sort_strings(out)
}

/// Build the `node → children` adjacency map from the snapshots.
/// Children are the resolved keys of `dependencies` and
/// `optionalDependencies`; edges to keys without a snapshot are
/// dropped. Each child list is sorted so that the walk below is
/// reproducible.
pub fn build_children_map(snapshots: &Vec<Snapshot>) -> (r: Vec<ChildList>)
    ensures
        graph_view(r@) == spec_children_map(snapshots@),
{
    let mut out: Vec<ChildList> = Vec::new();
    let mut i: usize = 0;
    while i < snapshots.len()
        invariant
            i <= snapshots@.len(),
            graph_view(out@) =~= spec_children_map(snapshots@).take(i as int),
        decreases snapshots.len() - i,
    {
        let children = children_of(snapshots, &snapshots[i].entry);
        let key = snapshots[i].key.clone();
        let ghost item = (key@, views_of(children@));
        assert(item == spec_children_map(snapshots@)[i as int]);
        let ghost prev = graph_view(out@);
        out.push(ChildList { key, children });
        assert(graph_view(out@) =~= prev.push(item));
        assert(graph_view(out@) =~= spec_children_map(snapshots@).take(i + 1));
        i = i + 1;
    }
    assert(spec_children_map(snapshots@).take(snapshots@.len() as int) =~= spec_children_map(snapshots@));
    out
}

} // verus!

verus! {

/// Keep the first occurrence of every element of `s`, appending the
/// survivors to `acc`.
pub open spec fn dedup_into(acc: Seq<Seq<char>>, s: Seq<Seq<char>>) -> Seq<Seq<char>>
    decreases s.len(),
{
    if s.len() == 0 {
        acc
    } else {
        let r = dedup_into(acc, s.drop_last());
        if r.contains(s.last()) {
            r
        } else {
            r.push(s.last())
        }
    }
}

/// The snapshot key a direct dependency points at (`link:` deps have
/// none).
pub open spec fn importer_dep_key(d: ImporterDep) -> Option<Seq<char>> {
    match d.version {
        ImporterDepVersion::Regular(v) => Some(d.name@ + "@"@ + v@),
        ImporterDepVersion::Link(_) => None,
    }
}

/// The keys of `deps` that have a snapshot, in order.
pub open spec fn dep_root_keys(deps: Seq<ImporterDep>, keys: Seq<Seq<char>>) -> Seq<Seq<char>>
    decreases deps.len(),
{
    if deps.len() == 0 {
        Seq::empty()
    } else {
        let r = dep_root_keys(deps.drop_last(), keys);
        match importer_dep_key(deps.last()) {
            Some(k) => if keys.contains(k) {
                r.push(k)
            } else {
                r
            },
            None => r,
        }
    }
}

/// The dependencies of an optional group (none when absent).
pub open spec fn opt_deps(o: Option<Vec<ImporterDep>>) -> Seq<ImporterDep> {
    match o {
        Some(v) => v@,
        None => Seq::empty(),
    }
}

/// A project's `dependencies`, `optionalDependencies` and
/// `devDependencies`, in that order.
pub open spec fn project_deps(p: ProjectSnapshot) -> Seq<ImporterDep> {
    opt_deps(p.dependencies) + opt_deps(p.optional_dependencies) + opt_deps(p.dev_dependencies)
}

/// The direct dependencies of every importer, importer by importer.
pub open spec fn importers_deps(imps: Seq<Importer>) -> Seq<ImporterDep>
    decreases imps.len(),
{
    if imps.len() == 0 {
        Seq::empty()
    } else {
        importers_deps(imps.drop_last()) + project_deps(imps.last().snapshot)
    }
}

/// The entry nodes of the build walk: every importer's direct
/// dependency that has a snapshot, without repetition, sorted.
pub open spec fn spec_root_dep_paths(imps: Seq<Importer>, snapshots: Seq<Snapshot>) -> Seq<Seq<char>> {
    spec_sort(dedup_into(Seq::empty(), dep_root_keys(importers_deps(imps), snapshot_keys(snapshots))))
}

proof fn lemma_dep_root_keys_push(s: Seq<ImporterDep>, d: ImporterDep, keys: Seq<Seq<char>>)
    ensures
        dep_root_keys(s.push(d), keys) == (match importer_dep_key(d) {
            Some(k) => if keys.contains(k) {
                dep_root_keys(s, keys).push(k)
            } else {
                dep_root_keys(s, keys)
            },
            None => dep_root_keys(s, keys),
        }),
{
    assert(s.push(d).drop_last() =~= s);
}

proof fn lemma_dedup_push(acc: Seq<Seq<char>>, s: Seq<Seq<char>>, k: Seq<char>)
    ensures
        dedup_into(acc, s.push(k)) == (if dedup_into(acc, s).contains(k) {
            dedup_into(acc, s)
        } else {
            dedup_into(acc, s).push(k)
        }),
{
    assert(s.push(k).drop_last() =~= s);
}

/// Add the keys of `deps` to `roots`, skipping repeats.
fn add_root_keys(
    deps: &Vec<ImporterDep>,
    snapshots: &Vec<Snapshot>,
    roots: &mut Vec<String>,
    Ghost(done): Ghost<Seq<ImporterDep>>,
)
    requires
        views_of(old(roots)@) == dedup_into(Seq::empty(), dep_root_keys(done, snapshot_keys(snapshots@))),
    ensures
        views_of(final(roots)@) == dedup_into(
            Seq::empty(),
            dep_root_keys(done + deps@, snapshot_keys(snapshots@)),
        ),
{
    let ghost keys = snapshot_keys(snapshots@);
    let mut j: usize = 0;
    assert(done + deps@.take(0) =~= done);
    while j < deps.len()
        invariant
            keys == snapshot_keys(snapshots@),
            j <= deps@.len(),
            views_of(roots@) == dedup_into(Seq::empty(), dep_root_keys(done + deps@.take(j as int), keys)),
        decreases deps.len() - j,
    {
        let ghost before = done + deps@.take(j as int);
        assert(done + deps@.take(j + 1) =~= before.push(deps@[j as int]));
        proof {
            lemma_dep_root_keys_push(before, deps@[j as int], keys);
        }
        let d = &deps[j];
        match &d.version {
            ImporterDepVersion::Regular(v) => {
                let key = concat3(d.name.as_str(), "@", v.as_str());
                let found = find_snapshot(snapshots, key.as_str());
                if let Some(idx) = found {
                    assert(keys[idx as int] == key@);
                    proof {
                        lemma_dedup_push(Seq::empty(), dep_root_keys(before, keys), key@);
                    }
                    if !contains_str(roots, key.as_str()) {
                        let ghost prev = views_of(roots@);
                        roots.push(key);
                        assert(views_of(roots@) =~= prev.push(key@));
                    }
                }
            },
            ImporterDepVersion::Link(_) => {},
        }
        j = j + 1;
    }
    assert(deps@.take(deps@.len() as int) =~= deps@);
}

/// Gather the snapshot keys of every importer's direct dependencies
/// (`dependencies`, `optionalDependencies`, `devDependencies`), drop
/// those without a snapshot and repeats, and sort them so the build
/// walk is reproducible.
pub fn collect_root_dep_paths(importers: &Vec<Importer>, snapshots: &Vec<Snapshot>) -> (r: Vec<String>)
    ensures
        views_of(r@) == spec_root_dep_paths(importers@, snapshots@),
{
    let ghost keys = snapshot_keys(snapshots@);
    let mut roots: Vec<String> = Vec::new();
    let mut i: usize = 0;
    assert(importers@.take(0) =~= Seq::<Importer>::empty());
    assert(views_of(roots@) =~= Seq::<Seq<char>>::empty());
    while i < importers.len()
        invariant
            keys == snapshot_keys(snapshots@),
            i <= importers@.len(),
            views_of(roots@) == dedup_into(
                Seq::empty(),
                dep_root_keys(importers_deps(importers@.take(i as int)), keys),
            ),
        decreases importers.len() - i,
    {
        let p = &importers[i].snapshot;
        let ghost d0 = importers_deps(importers@.take(i as int));
        let empty: Vec<ImporterDep> = Vec::new();
        let deps = match &p.dependencies {
            Some(v) => v,
            None => &empty,
        };
        assert(deps@ == opt_deps(p.dependencies));
        add_root_keys(deps, snapshots, &mut roots, Ghost(d0));
        let ghost d1 = d0 + deps@;
        let optional = match &p.optional_dependencies {
            Some(v) => v,
            None => &empty,
        };
        assert(optional@ == opt_deps(p.optional_dependencies));
        add_root_keys(optional, snapshots, &mut roots, Ghost(d1));
        let ghost d2 = d1 + optional@;
        let dev = match &p.dev_dependencies {
            Some(v) => v,
            None => &empty,
        };
        assert(dev@ == opt_deps(p.dev_dependencies));
        add_root_keys(dev, snapshots, &mut roots, Ghost(d2));
        assert(importers@.take(i + 1).drop_last() =~= importers@.take(i as int));
        assert(d2 + dev@ =~= importers_deps(importers@.take(i + 1)));
        i = i + 1;
    }
    assert(importers@.take(importers@.len() as int) =~= importers@);
    sort_strings(roots)
}

} // verus!

verus! {

/// Position of the first adjacency entry for `k`, searching from `from`.
pub open spec fn graph_find(g: Seq<(Seq<char>, Seq<Seq<char>>)>, k: Seq<char>, from: int) -> Option<int>
    decreases g.len() - from,
{
    if from < 0 || from >= g.len() {
        None
    } else if g[from].0 == k {
        Some(from)
    } else {
        graph_find(g, k, from + 1)
    }
}

/// The nodes of an adjacency list.
pub open spec fn graph_dom(g: Seq<(Seq<char>, Seq<Seq<char>>)>) -> Set<Seq<char>> {
    g.map_values(|e: (Seq<char>, Seq<Seq<char>>)| e.0).to_set()
}

/// What `graph_find` returns, stated by quantifiers.
pub proof fn lemma_graph_find(g: Seq<(Seq<char>, Seq<Seq<char>>)>, k: Seq<char>, from: int)
    requires
        0 <= from,
    ensures
        match graph_find(g, k, from) {
            Some(i) => from <= i < g.len() && g[i].0 == k && graph_dom(g).contains(k),
            None => forall|j: int| from <= j < g.len() ==> g[j].0 != k,
        },
    decreases g.len() - from,
{
    if from < g.len() {
        if g[from].0 == k {
            let keys = g.map_values(|e: (Seq<char>, Seq<Seq<char>>)| e.0);
            assert(keys[from] == k);
        } else {
            lemma_graph_find(g, k, from + 1);
        }
    }
}

/// Marking an unwalked node of the graph as walked shrinks the set of
/// unwalked nodes.
pub proof fn lemma_walk_measure_insert(g: Seq<(Seq<char>, Seq<Seq<char>>)>, walked: Set<Seq<char>>, d: Seq<char>)
    requires
        graph_dom(g).contains(d),
        !walked.contains(d),
    ensures
        graph_dom(g).difference(walked.insert(d)).len() < graph_dom(g).difference(walked).len(),
{
    let u = graph_dom(g).difference(walked);
    assert(graph_dom(g).difference(walked.insert(d)) =~= u.remove(d));
    assert(u.contains(d));
}

/// Walking more nodes never grows the set of unwalked nodes.
pub proof fn lemma_walk_measure_subset(
    g: Seq<(Seq<char>, Seq<Seq<char>>)>,
    walked: Set<Seq<char>>,
    w2: Set<Seq<char>>,
)
    requires
        walked.subset_of(w2),
    ensures
        graph_dom(g).difference(w2).len() <= graph_dom(g).difference(walked).len(),
{
    vstd::set_lib::lemma_len_subset(graph_dom(g).difference(w2), graph_dom(g).difference(walked));
}

/// The subgraph walk: visit `entries` in order; an entry that is not a
/// node of the graph, or was already walked, is passed over; otherwise
/// it is marked walked, its children are walked first, and it joins the
/// list of nodes to build (after its children) when one of them needs
/// building or it is itself a build candidate. Returns whether any
/// entry joined, the nodes that joined in order, and the walked set.
pub open spec fn spec_walk(
    g: Seq<(Seq<char>, Seq<Seq<char>>)>,
    cand: Set<Seq<char>>,
    entries: Seq<Seq<char>>,
    walked: Set<Seq<char>>,
) -> (bool, Seq<Seq<char>>, Set<Seq<char>>)
    decreases graph_dom(g).difference(walked).len(), entries.len(),
{
    if entries.len() == 0 {
        (false, Seq::empty(), walked)
    } else {
        let d = entries[0];
        let rest = entries.drop_first();
        match graph_find(g, d, 0) {
            None => spec_walk(g, cand, rest, walked),
            Some(i) => if walked.contains(d) {
                spec_walk(g, cand, rest, walked)
            } else {
                proof {
                    lemma_graph_find(g, d, 0);
                    lemma_walk_measure_insert(g, walked, d);
                }
                let inner = spec_walk(g, cand, g[i].1, walked.insert(d));
                if walked.subset_of(inner.2) {
                    proof {
                        lemma_walk_measure_subset(g, walked, inner.2);
                    }
                    let here = inner.0 || cand.contains(d);
                    let outer = spec_walk(g, cand, rest, inner.2);
                    (
                        here || outer.0,
                        inner.1 + (if here {
                            seq![d]
                        } else {
                            Seq::empty()
                        }) + outer.1,
                        outer.2,
                    )
                } else {
                    (false, Seq::empty(), walked)
                }
            },
        }
    }
}

/// The walk only ever adds to the walked set.
pub proof fn lemma_walk_monotone(
    g: Seq<(Seq<char>, Seq<Seq<char>>)>,
    cand: Set<Seq<char>>,
    entries: Seq<Seq<char>>,
    walked: Set<Seq<char>>,
)
    ensures
        walked.subset_of(spec_walk(g, cand, entries, walked).2),
    decreases graph_dom(g).difference(walked).len(), entries.len(),
{
    if entries.len() > 0 {
        let d = entries[0];
        let rest = entries.drop_first();
        match graph_find(g, d, 0) {
            None => lemma_walk_monotone(g, cand, rest, walked),
            Some(i) => if walked.contains(d) {
                lemma_walk_monotone(g, cand, rest, walked);
            } else {
                lemma_graph_find(g, d, 0);
                lemma_walk_measure_insert(g, walked, d);
                lemma_walk_monotone(g, cand, g[i].1, walked.insert(d));
                let inner = spec_walk(g, cand, g[i].1, walked.insert(d));
                assert(walked.subset_of(inner.2));
                lemma_walk_measure_subset(g, walked, inner.2);
                lemma_walk_monotone(g, cand, rest, inner.2);
            },
        }
    }
}

/// The value recorded for `k` in a `requires_build` list (first entry
/// wins; absent means `false`).
pub open spec fn spec_requires_build(rb: Seq<(String, bool)>, k: Seq<char>, from: int) -> bool
    decreases rb.len() - from,
{
    if from < 0 || from >= rb.len() {
        false
    } else if rb[from].0@ == k {
        rb[from].1
    } else {
        spec_requires_build(rb, k, from + 1)
    }
}

/// A node is a build candidate when it requires a build, or when a
/// patch is configured for its peer-stripped key.
pub open spec fn spec_is_candidate(rb: Seq<(String, bool)>, patches: Option<Vec<String>>, k: Seq<char>) -> bool {
    spec_requires_build(rb, k, 0) || (patches matches Some(p) && string_seq_views(p@).contains(
        spec_without_peer(k),
    ))
}

/// The set of build candidates.
pub open spec fn spec_candidates(rb: Seq<(String, bool)>, patches: Option<Vec<String>>) -> Set<Seq<char>> {
    Set::new(|k: Seq<char>| spec_is_candidate(rb, patches, k))
}

/// Whether `key` requires a build (the first entry for it decides; an
/// absent key does not).
pub fn requires_build_of(rb: &Vec<(String, bool)>, key: &str) -> (r: bool)
    ensures
        r == spec_requires_build(rb@, key@, 0),
{
    let mut i: usize = 0;
    while i < rb.len()
        invariant
            i <= rb@.len(),
            spec_requires_build(rb@, key@, 0) == spec_requires_build(rb@, key@, i as int),
        decreases rb.len() - i,
    {
        if str_eq(rb[i].0.as_str(), key) {
            return rb[i].1;
        }
        i = i + 1;
    }
    false
}

/// Whether `key` is a build candidate.
pub fn is_build_candidate(rb: &Vec<(String, bool)>, patches: &Option<Vec<String>>, key: &str) -> (r: bool)
    ensures
        r == spec_is_candidate(rb@, *patches, key@),
{
    let needs_build = requires_build_of(rb, key);
    let has_patch = match patches {
        Some(p) => {
            let bare = without_peer(key);
            contains_str(p, bare.as_str())
        },
        None => false,
    };
    assert(needs_build == spec_requires_build(rb@, key@, 0));
    assert(has_patch == (*patches matches Some(p) && string_seq_views(p@).contains(spec_without_peer(key@))));
    needs_build || has_patch
}

/// Position of the adjacency entry for `key`.
pub fn find_child_list(children: &Vec<ChildList>, key: &str) -> (r: Option<usize>)
    ensures
        r matches Some(i) ==> graph_find(graph_view(children@), key@, 0) == Some(i as int),
        r is None ==> graph_find(graph_view(children@), key@, 0) is None,
{
    let ghost g = graph_view(children@);
    let mut i: usize = 0;
    while i < children.len()
        invariant
            g == graph_view(children@),
            i <= children@.len(),
            graph_find(g, key@, 0) == graph_find(g, key@, i as int),
        decreases children.len() - i,
    {
        if str_eq(children[i].key.as_str(), key) {
            return Some(i);
        }
        i = i + 1;
    }
    None
}

/// Walk the graph from `entry_nodes`, appending to `nodes_to_build`
/// the nodes whose subtree (themselves included) holds a build
/// candidate, children before parents. Returns whether any entry node
/// needs to build.
#[verifier::rlimit(50)]
pub fn get_subgraph_to_build(
    entry_nodes: &Vec<String>,
    children: &Vec<ChildList>,
    requires_build: &Vec<(String, bool)>,
    patches: &Option<Vec<String>>,
    nodes_to_build: &mut Vec<String>,
    walked: &mut Vec<String>,
) -> (r: bool)
    ensures
        ({
            let res = spec_walk(
                graph_view(children@),
                spec_candidates(requires_build@, *patches),
                views_of(entry_nodes@),
                views_of(old(walked)@).to_set(),
            );
            &&& r == res.0
            &&& views_of(final(nodes_to_build)@) == views_of(old(nodes_to_build)@) + res.1
            &&& views_of(final(walked)@).to_set() == res.2
        }),
    decreases graph_dom(graph_view(children@)).difference(views_of(old(walked)@).to_set()).len(),
{
    let ghost g = graph_view(children@);
    let ghost cand = spec_candidates(requires_build@, *patches);
    let ghost ev = views_of(entry_nodes@);
    let ghost w0 = views_of(walked@).to_set();
    let ghost n0 = views_of(nodes_to_build@);
    let ghost full = spec_walk(g, cand, ev, w0);
    let ghost mut app: Seq<Seq<char>> = Seq::empty();
    let mut current = false;
    let mut i: usize = 0;
    assert(ev.skip(0) =~= ev);
    assert(n0 + app =~= n0);
    while i < entry_nodes.len()
        invariant
            g == graph_view(children@),
            cand == spec_candidates(requires_build@, *patches),
            ev == views_of(entry_nodes@),
            w0 == views_of(old(walked)@).to_set(),
            n0 == views_of(old(nodes_to_build)@),
            full == spec_walk(g, cand, ev, w0),
            i <= entry_nodes@.len(),
            w0.subset_of(views_of(walked@).to_set()),
            views_of(nodes_to_build@) == n0 + app,
            ({
                let tail = spec_walk(g, cand, ev.skip(i as int), views_of(walked@).to_set());
                full == (current || tail.0, app + tail.1, tail.2)
            }),
        decreases entry_nodes.len() - i,
    {
        let ghost cur = views_of(walked@).to_set();
        let ghost tail = spec_walk(g, cand, ev.skip(i as int), cur);
        let dep = &entry_nodes[i];
        assert(ev.skip(i as int)[0] == dep@);
        assert(ev.skip(i as int).drop_first() =~= ev.skip(i + 1));
        let found = find_child_list(children, dep.as_str());
        match found {
            None => {},
            Some(idx) => {
                let seen = crate::lockfile::contains_str(walked, dep.as_str());
                assert(seen == cur.contains(dep@));
                if !seen {
                    proof {
                        lemma_graph_find(g, dep@, 0);
                        lemma_walk_measure_insert(g, cur, dep@);
                        lemma_walk_measure_subset(g, w0, cur);
                    }
                    let ghost wv = views_of(walked@);
                    walked.push(dep.clone());
                    assert(views_of(walked@) =~= wv.push(dep@));
                    assert(views_of(walked@).to_set() =~= cur.insert(dep@));
                    let ghost inner = spec_walk(g, cand, g[idx as int].1, cur.insert(dep@));
                    let ghost nb = views_of(nodes_to_build@);
                    let child_should_be_built = get_subgraph_to_build(
                        &children[idx].children,
                        children,
                        requires_build,
                        patches,
                        nodes_to_build,
                        walked,
                    );
                    proof {
                        lemma_walk_monotone(g, cand, g[idx as int].1, cur.insert(dep@));
                    }
                    let candidate = is_build_candidate(requires_build, patches, dep.as_str());
                    assert(candidate == cand.contains(dep@));
                    let here = child_should_be_built || candidate;
                    if here {
                        let ghost nb2 = views_of(nodes_to_build@);
                        nodes_to_build.push(dep.clone());
                        assert(views_of(nodes_to_build@) =~= nb2.push(dep@));
                        current = true;
                    }
                    proof {
                        let piece = inner.1 + (if here {
                            seq![dep@]
                        } else {
                            Seq::empty()
                        });
                        assert(views_of(nodes_to_build@) =~= n0 + (app + piece));
                        app = app + piece;
                    }
                }
            },
        }
        i = i + 1;
    }
    assert(ev.skip(entry_nodes@.len() as int) =~= Seq::<Seq<char>>::empty());
    current
}

} // verus!

verus! {

/// None of `cs` is still waiting.
pub open spec fn none_waiting(cs: Seq<Seq<char>>, remaining: Seq<Seq<char>>) -> bool {
    forall|j: int| 0 <= j < cs.len() ==> !remaining.contains(#[trigger] cs[j])
}

/// A node is ready when none of its children is still waiting.
pub open spec fn spec_ready(g: Seq<(Seq<char>, Seq<Seq<char>>)>, remaining: Seq<Seq<char>>, n: Seq<char>) -> bool {
    match graph_find(g, n, 0) {
        Some(i) => none_waiting(g[i].1, remaining),
        None => true,
    }
}

/// The "ready" predicate for a set of waiting nodes.
pub open spec fn ready_pred(g: Seq<(Seq<char>, Seq<Seq<char>>)>, remaining: Seq<Seq<char>>) -> spec_fn(Seq<char>) -> bool {
    |n: Seq<char>| spec_ready(g, remaining, n)
}

/// The "not ready" predicate for a set of waiting nodes.
pub open spec fn waiting_pred(g: Seq<(Seq<char>, Seq<Seq<char>>)>, remaining: Seq<Seq<char>>) -> spec_fn(Seq<char>) -> bool {
    |n: Seq<char>| !spec_ready(g, remaining, n)
}

/// Split `remaining` into chunks, children first: each chunk holds the
/// waiting nodes none of whose children still wait, in their order in
/// `remaining`. When no node is ready (a dependency cycle), everything
/// still waiting forms the last chunk and the order is reported as not
/// safe.
pub open spec fn spec_sequence(g: Seq<(Seq<char>, Seq<Seq<char>>)>, remaining: Seq<Seq<char>>) -> (Seq<Seq<Seq<char>>>, bool)
    decreases remaining.len(),
{
    if remaining.len() == 0 {
        (Seq::empty(), true)
    } else {
        let ready = remaining.filter(ready_pred(g, remaining));
        let rest = remaining.filter(waiting_pred(g, remaining));
        if ready.len() == 0 || rest.len() >= remaining.len() {
            (seq![remaining], false)
        } else {
            let tail = spec_sequence(g, rest);
            (seq![ready] + tail.0, tail.1)
        }
    }
}

/// The views of a list of chunks.
pub open spec fn chunk_views(c: Seq<Vec<String>>) -> Seq<Seq<Seq<char>>> {
    c.map_values(|x: Vec<String>| views_of(x@))
}

/// Whether `n` is ready: none of its children is in `remaining`.
fn is_ready(children: &Vec<ChildList>, remaining: &Vec<String>, n: &str) -> (r: bool)
    ensures
        r == spec_ready(graph_view(children@), views_of(remaining@), n@),
{
    let ghost g = graph_view(children@);
    match find_child_list(children, n) {
        None => true,
        Some(idx) => {
            proof {
                lemma_graph_find(g, n@, 0);
            }
            let cs = &children[idx].children;
            assert(g[idx as int].1 == views_of(cs@));
            let mut j: usize = 0;
            while j < cs.len()
                invariant
                    j <= cs@.len(),
                    g == graph_view(children@),
                    0 <= idx < g.len(),
                    graph_find(g, n@, 0) == Some(idx as int),
                    g[idx as int].1 == views_of(cs@),
                    forall|t: int| 0 <= t < j ==> !views_of(remaining@).contains(#[trigger] views_of(cs@)[t]),
                decreases cs.len() - j,
            {
                if contains_str(remaining, cs[j].as_str()) {
                    assert(views_of(remaining@).contains(g[idx as int].1[j as int]));
                    assert(graph_find(g, n@, 0) == Some(idx as int));
                    assert(!none_waiting(views_of(cs@), views_of(remaining@)));
                    return false;
                }
                j = j + 1;
            }
            true
        },
    }
}

/// Order `nodes` into chunks, children first (see `spec_sequence`).
/// Returns the chunks and whether the order is free of cycles.
pub fn sequence_graph(children: &Vec<ChildList>, nodes: &Vec<String>) -> (r: (Vec<Vec<String>>, bool))
    ensures
        (chunk_views(r.0@), r.1) == spec_sequence(graph_view(children@), views_of(nodes@)),
{
    let ghost g = graph_view(children@);
    let ghost full = spec_sequence(g, views_of(nodes@));
    let mut chunks: Vec<Vec<String>> = Vec::new();
    let mut safe = true;
    let mut remaining: Vec<String> = nodes.clone();
    assert(views_of(remaining@) =~= views_of(nodes@)) by {
        assert forall|t: int| 0 <= t < remaining@.len() implies remaining@[t]@ == nodes@[t]@ by {}
    }
    assert(chunk_views(chunks@) =~= Seq::<Seq<Seq<char>>>::empty());
    while remaining.len() > 0
        invariant
            g == graph_view(children@),
            full == spec_sequence(g, views_of(nodes@)),
            ({
                let tail = spec_sequence(g, views_of(remaining@));
                full == (chunk_views(chunks@) + tail.0, safe && tail.1)
            }),
        decreases remaining.len(),
    {
        let ghost rv = views_of(remaining@);
        let mut ready: Vec<String> = Vec::new();
        let mut rest: Vec<String> = Vec::new();
        let mut k: usize = 0;
        assert(rv.take(0) =~= Seq::<Seq<char>>::empty());
        while k < remaining.len()
            invariant
                g == graph_view(children@),
                rv == views_of(remaining@),
                k <= remaining@.len(),
                views_of(ready@) == rv.take(k as int).filter(ready_pred(g, rv)),
                views_of(rest@) == rv.take(k as int).filter(waiting_pred(g, rv)),
            decreases remaining.len() - k,
        {
            let n = &remaining[k];
            assert(rv.take(k + 1) =~= rv.take(k as int).push(n@));
            proof {
                rv.take(k as int).lemma_filter_push(n@, ready_pred(g, rv));
                rv.take(k as int).lemma_filter_push(n@, waiting_pred(g, rv));
            }
            if is_ready(children, &remaining, n.as_str()) {
                let ghost before = views_of(ready@);
                ready.push(n.clone());
                assert(views_of(ready@) =~= before.push(n@));
            } else {
                let ghost before = views_of(rest@);
                rest.push(n.clone());
                assert(views_of(rest@) =~= before.push(n@));
            }
            k = k + 1;
        }
        assert(rv.take(rv.len() as int) =~= rv);
        let ghost before = chunk_views(chunks@);
        if ready.len() == 0 || rest.len() >= remaining.len() {
            let all = remaining;
            chunks.push(all);
            assert(chunk_views(chunks@) =~= before + seq![rv]);
            safe = false;
            remaining = Vec::new();
            assert(views_of(remaining@) =~= Seq::<Seq<char>>::empty());
        } else {
            chunks.push(ready);
            assert(chunk_views(chunks@) =~= before + seq![rv.filter(ready_pred(g, rv))]);
            remaining = rest;
        }
    }
    assert(views_of(remaining@) =~= Seq::<Seq<char>>::empty());
    assert(chunk_views(chunks@) + Seq::<Seq<Seq<char>>>::empty() =~= chunk_views(chunks@));
    (chunks, safe)
}

/// The build order of a lockfile: walk the snapshot graph from the
/// importers' direct dependencies, keep the nodes whose subtree holds a
/// build candidate, and order them children first.
pub open spec fn spec_build_sequence(
    rb: Seq<(String, bool)>,
    patches: Option<Vec<String>>,
    snapshots: Seq<Snapshot>,
    importers: Seq<Importer>,
) -> Seq<Seq<Seq<char>>> {
    let g = spec_children_map(snapshots);
    let walk = spec_walk(
        g,
        spec_candidates(rb, patches),
        spec_root_dep_paths(importers, snapshots),
        Set::empty(),
    );
    spec_sequence(g, walk.1).0
}

/// Compute topologically ordered chunks of packages that need building.
///
/// `requires_build` lists, per snapshot key, whether the extracted
/// package needs a build; `patches` lists the peer-stripped keys that
/// have a patch configured (`None` when no patches are configured).
/// Chunks are ordered children first; packages not reachable from an
/// importer, or whose subtree holds no build candidate, are left out.
pub fn build_sequence(
    requires_build: &Vec<(String, bool)>,
    patches: &Option<Vec<String>>,
    snapshots: &Vec<Snapshot>,
    importers: &Vec<Importer>,
) -> (r: Vec<Vec<String>>)
    ensures
        chunk_views(r@) == spec_build_sequence(requires_build@, *patches, snapshots@, importers@),
{
    let children = build_children_map(snapshots);
    let roots = collect_root_dep_paths(importers, snapshots);
    let mut nodes_to_build: Vec<String> = Vec::new();
    let mut walked: Vec<String> = Vec::new();
    assert(views_of(walked@).to_set() =~= Set::<Seq<char>>::empty());
    get_subgraph_to_build(&roots, &children, requires_build, patches, &mut nodes_to_build, &mut walked);
    assert(views_of(nodes_to_build@) =~= Seq::<Seq<char>>::empty() + views_of(nodes_to_build@));
    if nodes_to_build.len() == 0 {
        return Vec::new();
    }
    let (chunks, _safe) = sequence_graph(&children, &nodes_to_build);
    chunks
}

} // verus!

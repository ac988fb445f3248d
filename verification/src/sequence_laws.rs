//! Laws of the build order: every package to build appears exactly
//! once, children run in an earlier chunk than their parents, and the
//! members of one chunk are independent of each other.
use vstd::prelude::*;
use vstd::multiset::Multiset;
use crate::build_sequence::{
    graph_dom, graph_find, lemma_graph_find, lemma_walk_measure_insert, lemma_walk_measure_subset, lemma_walk_monotone,
    none_waiting, ready_pred, spec_build_sequence, spec_candidates, spec_children_map, spec_ready, spec_root_dep_paths,
    spec_sequence, spec_walk, waiting_pred, dedup_into, dep_root_keys, importer_dep_key, importers_deps, opt_deps,
    spec_is_candidate,
};
use crate::text::{insert_pos, spec_sort};
use crate::build_modules::{key_verdict, spec_ignored, AllowBuildPolicy};
use crate::build_sequence::spec_requires_build;
use crate::lockfile::{snapshot_keys, spec_without_peer, Importer, ImporterDep, ImporterDepVersion, Snapshot};

verus! {

broadcast use vstd::seq_lib::group_seq_properties;

/// The nodes a node of the graph points at.
pub open spec fn graph_children(g: Seq<(Seq<char>, Seq<Seq<char>>)>, n: Seq<char>) -> Seq<Seq<char>> {
    match graph_find(g, n, 0) {
        Some(i) => g[i].1,
        None => Seq::empty(),
    }
}

proof fn lemma_partition_multiset(
    s: Seq<Seq<char>>,
    g: Seq<(Seq<char>, Seq<Seq<char>>)>,
    rem: Seq<Seq<char>>,
)
    ensures
        s.filter(ready_pred(g, rem)).to_multiset().add(s.filter(waiting_pred(g, rem)).to_multiset())
            == s.to_multiset(),
    decreases s.len(),
{
    broadcast use vstd::seq_lib::to_multiset_build;
    let p = ready_pred(g, rem);
    let q = waiting_pred(g, rem);
    if s.len() == 0 {
        assert(s.filter(p) =~= Seq::<Seq<char>>::empty());
        assert(s.filter(q) =~= Seq::<Seq<char>>::empty());
        assert(s.to_multiset() =~= Multiset::empty());
        assert(s.filter(p).to_multiset() =~= Multiset::empty());
        assert(s.filter(q).to_multiset() =~= Multiset::empty());
    } else {
        let t = s.drop_last();
        let x = s.last();
        assert(s =~= t.push(x));
        lemma_partition_multiset(t, g, rem);
        t.lemma_filter_push(x, p);
        t.lemma_filter_push(x, q);
        if p(x) {
            assert(s.filter(p).to_multiset() == t.filter(p).to_multiset().insert(x));
            assert(s.filter(q) == t.filter(q));
        } else {
            assert(s.filter(q).to_multiset() == t.filter(q).to_multiset().insert(x));
            assert(s.filter(p) == t.filter(p));
        }
        assert(s.to_multiset() == t.to_multiset().insert(x));
        assert(s.filter(p).to_multiset().add(s.filter(q).to_multiset()) =~= s.to_multiset());
    }
}

proof fn lemma_flatten_cons(a: Seq<Seq<char>>, t: Seq<Seq<Seq<char>>>)
    ensures
        (seq![a] + t).flatten() == a + t.flatten(),
{
    let s = seq![a] + t;
    assert(s.first() == a);
    assert(s.drop_first() =~= t);
}

/// Every node waiting to be ordered appears in the chunks exactly as
/// often as it waits: the chunks partition the nodes.
pub proof fn lemma_sequence_partition(g: Seq<(Seq<char>, Seq<Seq<char>>)>, remaining: Seq<Seq<char>>)
    ensures
        spec_sequence(g, remaining).0.flatten().to_multiset() == remaining.to_multiset(),
    decreases remaining.len(),
{
    if remaining.len() == 0 {
        assert(spec_sequence(g, remaining).0 =~= Seq::<Seq<Seq<char>>>::empty());
    } else {
        let ready = remaining.filter(ready_pred(g, remaining));
        let rest = remaining.filter(waiting_pred(g, remaining));
        if ready.len() == 0 || rest.len() >= remaining.len() {
            lemma_flatten_cons(remaining, Seq::empty());
            assert(remaining + Seq::<Seq<char>>::empty() =~= remaining);
        } else {
            lemma_sequence_partition(g, rest);
            let tail = spec_sequence(g, rest);
            lemma_flatten_cons(ready, tail.0);
            lemma_partition_multiset(remaining, g, remaining);
            vstd::seq_lib::lemma_multiset_commutative(ready, tail.0.flatten());
        }
    }
}

proof fn lemma_not_waiting_is_ready(g: Seq<(Seq<char>, Seq<Seq<char>>)>, rem: Seq<Seq<char>>, c: Seq<char>)
    requires
        rem.contains(c),
        !rem.filter(waiting_pred(g, rem)).contains(c),
    ensures
        rem.filter(ready_pred(g, rem)).contains(c),
{
    let i = choose|i: int| 0 <= i < rem.len() && rem[i] == c;
    if !spec_ready(g, rem, c) {
        rem.lemma_filter_contains(waiting_pred(g, rem), i);
    }
    rem.lemma_filter_contains(ready_pred(g, rem), i);
}

/// When the order is safe (no cycle), a child of a node waiting to be
/// ordered lands in an earlier chunk than the node: children are built
/// before their parents.
pub proof fn lemma_sequence_children_first(
    g: Seq<(Seq<char>, Seq<Seq<char>>)>,
    remaining: Seq<Seq<char>>,
    i: int,
    j: int,
    c: Seq<char>,
)
    requires
        spec_sequence(g, remaining).1,
        0 <= i < spec_sequence(g, remaining).0.len(),
        0 <= j < spec_sequence(g, remaining).0[i].len(),
        graph_children(g, spec_sequence(g, remaining).0[i][j]).contains(c),
        remaining.contains(c),
    ensures
        exists|i2: int| 0 <= i2 < i && (#[trigger] spec_sequence(g, remaining).0[i2]).contains(c),
    decreases remaining.len(),
{
    let ready = remaining.filter(ready_pred(g, remaining));
    let rest = remaining.filter(waiting_pred(g, remaining));
    let chunks = spec_sequence(g, remaining).0;
    if remaining.len() > 0 && !(ready.len() == 0 || rest.len() >= remaining.len()) {
        let tail = spec_sequence(g, rest);
        assert(chunks == seq![ready] + tail.0);
        if i == 0 {
            let n = ready[j];
            remaining.lemma_filter_pred(ready_pred(g, remaining), j);
            assert(spec_ready(g, remaining, n));
            let k = graph_find(g, n, 0)->0;
            let t = choose|t: int| 0 <= t < g[k].1.len() && g[k].1[t] == c;
            assert(!none_waiting(g[k].1, remaining));
        } else {
            assert(chunks[i] == tail.0[i - 1]);
            if rest.contains(c) {
                lemma_sequence_children_first(g, rest, i - 1, j, c);
                let i2 = choose|i2: int| 0 <= i2 < i - 1 && (#[trigger] tail.0[i2]).contains(c);
                assert(chunks[i2 + 1] == tail.0[i2]);
            } else {
                lemma_not_waiting_is_ready(g, remaining, c);
                assert(chunks[0] == ready);
            }
        }
    }
}

/// When the order is safe, no member of a chunk is a child of another
/// member of the same chunk: a chunk's members can be built
/// concurrently.
pub proof fn lemma_sequence_chunk_independent(
    g: Seq<(Seq<char>, Seq<Seq<char>>)>,
    remaining: Seq<Seq<char>>,
    i: int,
    j: int,
    k: int,
)
    requires
        spec_sequence(g, remaining).1,
        0 <= i < spec_sequence(g, remaining).0.len(),
        0 <= j < spec_sequence(g, remaining).0[i].len(),
        0 <= k < spec_sequence(g, remaining).0[i].len(),
    ensures
        !graph_children(g, spec_sequence(g, remaining).0[i][j]).contains(
            spec_sequence(g, remaining).0[i][k],
        ),
    decreases remaining.len(),
{
    let ready = remaining.filter(ready_pred(g, remaining));
    let rest = remaining.filter(waiting_pred(g, remaining));
    let chunks = spec_sequence(g, remaining).0;
    if remaining.len() > 0 && !(ready.len() == 0 || rest.len() >= remaining.len()) {
        let tail = spec_sequence(g, rest);
        assert(chunks == seq![ready] + tail.0);
        if i == 0 {
            let n = ready[j];
            let m = ready[k];
            remaining.lemma_filter_pred(ready_pred(g, remaining), j);
            assert(ready.contains(m));
            remaining.lemma_filter_contains_rev(ready_pred(g, remaining), m);
            if graph_children(g, n).contains(m) {
                let x = graph_find(g, n, 0)->0;
                let t = choose|t: int| 0 <= t < g[x].1.len() && g[x].1[t] == m;
                assert(!none_waiting(g[x].1, remaining));
            }
        } else {
            assert(chunks[i] == tail.0[i - 1]);
            lemma_sequence_chunk_independent(g, rest, i - 1, j, k);
        }
    }
}


/// A node the walk lists: a node of the graph that is a build
/// candidate, or one of whose children the walk lists too.
pub open spec fn listed_for_a_reason(
    g: Seq<(Seq<char>, Seq<Seq<char>>)>,
    cand: Set<Seq<char>>,
    out: Seq<Seq<char>>,
    x: Seq<char>,
) -> bool {
    &&& graph_dom(g).contains(x)
    &&& (cand.contains(x) || exists|c: Seq<char>| #[trigger] graph_children(g, x).contains(c) && out.contains(c))
}

proof fn lemma_walk_props(
    g: Seq<(Seq<char>, Seq<Seq<char>>)>,
    cand: Set<Seq<char>>,
    entries: Seq<Seq<char>>,
    walked: Set<Seq<char>>,
)
    ensures
        ({
            let r = spec_walk(g, cand, entries, walked);
            &&& r.1.no_duplicates()
            &&& forall|k: int|
                0 <= k < r.1.len() ==> !walked.contains(#[trigger] r.1[k]) && r.2.contains(r.1[k])
                    && listed_for_a_reason(g, cand, r.1, r.1[k])
            &&& r.0 ==> exists|k: int| 0 <= k < r.1.len() && entries.contains(#[trigger] r.1[k])
        }),
    decreases graph_dom(g).difference(walked).len(), entries.len(),
{
    if entries.len() > 0 {
        let d = entries[0];
        let rest = entries.drop_first();
        assert forall|x: Seq<char>| rest.contains(x) implies entries.contains(x) by {
            let t = choose|t: int| 0 <= t < rest.len() && rest[t] == x;
            assert(entries[t + 1] == x);
        }
        match graph_find(g, d, 0) {
            None => {
                lemma_walk_props(g, cand, rest, walked);
            },
            Some(i) => if walked.contains(d) {
                lemma_walk_props(g, cand, rest, walked);
            } else {
                lemma_graph_find(g, d, 0);
                lemma_walk_measure_insert(g, walked, d);
                let w1 = walked.insert(d);
                lemma_walk_props(g, cand, g[i].1, w1);
                lemma_walk_monotone(g, cand, g[i].1, w1);
                let inner = spec_walk(g, cand, g[i].1, w1);
                assert(walked.subset_of(inner.2));
                lemma_walk_measure_subset(g, walked, inner.2);
                lemma_walk_props(g, cand, rest, inner.2);
                lemma_walk_monotone(g, cand, rest, inner.2);
                let outer = spec_walk(g, cand, rest, inner.2);
                let here = inner.0 || cand.contains(d);
                let mid: Seq<Seq<char>> = if here { seq![d] } else { Seq::empty() };
                let out = inner.1 + mid + outer.1;
                let r = spec_walk(g, cand, entries, walked);
                assert(r.1 == out);
                assert(r.2 == outer.2);
                assert(graph_children(g, d) == g[i].1);
                // Each part's members, located in the whole.
                assert forall|k: int| 0 <= k < inner.1.len() implies out[k] == inner.1[k] by {}
                assert forall|k: int| 0 <= k < outer.1.len() implies out[inner.1.len() + mid.len() + k] == outer.1[k] by {}
                assert forall|x: Seq<char>| inner.1.contains(x) implies out.contains(x) by {
                    let t = choose|t: int| 0 <= t < inner.1.len() && inner.1[t] == x;
                    assert(out[t] == x);
                }
                assert forall|x: Seq<char>| outer.1.contains(x) implies out.contains(x) by {
                    let t = choose|t: int| 0 <= t < outer.1.len() && outer.1[t] == x;
                    assert(out[inner.1.len() + mid.len() + t] == x);
                }
                // No repeats.
                assert(inner.2.contains(d));
                assert((inner.1 + mid).no_duplicates()) by {
                    vstd::seq_lib::lemma_no_dup_in_concat(inner.1, mid);
                }
                assert forall|a: int, b: int| 0 <= a < (inner.1 + mid).len() && 0 <= b < outer.1.len() implies (inner.1
                    + mid)[a] != outer.1[b] by {
                    if a < inner.1.len() {
                        assert((inner.1 + mid)[a] == inner.1[a]);
                        assert(inner.2.contains(inner.1[a]));
                    } else {
                        assert((inner.1 + mid)[a] == d);
                    }
                    assert(!inner.2.contains(outer.1[b]));
                }
                vstd::seq_lib::lemma_no_dup_in_concat(inner.1 + mid, outer.1);
                assert(inner.1 + mid + outer.1 == out);
                // Each member: new, walked, and listed for a reason.
                assert forall|k: int| 0 <= k < out.len() implies !walked.contains(#[trigger] out[k]) && outer.2.contains(
                    out[k],
                ) && listed_for_a_reason(g, cand, out, out[k]) by {
                    if k < inner.1.len() {
                        let x = inner.1[k];
                        assert(out[k] == x);
                        assert(listed_for_a_reason(g, cand, inner.1, x));
                        if !cand.contains(x) {
                            let c = choose|c: Seq<char>| #[trigger] graph_children(g, x).contains(c) && inner.1.contains(c);
                            assert(out.contains(c));
                        }
                    } else if k < inner.1.len() + mid.len() {
                        assert(out[k] == d);
                        if !cand.contains(d) {
                            assert(inner.0);
                            let t = choose|t: int| 0 <= t < inner.1.len() && g[i].1.contains(#[trigger] inner.1[t]);
                            assert(out.contains(inner.1[t]));
                            assert(graph_children(g, d).contains(inner.1[t]));
                        }
                    } else {
                        let t = k - inner.1.len() - mid.len();
                        let x = outer.1[t];
                        assert(out[k] == x);
                        assert(listed_for_a_reason(g, cand, outer.1, x));
                        if !cand.contains(x) {
                            let c = choose|c: Seq<char>| #[trigger] graph_children(g, x).contains(c) && outer.1.contains(c);
                            assert(out.contains(c));
                        }
                    }
                }
                // A join is witnessed by an entry.
                if r.0 {
                    if here {
                        assert(out[inner.1.len() as int] == d);
                        assert(entries.contains(d));
                    } else {
                        let t = choose|t: int| 0 <= t < outer.1.len() && rest.contains(#[trigger] outer.1[t]);
                        assert(out[inner.1.len() + mid.len() + t] == outer.1[t]);
                    }
                }
            },
        }
    }
}

/// The packages that the build order lists are exactly the ones the
/// walk from the importers' direct dependencies selects, each once:
/// snapshots of the lockfile that are build candidates (they need a
/// build or have a patch) or that have a listed child.
pub proof fn law_build_order_lists_each_selected_once(
    rb: Seq<(String, bool)>,
    patches: Option<Vec<String>>,
    snapshots: Seq<Snapshot>,
    importers: Seq<Importer>,
)
    ensures
        ({
            let g = spec_children_map(snapshots);
            let cand = spec_candidates(rb, patches);
            let selected = spec_walk(g, cand, spec_root_dep_paths(importers, snapshots), Set::empty()).1;
            let listed = spec_build_sequence(rb, patches, snapshots, importers).flatten();
            &&& listed.to_multiset() == selected.to_multiset()
            &&& listed.no_duplicates()
            &&& forall|k: int| 0 <= k < listed.len() ==> listed_for_a_reason(g, cand, listed, #[trigger] listed[k])
        }),
{
    let g = spec_children_map(snapshots);
    let cand = spec_candidates(rb, patches);
    let selected = spec_walk(g, cand, spec_root_dep_paths(importers, snapshots), Set::empty()).1;
    let listed = spec_build_sequence(rb, patches, snapshots, importers).flatten();
    lemma_sequence_partition(g, selected);
    lemma_walk_props(g, cand, spec_root_dep_paths(importers, snapshots), Set::empty());
    selected.to_multiset_ensures();
    listed.to_multiset_ensures();
    selected.lemma_multiset_has_no_duplicates();
    assert forall|x: Seq<char>| listed.to_multiset().contains(x) implies listed.to_multiset().count(x) == 1 by {}
    listed.lemma_multiset_has_no_duplicates_conv();
    assert forall|x: Seq<char>| listed.contains(x) <==> selected.contains(x) by {
        assert(listed.contains(x) <==> listed.to_multiset().count(x) > 0);
        assert(selected.contains(x) <==> selected.to_multiset().count(x) > 0);
    }
    assert forall|k: int| 0 <= k < listed.len() implies listed_for_a_reason(g, cand, listed, #[trigger] listed[k]) by {
        let x = listed[k];
        assert(listed.contains(x));
        let t = choose|t: int| 0 <= t < selected.len() && selected[t] == x;
        assert(listed_for_a_reason(g, cand, selected, selected[t]));
        if !cand.contains(x) {
            let c = choose|c: Seq<char>| #[trigger] graph_children(g, x).contains(c) && selected.contains(c);
            assert(listed.contains(c));
        }
    }
}

proof fn lemma_build_order_children_first_when_safe(
    rb: Seq<(String, bool)>,
    patches: Option<Vec<String>>,
    snapshots: Seq<Snapshot>,
    importers: Seq<Importer>,
    i: int,
    j: int,
    c: Seq<char>,
)
    requires
        ({
            let g = spec_children_map(snapshots);
            let selected = spec_walk(g, spec_candidates(rb, patches), spec_root_dep_paths(importers, snapshots), Set::empty()).1;
            spec_sequence(g, selected).1
        }),
        0 <= i < spec_build_sequence(rb, patches, snapshots, importers).len(),
        0 <= j < spec_build_sequence(rb, patches, snapshots, importers)[i].len(),
        graph_children(spec_children_map(snapshots), spec_build_sequence(rb, patches, snapshots, importers)[i][j]).contains(c),
        spec_build_sequence(rb, patches, snapshots, importers).flatten().contains(c),
    ensures
        exists|i2: int| 0 <= i2 < i && (#[trigger] spec_build_sequence(rb, patches, snapshots, importers)[i2]).contains(c),
{
    let g = spec_children_map(snapshots);
    let selected = spec_walk(g, spec_candidates(rb, patches), spec_root_dep_paths(importers, snapshots), Set::empty()).1;
    let listed = spec_build_sequence(rb, patches, snapshots, importers).flatten();
    lemma_sequence_partition(g, selected);
    selected.to_multiset_ensures();
    listed.to_multiset_ensures();
    assert(listed.to_multiset().count(c) > 0);
    assert(selected.contains(c));
    lemma_sequence_children_first(g, selected, i, j, c);
}

/// The builds reported as ignored are those of lockfile snapshots in the
/// build order that require a build and that no rule of the policy
/// names, each taken without peers.
pub proof fn law_ignored_builds_come_from_lockfile_snapshots(
    rb: Seq<(String, bool)>,
    snapshots: Seq<Snapshot>,
    importers: Seq<Importer>,
    policy: AllowBuildPolicy,
    ignored: Seq<char>,
)
    requires
        spec_ignored(spec_build_sequence(rb, None, snapshots, importers).flatten(), rb, policy).contains(ignored),
    ensures
        exists|k: Seq<char>| #[trigger] snapshot_keys(snapshots).contains(k) && spec_requires_build(rb, k, 0)
            && key_verdict(policy, k) is None && ignored == spec_without_peer(k),
{
    let listed = spec_build_sequence(rb, None, snapshots, importers).flatten();
    let g = spec_children_map(snapshots);
    law_build_order_lists_each_selected_once(rb, None, snapshots, importers);
    let k = choose|k: Seq<char>| #[trigger] listed.contains(k) && spec_requires_build(rb, k, 0)
        && key_verdict(policy, k) is None && ignored == spec_without_peer(k);
    let t = choose|t: int| 0 <= t < listed.len() && listed[t] == k;
    assert(listed_for_a_reason(g, spec_candidates(rb, None), listed, listed[t]));
    assert(graph_dom(g).contains(k));
    let keys_of = g.map_values(|e: (Seq<char>, Seq<Seq<char>>)| e.0);
    assert(keys_of.to_set().contains(k));
    assert(keys_of.contains(k));
    let j = choose|j: int| 0 <= j < keys_of.len() && #[trigger] keys_of[j] == k;
    assert(snapshot_keys(snapshots)[j] == k);
    assert(snapshot_keys(snapshots).contains(k));
}

/// `x` is reached from `src` in at most `n` dependency edges.
pub open spec fn reaches_within(
    g: Seq<(Seq<char>, Seq<Seq<char>>)>,
    src: Seq<Seq<char>>,
    x: Seq<char>,
    n: nat,
) -> bool
    decreases n,
{
    if n == 0 {
        src.contains(x)
    } else {
        reaches_within(g, src, x, (n - 1) as nat) || exists|p: Seq<char>|
            reaches_within(g, src, p, (n - 1) as nat) && #[trigger] graph_children(g, p).contains(x)
    }
}

/// `x` is reached from `src` through dependency edges.
pub open spec fn reachable(g: Seq<(Seq<char>, Seq<Seq<char>>)>, src: Seq<Seq<char>>, x: Seq<char>) -> bool {
    exists|n: nat| #[trigger] reaches_within(g, src, x, n)
}

proof fn lemma_reaches_wider_source(
    g: Seq<(Seq<char>, Seq<Seq<char>>)>,
    s1: Seq<Seq<char>>,
    s2: Seq<Seq<char>>,
    x: Seq<char>,
    n: nat,
)
    requires
        forall|y: Seq<char>| s1.contains(y) ==> s2.contains(y),
        reaches_within(g, s1, x, n),
    ensures
        reaches_within(g, s2, x, n),
    decreases n,
{
    if n > 0 {
        if reaches_within(g, s1, x, (n - 1) as nat) {
            lemma_reaches_wider_source(g, s1, s2, x, (n - 1) as nat);
        } else {
            let p = choose|p: Seq<char>| reaches_within(g, s1, p, (n - 1) as nat) && #[trigger] graph_children(g, p).contains(x);
            lemma_reaches_wider_source(g, s1, s2, p, (n - 1) as nat);
        }
    }
}

proof fn lemma_reaches_through_child(
    g: Seq<(Seq<char>, Seq<Seq<char>>)>,
    src: Seq<Seq<char>>,
    d: Seq<char>,
    x: Seq<char>,
    n: nat,
)
    requires
        src.contains(d),
        reaches_within(g, graph_children(g, d), x, n),
    ensures
        reaches_within(g, src, x, n + 1),
    decreases n,
{
    assert(reaches_within(g, src, d, 0));
    if n == 0 {
        assert(graph_children(g, d).contains(x));
    } else if reaches_within(g, graph_children(g, d), x, (n - 1) as nat) {
        lemma_reaches_through_child(g, src, d, x, (n - 1) as nat);
    } else {
        let p = choose|p: Seq<char>| reaches_within(g, graph_children(g, d), p, (n - 1) as nat)
            && #[trigger] graph_children(g, p).contains(x);
        lemma_reaches_through_child(g, src, d, p, (n - 1) as nat);
    }
}

proof fn lemma_walk_reachable(
    g: Seq<(Seq<char>, Seq<Seq<char>>)>,
    cand: Set<Seq<char>>,
    entries: Seq<Seq<char>>,
    walked: Set<Seq<char>>,
)
    ensures
        forall|k: int| 0 <= k < spec_walk(g, cand, entries, walked).1.len()
            ==> reachable(g, entries, #[trigger] spec_walk(g, cand, entries, walked).1[k]),
    decreases graph_dom(g).difference(walked).len(), entries.len(),
{
    if entries.len() > 0 {
        let d = entries[0];
        let rest = entries.drop_first();
        assert forall|x: Seq<char>| rest.contains(x) implies entries.contains(x) by {
            let t = choose|t: int| 0 <= t < rest.len() && rest[t] == x;
            assert(entries[t + 1] == x);
        }
        assert(entries.contains(d)) by {
            assert(entries[0] == d);
        }
        match graph_find(g, d, 0) {
            None => {
                lemma_walk_reachable(g, cand, rest, walked);
                let r = spec_walk(g, cand, rest, walked);
                assert forall|k: int| 0 <= k < r.1.len() implies reachable(g, entries, #[trigger] r.1[k]) by {
                    let n = choose|n: nat| #[trigger] reaches_within(g, rest, r.1[k], n);
                    lemma_reaches_wider_source(g, rest, entries, r.1[k], n);
                }
            },
            Some(i) => if walked.contains(d) {
                lemma_walk_reachable(g, cand, rest, walked);
                let r = spec_walk(g, cand, rest, walked);
                assert forall|k: int| 0 <= k < r.1.len() implies reachable(g, entries, #[trigger] r.1[k]) by {
                    let n = choose|n: nat| #[trigger] reaches_within(g, rest, r.1[k], n);
                    lemma_reaches_wider_source(g, rest, entries, r.1[k], n);
                }
            } else {
                lemma_graph_find(g, d, 0);
                lemma_walk_measure_insert(g, walked, d);
                let w1 = walked.insert(d);
                lemma_walk_reachable(g, cand, g[i].1, w1);
                lemma_walk_monotone(g, cand, g[i].1, w1);
                let inner = spec_walk(g, cand, g[i].1, w1);
                assert(walked.subset_of(inner.2));
                lemma_walk_measure_subset(g, walked, inner.2);
                lemma_walk_reachable(g, cand, rest, inner.2);
                let outer = spec_walk(g, cand, rest, inner.2);
                let here = inner.0 || cand.contains(d);
                let mid: Seq<Seq<char>> = if here { seq![d] } else { Seq::empty() };
                let out = inner.1 + mid + outer.1;
                let r = spec_walk(g, cand, entries, walked);
                assert(r.1 == out);
                assert(graph_children(g, d) == g[i].1);
                assert forall|k: int| 0 <= k < out.len() implies reachable(g, entries, #[trigger] out[k]) by {
                    if k < inner.1.len() {
                        assert(out[k] == inner.1[k]);
                        let n = choose|n: nat| #[trigger] reaches_within(g, g[i].1, inner.1[k], n);
                        lemma_reaches_through_child(g, entries, d, inner.1[k], n);
                        assert(reaches_within(g, entries, out[k], n + 1));
                    } else if k < inner.1.len() + mid.len() {
                        assert(out[k] == d);
                        assert(reaches_within(g, entries, out[k], 0));
                    } else {
                        let t = k - inner.1.len() - mid.len();
                        assert(out[k] == outer.1[t]);
                        let n = choose|n: nat| #[trigger] reaches_within(g, rest, outer.1[t], n);
                        lemma_reaches_wider_source(g, rest, entries, outer.1[t], n);
                        assert(reaches_within(g, entries, out[k], n));
                    }
                }
            },
        }
    }
}

/// Every package the build order lists is reached from a direct
/// dependency of some importer through `dependencies` /
/// `optionalDependencies` edges of the lockfile's snapshots.
pub proof fn law_build_order_reaches_from_importers(
    rb: Seq<(String, bool)>,
    patches: Option<Vec<String>>,
    snapshots: Seq<Snapshot>,
    importers: Seq<Importer>,
    k: int,
)
    requires
        0 <= k < spec_build_sequence(rb, patches, snapshots, importers).flatten().len(),
    ensures
        reachable(
            spec_children_map(snapshots),
            spec_root_dep_paths(importers, snapshots),
            spec_build_sequence(rb, patches, snapshots, importers).flatten()[k],
        ),
{
    let g = spec_children_map(snapshots);
    let cand = spec_candidates(rb, patches);
    let roots = spec_root_dep_paths(importers, snapshots);
    let selected = spec_walk(g, cand, roots, Set::empty()).1;
    let listed = spec_build_sequence(rb, patches, snapshots, importers).flatten();
    law_build_order_lists_each_selected_once(rb, patches, snapshots, importers);
    selected.to_multiset_ensures();
    listed.to_multiset_ensures();
    assert(listed.contains(listed[k]));
    assert(selected.contains(listed[k])) by {
        assert(listed.to_multiset().count(listed[k]) > 0);
    }
    let t = choose|t: int| 0 <= t < selected.len() && selected[t] == listed[k];
    lemma_walk_reachable(g, cand, roots, Set::empty());
    assert(reachable(g, roots, selected[t]));
}

/// `rank` numbers the packages `nodes` so that a child among them always
/// has a smaller number than its parent.
pub open spec fn ranked_by(
    g: Seq<(Seq<char>, Seq<Seq<char>>)>,
    nodes: Seq<Seq<char>>,
    rank: spec_fn(Seq<char>) -> nat,
) -> bool {
    forall|p: Seq<char>, c: Seq<char>|
        nodes.contains(p) && nodes.contains(c) && #[trigger] graph_children(g, p).contains(c) ==> rank(c) < rank(p)
}

/// The dependency graph among `nodes` has no cycle: the packages can be
/// numbered so that every child comes before its parent.
pub open spec fn acyclic_on(g: Seq<(Seq<char>, Seq<Seq<char>>)>, nodes: Seq<Seq<char>>) -> bool {
    exists|rank: spec_fn(Seq<char>) -> nat| #[trigger] ranked_by(g, nodes, rank)
}

proof fn lemma_min_rank(s: Seq<Seq<char>>, rank: spec_fn(Seq<char>) -> nat) -> (i: int)
    requires
        s.len() > 0,
    ensures
        0 <= i < s.len(),
        forall|j: int| 0 <= j < s.len() ==> rank(#[trigger] s[j]) >= rank(s[i]),
    decreases s.len(),
{
    if s.len() > 1 {
        let t = s.drop_last();
        let i = lemma_min_rank(t, rank);
        if rank(s.last()) < rank(t[i]) {
            let w = s.len() - 1;
            assert forall|j: int| 0 <= j < s.len() implies rank(#[trigger] s[j]) >= rank(s[w]) by {
                if j < s.len() - 1 {
                    assert(s[j] == t[j]);
                }
            }
            w
        } else {
            assert(s[i] == t[i]);
            assert forall|j: int| 0 <= j < s.len() implies rank(#[trigger] s[j]) >= rank(s[i]) by {
                if j < s.len() - 1 {
                    assert(s[j] == t[j]);
                }
            }
            i
        }
    } else {
        0
    }
}

/// Without a cycle among the waiting nodes, the sequencing never gets
/// stuck: some node is always ready.
proof fn lemma_acyclic_sequence_safe(
    g: Seq<(Seq<char>, Seq<Seq<char>>)>,
    remaining: Seq<Seq<char>>,
    rank: spec_fn(Seq<char>) -> nat,
)
    requires
        ranked_by(g, remaining, rank),
    ensures
        spec_sequence(g, remaining).1,
    decreases remaining.len(),
{
    if remaining.len() > 0 {
        let ready = remaining.filter(ready_pred(g, remaining));
        let rest = remaining.filter(waiting_pred(g, remaining));
        let i = lemma_min_rank(remaining, rank);
        let n = remaining[i];
        assert(spec_ready(g, remaining, n)) by {
            match graph_find(g, n, 0) {
                Some(k) => {
                    lemma_graph_find(g, n, 0);
                    assert(graph_children(g, n) == g[k].1);
                    assert forall|t: int| 0 <= t < g[k].1.len() implies !remaining.contains(#[trigger] g[k].1[t]) by {
                        let c = g[k].1[t];
                        if remaining.contains(c) {
                            assert(graph_children(g, n).contains(c));
                            assert(remaining.contains(n));
                            assert(rank(c) < rank(n));
                            let jj = choose|jj: int| 0 <= jj < remaining.len() && remaining[jj] == c;
                            assert(rank(remaining[jj]) >= rank(n));
                        }
                    }
                },
                None => {},
            }
        }
        remaining.lemma_filter_contains(ready_pred(g, remaining), i);
        assert(ready.len() > 0);
        lemma_partition_multiset(remaining, g, remaining);
        remaining.to_multiset_ensures();
        ready.to_multiset_ensures();
        rest.to_multiset_ensures();
        assert(rest.len() < remaining.len());
        assert forall|p: Seq<char>, c: Seq<char>|
            rest.contains(p) && rest.contains(c) && #[trigger] graph_children(g, p).contains(c) implies rank(c) < rank(p) by {
            let a = choose|a: int| 0 <= a < rest.len() && rest[a] == p;
            let b = choose|b: int| 0 <= b < rest.len() && rest[b] == c;
            remaining.lemma_filter_pred(waiting_pred(g, remaining), a);
            remaining.lemma_filter_pred(waiting_pred(g, remaining), b);
            remaining.lemma_filter_contains_rev(waiting_pred(g, remaining), p);
            remaining.lemma_filter_contains_rev(waiting_pred(g, remaining), c);
        }
        lemma_acyclic_sequence_safe(g, rest, rank);
    }
}

/// When the dependency graph among the listed packages has no cycle, a
/// listed child of a listed package is listed in an earlier chunk:
/// children are built before their parents.
pub proof fn law_build_order_children_first(
    rb: Seq<(String, bool)>,
    patches: Option<Vec<String>>,
    snapshots: Seq<Snapshot>,
    importers: Seq<Importer>,
    i: int,
    j: int,
    c: Seq<char>,
)
    requires
        acyclic_on(spec_children_map(snapshots), spec_build_sequence(rb, patches, snapshots, importers).flatten()),
        0 <= i < spec_build_sequence(rb, patches, snapshots, importers).len(),
        0 <= j < spec_build_sequence(rb, patches, snapshots, importers)[i].len(),
        graph_children(spec_children_map(snapshots), spec_build_sequence(rb, patches, snapshots, importers)[i][j]).contains(c),
        spec_build_sequence(rb, patches, snapshots, importers).flatten().contains(c),
    ensures
        exists|i2: int| 0 <= i2 < i && (#[trigger] spec_build_sequence(rb, patches, snapshots, importers)[i2]).contains(c),
{
    let g = spec_children_map(snapshots);
    let selected = spec_walk(g, spec_candidates(rb, patches), spec_root_dep_paths(importers, snapshots), Set::empty()).1;
    let listed = spec_build_sequence(rb, patches, snapshots, importers).flatten();
    let rank = choose|rank: spec_fn(Seq<char>) -> nat| #[trigger] ranked_by(g, listed, rank);
    lemma_sequence_partition(g, selected);
    selected.to_multiset_ensures();
    listed.to_multiset_ensures();
    assert forall|p: Seq<char>, q: Seq<char>|
        selected.contains(p) && selected.contains(q) && #[trigger] graph_children(g, p).contains(q) implies rank(q) < rank(p) by {
        assert(selected.to_multiset().count(p) > 0);
        assert(selected.to_multiset().count(q) > 0);
        assert(listed.contains(p));
        assert(listed.contains(q));
    }
    lemma_acyclic_sequence_safe(g, selected, rank);
    lemma_build_order_children_first_when_safe(rb, patches, snapshots, importers, i, j, c);
}

/// Some package reached from `x` (`x` included) is a build candidate.
pub open spec fn reaches_candidate(g: Seq<(Seq<char>, Seq<Seq<char>>)>, cand: Set<Seq<char>>, x: Seq<char>) -> bool {
    exists|y: Seq<char>, n: nat| #[trigger] reaches_within(g, seq![x], y, n) && cand.contains(y)
}

/// `out[k]` is a candidate, or a child of it stands earlier in `out`.
pub open spec fn earlier_reason(
    g: Seq<(Seq<char>, Seq<Seq<char>>)>,
    cand: Set<Seq<char>>,
    out: Seq<Seq<char>>,
    k: int,
) -> bool {
    cand.contains(out[k]) || exists|t: int| 0 <= t < k && #[trigger] graph_children(g, out[k]).contains(out[t])
}

proof fn lemma_walk_ordered(
    g: Seq<(Seq<char>, Seq<Seq<char>>)>,
    cand: Set<Seq<char>>,
    entries: Seq<Seq<char>>,
    walked: Set<Seq<char>>,
)
    ensures
        forall|k: int| 0 <= k < spec_walk(g, cand, entries, walked).1.len()
            ==> #[trigger] earlier_reason(g, cand, spec_walk(g, cand, entries, walked).1, k),
    decreases graph_dom(g).difference(walked).len(), entries.len(),
{
    if entries.len() > 0 {
        let d = entries[0];
        let rest = entries.drop_first();
        match graph_find(g, d, 0) {
            None => {
                lemma_walk_ordered(g, cand, rest, walked);
                assert(spec_walk(g, cand, entries, walked) == spec_walk(g, cand, rest, walked));
            },
            Some(i) => if walked.contains(d) {
                lemma_walk_ordered(g, cand, rest, walked);
                assert(spec_walk(g, cand, entries, walked) == spec_walk(g, cand, rest, walked));
            } else {
                lemma_graph_find(g, d, 0);
                lemma_walk_measure_insert(g, walked, d);
                let w1 = walked.insert(d);
                lemma_walk_ordered(g, cand, g[i].1, w1);
                lemma_walk_props(g, cand, g[i].1, w1);
                lemma_walk_monotone(g, cand, g[i].1, w1);
                let inner = spec_walk(g, cand, g[i].1, w1);
                assert(walked.subset_of(inner.2));
                lemma_walk_measure_subset(g, walked, inner.2);
                lemma_walk_ordered(g, cand, rest, inner.2);
                let outer = spec_walk(g, cand, rest, inner.2);
                let here = inner.0 || cand.contains(d);
                let mid: Seq<Seq<char>> = if here { seq![d] } else { Seq::empty() };
                let out = inner.1 + mid + outer.1;
                let r = spec_walk(g, cand, entries, walked);
                assert(r.1 == out);
                assert(graph_children(g, d) == g[i].1);
                let off = inner.1.len() + mid.len();
                assert forall|k: int| 0 <= k < out.len() implies #[trigger] earlier_reason(g, cand, out, k) by {
                    if k < inner.1.len() {
                        assert(out[k] == inner.1[k]);
                        assert(earlier_reason(g, cand, inner.1, k));
                        if !cand.contains(out[k]) {
                            let t = choose|t: int| 0 <= t < k && #[trigger] graph_children(g, inner.1[k]).contains(inner.1[t]);
                            assert(out[t] == inner.1[t]);
                        }
                    } else if k < off {
                        assert(out[k] == d);
                        if !cand.contains(d) {
                            let t = choose|t: int| 0 <= t < inner.1.len() && g[i].1.contains(#[trigger] inner.1[t]);
                            assert(out[t] == inner.1[t]);
                            assert(graph_children(g, out[k]).contains(out[t]));
                        }
                    } else {
                        let k2 = k - off;
                        assert(out[k] == outer.1[k2]);
                        assert(earlier_reason(g, cand, outer.1, k2));
                        if !cand.contains(out[k]) {
                            let t = choose|t: int| 0 <= t < k2 && #[trigger] graph_children(g, outer.1[k2]).contains(outer.1[t]);
                            assert(out[off + t] == outer.1[t]);
                            assert(graph_children(g, out[k]).contains(out[off + t]));
                        }
                    }
                }
            },
        }
    }
}

proof fn lemma_reasons_reach(
    g: Seq<(Seq<char>, Seq<Seq<char>>)>,
    cand: Set<Seq<char>>,
    out: Seq<Seq<char>>,
    k: int,
)
    requires
        forall|kk: int| 0 <= kk < out.len() ==> #[trigger] earlier_reason(g, cand, out, kk),
        0 <= k < out.len(),
    ensures
        reaches_candidate(g, cand, out[k]),
    decreases k,
{
    let x = out[k];
    assert(earlier_reason(g, cand, out, k));
    assert(seq![x][0] == x);
    if cand.contains(x) {
        assert(reaches_within(g, seq![x], x, 0));
    } else {
        let t = choose|t: int| 0 <= t < k && #[trigger] graph_children(g, out[k]).contains(out[t]);
        let c = out[t];
        lemma_reasons_reach(g, cand, out, t);
        let (y, n) = choose|y: Seq<char>, n: nat| #[trigger] reaches_within(g, seq![c], y, n) && cand.contains(y);
        assert forall|z: Seq<char>| seq![c].contains(z) implies graph_children(g, x).contains(z) by {
            assert(seq![c][0] == c);
        }
        lemma_reaches_wider_source(g, seq![c], graph_children(g, x), y, n);
        lemma_reaches_through_child(g, seq![x], x, y, n);
        assert(reaches_within(g, seq![x], y, n + 1));
    }
}

/// Every package the build order lists leads to a build: it, or a
/// package reached from it through dependency edges, requires a build or
/// has a patch.
pub proof fn law_build_order_packages_lead_to_a_build(
    rb: Seq<(String, bool)>,
    patches: Option<Vec<String>>,
    snapshots: Seq<Snapshot>,
    importers: Seq<Importer>,
    k: int,
)
    requires
        0 <= k < spec_build_sequence(rb, patches, snapshots, importers).flatten().len(),
    ensures
        reaches_candidate(
            spec_children_map(snapshots),
            spec_candidates(rb, patches),
            spec_build_sequence(rb, patches, snapshots, importers).flatten()[k],
        ),
{
    let g = spec_children_map(snapshots);
    let cand = spec_candidates(rb, patches);
    let roots = spec_root_dep_paths(importers, snapshots);
    let selected = spec_walk(g, cand, roots, Set::empty()).1;
    let listed = spec_build_sequence(rb, patches, snapshots, importers).flatten();
    law_build_order_lists_each_selected_once(rb, patches, snapshots, importers);
    selected.to_multiset_ensures();
    listed.to_multiset_ensures();
    assert(listed.contains(listed[k]));
    assert(selected.contains(listed[k])) by {
        assert(listed.to_multiset().count(listed[k]) > 0);
    }
    let t = choose|t: int| 0 <= t < selected.len() && selected[t] == listed[k];
    lemma_walk_ordered(g, cand, roots, Set::empty());
    lemma_reasons_reach(g, cand, selected, t);
}


proof fn lemma_insert_pos_range(r: Seq<Seq<char>>, x: Seq<char>, from: int)
    requires
        0 <= from <= r.len(),
    ensures
        from <= insert_pos(r, x, from) <= r.len(),
    decreases r.len() - from,
{
    if from < r.len() {
        lemma_insert_pos_range(r, x, from + 1);
    }
}

proof fn lemma_sort_contains(s: Seq<Seq<char>>, x: Seq<char>)
    ensures
        spec_sort(s).contains(x) <==> s.contains(x),
    decreases s.len(),
{
    if s.len() > 0 {
        let t = s.drop_last();
        let r = spec_sort(t);
        lemma_sort_contains(t, x);
        lemma_insert_pos_range(r, s.last(), 0);
        let pos = insert_pos(r, s.last(), 0);
        let out = r.insert(pos, s.last());
        assert(spec_sort(s) == out);
        if out.contains(x) {
            let k = choose|k: int| 0 <= k < out.len() && out[k] == x;
            if k < pos {
                assert(r[k] == x);
            } else if k > pos {
                assert(r[k - 1] == x);
            } else {
                assert(s[s.len() - 1] == x);
            }
            if x != s.last() {
                assert(t.contains(x));
                let m = choose|m: int| 0 <= m < t.len() && t[m] == x;
                assert(s[m] == x);
            } else {
                assert(s[s.len() - 1] == x);
            }
        }
        if s.contains(x) {
            let m = choose|m: int| 0 <= m < s.len() && s[m] == x;
            if m < s.len() - 1 {
                assert(t[m] == x);
                assert(r.contains(x));
                let k = choose|k: int| 0 <= k < r.len() && r[k] == x;
                if k < pos {
                    assert(out[k] == x);
                } else {
                    assert(out[k + 1] == x);
                }
            } else {
                assert(out[pos] == x);
            }
        }
    }
}

proof fn lemma_dedup_contains(acc: Seq<Seq<char>>, s: Seq<Seq<char>>, x: Seq<char>)
    ensures
        dedup_into(acc, s).contains(x) <==> (acc.contains(x) || s.contains(x)),
    decreases s.len(),
{
    if s.len() > 0 {
        let t = s.drop_last();
        lemma_dedup_contains(acc, t, x);
        let r = dedup_into(acc, t);
        if s.contains(x) && !acc.contains(x) {
            let m = choose|m: int| 0 <= m < s.len() && s[m] == x;
            if m < s.len() - 1 {
                assert(t[m] == x);
            }
        }
        if t.contains(x) {
            let m = choose|m: int| 0 <= m < t.len() && t[m] == x;
            assert(s[m] == x);
        }
        if dedup_into(acc, s).contains(x) && !r.contains(x) {
            assert(dedup_into(acc, s) == r.push(s.last()));
            let k = choose|k: int| 0 <= k < r.len() + 1 && r.push(s.last())[k] == x;
            if k < r.len() {
                assert(r[k] == x);
            }
            assert(s[s.len() - 1] == x);
        }
        if r.contains(x) && !r.contains(s.last()) {
            let k = choose|k: int| 0 <= k < r.len() && r[k] == x;
            assert(r.push(s.last())[k] == x);
        }
        if x == s.last() && !r.contains(x) {
            assert(r.push(s.last())[r.len() as int] == x);
        }
    }
}

proof fn lemma_dep_root_keys_contains(deps: Seq<ImporterDep>, keys: Seq<Seq<char>>, d: ImporterDep, k: Seq<char>)
    requires
        deps.contains(d),
        importer_dep_key(d) == Some(k),
        keys.contains(k),
    ensures
        dep_root_keys(deps, keys).contains(k),
    decreases deps.len(),
{
    let t = deps.drop_last();
    let r = dep_root_keys(t, keys);
    if deps.last() == d {
        assert(dep_root_keys(deps, keys) == r.push(k));
        assert(r.push(k)[r.len() as int] == k);
    } else {
        let m = choose|m: int| 0 <= m < deps.len() && deps[m] == d;
        assert(t[m] == d);
        lemma_dep_root_keys_contains(t, keys, d, k);
        let j = choose|j: int| 0 <= j < r.len() && r[j] == k;
        match importer_dep_key(deps.last()) {
            Some(k2) => if keys.contains(k2) {
                assert(r.push(k2)[j] == k);
            },
            None => {},
        }
    }
}

proof fn lemma_importers_deps_contains(imps: Seq<Importer>, i: int, d: ImporterDep)
    requires
        0 <= i < imps.len(),
        opt_deps(imps[i].snapshot.dependencies).contains(d) || opt_deps(imps[i].snapshot.optional_dependencies).contains(d)
            || opt_deps(imps[i].snapshot.dev_dependencies).contains(d),
    ensures
        importers_deps(imps).contains(d),
    decreases imps.len(),
{
    let init = imps.drop_last();
    let p = imps.last().snapshot;
    let a = opt_deps(p.dependencies);
    let b = opt_deps(p.optional_dependencies);
    let c = opt_deps(p.dev_dependencies);
    let whole = importers_deps(imps);
    if i == imps.len() - 1 {
        assert(whole == importers_deps(init) + (a + b + c));
        let off = importers_deps(init).len();
        if a.contains(d) {
            let m = choose|m: int| 0 <= m < a.len() && a[m] == d;
            assert(whole[off + m] == d);
        } else if b.contains(d) {
            let m = choose|m: int| 0 <= m < b.len() && b[m] == d;
            assert(whole[off + a.len() + m] == d);
        } else {
            let m = choose|m: int| 0 <= m < c.len() && c[m] == d;
            assert(whole[off + a.len() + b.len() + m] == d);
        }
    } else {
        assert(init[i] == imps[i]);
        lemma_importers_deps_contains(init, i, d);
        let m = choose|m: int| 0 <= m < importers_deps(init).len() && importers_deps(init)[m] == d;
        assert(whole[m] == d);
    }
}

proof fn lemma_dep_root_keys_sound(deps: Seq<ImporterDep>, keys: Seq<Seq<char>>, k: Seq<char>)
    requires
        dep_root_keys(deps, keys).contains(k),
    ensures
        keys.contains(k),
        exists|j: int| 0 <= j < deps.len() && importer_dep_key(#[trigger] deps[j]) == Some(k),
    decreases deps.len(),
{
    let t = deps.drop_last();
    let r = dep_root_keys(t, keys);
    let last = deps.last();
    if r.contains(k) {
        lemma_dep_root_keys_sound(t, keys, k);
        let j = choose|j: int| 0 <= j < t.len() && importer_dep_key(#[trigger] t[j]) == Some(k);
        assert(deps[j] == t[j]);
    } else {
        match importer_dep_key(last) {
            Some(k2) => {
                if keys.contains(k2) {
                    let m = choose|m: int| 0 <= m < r.len() + 1 && r.push(k2)[m] == k;
                    if m < r.len() {
                        assert(r[m] == k);
                    }
                    assert(k2 == k);
                    assert(importer_dep_key(deps[deps.len() - 1]) == Some(k));
                }
            },
            None => {},
        }
    }
}

proof fn lemma_importers_deps_sound(imps: Seq<Importer>, d: ImporterDep)
    requires
        importers_deps(imps).contains(d),
    ensures
        exists|i: int| 0 <= i < imps.len() && (opt_deps((#[trigger] imps[i]).snapshot.dependencies).contains(d)
            || opt_deps(imps[i].snapshot.optional_dependencies).contains(d)
            || opt_deps(imps[i].snapshot.dev_dependencies).contains(d)),
    decreases imps.len(),
{
    let init = imps.drop_last();
    let p = imps.last().snapshot;
    let a = opt_deps(p.dependencies);
    let b = opt_deps(p.optional_dependencies);
    let c = opt_deps(p.dev_dependencies);
    let before = importers_deps(init);
    let whole = importers_deps(imps);
    assert(whole == before + (a + b + c));
    let m = choose|m: int| 0 <= m < whole.len() && whole[m] == d;
    let li = imps.len() - 1;
    if m < before.len() {
        assert(before[m] == d);
        lemma_importers_deps_sound(init, d);
        let i = choose|i: int| 0 <= i < init.len() && (opt_deps((#[trigger] init[i]).snapshot.dependencies).contains(d)
            || opt_deps(init[i].snapshot.optional_dependencies).contains(d)
            || opt_deps(init[i].snapshot.dev_dependencies).contains(d));
        assert(imps[i] == init[i]);
    } else {
        let n = m - before.len();
        assert(imps[li].snapshot == p);
        if n < a.len() {
            assert(a[n] == d);
        } else if n < a.len() + b.len() {
            assert(b[n - a.len()] == d);
        } else {
            assert(c[n - a.len() - b.len()] == d);
        }
    }
}

/// The entries of the build walk are exactly the keys of importers'
/// direct dependencies that have a snapshot: each entry is a snapshot
/// key named `name@version` by some importer's `dependencies`,
/// `optionalDependencies` or `devDependencies` (never a `link:`).
pub proof fn law_build_roots_are_direct_dependencies(importers: Seq<Importer>, snapshots: Seq<Snapshot>, k: Seq<char>)
    requires
        spec_root_dep_paths(importers, snapshots).contains(k),
    ensures
        snapshot_keys(snapshots).contains(k),
        exists|i: int, d: ImporterDep| #![trigger importers[i], d.version] 0 <= i < importers.len()
            && (opt_deps(importers[i].snapshot.dependencies).contains(d)
            || opt_deps(importers[i].snapshot.optional_dependencies).contains(d)
            || opt_deps(importers[i].snapshot.dev_dependencies).contains(d))
            && (d.version matches ImporterDepVersion::Regular(v) && k == d.name@ + "@"@ + v@),
{
    let deps = importers_deps(importers);
    let rk = dep_root_keys(deps, snapshot_keys(snapshots));
    lemma_sort_contains(dedup_into(Seq::empty(), rk), k);
    lemma_dedup_contains(Seq::empty(), rk, k);
    lemma_dep_root_keys_sound(deps, snapshot_keys(snapshots), k);
    let j = choose|j: int| 0 <= j < deps.len() && importer_dep_key(#[trigger] deps[j]) == Some(k);
    let d = deps[j];
    assert(deps.contains(d));
    lemma_importers_deps_sound(importers, d);
    let i = choose|i: int| 0 <= i < importers.len() && (opt_deps((#[trigger] importers[i]).snapshot.dependencies).contains(d)
        || opt_deps(importers[i].snapshot.optional_dependencies).contains(d)
        || opt_deps(importers[i].snapshot.dev_dependencies).contains(d));
    assert(importers[i] == importers[i] && d.version == d.version);
}

/// Every direct dependency of every importer (from `dependencies`,
/// `optionalDependencies` or `devDependencies`) that has a snapshot is
/// an entry of the build walk.
pub proof fn law_build_roots_include_every_direct_dependency(
    importers: Seq<Importer>,
    snapshots: Seq<Snapshot>,
    i: int,
    d: ImporterDep,
    v: String,
)
    requires
        0 <= i < importers.len(),
        opt_deps(importers[i].snapshot.dependencies).contains(d) || opt_deps(importers[i].snapshot.optional_dependencies).contains(d)
            || opt_deps(importers[i].snapshot.dev_dependencies).contains(d),
        d.version == ImporterDepVersion::Regular(v),
        snapshot_keys(snapshots).contains(d.name@ + "@"@ + v@),
    ensures
        spec_root_dep_paths(importers, snapshots).contains(d.name@ + "@"@ + v@),
{
    let k = d.name@ + "@"@ + v@;
    let deps = importers_deps(importers);
    lemma_importers_deps_contains(importers, i, d);
    lemma_dep_root_keys_contains(deps, snapshot_keys(snapshots), d, k);
    let rk = dep_root_keys(deps, snapshot_keys(snapshots));
    lemma_dedup_contains(Seq::empty(), rk, k);
    lemma_sort_contains(dedup_into(Seq::empty(), rk), k);
}

proof fn lemma_walk_covers(
    g: Seq<(Seq<char>, Seq<Seq<char>>)>,
    cand: Set<Seq<char>>,
    entries: Seq<Seq<char>>,
    walked: Set<Seq<char>>,
)
    ensures
        forall|e: Seq<char>| #[trigger] entries.contains(e) && graph_dom(g).contains(e)
            ==> spec_walk(g, cand, entries, walked).2.contains(e),
        forall|x: Seq<char>| #[trigger] spec_walk(g, cand, entries, walked).2.contains(x) && !walked.contains(x)
            && cand.contains(x) ==> spec_walk(g, cand, entries, walked).1.contains(x),
    decreases graph_dom(g).difference(walked).len(), entries.len(),
{
    if entries.len() > 0 {
        let d = entries[0];
        let rest = entries.drop_first();
        let r = spec_walk(g, cand, entries, walked);
        assert forall|e: Seq<char>| entries.contains(e) && e != d implies rest.contains(e) by {
            let t = choose|t: int| 0 <= t < entries.len() && entries[t] == e;
            assert(rest[t - 1] == e);
        }
        lemma_graph_find(g, d, 0);
        match graph_find(g, d, 0) {
            None => {
                lemma_walk_covers(g, cand, rest, walked);
                assert(r == spec_walk(g, cand, rest, walked));
                assert(!graph_dom(g).contains(d)) by {
                    if graph_dom(g).contains(d) {
                        let keys = g.map_values(|e: (Seq<char>, Seq<Seq<char>>)| e.0);
                        let j = choose|j: int| 0 <= j < keys.len() && keys[j] == d;
                        assert(g[j].0 == d);
                    }
                }
            },
            Some(i) => if walked.contains(d) {
                lemma_walk_covers(g, cand, rest, walked);
                lemma_walk_monotone(g, cand, rest, walked);
                assert(r == spec_walk(g, cand, rest, walked));
            } else {
                lemma_walk_measure_insert(g, walked, d);
                let w1 = walked.insert(d);
                lemma_walk_covers(g, cand, g[i].1, w1);
                lemma_walk_monotone(g, cand, g[i].1, w1);
                let inner = spec_walk(g, cand, g[i].1, w1);
                assert(walked.subset_of(inner.2));
                lemma_walk_measure_subset(g, walked, inner.2);
                lemma_walk_covers(g, cand, rest, inner.2);
                lemma_walk_monotone(g, cand, rest, inner.2);
                let outer = spec_walk(g, cand, rest, inner.2);
                let here = inner.0 || cand.contains(d);
                let mid: Seq<Seq<char>> = if here { seq![d] } else { Seq::empty() };
                let out = inner.1 + mid + outer.1;
                assert(r.1 == out);
                assert(r.2 == outer.2);
                assert(inner.2.contains(d));
                assert forall|x: Seq<char>| #[trigger] r.2.contains(x) && !walked.contains(x) && cand.contains(x)
                    implies r.1.contains(x) by {
                    if inner.2.contains(x) {
                        if x == d {
                            assert(out[inner.1.len() as int] == d);
                        } else {
                            assert(!w1.contains(x));
                            let k = choose|k: int| 0 <= k < inner.1.len() && inner.1[k] == x;
                            assert(out[k] == x);
                        }
                    } else {
                        let k = choose|k: int| 0 <= k < outer.1.len() && outer.1[k] == x;
                        assert(out[inner.1.len() + mid.len() + k] == x);
                    }
                }
            },
        }
    }
}

/// A build candidate (it requires a build or has a patch) that is a
/// direct dependency of some importer, in any of `dependencies`,
/// `optionalDependencies` or `devDependencies`, and has a snapshot, is in
/// the build order.
pub proof fn law_candidate_direct_dependencies_are_built(
    rb: Seq<(String, bool)>,
    patches: Option<Vec<String>>,
    snapshots: Seq<Snapshot>,
    importers: Seq<Importer>,
    i: int,
    d: ImporterDep,
    v: String,
)
    requires
        0 <= i < importers.len(),
        opt_deps(importers[i].snapshot.dependencies).contains(d) || opt_deps(importers[i].snapshot.optional_dependencies).contains(d)
            || opt_deps(importers[i].snapshot.dev_dependencies).contains(d),
        d.version == ImporterDepVersion::Regular(v),
        snapshot_keys(snapshots).contains(d.name@ + "@"@ + v@),
        spec_is_candidate(rb, patches, d.name@ + "@"@ + v@),
    ensures
        spec_build_sequence(rb, patches, snapshots, importers).flatten().contains(d.name@ + "@"@ + v@),
{
    let k = d.name@ + "@"@ + v@;
    let g = spec_children_map(snapshots);
    let cand = spec_candidates(rb, patches);
    let roots = spec_root_dep_paths(importers, snapshots);
    let selected = spec_walk(g, cand, roots, Set::empty()).1;
    let listed = spec_build_sequence(rb, patches, snapshots, importers).flatten();
    law_build_roots_include_every_direct_dependency(importers, snapshots, i, d, v);
    assert(graph_dom(g).contains(k)) by {
        let j = choose|j: int| 0 <= j < snapshot_keys(snapshots).len() && snapshot_keys(snapshots)[j] == k;
        let keys = g.map_values(|e: (Seq<char>, Seq<Seq<char>>)| e.0);
        assert(keys[j] == k);
    }
    lemma_walk_covers(g, cand, roots, Set::empty());
    assert(cand.contains(k));
    assert(selected.contains(k));
    lemma_sequence_partition(g, selected);
    selected.to_multiset_ensures();
    listed.to_multiset_ensures();
    assert(selected.to_multiset().count(k) > 0);
    assert(listed.contains(k));
}

} // verus!

use pacquet_package_manager::build_sequence::build_sequence;
use pacquet_package_manager::lockfile::{
    DepEdge, Importer, ImporterDep, ImporterDepVersion, ProjectSnapshot, Snapshot, SnapshotDepRef, SnapshotEntry,
};

fn key(n: &str, v: &str) -> String {
    format!("{n}@{v}")
}

fn snap(k: String, deps: &[(&str, &str)]) -> Snapshot {
    let edges: Vec<DepEdge> = deps
        .iter()
        .map(|(n, v)| DepEdge { alias: n.to_string(), dep_ref: SnapshotDepRef::Plain(v.to_string()) })
        .collect();
    Snapshot {
        key: k,
        entry: SnapshotEntry {
            dependencies: if edges.is_empty() { None } else { Some(edges) },
            optional_dependencies: None,
            optional: false,
        },
    }
}

fn root_importers(deps: &[(&str, &str)]) -> Vec<Importer> {
    let list: Vec<ImporterDep> = deps
        .iter()
        .map(|(n, v)| ImporterDep { name: n.to_string(), version: ImporterDepVersion::Regular(v.to_string()) })
        .collect();
    vec![Importer {
        id: ".".to_string(),
        snapshot: ProjectSnapshot {
            dependencies: if list.is_empty() { None } else { Some(list) },
            optional_dependencies: None,
            dev_dependencies: None,
        },
    }]
}

#[test]
fn empty_inputs() {
    let chunks = build_sequence(&Vec::new(), &None, &Vec::new(), &Vec::new());
    assert!(chunks.is_empty(), "empty inputs ⇒ no chunks: {chunks:?}");
}

#[test]
fn no_requires_build_yields_empty() {
    let snapshots = vec![snap(key("a", "1.0.0"), &[("b", "1.0.0")]), snap(key("b", "1.0.0"), &[])];
    let requires_build = vec![(key("a", "1.0.0"), false), (key("b", "1.0.0"), false)];
    let importers = root_importers(&[("a", "1.0.0")]);
    let chunks = build_sequence(&requires_build, &None, &snapshots, &importers);
    assert!(chunks.is_empty(), "no requires_build ⇒ no chunks: {chunks:?}");
}

#[test]
fn leaf_with_requires_build_runs_first() {
    let snapshots = vec![snap(key("a", "1.0.0"), &[("b", "1.0.0")]), snap(key("b", "1.0.0"), &[])];
    let requires_build = vec![(key("a", "1.0.0"), false), (key("b", "1.0.0"), true)];
    let importers = root_importers(&[("a", "1.0.0")]);
    let chunks = build_sequence(&requires_build, &None, &snapshots, &importers);
    assert_eq!(chunks, vec![vec![key("b", "1.0.0")], vec![key("a", "1.0.0")]]);
}

#[test]
fn deep_chain_orders_leaf_first() {
    let snapshots = vec![
        snap(key("a", "1.0.0"), &[("b", "1.0.0")]),
        snap(key("b", "1.0.0"), &[("c", "1.0.0")]),
        snap(key("c", "1.0.0"), &[]),
    ];
    let requires_build = vec![(key("a", "1.0.0"), false), (key("b", "1.0.0"), false), (key("c", "1.0.0"), true)];
    let importers = root_importers(&[("a", "1.0.0")]);
    let chunks = build_sequence(&requires_build, &None, &snapshots, &importers);
    assert_eq!(chunks, vec![vec![key("c", "1.0.0")], vec![key("b", "1.0.0")], vec![key("a", "1.0.0")]]);
}

#[test]
fn unrelated_subgraph_excluded() {
    let snapshots = vec![
        snap(key("a", "1.0.0"), &[("b", "1.0.0")]),
        snap(key("b", "1.0.0"), &[]),
        snap(key("x", "1.0.0"), &[("y", "1.0.0")]),
        snap(key("y", "1.0.0"), &[]),
    ];
    let requires_build = vec![
        (key("a", "1.0.0"), false),
        (key("b", "1.0.0"), true),
        (key("x", "1.0.0"), false),
        (key("y", "1.0.0"), true),
    ];
    let importers = root_importers(&[("a", "1.0.0")]);
    let chunks = build_sequence(&requires_build, &None, &snapshots, &importers);
    let flat: Vec<_> = chunks.into_iter().flatten().collect();
    assert!(flat.contains(&key("a", "1.0.0")), "ancestor of build leaf must appear: {flat:?}");
    assert!(flat.contains(&key("b", "1.0.0")), "build leaf must appear: {flat:?}");
    assert!(!flat.contains(&key("x", "1.0.0")), "unreachable ancestor must be excluded: {flat:?}");
    assert!(!flat.contains(&key("y", "1.0.0")), "unreachable build leaf must be excluded: {flat:?}");
}

#[test]
fn parallel_build_leaves_share_chunk() {
    let snapshots = vec![
        snap(key("root", "1.0.0"), &[("a", "1.0.0"), ("b", "1.0.0")]),
        snap(key("a", "1.0.0"), &[]),
        snap(key("b", "1.0.0"), &[]),
    ];
    let requires_build = vec![(key("root", "1.0.0"), false), (key("a", "1.0.0"), true), (key("b", "1.0.0"), true)];
    let importers = root_importers(&[("root", "1.0.0")]);
    let chunks = build_sequence(&requires_build, &None, &snapshots, &importers);
    assert_eq!(chunks.len(), 2);
    let mut leaves = chunks[0].clone();
    leaves.sort();
    assert_eq!(leaves, vec![key("a", "1.0.0"), key("b", "1.0.0")]);
    assert_eq!(chunks[1], vec![key("root", "1.0.0")]);
}

#[test]
fn patched_package_is_built_without_requires_build() {
    let snapshots = vec![snap(key("a", "1.0.0"), &[])];
    let requires_build = vec![(key("a", "1.0.0"), false)];
    let importers = root_importers(&[("a", "1.0.0")]);
    let chunks = build_sequence(&requires_build, &Some(vec![key("a", "1.0.0")]), &snapshots, &importers);
    assert_eq!(chunks, vec![vec![key("a", "1.0.0")]]);
}

#[test]
fn walked_child_is_not_revisited_through_a_second_parent() {
    let snapshots = vec![
        snap(key("root", "1.0.0"), &[("a", "1.0.0"), ("b", "1.0.0")]),
        snap(key("a", "1.0.0"), &[("c", "1.0.0")]),
        snap(key("b", "1.0.0"), &[("c", "1.0.0")]),
        snap(key("c", "1.0.0"), &[]),
    ];
    let requires_build = vec![(key("c", "1.0.0"), true)];
    let importers = root_importers(&[("root", "1.0.0")]);
    let chunks = build_sequence(&requires_build, &None, &snapshots, &importers);
    let mut flat: Vec<_> = chunks.iter().flatten().cloned().collect();
    flat.sort();
    // `c` is walked under `a` first; reaching it again under `b` does not
    // mark `b`, whose only path to a build goes through the walked `c`.
    assert_eq!(flat, vec![key("a", "1.0.0"), key("c", "1.0.0"), key("root", "1.0.0")]);
    assert_eq!(chunks[0], vec![key("c", "1.0.0")]);
    assert_eq!(chunks.last().unwrap(), &vec![key("root", "1.0.0")]);
}

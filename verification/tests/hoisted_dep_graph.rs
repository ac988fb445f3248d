use pacquet_package_manager::hoisted::{
    lockfile_to_hoisted_dep_graph, path_relative_to_lockfile_dir, walk_deps, DepHierarchy,
    DependenciesGraphNode, HoistedDepGraphError, HoistedLockfile, HoisterNode,
    LockfileToDepGraphResult, LockfileToHoistedDepGraphOptions, Verdict, WalkPackage, WalkState,
};
use pacquet_package_manager::lockfile::{DepEdge, Snapshot, SnapshotDepRef, SnapshotEntry};
use pacquet_package_manager::virtual_store::Resolution;

const INTEGRITY: &str = "sha512-AAAAAAAAAAAAAAAAAAAAAAAAAAAAAAAAAAAAAAAAAAAAAAAAAAAAAAAAAAAAAAAAAAAAAAAAAAAAAAAAAAAAAAAAAAAA";

fn node(name: &str, reference: &str, deps: Vec<HoisterNode>) -> HoisterNode {
    HoisterNode { name: name.to_string(), references: vec![reference.to_string()], dependencies: deps }
}

fn package(key: &str) -> WalkPackage {
    WalkPackage {
        key: key.to_string(),
        has_bin: false,
        has_bundled_dependencies: false,
        resolution: Resolution::Registry { integrity: INTEGRITY.to_string() },
    }
}

fn snapshot(key: &str, deps: Vec<(&str, &str)>) -> Snapshot {
    let edges: Vec<DepEdge> = deps
        .into_iter()
        .map(|(a, v)| DepEdge { alias: a.to_string(), dep_ref: SnapshotDepRef::Plain(v.to_string()) })
        .collect();
    Snapshot {
        key: key.to_string(),
        entry: SnapshotEntry {
            dependencies: if edges.is_empty() { None } else { Some(edges) },
            optional_dependencies: None,
            optional: false,
        },
    }
}

fn opts(dir: &str) -> LockfileToHoistedDepGraphOptions {
    LockfileToHoistedDepGraphOptions { lockfile_dir: dir.to_string(), ..LockfileToHoistedDepGraphOptions::default() }
}

fn find<'a>(graph: &'a [DependenciesGraphNode], dir: &str) -> Option<&'a DependenciesGraphNode> {
    graph.iter().find(|n| n.dir == dir)
}

fn child<'a>(n: &'a DependenciesGraphNode, alias: &str) -> Option<&'a str> {
    n.children.iter().find(|(a, _)| a == alias).map(|(_, d)| d.as_str())
}

fn locations(result: &LockfileToDepGraphResult, dep_path: &str) -> Vec<String> {
    result.hoisted_locations.iter().filter(|(k, _)| k == dep_path).map(|(_, l)| l.clone()).collect()
}

fn direct_root(result: &LockfileToDepGraphResult) -> &Vec<(String, String)> {
    &result.direct_dependencies_by_importer_id.iter().find(|(id, _)| id == ".").expect("root importer").1
}

fn single_a() -> HoistedLockfile {
    HoistedLockfile {
        snapshots: vec![snapshot("a@1.0.0", vec![])],
        packages: vec![package("a@1.0.0")],
        hoisted: vec![node("a", "a@1.0.0", vec![])],
    }
}

fn empty_lockfile() -> HoistedLockfile {
    HoistedLockfile { snapshots: vec![], packages: vec![], hoisted: vec![] }
}

fn unsupported(reason: &str) -> Vec<(String, Verdict)> {
    vec![("a@1.0.0".to_string(), Verdict::Fail(reason.to_string()))]
}

#[test]
fn default_result_is_empty() {
    let actual = LockfileToDepGraphResult::default();
    assert!(actual.graph.is_empty());
    assert!(actual.direct_dependencies_by_importer_id.is_empty());
    assert!(actual.hierarchy.is_empty());
    assert!(actual.hoisted_locations.is_empty());
    assert!(actual.symlinked_direct_dependencies_by_importer_id.is_empty());
    assert!(actual.prev_graph.is_none());
    assert!(actual.injection_targets_by_dep_path.is_empty());
    assert!(actual.skipped.is_empty());
}

#[test]
fn graph_node_inserts_by_dir() {
    let dir = "/repo/node_modules/accepts".to_string();
    let node = DependenciesGraphNode {
        alias: "accepts".to_string(),
        dep_path: "accepts@1.3.7".to_string(),
        pkg_id_with_patch_hash: "accepts@1.3.7".to_string(),
        dir: dir.clone(),
        modules: "/repo/node_modules".to_string(),
        name: "accepts".to_string(),
        version: "1.3.7".to_string(),
        optional: false,
        optional_dependencies: vec![],
        has_bin: false,
        has_bundled_dependencies: false,
        children: vec![],
        resolution: Resolution::Directory { directory: "../local-pkg".to_string() },
    };
    let graph = vec![node];
    assert_eq!(find(&graph, &dir), Some(&graph[0]));
}

#[test]
fn hierarchy_nests_recursively() {
    let inner = DepHierarchy(vec![(
        "/repo/node_modules/accepts/node_modules/mime-types".to_string(),
        DepHierarchy(vec![]),
    )]);
    let expected = DepHierarchy(vec![(
        "/repo/node_modules/accepts/node_modules/mime-types".to_string(),
        DepHierarchy(vec![]),
    )]);
    let root = DepHierarchy(vec![("/repo/node_modules/accepts".to_string(), inner)]);
    let accepts = &root.0.iter().find(|(d, _)| d == "/repo/node_modules/accepts").expect("accepts entry").1;
    assert_eq!(accepts, &expected);
    assert_eq!(accepts.0.len(), 1);
}

#[test]
fn options_default_is_empty() {
    let opts = LockfileToHoistedDepGraphOptions::default();
    assert_eq!(opts.lockfile_dir, "");
    assert!(opts.skipped.is_empty());
    assert!(!opts.force);
    assert!(opts.verdicts.is_empty());
}

#[test]
fn walker_empty_lockfile_produces_empty_result() {
    let result = lockfile_to_hoisted_dep_graph(&empty_lockfile(), None, &opts("/repo")).expect("empty lockfile walks");
    assert!(result.graph.is_empty(), "graph should be empty");
    assert!(result.hoisted_locations.is_empty(), "no locations recorded");
    assert_eq!(result.direct_dependencies_by_importer_id.len(), 1);
    assert!(direct_root(&result).is_empty());
}

#[test]
fn walker_single_root_dep_emits_one_node() {
    let result = lockfile_to_hoisted_dep_graph(&single_a(), None, &opts("/repo")).expect("walker succeeds");
    assert_eq!(result.graph.len(), 1, "one node emitted: {:?}", result.graph);
    let node = find(&result.graph, "/repo/node_modules/a").expect("node keyed by dir");
    assert_eq!(node.alias, "a");
    assert_eq!(node.dep_path, "a@1.0.0");
    assert_eq!(node.name, "a");
    assert_eq!(node.version, "1.0.0");
    assert_eq!(node.pkg_id_with_patch_hash, "a@1.0.0");
    assert_eq!(node.resolution, Resolution::Registry { integrity: INTEGRITY.to_string() });
    assert_eq!(node.modules, "/repo/node_modules");
    assert_eq!(locations(&result, "a@1.0.0"), vec!["node_modules/a".to_string()]);
    assert_eq!(direct_root(&result), &vec![("a".to_string(), "/repo/node_modules/a".to_string())]);
}

#[test]
fn walker_transitive_dep_flattens_under_root() {
    let lockfile = HoistedLockfile {
        snapshots: vec![snapshot("a@1.0.0", vec![("b", "1.0.0")]), snapshot("b@1.0.0", vec![])],
        packages: vec![package("a@1.0.0"), package("b@1.0.0")],
        hoisted: vec![node("a", "a@1.0.0", vec![]), node("b", "b@1.0.0", vec![])],
    };
    let result = lockfile_to_hoisted_dep_graph(&lockfile, None, &opts("/repo")).expect("walker succeeds");
    let dirs: Vec<&str> = result.graph.iter().map(|n| n.dir.as_str()).collect();
    assert_eq!(dirs, vec!["/repo/node_modules/a", "/repo/node_modules/b"], "both nodes hoisted to root, sorted by dir");
    let a = find(&result.graph, "/repo/node_modules/a").expect("a in graph");
    assert_eq!(
        child(a, "b"),
        Some("/repo/node_modules/b"),
        "a's `children[\"b\"]` points at the hoisted (root-level) dir"
    );
    assert_eq!(locations(&result, "a@1.0.0"), vec!["node_modules/a".to_string()]);
    assert_eq!(locations(&result, "b@1.0.0"), vec!["node_modules/b".to_string()]);
}

#[test]
fn walker_version_conflict_keeps_loser_nested() {
    let lockfile = HoistedLockfile {
        snapshots: vec![
            snapshot("a@1.0.0", vec![]),
            snapshot("a@2.0.0", vec![]),
            snapshot("c@1.0.0", vec![("a", "2.0.0")]),
        ],
        packages: vec![package("a@1.0.0"), package("a@2.0.0"), package("c@1.0.0")],
        hoisted: vec![
            node("a", "a@1.0.0", vec![]),
            node("c", "c@1.0.0", vec![node("a", "a@2.0.0", vec![])]),
        ],
    };
    let result = lockfile_to_hoisted_dep_graph(&lockfile, None, &opts("/repo")).expect("walker succeeds");
    let a1 = "/repo/node_modules/a";
    let c = "/repo/node_modules/c";
    let a2 = "/repo/node_modules/c/node_modules/a";
    assert!(find(&result.graph, a1).is_some(), "a@1 at root");
    assert!(find(&result.graph, c).is_some(), "c at root");
    assert!(find(&result.graph, a2).is_some(), "a@2 nested under c");
    assert_eq!(find(&result.graph, a1).unwrap().dep_path, "a@1.0.0");
    assert_eq!(find(&result.graph, a2).unwrap().dep_path, "a@2.0.0");
    assert_eq!(locations(&result, "a@1.0.0"), vec!["node_modules/a".to_string()]);
    assert_eq!(locations(&result, "a@2.0.0"), vec!["node_modules/c/node_modules/a".to_string()]);
    assert_eq!(child(find(&result.graph, c).unwrap(), "a"), Some(a2));
}

#[test]
fn walker_honors_pre_skipped_dep_path() {
    let options = LockfileToHoistedDepGraphOptions { skipped: vec!["a@1.0.0".to_string()], ..opts("/repo") };
    let result = lockfile_to_hoisted_dep_graph(&single_a(), None, &options).expect("walker succeeds");
    assert!(result.graph.is_empty(), "skipped dep not emitted");
    assert!(result.hoisted_locations.is_empty());
    assert!(result.skipped.contains(&"a@1.0.0".to_string()), "pre-skipped dep is still in the output skipped set");
}

#[test]
fn walker_records_directory_resolution_as_injection_target() {
    let mut lockfile = single_a();
    lockfile.packages[0].resolution = Resolution::Directory { directory: "../local-a".to_string() };
    let result = lockfile_to_hoisted_dep_graph(&lockfile, None, &opts("/repo")).expect("walker succeeds");
    assert_eq!(
        result.injection_targets_by_dep_path,
        vec![("a@1.0.0".to_string(), "/repo/node_modules/a".to_string())]
    );
}

#[test]
fn walker_skips_optional_dep_on_unsupported_platform() {
    let mut lockfile = single_a();
    lockfile.snapshots[0].entry.optional = true;
    let options = LockfileToHoistedDepGraphOptions {
        verdicts: vec![("a@1.0.0".to_string(), Verdict::SkipOptional)],
        ..opts("/repo")
    };
    let result = lockfile_to_hoisted_dep_graph(&lockfile, None, &options).expect("walker succeeds");
    assert!(result.graph.is_empty(), "optional incompatible dep not emitted");
    assert!(
        result.skipped.contains(&"a@1.0.0".to_string()),
        "incompatible optional dep added to skipped: {:?}",
        result.skipped
    );
    assert!(result.hoisted_locations.is_empty(), "no location recorded for skipped dep");
}

#[test]
fn walker_emits_required_dep_with_unsupported_platform_as_warning() {
    let options = LockfileToHoistedDepGraphOptions {
        verdicts: vec![("a@1.0.0".to_string(), Verdict::ProceedWithWarning)],
        ..opts("/repo")
    };
    let result = lockfile_to_hoisted_dep_graph(&single_a(), None, &options).expect("walker proceeds");
    assert_eq!(result.graph.len(), 1, "required incompatible dep emitted as warning");
    assert!(result.skipped.is_empty(), "required dep not added to skipped");
}

#[test]
fn walker_errors_on_engine_strict_mismatch() {
    let options = LockfileToHoistedDepGraphOptions {
        verdicts: unsupported("Unsupported engine for a@1.0.0: wanted: {\"node\":\">=99.0.0\"}"),
        ..opts("/repo")
    };
    let err = lockfile_to_hoisted_dep_graph(&single_a(), None, &options)
        .expect_err("engine_strict + engine mismatch should error");
    match err {
        HoistedDepGraphError::Installability(message) => assert!(message.contains("a@1.0.0")),
    }
}

#[test]
fn walker_force_bypasses_installability_check() {
    let options = LockfileToHoistedDepGraphOptions {
        force: true,
        verdicts: vec![("a@1.0.0".to_string(), Verdict::SkipOptional)],
        ..opts("/repo")
    };
    let result = lockfile_to_hoisted_dep_graph(&single_a(), None, &options).expect("force bypasses check");
    assert_eq!(result.graph.len(), 1, "force=true emits the dep regardless of platform");
    assert!(result.skipped.is_empty(), "force=true doesn't add to skipped");
}

#[test]
fn walker_emits_compatible_dep() {
    let options = LockfileToHoistedDepGraphOptions {
        verdicts: vec![("a@1.0.0".to_string(), Verdict::Installable)],
        ..opts("/repo")
    };
    let result = lockfile_to_hoisted_dep_graph(&single_a(), None, &options).expect("walker succeeds");
    assert_eq!(result.graph.len(), 1);
    assert!(result.skipped.is_empty());
}

#[test]
fn prev_graph_none_when_current_lockfile_absent() {
    let result = lockfile_to_hoisted_dep_graph(&single_a(), None, &opts("/repo")).expect("walker succeeds");
    assert!(result.prev_graph.is_none(), "no current_lockfile → no prev_graph");
    assert_eq!(result.graph.len(), 1, "wanted lockfile still produces the graph");
}

#[test]
fn prev_graph_none_when_current_lockfile_has_no_packages() {
    let current = empty_lockfile();
    let result =
        lockfile_to_hoisted_dep_graph(&single_a(), Some(&current), &opts("/repo")).expect("walker succeeds");
    assert!(result.prev_graph.is_none(), "current lockfile without packages → no prev_graph");
}

#[test]
fn prev_graph_none_when_current_lockfile_has_empty_packages() {
    let current = HoistedLockfile { snapshots: vec![], packages: vec![], hoisted: vec![node("a", "a@1.0.0", vec![])] };
    let result =
        lockfile_to_hoisted_dep_graph(&single_a(), Some(&current), &opts("/repo")).expect("walker succeeds");
    assert!(result.prev_graph.is_none(), "current lockfile with empty packages → no prev_graph");
}

#[test]
fn prev_graph_contains_orphan_from_current_only_lockfile() {
    let current = HoistedLockfile {
        snapshots: vec![snapshot("a@1.0.0", vec![]), snapshot("orphan@1.0.0", vec![])],
        packages: vec![package("a@1.0.0"), package("orphan@1.0.0")],
        hoisted: vec![node("a", "a@1.0.0", vec![]), node("orphan", "orphan@1.0.0", vec![])],
    };
    let result =
        lockfile_to_hoisted_dep_graph(&single_a(), Some(&current), &opts("/repo")).expect("walker succeeds");
    let orphan_dir = "/repo/node_modules/orphan";
    let a_dir = "/repo/node_modules/a";
    let prev = result.prev_graph.as_ref().expect("prev_graph populated");
    assert!(find(prev, orphan_dir).is_some(), "orphan present in prev_graph");
    assert!(find(prev, a_dir).is_some(), "carried-over dep also in prev_graph");
    assert!(find(&result.graph, a_dir).is_some(), "wanted graph carries a");
    assert!(find(&result.graph, orphan_dir).is_none(), "wanted graph omits orphan");
}

#[test]
fn prev_graph_includes_orphan_even_when_now_incompatible() {
    let current = HoistedLockfile {
        snapshots: vec![snapshot("orphan@1.0.0", vec![])],
        packages: vec![package("orphan@1.0.0")],
        hoisted: vec![node("orphan", "orphan@1.0.0", vec![])],
    };
    let options = LockfileToHoistedDepGraphOptions {
        verdicts: vec![("orphan@1.0.0".to_string(), Verdict::SkipOptional)],
        ..opts("/repo")
    };
    let result =
        lockfile_to_hoisted_dep_graph(&empty_lockfile(), Some(&current), &options).expect("walker succeeds");
    let prev = result.prev_graph.as_ref().expect("prev_graph populated");
    assert!(
        find(prev, "/repo/node_modules/orphan").is_some(),
        "force: true emits the orphan even though it would now fail installability"
    );
    assert!(result.graph.is_empty(), "wanted graph stays empty");
    assert!(result.skipped.is_empty(), "skipped from wanted walk only, not prev walk");
}

#[test]
fn failing_required_package_stops_the_wanted_walk() {
    let current = HoistedLockfile {
        snapshots: vec![snapshot("a@1.0.0", vec![])],
        packages: vec![package("a@1.0.0")],
        hoisted: vec![node("a", "a@1.0.0", vec![])],
    };
    // The previous walk is forced, so a failing verdict only stops the
    // wanted walk.
    let options = LockfileToHoistedDepGraphOptions { verdicts: unsupported("no"), ..opts("/repo") };
    let err = lockfile_to_hoisted_dep_graph(&single_a(), Some(&current), &options).expect_err("wanted walk fails");
    match err {
        HoistedDepGraphError::Installability(message) => assert_eq!(message, "no"),
    }
}

#[test]
fn workspace_reference_and_missing_package_are_not_placed() {
    let lockfile = HoistedLockfile {
        snapshots: vec![snapshot("a@1.0.0", vec![])],
        packages: vec![package("a@1.0.0")],
        hoisted: vec![
            node("ws", "workspace:packages/ws", vec![]),
            node("ghost", "ghost@1.0.0", vec![]),
            HoisterNode { name: "none".to_string(), references: vec![], dependencies: vec![] },
            node("a", "a@1.0.0", vec![]),
        ],
    };
    let result = lockfile_to_hoisted_dep_graph(&lockfile, None, &opts("/repo")).expect("walker succeeds");
    let dirs: Vec<&str> = result.graph.iter().map(|n| n.dir.as_str()).collect();
    assert_eq!(dirs, vec!["/repo/node_modules/a"]);
    assert_eq!(result.hierarchy.len(), 1);
    assert_eq!(result.hierarchy[0].0, "/repo");
    assert_eq!(result.hierarchy[0].1, DepHierarchy(vec![("/repo/node_modules/a".to_string(), DepHierarchy(vec![]))]));
}

#[test]
fn locations_are_recorded_after_the_subtree() {
    let lockfile = HoistedLockfile {
        snapshots: vec![snapshot("c@1.0.0", vec![("a", "2.0.0")]), snapshot("a@2.0.0", vec![])],
        packages: vec![package("c@1.0.0"), package("a@2.0.0")],
        hoisted: vec![node("c", "c@1.0.0", vec![node("a", "a@2.0.0", vec![])])],
    };
    let result = lockfile_to_hoisted_dep_graph(&lockfile, None, &opts("/repo")).expect("walker succeeds");
    let order: Vec<&str> = result.hoisted_locations.iter().map(|(k, _)| k.as_str()).collect();
    assert_eq!(order, vec!["a@2.0.0", "c@1.0.0"]);
    let placed: Vec<&str> = result.graph.iter().map(|n| n.dep_path.as_str()).collect();
    assert_eq!(placed, vec!["c@1.0.0", "a@2.0.0"]);
    assert_eq!(result.graph[1].modules, "/repo/node_modules/c/node_modules");
}

#[test]
fn optional_dependencies_are_children_and_listed() {
    let mut a = snapshot("a@1.0.0", vec![("b", "1.0.0")]);
    a.entry.optional_dependencies =
        Some(vec![DepEdge { alias: "o".to_string(), dep_ref: SnapshotDepRef::Alias("opt@3.0.0".to_string()) }]);
    let lockfile = HoistedLockfile {
        snapshots: vec![a, snapshot("b@1.0.0", vec![]), snapshot("opt@3.0.0", vec![])],
        packages: vec![package("a@1.0.0"), package("b@1.0.0"), package("opt@3.0.0")],
        hoisted: vec![node("a", "a@1.0.0", vec![]), node("o", "opt@3.0.0", vec![])],
    };
    let result = lockfile_to_hoisted_dep_graph(&lockfile, None, &opts("/repo")).expect("walker succeeds");
    let a_node = find(&result.graph, "/repo/node_modules/a").unwrap();
    assert_eq!(a_node.optional_dependencies, vec!["o".to_string()]);
    assert_eq!(child(a_node, "o"), Some("/repo/node_modules/o"));
    // `b` was never placed, so it is no child.
    assert_eq!(child(a_node, "b"), None);
    assert_eq!(a_node.children.len(), 1);
}

#[test]
fn walk_deps_fills_state_in_place() {
    let mut state = WalkState {
        skipped: vec![],
        graph: vec![],
        pkg_locations: vec![],
        hoisted_locations: vec![],
        injection_targets: vec![],
    };
    let l = single_a();
    let h = walk_deps(&l.snapshots, &l.packages, &vec![], false, "/repo", &mut state, "/repo/node_modules", &l.hoisted)
        .expect("walks");
    assert_eq!(h, DepHierarchy(vec![("/repo/node_modules/a".to_string(), DepHierarchy(vec![]))]));
    assert_eq!(state.pkg_locations, vec![("a@1.0.0".to_string(), "/repo/node_modules/a".to_string())]);
    assert!(state.graph[0].children.is_empty());
}

#[test]
fn relative_path_strips_the_lockfile_dir() {
    assert_eq!(path_relative_to_lockfile_dir("/repo/node_modules/a", "/repo"), "node_modules/a");
    assert_eq!(path_relative_to_lockfile_dir("/repo", "/repo"), "");
    assert_eq!(path_relative_to_lockfile_dir("/repo/node_modules/a", "/repo/"), "node_modules/a");
    assert_eq!(path_relative_to_lockfile_dir("/repository/x", "/repo"), "/repository/x");
    assert_eq!(path_relative_to_lockfile_dir("C:\\repo\\node_modules\\a", "C:\\repo"), "C:/repo/node_modules/a");
    assert_eq!(path_relative_to_lockfile_dir("/elsewhere\\x", "/repo"), "/elsewhere/x");
}

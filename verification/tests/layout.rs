use pacquet_package_manager::build_modules::AllowBuildPolicy;
use pacquet_package_manager::lockfile::{DepEdge, Snapshot, SnapshotDepRef, SnapshotEntry};
use pacquet_package_manager::virtual_store::{PackageEntry, Resolution};
use pacquet_package_manager::virtual_store_layout::{
    build_deps_graph, built_dep_paths, collect_children, create_full_pkg_id, VirtualStoreLayout,
};

const INTEGRITY: &str = "sha512-AAAAAAAAAAAAAAAAAAAAAAAAAAAAAAAAAAAAAAAAAAAAAAAAAAAAAAAAAAAAAAAAAAAAAAAAAAAAAAAAAAAAAAAAAAAA";

fn registry(key: &str) -> PackageEntry {
    PackageEntry { key: key.to_string(), resolution: Resolution::Registry { integrity: INTEGRITY.to_string() } }
}

fn edge(alias: &str, v: &str) -> DepEdge {
    DepEdge { alias: alias.to_string(), dep_ref: SnapshotDepRef::Plain(v.to_string()) }
}

fn snapshot(key: &str, deps: Option<Vec<DepEdge>>, optional: Option<Vec<DepEdge>>) -> Snapshot {
    Snapshot { key: key.to_string(), entry: SnapshotEntry { dependencies: deps, optional_dependencies: optional, optional: false } }
}

#[test]
fn slot_dir_uses_flat_name_when_gvs_off() {
    let layout = VirtualStoreLayout::new(
        false,
        "/tmp/proj/node_modules/.pnpm".to_string(),
        "/tmp/store/links".to_string(),
        Vec::new(),
    );
    assert_eq!(layout.slot_dir("@scope/foo@1.2.3"), "/tmp/proj/node_modules/.pnpm/@scope+foo@1.2.3");
    assert!(!layout.enable_global_virtual_store());
}

#[test]
fn slot_dir_uses_gvs_suffix_when_gvs_on() {
    let layout = VirtualStoreLayout::new(
        true,
        "/tmp/proj/node_modules/.pnpm".to_string(),
        "/tmp/store/links".to_string(),
        vec![("@scope/foo@1.2.3".to_string(), "@scope/foo/1.2.3/abc".to_string())],
    );
    assert_eq!(layout.slot_dir("@scope/foo@1.2.3"), "/tmp/store/links/@scope/foo/1.2.3/abc");
    assert_eq!(layout.slot_dir("bar@1.0.0"), "/tmp/store/links/bar@1.0.0");
    assert_eq!(layout.package_store_dir(), "/tmp/store/links");
    assert!(layout.enable_global_virtual_store());
}

#[test]
fn legacy_layout_is_flat() {
    let layout = VirtualStoreLayout::legacy("/p/node_modules/.pnpm".to_string());
    assert_eq!(layout.slot_dir("a@1.0.0"), "/p/node_modules/.pnpm/a@1.0.0");
}

#[test]
fn built_dep_paths_follow_the_policy() {
    let snapshots = vec![snapshot("a@1.0.0", None, None), snapshot("b@1.0.0(x@1.0.0)", None, None), snapshot("c@1.0.0", None, None)];
    let policy = AllowBuildPolicy::new(vec![("b".to_string(), true), ("c".to_string(), false)], false);
    assert_eq!(built_dep_paths(&snapshots, &policy), vec!["b@1.0.0(x@1.0.0)".to_string()]);
}

#[test]
fn full_pkg_id_appends_integrity() {
    assert_eq!(create_full_pkg_id("a@1.0.0", Some(&registry("a@1.0.0"))), format!("a@1.0.0:{INTEGRITY}"));
    let dir = PackageEntry { key: "d@1.0.0".to_string(), resolution: Resolution::Directory { directory: "x".to_string() } };
    assert_eq!(create_full_pkg_id("d@1.0.0", Some(&dir)), "d@1.0.0");
    assert_eq!(create_full_pkg_id("m@1.0.0", None), "m@1.0.0");
}

#[test]
fn later_optional_alias_replaces_dependency() {
    let entry = SnapshotEntry {
        dependencies: Some(vec![edge("a", "1.0.0"), edge("b", "1.0.0")]),
        optional_dependencies: Some(vec![edge("a", "2.0.0")]),
        optional: false,
    };
    let mut children = collect_children(&entry);
    children.sort();
    assert_eq!(children, vec![("a".to_string(), "a@2.0.0".to_string()), ("b".to_string(), "b@1.0.0".to_string())]);
}

#[test]
fn registry_resolution_full_pkg_id_uses_integrity_verbatim() {
    let snapshots = vec![snapshot("@scope/foo@1.0.0", None, None)];
    let packages = vec![registry("@scope/foo@1.0.0")];
    let graph = build_deps_graph(&snapshots, &packages);
    let full = graph[0].full_pkg_id.clone().expect("integrity-based id");
    assert!(full.starts_with("@scope/foo@1.0.0:sha512-"), "got `{full}`");
}

#[test]
fn dependencies_become_children() {
    let snapshots = vec![snapshot("parent@1.0.0", Some(vec![edge("child", "2.0.0")]), None), snapshot("child@2.0.0", None, None)];
    let packages = vec![registry("parent@1.0.0"), registry("child@2.0.0")];
    let graph = build_deps_graph(&snapshots, &packages);
    let parent = graph.iter().find(|n| n.key == "parent@1.0.0").expect("parent node");
    assert_eq!(parent.children, vec![("child".to_string(), "child@2.0.0".to_string())]);
}

#[test]
fn optional_dependencies_fold_into_children() {
    let snapshots = vec![snapshot("parent@1.0.0", None, Some(vec![edge("optional", "3.0.0")])), snapshot("optional@3.0.0", None, None)];
    let packages = vec![registry("parent@1.0.0"), registry("optional@3.0.0")];
    let graph = build_deps_graph(&snapshots, &packages);
    let parent = graph.iter().find(|n| n.key == "parent@1.0.0").expect("parent node");
    assert!(parent.children.iter().any(|(alias, _)| alias == "optional"));
}

#[test]
fn snapshot_without_metadata_is_skipped() {
    let snapshots = vec![snapshot("orphan@1.0.0", None, None)];
    let graph = build_deps_graph(&snapshots, &Vec::new());
    assert!(graph.is_empty(), "orphan snapshot must not produce a graph node");
}

use pacquet_package_manager::installability::SkippedSnapshots;
use pacquet_package_manager::link_bins::{entry_kind, find_slot_own_package_dir, lockfile_bins_plan, BinChild, ModulesEntry};
use pacquet_package_manager::lockfile::{
    DepEdge, Importer, ImporterDep, ImporterDepVersion, ProjectSnapshot, Snapshot, SnapshotDepRef, SnapshotEntry,
};
use pacquet_package_manager::package_manifest::DependencyGroup;
use pacquet_package_manager::symlink_direct::{
    importer_root_dir, link_one_importer, modules_dir_name, plan_direct_links, validate_importer_id,
    SymlinkDirectDependenciesError,
};

fn dep(name: &str, version: ImporterDepVersion) -> ImporterDep {
    ImporterDep { name: name.to_string(), version }
}

#[test]
fn importer_keys_are_checked() {
    assert!(validate_importer_id(".").is_ok());
    assert!(validate_importer_id("packages/web").is_ok());
    for bad in ["", "/abs", "C:/x", "c:", "a\\b", "../x", "a/../b", ".."] {
        assert_eq!(
            validate_importer_id(bad),
            Err(SymlinkDirectDependenciesError::UnsafeImporterPath { importer_id: bad.to_string() }),
            "{bad:?}",
        );
    }
}

#[test]
fn importer_roots() {
    assert_eq!(importer_root_dir("/ws", "."), "/ws");
    assert_eq!(importer_root_dir("/ws", "packages/web"), "/ws/packages/web");
    assert_eq!(modules_dir_name("/ws/custom_modules"), "custom_modules");
    assert_eq!(modules_dir_name("/"), "node_modules");
}

#[test]
fn duplicate_dep_across_groups_collapses_to_one_entry() {
    let project = ProjectSnapshot {
        dependencies: Some(vec![dep("a", ImporterDepVersion::Regular("1.0.0".to_string()))]),
        optional_dependencies: Some(vec![dep("a", ImporterDepVersion::Regular("1.0.0".to_string()))]),
        dev_dependencies: Some(vec![dep("local", ImporterDepVersion::Link("../local".to_string()))]),
    };
    let groups = [DependencyGroup::Prod, DependencyGroup::Dev, DependencyGroup::Optional, DependencyGroup::Peer];
    let links = link_one_importer(&project, &groups, &SkippedSnapshots::new(), "/ws/node_modules/.pnpm", "/ws", "/ws/node_modules");
    assert_eq!(links.len(), 2);
    assert_eq!(links[0].name, "a");
    assert_eq!(links[0].group, DependencyGroup::Prod);
    assert_eq!(links[0].target, "/ws/node_modules/.pnpm/a@1.0.0/node_modules/a");
    assert_eq!(links[0].link, "/ws/node_modules/a");
    assert_eq!(links[0].version, "1.0.0");
    assert_eq!(links[1].target, "/ws/../local");
    assert_eq!(links[1].version, "link:../local");
}

#[test]
fn skipped_direct_dependency_is_not_linked() {
    let project = ProjectSnapshot {
        dependencies: Some(vec![
            dep("a", ImporterDepVersion::Regular("1.0.0(p@1.0.0)".to_string())),
            dep("b", ImporterDepVersion::Regular("2.0.0".to_string())),
        ]),
        optional_dependencies: None,
        dev_dependencies: None,
    };
    let mut skipped = SkippedSnapshots::new();
    skipped.insert("b@2.0.0".to_string());
    let links = link_one_importer(&project, &[DependencyGroup::Prod], &skipped, "/vs", "/p", "/p/node_modules");
    assert_eq!(links.len(), 1);
    assert_eq!(links[0].version, "1.0.0");
}

#[test]
fn bins_plan_follows_snapshots() {
    let snapshots = vec![Snapshot {
        key: "@scope/tool@1.0.0".to_string(),
        entry: SnapshotEntry {
            dependencies: Some(vec![DepEdge { alias: "dep".to_string(), dep_ref: SnapshotDepRef::Plain("2.0.0(x@1.0.0)".to_string()) }]),
            optional_dependencies: None,
            optional: false,
        },
    }];
    let plan = lockfile_bins_plan("/vs", &snapshots);
    assert_eq!(plan[0].bins_dir, "/vs/@scope+tool@1.0.0/node_modules/@scope/tool/node_modules/.bin");
    assert_eq!(
        plan[0].children,
        vec![BinChild { location: "/vs/@scope+tool@1.0.0/node_modules/dep".to_string(), metadata_key: "dep@2.0.0".to_string() }],
    );
}

#[test]
fn link_virtual_store_bins_handles_scoped_slot_name() {
    assert_eq!(find_slot_own_package_dir("/m", "@scope+pkg@1.0.0"), Some("/m/@scope/pkg".to_string()));
    assert_eq!(find_slot_own_package_dir("/m", "foo+bar@1.0.0"), Some("/m/foo+bar".to_string()));
    assert_eq!(find_slot_own_package_dir("/m", "nodash"), None);
}

#[test]
fn link_virtual_store_bins_handles_peer_resolved_slot_name() {
    assert_eq!(
        find_slot_own_package_dir("/m", "ts-node@10.9.1_@types+node@18.7.19_typescript@5.1.6"),
        Some("/m/ts-node".to_string()),
    );
}

#[test]
fn modules_entries_by_name() {
    assert_eq!(entry_kind(".bin"), ModulesEntry::Hidden);
    assert_eq!(entry_kind("@types"), ModulesEntry::Scope);
    assert_eq!(entry_kind("react"), ModulesEntry::Package);
}

fn importer(id: &str, deps: Vec<ImporterDep>) -> Importer {
    Importer {
        id: id.to_string(),
        snapshot: ProjectSnapshot { dependencies: Some(deps), optional_dependencies: None, dev_dependencies: None },
    }
}

#[test]
fn importers_are_planned_in_key_order() {
    let importers = vec![
        importer("packages/web", vec![dep("b", ImporterDepVersion::Regular("2.0.0".to_string()))]),
        importer(".", vec![dep("a", ImporterDepVersion::Regular("1.0.0".to_string()))]),
    ];
    let (plans, error) = plan_direct_links(
        &importers,
        &[DependencyGroup::Prod],
        &SkippedSnapshots::new(),
        "/ws/node_modules/.pnpm",
        "/ws",
        "/ws/custom_modules",
    );
    assert!(error.is_none());
    assert_eq!(plans.len(), 2);
    assert_eq!(plans[0].importer_id, ".");
    assert_eq!(plans[0].project_dir, "/ws");
    assert_eq!(plans[0].modules_dir, "/ws/custom_modules");
    assert_eq!(plans[0].links[0].link, "/ws/custom_modules/a");
    assert_eq!(plans[1].importer_id, "packages/web");
    assert_eq!(plans[1].modules_dir, "/ws/packages/web/custom_modules");
    assert_eq!(plans[1].links[0].target, "/ws/node_modules/.pnpm/b@2.0.0/node_modules/b");
}

#[test]
fn planning_stops_at_the_first_unsafe_importer() {
    let importers = vec![
        importer("z", vec![]),
        importer("../escape", vec![]),
        importer(".", vec![dep("a", ImporterDepVersion::Regular("1.0.0".to_string()))]),
    ];
    let (plans, error) =
        plan_direct_links(&importers, &[DependencyGroup::Prod], &SkippedSnapshots::new(), "/vs", "/ws", "/ws/node_modules");
    // `.` sorts before `../escape`, which sorts before `z`.
    assert_eq!(plans.len(), 1);
    assert_eq!(plans[0].importer_id, ".");
    assert_eq!(error, Some(SymlinkDirectDependenciesError::UnsafeImporterPath { importer_id: "../escape".to_string() }));
}

#[test]
fn missing_root_importer_surfaces_as_error() {
    let importers: Vec<Importer> = Vec::new();
    let (plans, error) =
        plan_direct_links(&importers, &[DependencyGroup::Prod], &SkippedSnapshots::new(), "/vs", "/proj", "/proj/node_modules");
    assert!(plans.is_empty());
    assert!(matches!(error, Some(SymlinkDirectDependenciesError::MissingRootImporter { .. })));
    let only_nested = vec![importer("packages/web", vec![])];
    let (plans, error) =
        plan_direct_links(&only_nested, &[DependencyGroup::Prod], &SkippedSnapshots::new(), "/vs", "/proj", "/proj/node_modules");
    assert!(plans.is_empty());
    assert_eq!(error, Some(SymlinkDirectDependenciesError::MissingRootImporter { importer_id: ".".to_string() }));
}

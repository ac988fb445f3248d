use pacquet_package_manager::installability::SkippedSnapshots;
use pacquet_package_manager::lockfile::{DepEdge, Snapshot, SnapshotDepRef, SnapshotEntry};
use pacquet_package_manager::virtual_store::{
    integrity_equal, partition_snapshots, prefetch_keys, snapshot_cache_key, snapshot_deps_equal, snapshot_unchanged,
    split_warm_cold, store_preconditions, BinaryArchive, BinaryResolution, CacheKeySource, PackageEntry, Resolution,
    SlotError,
};

fn metadata_with_integrity(key: &str, integrity: &str) -> PackageEntry {
    PackageEntry { key: key.to_string(), resolution: Resolution::Registry { integrity: integrity.to_string() } }
}

fn snapshot_with_dep(child: &str, ref_str: &str) -> SnapshotEntry {
    SnapshotEntry {
        dependencies: Some(vec![DepEdge { alias: child.to_string(), dep_ref: SnapshotDepRef::Plain(ref_str.to_string()) }]),
        optional_dependencies: None,
        optional: false,
    }
}

const A: &str = "sha512-AAAAAAAAAAAAAAAAAAAAAAAAAAAAAAAAAAAAAAAAAAAAAAAAAAAAAAAAAAAAAAAAAAAAAAAAAAAAAAAAAAAAAAAAAAAA";
const B: &str = "sha512-BBBBBBBBBBBBBBBBBBBBBBBBBBBBBBBBBBBBBBBBBBBBBBBBBBBBBBBBBBBBBBBBBBBBBBBBBBBBBBBBBBBBBBBBBBBB";

#[test]
fn snapshot_deps_equal_treats_absent_and_empty_alike() {
    let absent = SnapshotEntry::default();
    let empty = SnapshotEntry { dependencies: Some(Vec::new()), optional_dependencies: Some(Vec::new()), optional: false };
    assert!(snapshot_deps_equal(&absent, &empty));
    assert!(snapshot_deps_equal(&empty, &absent));
}

#[test]
fn snapshot_deps_equal_distinguishes_different_dependency_values() {
    let a = snapshot_with_dep("react", "17.0.2");
    let b = snapshot_with_dep("react", "18.0.0");
    assert!(!snapshot_deps_equal(&a, &b));
}

#[test]
fn snapshot_deps_equal_distinguishes_different_optional_dependency_values() {
    let a = SnapshotEntry {
        dependencies: None,
        optional_dependencies: Some(vec![DepEdge { alias: "react".to_string(), dep_ref: SnapshotDepRef::Plain("1.0.0".to_string()) }]),
        optional: false,
    };
    let b = SnapshotEntry {
        dependencies: None,
        optional_dependencies: Some(vec![DepEdge { alias: "react-dom".to_string(), dep_ref: SnapshotDepRef::Plain("1.0.0".to_string()) }]),
        optional: false,
    };
    assert!(!snapshot_deps_equal(&a, &b));
}

#[test]
fn snapshot_deps_equal_ignores_member_order() {
    let e = |n: &str, v: &str| DepEdge { alias: n.to_string(), dep_ref: SnapshotDepRef::Plain(v.to_string()) };
    let a = SnapshotEntry { dependencies: Some(vec![e("x", "1"), e("y", "2")]), optional_dependencies: None, optional: false };
    let b = SnapshotEntry { dependencies: Some(vec![e("y", "2"), e("x", "1")]), optional_dependencies: None, optional: false };
    assert!(snapshot_deps_equal(&a, &b));
    let c = SnapshotEntry {
        dependencies: Some(vec![DepEdge { alias: "x".to_string(), dep_ref: SnapshotDepRef::Alias("x@1".to_string()) }, e("y", "2")]),
        optional_dependencies: None,
        optional: false,
    };
    assert!(!snapshot_deps_equal(&a, &c));
}

#[test]
fn integrity_equal_matches_when_integrities_agree() {
    let a = metadata_with_integrity("p@1.0.0", A);
    let b = metadata_with_integrity("p@1.0.0", A);
    assert!(integrity_equal(Some(&a), Some(&b)));
}

#[test]
fn integrity_equal_distinguishes_changed_integrities() {
    let a = metadata_with_integrity("p@1.0.0", A);
    let b = metadata_with_integrity("p@1.0.0", B);
    assert!(!integrity_equal(Some(&a), Some(&b)));
}

#[test]
fn integrity_equal_treats_none_pair_as_equal() {
    assert!(integrity_equal(None, None));
}

#[test]
fn integrity_equal_treats_one_sided_missing_as_unequal() {
    let with_integrity = metadata_with_integrity("p@1.0.0", A);
    assert!(!integrity_equal(None, Some(&with_integrity)));
    assert!(!integrity_equal(Some(&with_integrity), None));
}

#[test]
fn cache_key_source_per_resolution() {
    let packages = vec![
        metadata_with_integrity("reg@1.0.0", A),
        PackageEntry {
            key: "tar@1.0.0".to_string(),
            resolution: Resolution::Tarball { tarball: "https://x/t.tgz".to_string(), integrity: None, git_hosted: false },
        },
        PackageEntry { key: "dir@1.0.0".to_string(), resolution: Resolution::Directory { directory: "../dir".to_string() } },
        PackageEntry { key: "git@1.0.0".to_string(), resolution: Resolution::Git { repo: "r".to_string(), commit: "c".to_string() } },
    ];
    assert_eq!(
        snapshot_cache_key("reg@1.0.0(peer@2.0.0)", &packages),
        Ok(Some(CacheKeySource { integrity: A.to_string(), pkg_id: "reg@1.0.0".to_string() })),
    );
    assert_eq!(
        snapshot_cache_key("tar@1.0.0", &packages),
        Err(SlotError::MissingTarballIntegrity { package_key: "tar@1.0.0".to_string() }),
    );
    assert_eq!(
        snapshot_cache_key("dir@1.0.0", &packages),
        Err(SlotError::UnsupportedResolution { package_key: "dir@1.0.0".to_string(), resolution_kind: "directory".to_string() }),
    );
    assert_eq!(snapshot_cache_key("git@1.0.0", &packages), Ok(None));
    assert_eq!(
        snapshot_cache_key("nope@1.0.0(x@1)", &packages),
        Err(SlotError::MissingPackageMetadata { snapshot_key: "nope@1.0.0(x@1)".to_string(), metadata_key: "nope@1.0.0".to_string() }),
    );
}

#[test]
fn unchanged_snapshot_needs_same_wiring_and_integrity() {
    let wanted = snapshot_with_dep("b", "1.0.0");
    let packages = vec![metadata_with_integrity("a@1.0.0", A)];
    let current = Some(vec![Snapshot { key: "a@1.0.0".to_string(), entry: snapshot_with_dep("b", "1.0.0") }]);
    assert!(snapshot_unchanged("a@1.0.0", &wanted, &packages, &current, &Some(vec![metadata_with_integrity("a@1.0.0", A)])));
    assert!(!snapshot_unchanged("a@1.0.0", &wanted, &packages, &current, &Some(vec![metadata_with_integrity("a@1.0.0", B)])));
    assert!(!snapshot_unchanged("a@1.0.0", &snapshot_with_dep("b", "2.0.0"), &packages, &current, &None));
    assert!(!snapshot_unchanged("a@1.0.0", &wanted, &packages, &None, &None));
}

#[test]
fn partition_drops_skipped_and_keeps_placed() {
    let snapshots = vec![
        Snapshot { key: "a@1.0.0".to_string(), entry: SnapshotEntry::default() },
        Snapshot { key: "b@1.0.0".to_string(), entry: SnapshotEntry::default() },
        Snapshot { key: "c@1.0.0".to_string(), entry: SnapshotEntry::default() },
        Snapshot { key: "d@1.0.0".to_string(), entry: SnapshotEntry::default() },
    ];
    let mut skipped = SkippedSnapshots::new();
    skipped.insert("b@1.0.0".to_string());
    let plan = partition_snapshots(&snapshots, &skipped, &vec![false, true, true, true], &vec![true, true, true, false]);
    assert_eq!(plan.survivors, vec![0, 3]);
    assert_eq!(plan.kept, vec![2]);
}

#[test]
fn prefetch_keys_are_sorted_and_unique() {
    let keys = vec![Some("b".to_string()), None, Some("a".to_string()), Some("b".to_string())];
    assert_eq!(prefetch_keys(&keys), vec!["a".to_string(), "b".to_string()]);
    assert!(prefetch_keys(&vec![None, None]).is_empty());
}

#[test]
fn warm_snapshots_are_those_the_store_serves() {
    let keys = vec![Some("k1".to_string()), None, Some("k2".to_string()), Some("k3".to_string())];
    let found = vec!["k3".to_string(), "k1".to_string()];
    let (warm, cold) = split_warm_cold(&keys, &found);
    assert_eq!(warm, vec![0, 3]);
    assert_eq!(cold, vec![1, 2]);
}

#[test]
fn store_work_needs_snapshots_and_packages() {
    assert_eq!(store_preconditions(false, false), Ok(false));
    assert_eq!(store_preconditions(false, true), Ok(false));
    assert_eq!(store_preconditions(true, false), Err(SlotError::MissingPackagesSection));
    assert_eq!(store_preconditions(true, true), Ok(true));
}

#[test]
fn runtime_binaries_go_to_the_cold_batch() {
    let packages = vec![PackageEntry {
        key: "node@runtime:22.0.0".to_string(),
        resolution: Resolution::Binary(BinaryResolution {
            url: "https://nodejs.org/dist/v22.0.0/node-v22.0.0-linux-x64.tar.gz".to_string(),
            integrity: A.to_string(),
            archive: BinaryArchive::Tarball,
            prefix: None,
        }),
    }];
    assert_eq!(snapshot_cache_key("node@runtime:22.0.0", &packages), Ok(None));
}

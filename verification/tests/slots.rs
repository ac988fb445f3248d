use pacquet_package_manager::fetch::{
    fetch_kind, host_platform_selector, render_variant_targets, tarball_url_and_integrity, variant_binary, FetchKind,
    MissingTarballIntegrity, PlatformSelector, PlatformTarget, TarballSource, VariantError,
};
use pacquet_package_manager::lockfile::{DepEdge, SnapshotDepRef};
use pacquet_package_manager::slots::{
    build_package_snapshot, cas_dirs, create_symlink_layout, flat_name, import_plan, key_name, preserve_modules,
    registry_package_key, slot_package_dir, BuildSnapshotError, ImportPlan, ImportTarget, PreserveModules, RegistryPackage,
};
use pacquet_package_manager::virtual_store::{
    BinaryArchive, BinaryResolution, PlatformVariant, Resolution, VariantResolution,
};

const INTEGRITY: &str = "sha512-TIE61hcgbI/SlJh/0c1sT1SZbBlpg7WiZcs65WPJhoIZQPhH1SCpcGA7LgrVXT15lwN3HV4GQM/MJ9aKEn3Qfg==";

fn make_package(name: &str, version: &str) -> RegistryPackage {
    RegistryPackage { name: name.to_string(), version: version.to_string(), integrity: Some(INTEGRITY.to_string()) }
}

#[test]
fn builds_package_key_without_leading_slash_and_no_peer() {
    assert_eq!(registry_package_key(&make_package("react", "17.0.2")), "react@17.0.2");
}

#[test]
fn builds_package_key_for_scoped_name() {
    assert_eq!(registry_package_key(&make_package("@types/node", "18.7.19")), "@types/node@18.7.19");
}

#[test]
fn builds_metadata_with_registry_resolution_and_no_deps() {
    let built = build_package_snapshot(&make_package("lodash", "4.17.21"), &Vec::new()).unwrap();
    assert_eq!(built.package_key, "lodash@4.17.21");
    assert!(matches!(built.metadata.resolution, Resolution::Registry { .. }));
    assert!(built.snapshot.dependencies.is_none());
}

#[test]
fn builds_snapshot_with_resolved_dependencies() {
    let built = build_package_snapshot(&make_package("react-dom", "17.0.2"), &vec![("react".to_string(), "17.0.2".to_string())]).unwrap();
    let deps = built.snapshot.dependencies.expect("dependencies should be populated");
    assert_eq!(deps.len(), 1);
    assert_eq!(deps[0], DepEdge { alias: "react".to_string(), dep_ref: SnapshotDepRef::Plain("17.0.2".to_string()) });
}

#[test]
fn returns_error_when_integrity_is_missing() {
    let mut pkg = make_package("broken", "1.0.0");
    pkg.integrity = None;
    let err = build_package_snapshot(&pkg, &Vec::new()).expect_err("should fail without integrity");
    assert_eq!(err, BuildSnapshotError::MissingIntegrity { name: "broken".to_string(), version: "1.0.0".to_string() });
}

#[test]
fn slot_paths_of_a_key() {
    assert_eq!(flat_name("@scope/foo@1.0.0"), "@scope+foo@1.0.0");
    assert_eq!(key_name("@scope/foo@1.0.0(bar@2.0.0)"), "@scope/foo");
    assert_eq!(key_name("foo@1.0.0(@x/y@2.0.0)"), "foo");
    assert_eq!(slot_package_dir("/vs", "@scope/foo@1.0.0"), "/vs/@scope+foo@1.0.0/node_modules/@scope/foo");
}

#[test]
fn symlink_layout_uses_alias_for_link_and_target_for_slot() {
    let deps = vec![
        DepEdge { alias: "string-width-cjs".to_string(), dep_ref: SnapshotDepRef::Alias("string-width@4.2.3".to_string()) },
        DepEdge { alias: "react".to_string(), dep_ref: SnapshotDepRef::Plain("17.0.2".to_string()) },
    ];
    let pairs = create_symlink_layout(&deps, "/vs", "/vs/a@1.0.0/node_modules");
    assert_eq!(
        pairs,
        vec![
            (
                "/vs/string-width@4.2.3/node_modules/string-width".to_string(),
                "/vs/a@1.0.0/node_modules/string-width-cjs".to_string(),
            ),
            ("/vs/react@17.0.2/node_modules/react".to_string(), "/vs/a@1.0.0/node_modules/react".to_string()),
        ],
    );
}

#[test]
fn cas_dirs_are_unique_and_shortest_first() {
    let entries: Vec<String> = ["package.json", "lib/a/b.js", "lib/c.js", "lib/a/d.js", "bin/x"].iter().map(|s| s.to_string()).collect();
    let dirs = cas_dirs(&entries);
    assert_eq!(dirs.len(), 3);
    assert!(dirs.windows(2).all(|w| w[0].len() <= w[1].len()));
    for d in ["lib", "lib/a", "bin"] {
        assert!(dirs.contains(&d.to_string()), "missing {d}");
    }
}

#[test]
fn import_plans() {
    assert_eq!(import_plan(ImportTarget::Absent), ImportPlan::Create);
    assert_eq!(import_plan(ImportTarget::NotADirectory), ImportPlan::ClearThenCreate);
    assert_eq!(import_plan(ImportTarget::Directory), ImportPlan::StageAndSwap);
    assert_eq!(preserve_modules(true, false), PreserveModules::Move);
    assert_eq!(preserve_modules(true, true), PreserveModules::Collision);
    assert_eq!(preserve_modules(false, true), PreserveModules::Nothing);
}

#[test]
fn registry_tarball_url() {
    let r = Resolution::Registry { integrity: INTEGRITY.to_string() };
    assert_eq!(
        tarball_url_and_integrity(&r, "@types/node@18.7.19(x@1)", "https://registry.npmjs.org/"),
        Ok(TarballSource {
            url: "https://registry.npmjs.org/@types/node/-/node-18.7.19.tgz".to_string(),
            integrity: INTEGRITY.to_string(),
        }),
    );
    let t = Resolution::Tarball { tarball: "https://x/y.tgz".to_string(), integrity: None, git_hosted: false };
    assert_eq!(
        tarball_url_and_integrity(&t, "y@1.0.0", "https://r"),
        Err(MissingTarballIntegrity { package_key: "y@1.0.0".to_string() }),
    );
}

#[test]
fn fetchers_by_resolution() {
    assert_eq!(fetch_kind(&Resolution::Registry { integrity: String::new() }), FetchKind::Tarball);
    assert_eq!(
        fetch_kind(&Resolution::Tarball { tarball: String::new(), integrity: None, git_hosted: true }),
        FetchKind::GitHostedTarball,
    );
    assert_eq!(fetch_kind(&Resolution::Git { repo: String::new(), commit: String::new() }), FetchKind::Git);
    assert_eq!(fetch_kind(&Resolution::Directory { directory: String::new() }), FetchKind::Unsupported);
    assert_eq!(fetch_kind(&Resolution::Binary(binary("https://n/node.tgz"))), FetchKind::Binary);
    assert_eq!(fetch_kind(&Resolution::Variations { variants: vec![] }), FetchKind::Variations);
}

fn binary(url: &str) -> BinaryResolution {
    BinaryResolution {
        url: url.to_string(),
        integrity: INTEGRITY.to_string(),
        archive: BinaryArchive::Tarball,
        prefix: Some("node-v22.0.0-linux-x64".to_string()),
    }
}

fn target(os: &str, cpu: &str, libc: Option<&str>) -> PlatformTarget {
    PlatformTarget { os: os.to_string(), cpu: cpu.to_string(), libc: libc.map(|l| l.to_string()) }
}

#[test]
fn variant_targets_render_in_order() {
    let variants = vec![
        PlatformVariant {
            targets: vec![target("darwin", "arm64", None), target("linux", "x64", Some("musl"))],
            resolution: VariantResolution::Binary(binary("https://n/a.tgz")),
        },
        PlatformVariant { targets: vec![], resolution: VariantResolution::Tarball },
        PlatformVariant {
            targets: vec![target("win32", "x64", None)],
            resolution: VariantResolution::Binary(binary("https://n/b.zip")),
        },
    ];
    assert_eq!(render_variant_targets(&variants), "darwin/arm64, linux/x64+musl, win32/x64");
    assert_eq!(render_variant_targets(&vec![]), "");
}

fn runtime_variants() -> Vec<PlatformVariant> {
    vec![
        PlatformVariant {
            targets: vec![target("linux", "x64", None)],
            resolution: VariantResolution::Binary(binary("https://n/node-linux-x64.tgz")),
        },
        PlatformVariant { targets: vec![target("darwin", "arm64", None)], resolution: VariantResolution::Tarball },
    ]
}

#[test]
fn variations_without_host_variant_list_the_targets() {
    let host = host_platform_selector("freebsd", "x64", "unknown");
    let variants = runtime_variants();
    assert_eq!(
        variant_binary("node@runtime:22.0.0", &variants, None, &host),
        Err(VariantError::NoMatchingPlatformVariant {
            package_key: "node@runtime:22.0.0".to_string(),
            host_os: "freebsd".to_string(),
            host_cpu: "x64".to_string(),
            host_libc: None,
            available_targets: "linux/x64, darwin/arm64".to_string(),
        }),
    );
}

#[test]
fn variations_pick_the_chosen_binary() {
    let host = host_platform_selector("linux", "x64", "glibc");
    let variants = runtime_variants();
    assert_eq!(variant_binary("node@runtime:22.0.0", &variants, Some(0), &host), Ok(&binary("https://n/node-linux-x64.tgz")));
}

#[test]
fn variations_reject_a_non_binary_variant() {
    let host = host_platform_selector("darwin", "arm64", "unknown");
    let variants = runtime_variants();
    assert_eq!(
        variant_binary("node@runtime:22.0.0", &variants, Some(1), &host),
        Err(VariantError::VariantHasNonBinaryResolution {
            package_key: "node@runtime:22.0.0".to_string(),
            inner_kind: "tarball".to_string(),
        }),
    );
}

#[test]
fn host_selector_drops_unknown_libc() {
    assert_eq!(
        host_platform_selector("linux", "x64", "glibc"),
        PlatformSelector { os: "linux".to_string(), cpu: "x64".to_string(), libc: Some("glibc".to_string()) }
    );
    assert_eq!(host_platform_selector("darwin", "arm64", "unknown").libc, None);
}

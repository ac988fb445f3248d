use pacquet_package_manager::install::build_modules_manifest;
use pacquet_package_manager::validate_modules::{
    patterns_equal, stringify_included, validate_modules, IncludedDependencies, LayoutConfig, LayoutVersion, Modules, NodeLinker,
    ValidateModulesError,
    DEFAULT_VIRTUAL_STORE_DIR_MAX_LENGTH,
};

fn config() -> LayoutConfig {
    LayoutConfig {
        hoist_pattern: Some(vec!["*".to_string()]),
        public_hoist_pattern: Some(Vec::new()),
        node_linker: NodeLinker::Isolated,
        registry: "https://registry.npmjs.org/".to_string(),
        store_dir: "/home/user/.local/share/pnpm/store/v11".to_string(),
        virtual_store_dir: "/lockfile-dir/node_modules/.pnpm".to_string(),
    }
}

fn requested_full_groups() -> IncludedDependencies {
    IncludedDependencies { dependencies: true, dev_dependencies: true, optional_dependencies: true }
}

fn baseline_modules(config: &LayoutConfig) -> Modules {
    build_modules_manifest(config, requested_full_groups(), "pacquet@0.1.0", "Thu, 01 Jan 1970 00:00:00 GMT")
}

#[test]
fn baseline_round_trip_validates_clean() {
    let config = config();
    let modules = baseline_modules(&config);
    validate_modules(&modules, &config, requested_full_groups(), "/lockfile-dir", "/lockfile-dir/node_modules")
        .expect("baseline must validate clean");
}

#[test]
fn hoist_pattern_diff_returns_error() {
    let config = config();
    let mut modules = baseline_modules(&config);
    modules.hoist_pattern = Some(vec!["only-foo".to_string()]);
    let err = validate_modules(&modules, &config, requested_full_groups(), "/lockfile-dir", "/lockfile-dir/node_modules")
        .expect_err("differing hoist_pattern must error");
    assert!(matches!(err, ValidateModulesError::HoistPatternDiff), "got {err:?}");
}

#[test]
fn public_hoist_pattern_diff_returns_error() {
    let config = config();
    let mut modules = baseline_modules(&config);
    modules.public_hoist_pattern = Some(vec!["different".to_string()]);
    let err = validate_modules(&modules, &config, requested_full_groups(), "/lockfile-dir", "/lockfile-dir/node_modules")
        .expect_err("differing public_hoist_pattern must error");
    assert!(matches!(err, ValidateModulesError::PublicHoistPatternDiff), "got {err:?}");
}

#[test]
fn none_vs_some_empty_pattern_treated_as_equal() {
    let mut config = config();
    config.hoist_pattern = None;
    config.public_hoist_pattern = None;
    let mut modules = baseline_modules(&config);
    modules.hoist_pattern = Some(Vec::new());
    modules.public_hoist_pattern = Some(Vec::new());
    validate_modules(&modules, &config, requested_full_groups(), "/anywhere", "/anywhere/node_modules")
        .expect("None and Some([]) compare equal");
}

#[test]
fn included_deps_conflict_returns_error_with_payload() {
    let config = config();
    let modules = baseline_modules(&config);
    let prod_only = IncludedDependencies { dependencies: true, dev_dependencies: false, optional_dependencies: false };
    let err = validate_modules(&modules, &config, prod_only, "/lockfile-dir", "/lockfile-dir/node_modules")
        .expect_err("differing included must error");
    let ValidateModulesError::IncludedDepsConflict { lockfile_dir, recorded, requested } = err else {
        panic!("expected IncludedDepsConflict, got {err:?}");
    };
    assert_eq!(lockfile_dir, "/lockfile-dir");
    assert_eq!(recorded, "dependencies, devDependencies, optionalDependencies");
    assert_eq!(requested, "dependencies");
}

#[test]
fn store_dir_drift_returns_unexpected_store() {
    let config = config();
    let mut modules = baseline_modules(&config);
    modules.store_dir = "/some-other-store".to_string();
    let err = validate_modules(&modules, &config, requested_full_groups(), "/lockfile-dir", "/lockfile-dir/node_modules")
        .expect_err("store_dir drift must error");
    let ValidateModulesError::UnexpectedStore { recorded, requested, .. } = err else {
        panic!("expected UnexpectedStore, got {err:?}");
    };
    assert_eq!(recorded, "/some-other-store");
    assert_eq!(requested, config.store_dir);
}

#[test]
fn virtual_store_dir_drift_returns_unexpected_virtual_store_dir() {
    let config = config();
    let mut modules = baseline_modules(&config);
    modules.virtual_store_dir = "/some-other-vs".to_string();
    let err = validate_modules(&modules, &config, requested_full_groups(), "/lockfile-dir", "/lockfile-dir/node_modules")
        .expect_err("virtual_store_dir drift must error");
    assert!(matches!(err, ValidateModulesError::UnexpectedVirtualStoreDir { .. }), "got {err:?}");
}

#[test]
fn virtual_store_dir_max_length_drift_returns_error() {
    let config = config();
    let mut modules = baseline_modules(&config);
    modules.virtual_store_dir_max_length = 200;
    let err = validate_modules(&modules, &config, requested_full_groups(), "/lockfile-dir", "/lockfile-dir/node_modules")
        .expect_err("virtual_store_dir_max_length drift must error");
    assert!(matches!(err, ValidateModulesError::VirtualStoreDirMaxLengthDiff), "got {err:?}");
}

#[test]
fn store_dir_path_equality_ignores_trailing_slash() {
    let mut config = config();
    config.store_dir = "/store".to_string();
    let mut modules = baseline_modules(&config);
    modules.store_dir = "/store/".to_string();
    validate_modules(&modules, &config, requested_full_groups(), "/lockfile-dir", "/lockfile-dir/node_modules")
        .expect("trailing-slash diff must compare equal via Path::eq");
}

#[test]
fn first_drift_in_upstream_order_wins() {
    let config = config();
    let mut modules = baseline_modules(&config);
    modules.virtual_store_dir_max_length = 200;
    modules.hoist_pattern = Some(vec!["only-foo".to_string()]);
    let err = validate_modules(&modules, &config, requested_full_groups(), "/lockfile-dir", "/lockfile-dir/node_modules")
        .expect_err("must error");
    assert!(matches!(err, ValidateModulesError::VirtualStoreDirMaxLengthDiff), "max-length must surface first, got {err:?}");
}

#[test]
fn stringify_included_labels() {
    let none = IncludedDependencies { dependencies: false, dev_dependencies: false, optional_dependencies: false };
    assert_eq!(stringify_included(none), "no dependency groups");
    let dev_opt = IncludedDependencies { dependencies: false, dev_dependencies: true, optional_dependencies: true };
    assert_eq!(stringify_included(dev_opt), "devDependencies, optionalDependencies");
}

#[test]
fn patterns_compare_in_order() {
    let a = Some(vec!["a".to_string(), "b".to_string()]);
    let b = Some(vec!["b".to_string(), "a".to_string()]);
    assert!(!patterns_equal(&a, &b));
    assert!(patterns_equal(&a, &a.clone()));
    assert!(patterns_equal(&None, &Some(Vec::new())));
    assert!(!patterns_equal(&None, &a));
    assert_eq!(DEFAULT_VIRTUAL_STORE_DIR_MAX_LENGTH, 120);
}

#[test]
fn written_record_carries_linker_registry_and_writer() {
    let config = LayoutConfig { node_linker: NodeLinker::Hoisted, ..config() };
    let modules = baseline_modules(&config);
    assert_eq!(modules.layout_version, Some(LayoutVersion));
    assert_eq!(modules.node_linker, Some(NodeLinker::Hoisted));
    assert_eq!(
        modules.registries,
        Some(vec![("default".to_string(), "https://registry.npmjs.org/".to_string())])
    );
    assert!(modules.package_manager.starts_with("pacquet@"));
    assert_eq!(modules.pruned_at, "Thu, 01 Jan 1970 00:00:00 GMT");
    assert_eq!(modules.virtual_store_dir_max_length, DEFAULT_VIRTUAL_STORE_DIR_MAX_LENGTH);
}

use pacquet_package_manager::build_modules::{
    on_build_failure, parse_name_version_from_key, plan_build_modules, plan_builds, side_effects_cache_gate,
    virtual_store_dir_for_key, AllowBuildPolicy, BuildFailurePlan, BuildStep,
};
use pacquet_package_manager::lockfile::{
    DepEdge, Importer, ImporterDep, ImporterDepVersion, ProjectSnapshot, Snapshot, SnapshotDepRef, SnapshotEntry,
};
use pacquet_package_manager::json::JsonValue;

fn rules(entries: &[(&str, bool)]) -> Vec<(String, bool)> {
    entries.iter().map(|(k, v)| (k.to_string(), *v)).collect()
}

#[test]
fn parse_scoped_key() {
    let (name, version) = parse_name_version_from_key("/@pnpm.e2e/install-script-example@1.0.0");
    assert_eq!(name, "@pnpm.e2e/install-script-example");
    assert_eq!(version, "1.0.0");
}

#[test]
fn parse_unscoped_key() {
    let (name, version) = parse_name_version_from_key("/is-positive@1.0.0");
    assert_eq!(name, "is-positive");
    assert_eq!(version, "1.0.0");
}

#[test]
fn parse_key_without_leading_slash() {
    let (name, version) = parse_name_version_from_key("express@4.18.1");
    assert_eq!(name, "express");
    assert_eq!(version, "4.18.1");
}

#[test]
fn parse_key_without_version_is_all_name() {
    assert_eq!(parse_name_version_from_key("/@scope"), ("@scope".to_string(), String::new()));
    assert_eq!(parse_name_version_from_key("plain"), ("plain".to_string(), String::new()));
}

#[test]
fn default_policy_denies_all() {
    let policy = AllowBuildPolicy::default();
    assert_eq!(policy.check("any-package", "1.0.0"), None);
}

#[test]
fn explicit_allow() {
    let policy = AllowBuildPolicy::new(rules(&[("@pnpm.e2e/install-script-example", true)]), false);
    assert_eq!(policy.check("@pnpm.e2e/install-script-example", "1.0.0"), Some(true));
}

#[test]
fn explicit_deny() {
    let policy = AllowBuildPolicy::new(rules(&[("@pnpm.e2e/bad-package", false)]), false);
    assert_eq!(policy.check("@pnpm.e2e/bad-package", "1.0.0"), Some(false));
}

#[test]
fn unlisted_returns_none() {
    let policy = AllowBuildPolicy::new(rules(&[("@pnpm.e2e/allowed", true)]), false);
    assert_eq!(policy.check("@pnpm.e2e/not-listed", "1.0.0"), None);
}

#[test]
fn exact_version_takes_precedence() {
    let policy = AllowBuildPolicy::new(rules(&[("@pnpm.e2e/pkg@1.0.0", true), ("@pnpm.e2e/pkg", false)]), false);
    assert_eq!(policy.check("@pnpm.e2e/pkg", "1.0.0"), Some(true));
    assert_eq!(policy.check("@pnpm.e2e/pkg", "2.0.0"), Some(false));
}

#[test]
fn empty_rules_denies_all() {
    let policy = AllowBuildPolicy::new(Vec::new(), false);
    assert_eq!(policy.check("any-package", "1.0.0"), None);
}

#[test]
fn dangerously_allow_all_builds() {
    let policy = AllowBuildPolicy::new(Vec::new(), true);
    assert_eq!(policy.check("any-package", "1.0.0"), Some(true));
    assert_eq!(policy.check("other-package", "2.0.0"), Some(true));
}

#[test]
fn dangerously_allow_all_overrides_deny() {
    let policy = AllowBuildPolicy::new(rules(&[("@pnpm.e2e/pkg", false)]), true);
    assert_eq!(policy.check("@pnpm.e2e/pkg", "1.0.0"), Some(true));
}

#[test]
fn later_rule_for_same_key_wins() {
    let policy = AllowBuildPolicy::new(rules(&[("pkg", true), ("pkg", false)]), false);
    assert_eq!(policy.check("pkg", "1.0.0"), Some(false));
}

#[test]
fn missing_manifest_denies_all() {
    // A project without a readable manifest gets the default policy.
    let policy = AllowBuildPolicy::default();
    assert_eq!(policy.check("anything", "1.0.0"), None);
}

fn s(v: &str) -> String {
    v.to_string()
}

#[test]
fn from_manifest_parses_pnpm_section() {
    let manifest = JsonValue::Object(vec![(
        s("pnpm"),
        JsonValue::Object(vec![
            (s("dangerouslyAllowAllBuilds"), JsonValue::Bool(false)),
            (
                s("allowBuilds"),
                JsonValue::Object(vec![
                    (s("@pnpm.e2e/install-script-example"), JsonValue::Bool(true)),
                    (s("@pnpm.e2e/bad-package"), JsonValue::Bool(false)),
                    (s("@pnpm.e2e/ignored"), JsonValue::Str(s("yes"))),
                ]),
            ),
        ]),
    )]);
    let policy = AllowBuildPolicy::from_manifest_value(&manifest);
    assert_eq!(policy.check("@pnpm.e2e/install-script-example", "1.0.0"), Some(true));
    assert_eq!(policy.check("@pnpm.e2e/bad-package", "1.0.0"), Some(false));
    assert_eq!(policy.check("@pnpm.e2e/unrelated", "1.0.0"), None);
    assert_eq!(policy.check("@pnpm.e2e/ignored", "1.0.0"), None);
}

#[test]
fn from_manifest_reads_allow_all_flag() {
    let manifest = JsonValue::Object(vec![(
        s("pnpm"),
        JsonValue::Object(vec![(s("dangerouslyAllowAllBuilds"), JsonValue::Bool(true))]),
    )]);
    let policy = AllowBuildPolicy::from_manifest_value(&manifest);
    assert_eq!(policy.check("anything", "1.0.0"), Some(true));
    let not_bool = JsonValue::Object(vec![(
        s("pnpm"),
        JsonValue::Object(vec![(s("dangerouslyAllowAllBuilds"), JsonValue::Str(s("true")))]),
    )]);
    assert_eq!(AllowBuildPolicy::from_manifest_value(&not_bool).check("anything", "1.0.0"), None);
}

#[test]
fn package_dir_in_virtual_store() {
    assert_eq!(
        virtual_store_dir_for_key("/vs", "@pnpm.e2e/foo@1.0.0(@pnpm.e2e/bar@2.0.0)"),
        "/vs/@pnpm.e2e+foo@1.0.0/node_modules/@pnpm.e2e/foo",
    );
    assert_eq!(virtual_store_dir_for_key("/vs", "/is-positive@1.0.0"), "/vs/is-positive@1.0.0/node_modules/is-positive");
}

#[test]
fn build_modules_collects_ignored_builds() {
    let chunks = vec![vec![s("zzz@1.0.0"), s("aaa@2.0.0")]];
    let requires = vec![(s("zzz@1.0.0"), true), (s("aaa@2.0.0"), true)];
    let plan = plan_builds(&chunks, &requires, &AllowBuildPolicy::default());
    assert!(plan.to_run.is_empty());
    assert_eq!(plan.ignored, vec![s("aaa@2.0.0"), s("zzz@1.0.0")]);
}

#[test]
fn build_modules_excludes_explicit_deny_from_ignored() {
    let chunks = vec![vec![s("denied@1.0.0"), s("unlisted@1.0.0")]];
    let requires = vec![(s("denied@1.0.0"), true), (s("unlisted@1.0.0"), true)];
    let policy = AllowBuildPolicy::new(rules(&[("denied", false)]), false);
    let plan = plan_builds(&chunks, &requires, &policy);
    assert!(plan.to_run.is_empty());
    assert_eq!(plan.ignored, vec![s("unlisted@1.0.0")]);
}

#[test]
fn plan_runs_allowed_builds_in_order_and_dedups_ignored() {
    let chunks = vec![
        vec![s("b@1.0.0(x@1.0.0)"), s("n@1.0.0")],
        vec![s("a@1.0.0"), s("b@1.0.0(x@2.0.0)")],
    ];
    let requires = vec![(s("b@1.0.0(x@1.0.0)"), true), (s("a@1.0.0"), true), (s("b@1.0.0(x@2.0.0)"), true), (s("n@1.0.0"), false)];
    let policy = AllowBuildPolicy::new(rules(&[("a", true)]), false);
    let plan = plan_builds(&chunks, &requires, &policy);
    assert_eq!(plan.to_run, vec![BuildStep { key: s("a@1.0.0"), name: s("a"), version: s("1.0.0") }]);
    assert_eq!(plan.ignored, vec![s("b@1.0.0")]);
}

#[test]
fn failed_build_of_optional_package_is_skipped() {
    assert_eq!(on_build_failure(true), BuildFailurePlan::SkipOptional);
    assert_eq!(on_build_failure(false), BuildFailurePlan::Fail);
}

#[test]
fn side_effects_cache_needs_every_ingredient() {
    assert!(side_effects_cache_gate(true, true, 1, true));
    assert!(!side_effects_cache_gate(false, true, 1, true));
    assert!(!side_effects_cache_gate(true, false, 1, true));
    assert!(!side_effects_cache_gate(true, true, 0, true));
    assert!(!side_effects_cache_gate(true, true, 1, false));
}

fn dep_snapshot(key: &str, deps: &[(&str, &str)]) -> Snapshot {
    let edges: Vec<DepEdge> = deps
        .iter()
        .map(|(n, v)| DepEdge { alias: n.to_string(), dep_ref: SnapshotDepRef::Plain(v.to_string()) })
        .collect();
    Snapshot {
        key: key.to_string(),
        entry: SnapshotEntry {
            dependencies: if edges.is_empty() { None } else { Some(edges) },
            optional_dependencies: None,
            optional: false,
        },
    }
}

fn root_importer(deps: &[(&str, &str)]) -> Vec<Importer> {
    let list: Vec<ImporterDep> = deps
        .iter()
        .map(|(n, v)| ImporterDep { name: n.to_string(), version: ImporterDepVersion::Regular(v.to_string()) })
        .collect();
    vec![Importer {
        id: ".".to_string(),
        snapshot: ProjectSnapshot { dependencies: Some(list), optional_dependencies: None, dev_dependencies: None },
    }]
}

#[test]
fn lockfile_without_snapshots_builds_nothing() {
    let plan = plan_build_modules(&None, &vec![], &root_importer(&[]), &AllowBuildPolicy::default());
    assert!(plan.to_run.is_empty());
    assert!(plan.ignored.is_empty());
}

#[test]
fn build_step_runs_children_first_and_reports_unlisted() {
    let snapshots = vec![
        dep_snapshot("app-dep@1.0.0", &[("native", "2.0.0"), ("helper", "1.0.0")]),
        dep_snapshot("native@2.0.0", &[]),
        dep_snapshot("helper@1.0.0", &[]),
    ];
    let requires = vec![(s("app-dep@1.0.0"), true), (s("native@2.0.0"), true), (s("helper@1.0.0"), true)];
    let policy = AllowBuildPolicy::new(rules(&[("app-dep", true), ("native", true)]), false);
    let plan = plan_build_modules(&Some(snapshots), &requires, &root_importer(&[("app-dep", "1.0.0")]), &policy);
    let keys: Vec<String> = plan.to_run.iter().map(|step| step.key.clone()).collect();
    assert_eq!(keys, vec![s("native@2.0.0"), s("app-dep@1.0.0")]);
    assert_eq!(plan.ignored, vec![s("helper@1.0.0")]);
}

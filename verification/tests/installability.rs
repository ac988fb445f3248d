use pacquet_package_manager::installability::{
    any_installability_constraint, compute_skipped_snapshots, metadata_has_meaningful_constraint, plan_skips,
    platform_axis_meaningful, split_name_version, Incompatibility, InstallabilityMetadata, SkipReason, SkippedSnapshots,
    SnapshotFlag,
};

fn sl(items: &[&str]) -> Vec<String> {
    items.iter().map(|s| s.to_string()).collect()
}

fn meta() -> InstallabilityMetadata {
    InstallabilityMetadata { engines: None, cpu: None, os: None, libc: None }
}

fn flag(key: &str, optional: bool) -> SnapshotFlag {
    SnapshotFlag { key: key.to_string(), optional }
}

fn fails(key: &str) -> (String, Option<Incompatibility>) {
    (key.to_string(), Some(Incompatibility { reason: SkipReason::UnsupportedPlatform, message: "no".to_string() }))
}

fn passes(key: &str) -> (String, Option<Incompatibility>) {
    (key.to_string(), None)
}

#[test]
fn axis_meaningful_only_for_real_constraints() {
    assert!(!platform_axis_meaningful(None));
    assert!(!platform_axis_meaningful(Some(&[])));
    assert!(!platform_axis_meaningful(Some(&sl(&["any"]))));
    assert!(platform_axis_meaningful(Some(&sl(&["linux"]))));
    assert!(platform_axis_meaningful(Some(&sl(&["any", "linux"]))));
}

#[test]
fn engines_count_only_for_node_and_pnpm() {
    let npm_only = InstallabilityMetadata { engines: Some(vec![("npm".to_string(), ">=8".to_string())]), ..meta() };
    assert!(!metadata_has_meaningful_constraint(&npm_only));
    let node = InstallabilityMetadata { engines: Some(vec![("node".to_string(), ">=18".to_string())]), ..meta() };
    assert!(metadata_has_meaningful_constraint(&node));
    let os = InstallabilityMetadata { os: Some(sl(&["darwin"])), ..meta() };
    assert!(metadata_has_meaningful_constraint(&os));
    assert!(!any_installability_constraint(&vec![("a@1.0.0".to_string(), meta())]));
    assert!(any_installability_constraint(&vec![("a@1.0.0".to_string(), meta()), ("b@1.0.0".to_string(), os)]));
}

#[test]
fn split_name_version_uses_last_at() {
    assert_eq!(split_name_version("@scope/pkg@1.0.0"), ("@scope/pkg".to_string(), "1.0.0".to_string()));
    assert_eq!(split_name_version("pkg@1.0.0"), ("pkg".to_string(), "1.0.0".to_string()));
    assert_eq!(split_name_version("@scope"), ("@scope".to_string(), String::new()));
    assert_eq!(split_name_version("pkg"), ("pkg".to_string(), String::new()));
}

#[test]
fn optional_failures_are_skipped_and_reported_once() {
    let snapshots = vec![flag("a@1.0.0(x@1.0.0)", true), flag("a@1.0.0(x@2.0.0)", true), flag("b@1.0.0", false), flag("c@1.0.0", true)];
    let verdicts = vec![fails("a@1.0.0"), fails("b@1.0.0"), passes("c@1.0.0")];
    let plan = plan_skips(&snapshots, &verdicts, false).unwrap();
    assert!(plan.skipped.contains("a@1.0.0(x@1.0.0)"));
    assert!(plan.skipped.contains("a@1.0.0(x@2.0.0)"));
    assert!(!plan.skipped.contains("c@1.0.0"));
    assert_eq!(plan.skipped.len(), 2);
    assert_eq!(plan.reported, vec!["a@1.0.0".to_string()]);
    assert_eq!(plan.warned, vec!["b@1.0.0".to_string()]);
}

#[test]
fn engine_strict_fails_on_first_required_failure() {
    let snapshots = vec![flag("a@1.0.0", true), flag("b@1.0.0", false), flag("c@1.0.0", false)];
    let verdicts = vec![fails("a@1.0.0"), fails("b@1.0.0"), fails("c@1.0.0")];
    assert_eq!(plan_skips(&snapshots, &verdicts, true).unwrap_err(), 1);
}

#[test]
fn no_constraints_skip_nothing() {
    let snapshots = vec![flag("a@1.0.0", true)];
    let verdicts = vec![fails("a@1.0.0")];
    let plan = compute_skipped_snapshots(&snapshots, &vec![("a@1.0.0".to_string(), meta())], &verdicts, true).unwrap();
    assert!(plan.skipped.is_empty());
    assert!(plan.reported.is_empty());
}

#[test]
fn skipped_set_has_no_repeats() {
    let mut set = SkippedSnapshots::new();
    set.insert("a@1.0.0".to_string());
    set.insert("a@1.0.0".to_string());
    set.insert("b@1.0.0".to_string());
    assert_eq!(set.len(), 2);
    assert!(!set.is_empty());
    assert_eq!(set.keys(), &vec!["a@1.0.0".to_string(), "b@1.0.0".to_string()]);
}

#[test]
fn snapshots_without_metadata_are_left_alone() {
    let snapshots = vec![flag("a@1.0.0", true), flag("b@1.0.0(x@1.0.0)", true), flag("b@1.0.0(x@2.0.0)", true)];
    let constrained = InstallabilityMetadata { engines: None, cpu: None, os: Some(sl(&["darwin"])), libc: None };
    let packages = vec![("b@1.0.0".to_string(), constrained)];
    let verdicts = vec![fails("a@1.0.0"), fails("b@1.0.0")];
    let plan = compute_skipped_snapshots(&snapshots, &packages, &verdicts, false).unwrap();
    assert!(!plan.skipped.contains("a@1.0.0"));
    assert!(plan.skipped.contains("b@1.0.0(x@1.0.0)"));
    assert!(plan.skipped.contains("b@1.0.0(x@2.0.0)"));
    assert_eq!(plan.skipped.len(), 2);
    assert_eq!(plan.reported, sl(&["b@1.0.0"]));
    assert!(plan.warned.is_empty());
}

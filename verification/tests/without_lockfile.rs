use pacquet_package_manager::without_lockfile::{begin_subset, ResolvedPackages};

#[test]
fn first_meeting_gives_the_slot_modules_dir() {
    let mut resolved = ResolvedPackages::new();
    assert_eq!(
        begin_subset(&mut resolved, "/repo/node_modules/.pnpm", "@scope/a@1.0.0"),
        Some("/repo/node_modules/.pnpm/@scope+a@1.0.0/node_modules".to_string())
    );
    assert!(resolved.contains("@scope+a@1.0.0"));
}

#[test]
fn a_package_met_again_is_not_installed_twice() {
    let mut resolved = ResolvedPackages::new();
    assert!(begin_subset(&mut resolved, "/vs", "a@1.0.0").is_some());
    assert!(begin_subset(&mut resolved, "/vs", "b@2.0.0").is_some());
    assert_eq!(begin_subset(&mut resolved, "/vs", "a@1.0.0"), None);
    assert_eq!(resolved.len(), 2);
}

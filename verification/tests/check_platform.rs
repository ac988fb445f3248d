use pacquet_package_manager::platform::{check_list, current_cpu, current_libc, current_os, is_platform_supported};

fn sl(items: &[&str]) -> Vec<String> {
    items.iter().map(|s| s.to_string()).collect()
}

#[test]
fn any_always_passes() {
    assert!(check_list("linux", &sl(&["any"])));
    assert!(check_list("darwin", &sl(&["any"])));
}

#[test]
fn positive_match() {
    assert!(check_list("linux", &sl(&["linux"])));
    assert!(!check_list("darwin", &sl(&["linux"])));
}

#[test]
fn multiple_positive() {
    assert!(check_list("linux", &sl(&["linux", "darwin"])));
    assert!(check_list("darwin", &sl(&["linux", "darwin"])));
    assert!(!check_list("win32", &sl(&["linux", "darwin"])));
}

#[test]
fn negation_excludes() {
    assert!(check_list("linux", &sl(&["!darwin"])));
    assert!(!check_list("darwin", &sl(&["!darwin"])));
}

#[test]
fn all_negations_with_no_match_passes() {
    assert!(check_list("linux", &sl(&["!darwin", "!win32"])));
    assert!(!check_list("darwin", &sl(&["!darwin", "!win32"])));
}

#[test]
fn is_platform_supported_no_constraints() {
    assert!(is_platform_supported(None, None, None, "linux", "x64", "glibc"));
}

#[test]
fn is_platform_supported_os_constraint() {
    assert!(!is_platform_supported(Some(&sl(&["darwin"])), None, None, "linux", "x64", "glibc"));
    assert!(!is_platform_supported(Some(&sl(&["linux"])), None, None, "darwin", "arm64", "unknown"));
}

#[test]
fn is_platform_supported_all_os_allowed() {
    assert!(is_platform_supported(Some(&sl(&["any"])), None, None, "linux", "x64", "glibc"));
}

#[test]
fn host_names_follow_node() {
    assert_eq!(current_os("macos"), "darwin");
    assert_eq!(current_os("windows"), "win32");
    assert_eq!(current_os("linux"), "linux");
    assert_eq!(current_os("haiku"), "unknown");
    assert_eq!(current_cpu("x86_64"), "x64");
    assert_eq!(current_cpu("aarch64"), "arm64");
    assert_eq!(current_libc("linux", "musl"), "musl");
    assert_eq!(current_libc("linux", "gnu"), "glibc");
    assert_eq!(current_libc("macos", ""), "unknown");
}

#[test]
fn libc_constraint_ignored_on_hosts_without_libc() {
    assert!(is_platform_supported(None, None, Some(&sl(&["glibc"])), "darwin", "arm64", "unknown"));
    assert!(!is_platform_supported(None, None, Some(&sl(&["musl"])), "linux", "x64", "glibc"));
}

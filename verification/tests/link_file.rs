use pacquet_package_manager::link_file::{
    auto_transition, clone_or_copy_transition, hardlink_next, is_call_error, is_cross_device, log_method_once, merge_tier,
    prepare_target, shared_tier_after, Attempt, HardlinkNext, IoErrorKind, IoFailure, LinkTier, OsFamily, Prepare, TargetState, Transition,
    LOG_FLAG_CLONE, LOG_FLAG_COPY, LOG_FLAG_HARDLINK,
};

fn raw(code: i32) -> IoFailure {
    IoFailure { kind: IoErrorKind::Other, raw_os_error: Some(code) }
}

fn kind(kind: IoErrorKind) -> IoFailure {
    IoFailure { kind, raw_os_error: None }
}

#[test]
fn is_cross_device_distinguishes_unix_eexist_from_windows_not_same_device() {
    assert!(is_cross_device(&raw(18), OsFamily::Unix), "raw 18 is EXDEV on every Unix");
    assert!(!is_cross_device(&raw(17), OsFamily::Unix), "Unix EEXIST (raw 17) is NOT cross-device");
    assert!(is_cross_device(&raw(17), OsFamily::Windows), "Windows ERROR_NOT_SAME_DEVICE (raw 17) IS cross-device");
    assert!(!is_cross_device(&raw(18), OsFamily::Windows), "raw 18 on Windows is not the cross-device code");
    assert!(!is_cross_device(&raw(18), OsFamily::Other));
}

#[test]
fn is_call_error_rejects_capability_codes() {
    for k in [IoErrorKind::NotFound, IoErrorKind::PermissionDenied, IoErrorKind::AlreadyExists] {
        assert!(is_call_error(&kind(k)), "kind {k:?} should be a call error");
    }
    for err in [kind(IoErrorKind::Other), raw(18), raw(25), raw(95)] {
        assert!(!is_call_error(&err), "{err:?} should trigger fallback, not propagate");
    }
}

#[test]
fn auto_call_errors_propagate_without_downgrading() {
    let e = kind(IoErrorKind::AlreadyExists);
    assert_eq!(auto_transition(LinkTier::Clone, Attempt::Failed(e)), Transition::Fail(e));
}

#[test]
fn auto_hardlink_tier_call_errors_propagate() {
    let e = kind(IoErrorKind::NotFound);
    assert_eq!(auto_transition(LinkTier::Hardlink, Attempt::Failed(e)), Transition::Fail(e));
}

#[test]
fn auto_walks_down_the_tiers() {
    let cap = raw(95);
    assert_eq!(auto_transition(LinkTier::Clone, Attempt::Failed(cap)), Transition::Downgrade(LinkTier::Hardlink));
    assert_eq!(auto_transition(LinkTier::Hardlink, Attempt::Failed(raw(18))), Transition::Downgrade(LinkTier::Copy));
    assert_eq!(auto_transition(LinkTier::Copy, Attempt::Failed(cap)), Transition::Fail(cap));
    assert_eq!(auto_transition(LinkTier::Copy, Attempt::Succeeded), Transition::Done);
}

#[test]
fn clone_or_copy_call_errors_propagate_without_downgrading() {
    let e = kind(IoErrorKind::AlreadyExists);
    assert_eq!(clone_or_copy_transition(LinkTier::Clone, Attempt::Failed(e)), Transition::Fail(e));
    assert_eq!(clone_or_copy_transition(LinkTier::Clone, Attempt::Failed(raw(25))), Transition::Downgrade(LinkTier::Copy));
    assert_eq!(clone_or_copy_transition(LinkTier::Copy, Attempt::Succeeded), Transition::Done);
}

#[test]
fn concurrent_downgrades_keep_the_lower_tier() {
    assert_eq!(merge_tier(LinkTier::Copy, LinkTier::Hardlink), LinkTier::Copy);
    assert_eq!(merge_tier(LinkTier::Clone, LinkTier::Hardlink), LinkTier::Hardlink);
    assert_eq!(merge_tier(LinkTier::Hardlink, LinkTier::Hardlink), LinkTier::Hardlink);
}

#[test]
fn explicit_hardlink_falls_back_to_copy_only_across_devices() {
    assert_eq!(hardlink_next(Attempt::Failed(raw(18)), OsFamily::Unix), HardlinkNext::CopyInstead);
    let e = kind(IoErrorKind::NotFound);
    assert_eq!(hardlink_next(Attempt::Failed(e), OsFamily::Unix), HardlinkNext::Fail(e));
    assert_eq!(hardlink_next(Attempt::Succeeded, OsFamily::Unix), HardlinkNext::Done);
}

#[test]
fn existing_target_is_preserved() {
    assert_eq!(prepare_target(TargetState::Live), Prepare::AlreadyPresent);
    assert_eq!(prepare_target(TargetState::Missing { dangling_symlink: true }), Prepare::RemoveStaleThenImport);
    assert_eq!(prepare_target(TargetState::Missing { dangling_symlink: false }), Prepare::Import);
    assert_eq!(prepare_target(TargetState::StatFailed), Prepare::Import);
}

#[test]
fn each_method_is_logged_once() {
    assert!(log_method_once(0, LOG_FLAG_CLONE));
    assert!(!log_method_once(LOG_FLAG_CLONE, LOG_FLAG_CLONE));
    assert!(log_method_once(LOG_FLAG_CLONE, LOG_FLAG_COPY));
    assert!(!log_method_once(LOG_FLAG_CLONE | LOG_FLAG_HARDLINK | LOG_FLAG_COPY, LOG_FLAG_HARDLINK));
}

#[test]
fn shared_tier_only_moves_down() {
    let other = IoFailure { kind: IoErrorKind::Other, raw_os_error: Some(18) };
    let exists = IoFailure { kind: IoErrorKind::AlreadyExists, raw_os_error: Some(17) };
    // A failed clone moves the shared tier to hard link.
    let t = auto_transition(LinkTier::Clone, Attempt::Failed(other));
    assert_eq!(shared_tier_after(LinkTier::Clone, t), LinkTier::Hardlink);
    // A stale reader's downgrade does not raise the tier back.
    assert_eq!(shared_tier_after(LinkTier::Copy, t), LinkTier::Copy);
    // A call error leaves the tier where it was.
    let t = auto_transition(LinkTier::Clone, Attempt::Failed(exists));
    assert_eq!(t, Transition::Fail(exists));
    assert_eq!(shared_tier_after(LinkTier::Clone, t), LinkTier::Clone);
    assert_eq!(shared_tier_after(LinkTier::Hardlink, Transition::Done), LinkTier::Hardlink);
}

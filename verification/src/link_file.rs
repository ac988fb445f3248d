//! Decisions of importing a store file into `node_modules`: what to do
//! with the target before importing, which tier (reflink, hard link,
//! copy) to try, how a failure moves a method down the tiers, and when
//! a method's first use is logged.
use vstd::prelude::*;

verus! {

/// How files are imported from the store (`package-import-method`).
#[derive(Debug, Clone, Copy, PartialEq, Eq, Structural)]
pub enum PackageImportMethod {
    Auto,
    Hardlink,
    Clone,
    CloneOrCopy,
    Copy,
}

/// The kinds of I/O failure that the import logic tells apart.
#[derive(Debug, Clone, Copy, PartialEq, Eq, Structural)]
pub enum IoErrorKind {
    NotFound,
    PermissionDenied,
    AlreadyExists,
    Other,
}

/// An I/O failure as the import logic sees it: its kind and, where the
/// operating system gave one, its raw error code.
#[derive(Debug, Clone, Copy, PartialEq, Eq, Structural)]
pub struct IoFailure {
    pub kind: IoErrorKind,
    pub raw_os_error: Option<i32>,
}

/// The operating system family, which decides the cross-device code.
#[derive(Debug, Clone, Copy, PartialEq, Eq, Structural)]
pub enum OsFamily {
    Unix,
    Windows,
    Other,
}

/// Error of importing one file.
#[derive(Debug, PartialEq, Eq)]
pub enum LinkFileError {
    /// The target's parent directory could not be created.
    CreateDir { dirname: String, error: IoFailure },
    /// The import itself failed.
    Import { from: String, to: String, error: IoFailure },
    /// A dangling symlink at the target could not be removed.
    RemoveStale { path: String, error: IoFailure },
}

/// Whether a failure says that source and target are on different
/// devices: raw code 18 (`EXDEV`) on Unix, 17 (`ERROR_NOT_SAME_DEVICE`)
/// on Windows; on Unix 17 is `EEXIST` and is not.
pub open spec fn spec_is_cross_device(err: IoFailure, os: OsFamily) -> bool {
    match os {
        OsFamily::Unix => err.raw_os_error == Some(18i32),
        OsFamily::Windows => err.raw_os_error == Some(17i32),
        OsFamily::Other => false,
    }
}

/// Whether a failure says that source and target are on different devices.
pub fn is_cross_device(err: &IoFailure, os: OsFamily) -> (r: bool)
    ensures
        r == spec_is_cross_device(*err, os),
{
    match os {
        OsFamily::Unix => err.raw_os_error == Some(18i32),
        OsFamily::Windows => err.raw_os_error == Some(17i32),
        OsFamily::Other => false,
    }
}

/// A failure that another tier would not fix: the source is missing,
/// access is denied, or the target exists.
pub open spec fn spec_is_call_error(err: IoFailure) -> bool {
    err.kind == IoErrorKind::NotFound || err.kind == IoErrorKind::PermissionDenied
        || err.kind == IoErrorKind::AlreadyExists
}

/// Whether a failure is a malformed call rather than a missing capability.
pub fn is_call_error(err: &IoFailure) -> (r: bool)
    ensures
        r == spec_is_call_error(*err),
{
    match err.kind {
        IoErrorKind::NotFound => true,
        IoErrorKind::PermissionDenied => true,
        IoErrorKind::AlreadyExists => true,
        IoErrorKind::Other => false,
    }
}

/// The tiers of a downgrading method, from the most to the least capable.
#[derive(Debug, Clone, Copy, PartialEq, Eq, Structural)]
pub enum LinkTier {
    Clone,
    Hardlink,
    Copy,
}

/// A tier's rank: clone 0, hard link 1, copy 2.
pub open spec fn tier_rank(t: LinkTier) -> int {
    match t {
        LinkTier::Clone => 0,
        LinkTier::Hardlink => 1,
        LinkTier::Copy => 2,
    }
}

/// The state that concurrent downgrades converge to: the lower tier.
pub fn merge_tier(current: LinkTier, proposed: LinkTier) -> (r: LinkTier)
    ensures
        tier_rank(r) == if tier_rank(current) >= tier_rank(proposed) { tier_rank(current) } else { tier_rank(proposed) },
{
    let a: u8 = match current {
        LinkTier::Clone => 0,
        LinkTier::Hardlink => 1,
        LinkTier::Copy => 2,
    };
    let b: u8 = match proposed {
        LinkTier::Clone => 0,
        LinkTier::Hardlink => 1,
        LinkTier::Copy => 2,
    };
    if a >= b { current } else { proposed }
}

/// The outcome of one import attempt.
#[derive(Debug, Clone, Copy, PartialEq, Eq, Structural)]
pub enum Attempt {
    Succeeded,
    Failed(IoFailure),
}

/// What follows an attempt.
#[derive(Debug, Clone, Copy, PartialEq, Eq, Structural)]
pub enum Transition {
    /// The file is in place.
    Done,
    /// The attempt's failure is the result.
    Fail(IoFailure),
    /// Record the lower tier and try again with it.
    Downgrade(LinkTier),
}

/// `Auto`'s chain clone → hard link → copy: a success ends it, a call
/// error is the result, another failure moves one tier down; a copy's
/// failure is the result.
pub open spec fn spec_auto_transition(tier: LinkTier, attempt: Attempt) -> Transition {
    match attempt {
        Attempt::Succeeded => Transition::Done,
        Attempt::Failed(e) => match tier {
            LinkTier::Clone => if spec_is_call_error(e) { Transition::Fail(e) } else { Transition::Downgrade(LinkTier::Hardlink) },
            LinkTier::Hardlink => if spec_is_call_error(e) { Transition::Fail(e) } else { Transition::Downgrade(LinkTier::Copy) },
            LinkTier::Copy => Transition::Fail(e),
        },
    }
}

/// What `Auto` does after an attempt at `tier`.
pub fn auto_transition(tier: LinkTier, attempt: Attempt) -> (r: Transition)
    ensures
        r == spec_auto_transition(tier, attempt),
{
    match attempt {
        Attempt::Succeeded => Transition::Done,
        Attempt::Failed(e) => match tier {
            LinkTier::Clone => if is_call_error(&e) { Transition::Fail(e) } else { Transition::Downgrade(LinkTier::Hardlink) },
            LinkTier::Hardlink => if is_call_error(&e) { Transition::Fail(e) } else { Transition::Downgrade(LinkTier::Copy) },
            LinkTier::Copy => Transition::Fail(e),
        },
    }
}

/// The tier that `CloneOrCopy` uses in a state: it has no hard-link
/// tier, so anything past clone is copy.
pub open spec fn clone_or_copy_tier(state: LinkTier) -> LinkTier {
    match state {
        LinkTier::Clone => LinkTier::Clone,
        _ => LinkTier::Copy,
    }
}

/// `CloneOrCopy`'s chain clone → copy.
pub open spec fn spec_clone_or_copy_transition(state: LinkTier, attempt: Attempt) -> Transition {
    match attempt {
        Attempt::Succeeded => Transition::Done,
        Attempt::Failed(e) => match state {
            LinkTier::Clone => if spec_is_call_error(e) { Transition::Fail(e) } else { Transition::Downgrade(LinkTier::Copy) },
            _ => Transition::Fail(e),
        },
    }
}

/// What `CloneOrCopy` does after an attempt in `state`.
pub fn clone_or_copy_transition(state: LinkTier, attempt: Attempt) -> (r: Transition)
    ensures
        r == spec_clone_or_copy_transition(state, attempt),
{
    match attempt {
        Attempt::Succeeded => Transition::Done,
        Attempt::Failed(e) => match state {
            LinkTier::Clone => if is_call_error(&e) { Transition::Fail(e) } else { Transition::Downgrade(LinkTier::Copy) },
            _ => Transition::Fail(e),
        },
    }
}

/// The downgrading methods only ever move down: a downgrade names a
/// strictly lower tier, so a file takes at most three attempts.
pub proof fn lemma_downgrade_strictly_lowers(tier: LinkTier, attempt: Attempt)
    ensures
        spec_auto_transition(tier, attempt) matches Transition::Downgrade(t) ==> tier_rank(t) > tier_rank(tier),
        spec_clone_or_copy_transition(tier, attempt) matches Transition::Downgrade(t) ==> tier_rank(t) > tier_rank(tier),
        tier_rank(tier) == 2 ==> !(spec_auto_transition(tier, attempt) is Downgrade),
{
}

/// A call error never moves a method down a tier: it is the result,
/// whatever the tier.
pub proof fn lemma_call_error_never_downgrades(tier: LinkTier, e: IoFailure)
    requires
        spec_is_call_error(e),
    ensures
        spec_auto_transition(tier, Attempt::Failed(e)) == Transition::Fail(e),
        spec_clone_or_copy_transition(tier, Attempt::Failed(e)) == Transition::Fail(e),
{
}

/// The shared tier of a downgrading method after a transition: a
/// downgrade lowers it to the proposed tier, unless another attempt has
/// already lowered it further; anything else leaves it.
pub open spec fn spec_shared_after(state: LinkTier, t: Transition) -> LinkTier {
    match t {
        Transition::Downgrade(next) => if tier_rank(next) > tier_rank(state) { next } else { state },
        _ => state,
    }
}

/// The shared tier after a transition (see `spec_shared_after`).
pub fn shared_tier_after(state: LinkTier, t: Transition) -> (r: LinkTier)
    ensures
        r == spec_shared_after(state, t),
{
    match t {
        Transition::Downgrade(next) => merge_tier(state, next),
        _ => state,
    }
}

/// `Auto`'s shared tier after a run of attempts, starting from `s0`; each
/// event is the tier its caller read and the outcome of its attempt.
pub open spec fn auto_state_after(s0: LinkTier, events: Seq<(LinkTier, Attempt)>) -> LinkTier
    decreases events.len(),
{
    if events.len() == 0 {
        s0
    } else {
        spec_shared_after(
            auto_state_after(s0, events.drop_last()),
            spec_auto_transition(events.last().0, events.last().1),
        )
    }
}

/// Across any run of attempts, `Auto`'s shared tier only moves down the
/// chain clone → hard link → copy. It moves only after an attempt at a
/// higher tier failed with an error other than a call error, and a call
/// error leaves it where it was.
pub proof fn law_auto_tier_only_moves_down(s0: LinkTier, events: Seq<(LinkTier, Attempt)>)
    ensures
        tier_rank(auto_state_after(s0, events)) >= tier_rank(s0),
        forall|k: int| 0 <= k < events.len() ==> {
            let before = auto_state_after(s0, events.take(k));
            let after = #[trigger] auto_state_after(s0, events.take(k + 1));
            &&& tier_rank(after) >= tier_rank(before)
            &&& after != before ==> (events[k].1 matches Attempt::Failed(e) && !spec_is_call_error(e)
                && tier_rank(events[k].0) < tier_rank(after))
            &&& (events[k].1 matches Attempt::Failed(e) && spec_is_call_error(e)) ==> after == before
        },
    decreases events.len(),
{
    if events.len() > 0 {
        let init = events.drop_last();
        law_auto_tier_only_moves_down(s0, init);
        assert forall|k: int| 0 <= k < events.len() implies {
            let before = auto_state_after(s0, events.take(k));
            let after = #[trigger] auto_state_after(s0, events.take(k + 1));
            &&& tier_rank(after) >= tier_rank(before)
            &&& after != before ==> (events[k].1 matches Attempt::Failed(e) && !spec_is_call_error(e)
                && tier_rank(events[k].0) < tier_rank(after))
            &&& (events[k].1 matches Attempt::Failed(e) && spec_is_call_error(e)) ==> after == before
        } by {
            assert(events.take(k + 1).drop_last() =~= events.take(k));
            assert(events.take(k + 1).last() == events[k]);
            if k < events.len() - 1 {
                assert(init.take(k) =~= events.take(k));
                assert(init.take(k + 1) =~= events.take(k + 1));
            }
        }
        assert(events.take(events.len() as int) =~= events);
        assert(events.drop_last() =~= events.take(events.len() - 1));
    }
}

/// What the explicit `Hardlink` method does after its hard link:
/// cross-device failures fall back to a copy, others are the result.
#[derive(Debug, Clone, Copy, PartialEq, Eq, Structural)]
pub enum HardlinkNext {
    Done,
    CopyInstead,
    Fail(IoFailure),
}

/// The step after an explicit hard link.
pub open spec fn spec_hardlink_next(attempt: Attempt, os: OsFamily) -> HardlinkNext {
    match attempt {
        Attempt::Succeeded => HardlinkNext::Done,
        Attempt::Failed(e) => if spec_is_cross_device(e, os) { HardlinkNext::CopyInstead } else { HardlinkNext::Fail(e) },
    }
}

/// The step after an explicit hard link.
pub fn hardlink_next(attempt: Attempt, os: OsFamily) -> (r: HardlinkNext)
    ensures
        r == spec_hardlink_next(attempt, os),
{
    match attempt {
        Attempt::Succeeded => HardlinkNext::Done,
        Attempt::Failed(e) => if is_cross_device(&e, os) { HardlinkNext::CopyInstead } else { HardlinkNext::Fail(e) },
    }
}

/// What a look at the target found.
#[derive(Debug, Clone, Copy, PartialEq, Eq, Structural)]
pub enum TargetState {
    /// It resolves to a live file (directly or through a symlink).
    Live,
    /// Nothing resolves there; `dangling_symlink` tells whether a
    /// symlink that points nowhere sits at the path.
    Missing { dangling_symlink: bool },
    /// The look failed for another reason.
    StatFailed,
}

/// What to do before importing.
#[derive(Debug, Clone, Copy, PartialEq, Eq, Structural)]
pub enum Prepare {
    /// A prior install placed the file: nothing to do.
    AlreadyPresent,
    /// Remove the dangling symlink, then import.
    RemoveStaleThenImport,
    /// Import (a failed look leaves the entry alone; the import reports
    /// the real problem).
    Import,
}

/// What to do with the target before importing.
pub open spec fn spec_prepare(state: TargetState) -> Prepare {
    match state {
        TargetState::Live => Prepare::AlreadyPresent,
        TargetState::Missing { dangling_symlink } => if dangling_symlink { Prepare::RemoveStaleThenImport } else { Prepare::Import },
        TargetState::StatFailed => Prepare::Import,
    }
}

/// What to do with the target before importing.
pub fn prepare_target(state: TargetState) -> (r: Prepare)
    ensures
        r == spec_prepare(state),
{
    match state {
        TargetState::Live => Prepare::AlreadyPresent,
        TargetState::Missing { dangling_symlink } => if dangling_symlink { Prepare::RemoveStaleThenImport } else { Prepare::Import },
        TargetState::StatFailed => Prepare::Import,
    }
}

/// The log flag of the clone tier.
pub const LOG_FLAG_CLONE: u8 = 1;
/// The log flag of the hard-link tier.
pub const LOG_FLAG_HARDLINK: u8 = 2;
/// The log flag of the copy tier.
pub const LOG_FLAG_COPY: u8 = 4;

/// Whether the caller that set `flag` (finding `previously_logged`
/// before it) is the first and so logs the method.
pub fn log_method_once(previously_logged: u8, flag: u8) -> (r: bool)
    ensures
        r == (previously_logged & flag == 0),
{
    previously_logged & flag == 0
}

/// Each method is logged once: once its flag has been set, a later
/// caller that sets it again does not log.
pub proof fn lemma_logged_once(previously_logged: u8, flag: u8)
    requires
        flag != 0,
    ensures
        !((previously_logged | flag) & flag == 0),
{
    assert(flag != 0 ==> (previously_logged | flag) & flag == flag) by (bit_vector);
}

} // verus!

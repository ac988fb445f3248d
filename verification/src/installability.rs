//! The installability pass of a lockfile install: which packages carry a
//! platform or engine constraint at all, and, given the verdict of the
//! installability check for each package, which snapshots are skipped on
//! this host, which skips are reported, and when the install fails.
use vstd::prelude::*;
use crate::lockfile::{spec_without_peer, without_peer};
use crate::text::{lemma_rfind_props, rfind_char, spec_rfind, str_eq, substr, views_of};

verus! {

broadcast use vstd::seq_lib::group_seq_properties;

/// The installability fields of a package's lockfile metadata.
#[derive(Debug)]
pub struct InstallabilityMetadata {
    /// The `engines` map, as `(engine, range)` pairs.
    pub engines: Option<Vec<(String, String)>>,
    pub cpu: Option<Vec<String>>,
    pub os: Option<Vec<String>>,
    pub libc: Option<Vec<String>>,
}

/// An axis constrains nothing when it is absent, empty, or exactly
/// `["any"]`.
pub open spec fn spec_axis_meaningful(axis: Option<Seq<Seq<char>>>) -> bool {
    match axis {
        None => false,
        Some(l) => !(l.len() == 0 || (l.len() == 1 && l[0] == "any"@)),
    }
}

/// A list of strings by its views.
pub open spec fn opt_views(axis: Option<&[String]>) -> Option<Seq<Seq<char>>> {
    match axis {
        Some(l) => Some(views_of(l@)),
        None => None,
    }
}

/// Whether one of `cpu` / `os` / `libc` constrains the host.
pub fn platform_axis_meaningful(axis: Option<&[String]>) -> (r: bool)
    ensures
        r == spec_axis_meaningful(opt_views(axis)),
{
    proof {
        reveal_strlit("any");
    }
    match axis {
        None => false,
        Some(l) => {
            if l.len() == 0 {
                false
            } else if l.len() == 1 && str_eq(l[0].as_str(), "any") {
                false
            } else {
                assert(l.len() == 1 ==> views_of(l@)[0] == l@[0]@);
                true
            }
        },
    }
}

/// The engines that the check evaluates.
pub open spec fn is_checked_engine(name: Seq<char>) -> bool {
    name == "node"@ || name == "pnpm"@
}

/// Whether an engines map names `node` or `pnpm` (other engines are not
/// checked).
pub open spec fn spec_engines_meaningful(engines: Option<Vec<(String, String)>>) -> bool {
    match engines {
        Some(e) => exists|i: int| 0 <= i < e@.len() && #[trigger] is_checked_engine(e@[i].0@),
        None => false,
    }
}

/// Whether a package carries a constraint that the check evaluates.
pub open spec fn spec_meaningful(m: InstallabilityMetadata) -> bool {
    spec_engines_meaningful(m.engines)
        || spec_axis_meaningful(opt_vec_views(m.cpu))
        || spec_axis_meaningful(opt_vec_views(m.os))
        || spec_axis_meaningful(opt_vec_views(m.libc))
}

/// An optional list of strings by its views.
pub open spec fn opt_vec_views(axis: Option<Vec<String>>) -> Option<Seq<Seq<char>>> {
    match axis {
        Some(l) => Some(views_of(l@)),
        None => None,
    }
}

fn as_slice_opt(v: &Option<Vec<String>>) -> (r: Option<&[String]>)
    ensures
        opt_views(r) == opt_vec_views(*v),
{
    match v {
        Some(l) => Some(l.as_slice()),
        None => None,
    }
}

fn names_checked_engine(e: &Vec<(String, String)>) -> (r: bool)
    ensures
        r == exists|i: int| 0 <= i < e@.len() && #[trigger] is_checked_engine(e@[i].0@),
{
    proof {
        reveal_strlit("node");
        reveal_strlit("pnpm");
    }
    let mut i: usize = 0;
    while i < e.len()
        invariant
            i <= e@.len(),
            forall|j: int| 0 <= j < i ==> !#[trigger] is_checked_engine(e@[j].0@),
        decreases e.len() - i,
    {
        if str_eq(e[i].0.as_str(), "node") || str_eq(e[i].0.as_str(), "pnpm") {
            assert(is_checked_engine(e@[i as int].0@));
            return true;
        }
        i = i + 1;
    }
    false
}

fn engines_meaningful(engines: &Option<Vec<(String, String)>>) -> (r: bool)
    ensures
        r == spec_engines_meaningful(*engines),
{
    match engines {
        Some(e) => names_checked_engine(e),
        None => false,
    }
}

/// Whether a package carries a constraint that the check evaluates.
pub fn metadata_has_meaningful_constraint(m: &InstallabilityMetadata) -> (r: bool)
    ensures
        r == spec_meaningful(*m),
{
    engines_meaningful(&m.engines) || platform_axis_meaningful(as_slice_opt(&m.cpu))
        || platform_axis_meaningful(as_slice_opt(&m.os)) || platform_axis_meaningful(as_slice_opt(&m.libc))
}

/// Whether any package of the lockfile (`(key, metadata)` pairs) carries
/// a constraint; when none does, nothing can be skipped.
pub fn any_installability_constraint(packages: &Vec<(String, InstallabilityMetadata)>) -> (r: bool)
    ensures
        r == exists|i: int| 0 <= i < packages@.len() && spec_meaningful(#[trigger] packages@[i].1),
{
    let mut i: usize = 0;
    while i < packages.len()
        invariant
            i <= packages@.len(),
            forall|j: int| 0 <= j < i ==> !spec_meaningful(#[trigger] packages@[j].1),
        decreases packages.len() - i,
    {
        if metadata_has_meaningful_constraint(&packages[i].1) {
            return true;
        }
        i = i + 1;
    }
    false
}

/// `(name, version)` of a package id: split at the last `@` unless it is
/// the first character.
pub open spec fn spec_split_name_version(id: Seq<char>) -> (Seq<char>, Seq<char>) {
    match spec_rfind(id, '@') {
        Some(i) => if i > 0 { (id.take(i), id.skip(i + 1)) } else { (id, Seq::empty()) },
        None => (id, Seq::empty()),
    }
}

/// Split a `name@version` package id.
pub fn split_name_version(pkg_id: &str) -> (r: (String, String))
    ensures
        (r.0@, r.1@) == spec_split_name_version(pkg_id@),
{
    proof {
        lemma_rfind_props(pkg_id@, '@');
    }
    let n = pkg_id.unicode_len();
    match rfind_char(pkg_id, '@') {
        Some(idx) => if idx > 0 {
            (substr(pkg_id, 0, idx), substr(pkg_id, idx + 1, n))
        } else {
            (pkg_id.to_owned(), String::new())
        },
        None => (pkg_id.to_owned(), String::new()),
    }
}

/// The set of snapshot keys skipped on this host.
#[derive(Debug)]
pub struct SkippedSnapshots {
    keys: Vec<String>,
}

impl SkippedSnapshots {
    #[verifier::type_invariant]
    spec fn no_repeats(&self) -> bool {
        views_of(self.keys@).no_duplicates()
    }

    /// The keys in the set.
    pub closed spec fn view(&self) -> Set<Seq<char>> {
        views_of(self.keys@).to_set()
    }

    /// The empty set.
    pub fn new() -> (r: Self)
        ensures
            r@ == Set::<Seq<char>>::empty(),
    {
        let r = SkippedSnapshots { keys: Vec::new() };
        assert(views_of(r.keys@).to_set() =~= Set::<Seq<char>>::empty());
        r
    }

    /// Whether `key` is in the set.
    pub fn contains(&self, key: &str) -> (r: bool)
        ensures
            r == self@.contains(key@),
    {
        let mut i: usize = 0;
        while i < self.keys.len()
            invariant
                i <= self.keys@.len(),
                forall|j: int| 0 <= j < i ==> self.keys@[j]@ != key@,
            decreases self.keys.len() - i,
        {
            if str_eq(self.keys[i].as_str(), key) {
                assert(views_of(self.keys@)[i as int] == key@);
                return true;
            }
            i = i + 1;
        }
        assert(!views_of(self.keys@).contains(key@)) by {
            if views_of(self.keys@).contains(key@) {
                let j = choose|j: int| 0 <= j < views_of(self.keys@).len() && views_of(self.keys@)[j] == key@;
                assert(self.keys@[j]@ == key@);
            }
        }
        false
    }

    /// Add `key` to the set.
    pub fn insert(&mut self, key: String)
        ensures
            final(self)@ == old(self)@.insert(key@),
    {
        if self.contains(key.as_str()) {
            assert(self@.insert(key@) =~= self@);
            return;
        }
        proof {
            use_type_invariant(&*self);
        }
        let ghost before = views_of(self.keys@);
        let mut keys = Vec::new();
        std::mem::swap(&mut keys, &mut self.keys);
        keys.push(key);
        assert(views_of(keys@) =~= before.push(key@));
        assert(views_of(keys@).to_set() =~= before.to_set().insert(key@));
        assert(views_of(keys@).no_duplicates()) by {
            assert forall|a: int, b: int| 0 <= a < b < views_of(keys@).len() implies views_of(keys@)[a] != views_of(keys@)[b] by {
                if b == before.len() {
                    assert(before.contains(before[a]));
                }
            }
        }
        self.keys = keys;
    }

    /// The number of keys.
    pub fn len(&self) -> (r: usize)
        ensures
            r == self@.len(),
    {
        proof {
            use_type_invariant(self);
            views_of(self.keys@).unique_seq_to_set();
        }
        self.keys.len()
    }

    /// Whether the set is empty.
    pub fn is_empty(&self) -> (r: bool)
        ensures
            r == (self@.len() == 0),
    {
        self.len() == 0
    }

    /// The keys, in the order they were added.
    pub fn keys(&self) -> (r: &Vec<String>)
        ensures
            views_of(r@).to_set() == self@,
            views_of(r@).no_duplicates(),
    {
        proof {
            use_type_invariant(self);
        }
        &self.keys
    }
}

/// Why a package cannot be installed on this host.
#[derive(Debug, Clone, Copy, PartialEq, Eq, Structural)]
pub enum SkipReason {
    UnsupportedEngine,
    UnsupportedPlatform,
}

/// The installability check's verdict on a package that fails it: the
/// reason and the message it reports.
#[derive(Debug)]
pub struct Incompatibility {
    pub reason: SkipReason,
    pub message: String,
}

/// A snapshot of the lockfile: its key and whether it is optional.
#[derive(Debug)]
pub struct SnapshotFlag {
    pub key: String,
    pub optional: bool,
}

/// What the pass decides.
#[derive(Debug)]
pub struct SkipPlan {
    /// The snapshots skipped on this host.
    pub skipped: SkippedSnapshots,
    /// Peer-stripped keys whose skip is reported, each once, in the order
    /// of their first skipped snapshot.
    pub reported: Vec<String>,
    /// Peer-stripped keys of required snapshots that fail the check and
    /// are installed anyway, with a warning.
    pub warned: Vec<String>,
}

/// The verdict recorded for a package key (the first entry for it):
/// `Some(true)` when it fails the check, `Some(false)` when it passes,
/// `None` when no verdict is recorded (the key has no metadata).
pub open spec fn verdict_of(verdicts: Seq<(String, Option<Incompatibility>)>, key: Seq<char>) -> Option<bool>
    decreases verdicts.len(),
{
    if verdicts.len() == 0 {
        None
    } else if verdicts[0].0@ == key {
        Some(verdicts[0].1 is Some)
    } else {
        verdict_of(verdicts.drop_first(), key)
    }
}

/// Whether a snapshot fails the check: its package has metadata and an
/// incompatibility.
pub open spec fn fails_check(verdicts: Seq<(String, Option<Incompatibility>)>, key: Seq<char>) -> bool {
    verdict_of(verdicts, spec_without_peer(key)) == Some(true)
}

/// The snapshots skipped: the optional ones that fail the check.
pub open spec fn spec_skipped(snapshots: Seq<SnapshotFlag>, verdicts: Seq<(String, Option<Incompatibility>)>) -> Set<Seq<char>> {
    Set::new(|k: Seq<char>| exists|i: int| 0 <= i < snapshots.len() && #[trigger] snapshots[i].key@ == k
        && snapshots[i].optional && fails_check(verdicts, k))
}

/// The peer-stripped keys reported, each once, in order.
pub open spec fn spec_reported(snapshots: Seq<SnapshotFlag>, verdicts: Seq<(String, Option<Incompatibility>)>) -> Seq<Seq<char>>
    decreases snapshots.len(),
{
    if snapshots.len() == 0 {
        Seq::empty()
    } else {
        let rest = spec_reported(snapshots.drop_last(), verdicts);
        let s = snapshots.last();
        let mk = spec_without_peer(s.key@);
        if s.optional && fails_check(verdicts, s.key@) && !rest.contains(mk) {
            rest.push(mk)
        } else {
            rest
        }
    }
}

/// The peer-stripped keys warned about, in order.
pub open spec fn spec_warned(snapshots: Seq<SnapshotFlag>, verdicts: Seq<(String, Option<Incompatibility>)>) -> Seq<Seq<char>> {
    snapshots.filter(|s: SnapshotFlag| !s.optional && fails_check(verdicts, s.key@)).map_values(
        |s: SnapshotFlag| spec_without_peer(s.key@),
    )
}

/// The first required snapshot that fails the check, if any.
pub open spec fn first_required_failure(snapshots: Seq<SnapshotFlag>, verdicts: Seq<(String, Option<Incompatibility>)>) -> Option<int> {
    if exists|i: int| 0 <= i < snapshots.len() && !snapshots[i].optional && #[trigger] fails_check(verdicts, snapshots[i].key@) {
        Some(choose|i: int| 0 <= i < snapshots.len() && !snapshots[i].optional && #[trigger] fails_check(verdicts, snapshots[i].key@)
            && forall|j: int| 0 <= j < i ==> !(!snapshots[j].optional && #[trigger] fails_check(verdicts, snapshots[j].key@)))
    } else {
        None
    }
}

fn lookup_verdict(verdicts: &Vec<(String, Option<Incompatibility>)>, key: &str) -> (r: Option<bool>)
    ensures
        r == verdict_of(verdicts@, key@),
{
    let mut i: usize = 0;
    while i < verdicts.len()
        invariant
            i <= verdicts@.len(),
            verdict_of(verdicts@, key@) == verdict_of(verdicts@.skip(i as int), key@),
        decreases verdicts.len() - i,
    {
        assert(verdicts@.skip(i as int).drop_first() =~= verdicts@.skip(i + 1));
        if str_eq(verdicts[i].0.as_str(), key) {
            return Some(verdicts[i].1.is_some());
        }
        i = i + 1;
    }
    None
}

fn contains_view(v: &Vec<String>, x: &str) -> (r: bool)
    ensures
        r == views_of(v@).contains(x@),
{
    let mut i: usize = 0;
    while i < v.len()
        invariant
            i <= v@.len(),
            forall|j: int| 0 <= j < i ==> v@[j]@ != x@,
        decreases v.len() - i,
    {
        if str_eq(v[i].as_str(), x) {
            assert(views_of(v@)[i as int] == x@);
            return true;
        }
        i = i + 1;
    }
    assert(!views_of(v@).contains(x@)) by {
        if views_of(v@).contains(x@) {
            let j = choose|j: int| 0 <= j < views_of(v@).len() && views_of(v@)[j] == x@;
            assert(v@[j]@ == x@);
        }
    }
    false
}

/// The result that the verdicts call for.
pub open spec fn plan_follows(
    r: Result<SkipPlan, usize>,
    snapshots: Seq<SnapshotFlag>,
    verdicts: Seq<(String, Option<Incompatibility>)>,
    engine_strict: bool,
) -> bool {
    match r {
        Ok(plan) => {
            &&& !(engine_strict && first_required_failure(snapshots, verdicts) is Some)
            &&& plan.skipped@ == spec_skipped(snapshots, verdicts)
            &&& views_of(plan.reported@) == spec_reported(snapshots, verdicts)
            &&& views_of(plan.warned@) == spec_warned(snapshots, verdicts)
        },
        Err(i) => engine_strict && first_required_failure(snapshots, verdicts) == Some(i as int),
    }
}

/// Decide, from the verdict on each package (`(peer-stripped key,
/// verdict)` pairs from the installability check), what happens to each
/// snapshot: an optional one that fails is skipped and its package
/// reported once; a required one that fails makes the install fail
/// under `engine_strict` (the result is its index) and is otherwise
/// installed with a warning.
pub fn plan_skips(
    snapshots: &Vec<SnapshotFlag>,
    verdicts: &Vec<(String, Option<Incompatibility>)>,
    engine_strict: bool,
) -> (r: Result<SkipPlan, usize>)
    ensures
        plan_follows(r, snapshots@, verdicts@, engine_strict),
{
    let mut skipped = SkippedSnapshots::new();
    let mut reported: Vec<String> = Vec::new();
    let mut warned: Vec<String> = Vec::new();
    let mut i: usize = 0;
    assert(snapshots@.take(0) =~= Seq::<SnapshotFlag>::empty());
    while i < snapshots.len()
        invariant
            i <= snapshots@.len(),
            skipped@ == spec_skipped(snapshots@.take(i as int), verdicts@),
            views_of(reported@) == spec_reported(snapshots@.take(i as int), verdicts@),
            views_of(warned@) == spec_warned(snapshots@.take(i as int), verdicts@),
            engine_strict ==> forall|j: int| 0 <= j < i ==> !(!snapshots@[j].optional && #[trigger] fails_check(verdicts@, snapshots@[j].key@)),
        decreases snapshots.len() - i,
    {
        let s = &snapshots[i];
        let ghost prev = snapshots@.take(i as int);
        let ghost next = snapshots@.take(i + 1);
        assert(next =~= prev.push(*s));
        assert(next.drop_last() =~= prev);
        let mk = without_peer(s.key.as_str());
        let fails = match lookup_verdict(verdicts, mk.as_str()) {
            Some(b) => b,
            None => false,
        };
        assert(fails == fails_check(verdicts@, s.key@));
        proof {
            prev.lemma_filter_push(*s, |x: SnapshotFlag| !x.optional && fails_check(verdicts@, x.key@));
        }
        let ghost old_skipped = skipped@;
        if fails && s.optional {
            skipped.insert(s.key.clone());
            if !contains_view(&reported, mk.as_str()) {
                let ghost b = views_of(reported@);
                reported.push(mk);
                assert(views_of(reported@) =~= b.push(spec_without_peer(s.key@)));
            }
        } else if fails {
            if engine_strict {
                assert(first_required_failure(snapshots@, verdicts@) == Some(i as int)) by {
                    assert(!snapshots@[i as int].optional && fails_check(verdicts@, snapshots@[i as int].key@));
                    let w = choose|w: int| 0 <= w < snapshots@.len() && !snapshots@[w].optional && #[trigger] fails_check(verdicts@, snapshots@[w].key@)
                        && forall|j: int| 0 <= j < w ==> !(!snapshots@[j].optional && #[trigger] fails_check(verdicts@, snapshots@[j].key@));
                    if w < i {
                    } else if w > i {
                        assert(!(!snapshots@[i as int].optional && fails_check(verdicts@, snapshots@[i as int].key@)));
                    }
                }
                return Err(i);
            }
            let ghost b = views_of(warned@);
            warned.push(mk);
            assert(views_of(warned@) =~= b.push(spec_without_peer(s.key@)));
        }
        assert(skipped@ =~= spec_skipped(next, verdicts@)) by {
            assert forall|k: Seq<char>| skipped@.contains(k) <==> spec_skipped(next, verdicts@).contains(k) by {
                if spec_skipped(next, verdicts@).contains(k) {
                    let w = choose|w: int| 0 <= w < next.len() && #[trigger] next[w].key@ == k && next[w].optional && fails_check(verdicts@, k);
                    if w < i {
                        assert(prev[w] == next[w]);
                        assert(prev[w].key@ == k && prev[w].optional);
                    }
                }
                if old_skipped.contains(k) {
                    let w = choose|w: int| 0 <= w < prev.len() && #[trigger] prev[w].key@ == k && prev[w].optional && fails_check(verdicts@, k);
                    assert(next[w] == prev[w]);
                }
                if fails && s.optional && k == s.key@ {
                    assert(next[i as int] == *s);
                }
            }
        }
        i = i + 1;
    }
    assert(snapshots@.take(snapshots@.len() as int) =~= snapshots@);
    if engine_strict {
        assert(first_required_failure(snapshots@, verdicts@) is None);
    }
    Ok(SkipPlan { skipped, reported, warned })
}

/// The keys of the lockfile's `packages:` entries.
pub open spec fn package_keys(packages: Seq<(String, InstallabilityMetadata)>) -> Seq<Seq<char>> {
    packages.map_values(|p: (String, InstallabilityMetadata)| p.0@)
}

/// Whether a verdict is about a package that has metadata.
pub open spec fn has_metadata(packages: Seq<(String, InstallabilityMetadata)>) -> spec_fn((String, Option<Incompatibility>)) -> bool {
    |v: (String, Option<Incompatibility>)| package_keys(packages).contains(v.0@)
}

/// The verdicts on packages that have metadata; a snapshot whose package
/// has none is left to the virtual store, which reports it.
pub open spec fn known_verdicts(
    verdicts: Seq<(String, Option<Incompatibility>)>,
    packages: Seq<(String, InstallabilityMetadata)>,
) -> Seq<(String, Option<Incompatibility>)> {
    verdicts.filter(has_metadata(packages))
}

fn has_package(packages: &Vec<(String, InstallabilityMetadata)>, key: &str) -> (r: bool)
    ensures
        r == package_keys(packages@).contains(key@),
{
    let mut i: usize = 0;
    while i < packages.len()
        invariant
            i <= packages@.len(),
            forall|j: int| 0 <= j < i ==> packages@[j].0@ != key@,
        decreases packages.len() - i,
    {
        if str_eq(packages[i].0.as_str(), key) {
            assert(package_keys(packages@)[i as int] == key@);
            return true;
        }
        i = i + 1;
    }
    assert(!package_keys(packages@).contains(key@)) by {
        if package_keys(packages@).contains(key@) {
            let j = choose|j: int| 0 <= j < package_keys(packages@).len() && package_keys(packages@)[j] == key@;
            assert(packages@[j].0@ == key@);
        }
    }
    false
}

fn verdicts_with_metadata(
    verdicts: &Vec<(String, Option<Incompatibility>)>,
    packages: &Vec<(String, InstallabilityMetadata)>,
) -> (r: Vec<(String, Option<Incompatibility>)>)
    ensures
        r@ == known_verdicts(verdicts@, packages@),
{
    let mut out: Vec<(String, Option<Incompatibility>)> = Vec::new();
    let mut i: usize = 0;
    assert(verdicts@.take(0).filter(has_metadata(packages@)) =~= Seq::<(String, Option<Incompatibility>)>::empty());
    while i < verdicts.len()
        invariant
            i <= verdicts@.len(),
            out@ == verdicts@.take(i as int).filter(has_metadata(packages@)),
        decreases verdicts.len() - i,
    {
        let v = &verdicts[i];
        proof {
            verdicts@.take(i as int).lemma_filter_push(*v, has_metadata(packages@));
            assert(verdicts@.take(i + 1) =~= verdicts@.take(i as int).push(*v));
        }
        if has_package(packages, v.0.as_str()) {
            let verdict = match &v.1 {
                Some(inc) => Some(Incompatibility { reason: inc.reason, message: inc.message.clone() }),
                None => None,
            };
            let item = (v.0.clone(), verdict);
            assert(item == *v);
            out.push(item);
        }
        i = i + 1;
    }
    assert(verdicts@.take(verdicts@.len() as int) =~= verdicts@);
    out
}

/// The installability pass: when no package carries a constraint
/// nothing is skipped, reported or warned about; otherwise the verdicts
/// on the packages that have metadata decide as `plan_skips` says (a
/// snapshot whose package has no metadata is left alone).
pub fn compute_skipped_snapshots(
    snapshots: &Vec<SnapshotFlag>,
    packages: &Vec<(String, InstallabilityMetadata)>,
    verdicts: &Vec<(String, Option<Incompatibility>)>,
    engine_strict: bool,
) -> (r: Result<SkipPlan, usize>)
    ensures
        (exists|i: int| 0 <= i < packages@.len() && spec_meaningful(#[trigger] packages@[i].1))
            ==> plan_follows(r, snapshots@, known_verdicts(verdicts@, packages@), engine_strict),
        !(exists|i: int| 0 <= i < packages@.len() && spec_meaningful(#[trigger] packages@[i].1)) ==> (r matches Ok(plan)
            && plan.skipped@ == Set::<Seq<char>>::empty() && plan.reported@.len() == 0 && plan.warned@.len() == 0),
{
    if !any_installability_constraint(packages) {
        return Ok(SkipPlan { skipped: SkippedSnapshots::new(), reported: Vec::new(), warned: Vec::new() });
    }
    let known = verdicts_with_metadata(verdicts, packages);
    plan_skips(snapshots, &known, engine_strict)
}

proof fn lemma_verdict_found(verdicts: Seq<(String, Option<Incompatibility>)>, key: Seq<char>)
    requires
        verdict_of(verdicts, key) is Some,
    ensures
        exists|j: int| 0 <= j < verdicts.len() && (#[trigger] verdicts[j]).0@ == key,
    decreases verdicts.len(),
{
    if verdicts[0].0@ != key {
        lemma_verdict_found(verdicts.drop_first(), key);
        let j = choose|j: int| 0 <= j < verdicts.drop_first().len() && (#[trigger] verdicts.drop_first()[j]).0@ == key;
        assert(verdicts[j + 1] == verdicts.drop_first()[j]);
    }
}

/// A skipped snapshot is an optional snapshot of the lockfile whose
/// package has metadata in `packages:`.
pub proof fn law_skipped_snapshots_are_optional_with_metadata(
    snapshots: Seq<SnapshotFlag>,
    packages: Seq<(String, InstallabilityMetadata)>,
    verdicts: Seq<(String, Option<Incompatibility>)>,
    key: Seq<char>,
)
    requires
        spec_skipped(snapshots, known_verdicts(verdicts, packages)).contains(key),
    ensures
        exists|i: int| 0 <= i < snapshots.len() && (#[trigger] snapshots[i]).key@ == key && snapshots[i].optional,
        package_keys(packages).contains(spec_without_peer(key)),
{
    let known = known_verdicts(verdicts, packages);
    let i = choose|i: int| 0 <= i < snapshots.len() && #[trigger] snapshots[i].key@ == key
        && snapshots[i].optional && fails_check(known, key);
    assert(snapshots[i].key@ == key);
    lemma_verdict_found(known, spec_without_peer(key));
    let j = choose|j: int| 0 <= j < known.len() && (#[trigger] known[j]).0@ == spec_without_peer(key);
    verdicts.lemma_filter_pred(has_metadata(packages), j);
}

/// Each package of a skipped snapshot is reported exactly once: the
/// reported keys hold no repeats and are the skipped snapshots' keys
/// taken without peers.
pub proof fn law_each_skipped_package_reported_once(
    snapshots: Seq<SnapshotFlag>,
    verdicts: Seq<(String, Option<Incompatibility>)>,
)
    ensures
        spec_reported(snapshots, verdicts).no_duplicates(),
        spec_reported(snapshots, verdicts).to_set() == spec_skipped(snapshots, verdicts).map(
            |k: Seq<char>| spec_without_peer(k),
        ),
    decreases snapshots.len(),
{
    let f = |k: Seq<char>| spec_without_peer(k);
    if snapshots.len() == 0 {
        assert(spec_skipped(snapshots, verdicts) =~= Set::<Seq<char>>::empty());
        assert(spec_reported(snapshots, verdicts).to_set() =~= Set::<Seq<char>>::empty());
        assert(spec_skipped(snapshots, verdicts).map(f) =~= Set::<Seq<char>>::empty());
    } else {
        let init = snapshots.drop_last();
        let s = snapshots.last();
        law_each_skipped_package_reported_once(init, verdicts);
        let rest = spec_reported(init, verdicts);
        let out = spec_reported(snapshots, verdicts);
        let counted = s.optional && fails_check(verdicts, s.key@);
        let before = spec_skipped(init, verdicts);
        let after = spec_skipped(snapshots, verdicts);
        assert(after =~= if counted { before.insert(s.key@) } else { before }) by {
            assert forall|k: Seq<char>| after.contains(k) implies (if counted { before.insert(s.key@) } else { before }).contains(k) by {
                let w = choose|w: int| 0 <= w < snapshots.len() && #[trigger] snapshots[w].key@ == k
                    && snapshots[w].optional && fails_check(verdicts, k);
                if w < init.len() {
                    assert(init[w] == snapshots[w]);
                }
            }
            assert forall|k: Seq<char>| (if counted { before.insert(s.key@) } else { before }).contains(k) implies after.contains(k) by {
                if before.contains(k) {
                    let w = choose|w: int| 0 <= w < init.len() && #[trigger] init[w].key@ == k
                        && init[w].optional && fails_check(verdicts, k);
                    assert(snapshots[w] == init[w]);
                } else {
                    assert(snapshots[snapshots.len() - 1] == s);
                }
            }
        }
        if counted && !rest.contains(f(s.key@)) {
            assert(out == rest.push(f(s.key@)));
            assert forall|a: int, b: int| 0 <= a < b < out.len() implies out[a] != out[b] by {
                assert(out[a] == rest[a]);
                if b == rest.len() {
                    assert(out[b] == f(s.key@));
                    if out[a] == out[b] {
                        assert(rest.contains(f(s.key@)));
                    }
                } else {
                    assert(out[b] == rest[b]);
                }
            }
            assert(out.to_set() =~= rest.to_set().insert(f(s.key@))) by {
                assert forall|x: Seq<char>| out.to_set().contains(x) == rest.to_set().insert(f(s.key@)).contains(x) by {
                    if out.contains(x) {
                        let t = choose|t: int| 0 <= t < out.len() && out[t] == x;
                        if t < rest.len() {
                            assert(rest[t] == x);
                        }
                    }
                    if rest.contains(x) {
                        let t = choose|t: int| 0 <= t < rest.len() && rest[t] == x;
                        assert(out[t] == x);
                    }
                    if x == f(s.key@) {
                        assert(out[rest.len() as int] == x);
                    }
                }
            }
            assert(after.map(f) =~= before.map(f).insert(f(s.key@))) by {
                assert forall|x: Seq<char>| after.map(f).contains(x) == before.map(f).insert(f(s.key@)).contains(x) by {
                    if after.map(f).contains(x) {
                        let k = choose|k: Seq<char>| after.contains(k) && f(k) == x;
                        if k != s.key@ {
                            assert(before.contains(k));
                        }
                    }
                    if before.map(f).contains(x) {
                        let k = choose|k: Seq<char>| before.contains(k) && f(k) == x;
                        assert(after.contains(k));
                    }
                    if x == f(s.key@) {
                        assert(after.contains(s.key@));
                    }
                }
            }
        } else {
            assert(out == rest);
            assert(after.map(f) =~= before.map(f)) by {
                assert forall|x: Seq<char>| after.map(f).contains(x) == before.map(f).contains(x) by {
                    if after.map(f).contains(x) {
                        let k = choose|k: Seq<char>| after.contains(k) && f(k) == x;
                        if !before.contains(k) {
                            assert(k == s.key@);
                            assert(counted);
                            assert(rest.contains(f(s.key@)));
                            assert(rest.to_set().contains(x));
                        }
                    }
                    if before.map(f).contains(x) {
                        let k = choose|k: Seq<char>| before.contains(k) && f(k) == x;
                        assert(after.contains(k));
                    }
                }
            }
        }
    }
}

} // verus!

//! The bookkeeping of an install without a lockfile: each registry
//! package's dependencies are installed once, into the `node_modules` of
//! its virtual store directory, however often the package is met.
use vstd::prelude::*;
use crate::path::{join, spec_join};
use crate::slots::{flat_name, spec_flat_name};

verus! {

#[verifier::external_type_specification]
#[verifier::external_body]
#[verifier::reject_recursive_types(K)]
#[verifier::reject_recursive_types(S)]
pub struct ExDashSet<K, S>(dashmap::DashSet<K, S>);

/// The virtual store names of the packages whose dependencies an install
/// without a lockfile has started on.
pub type ResolvedPackages = dashmap::DashSet<String>;

/// The names a set of started packages holds.
pub uninterp spec fn resolved_names(set: dashmap::DashSet<String>) -> Set<Seq<char>>;

/// `DashSet::insert`: the name is in the set afterwards, and the call
/// says whether it was missing before.
#[verifier::external_body]
fn insert_name(set: &mut dashmap::DashSet<String>, name: String) -> (r: bool)
    ensures
        r == !resolved_names(*old(set)).contains(name@),
        resolved_names(*final(set)) == resolved_names(*old(set)).insert(name@),
{
    set.insert(name)
}

/// Where the dependencies of a registry package `key` (`name@version`)
/// go the first time it is met:
/// `<virtual store dir>/<flat key>/node_modules`.
pub open spec fn spec_subset_modules_dir(virtual_store_dir: Seq<char>, key: Seq<char>) -> Seq<char> {
    spec_join(spec_join(virtual_store_dir, spec_flat_name(key)), "node_modules"@)
}

/// Start on the dependencies of a registry package: the directory to
/// install them into the first time the package is met, nothing when
/// it was met before. The package is recorded either way.
pub fn begin_subset(resolved: &mut ResolvedPackages, virtual_store_dir: &str, key: &str) -> (r: Option<String>)
    ensures
        resolved_names(*final(resolved)) == resolved_names(*old(resolved)).insert(spec_flat_name(key@)),
        r is None <==> resolved_names(*old(resolved)).contains(spec_flat_name(key@)),
        r matches Some(p) ==> p@ == spec_subset_modules_dir(virtual_store_dir@, key@),
{
    proof {
        reveal_strlit("node_modules");
    }
    let name = flat_name(key);
    let slot = join(virtual_store_dir, name.as_str());
    if insert_name(resolved, name) {
        Some(join(slot.as_str(), "node_modules"))
    } else {
        None
    }
}

/// A package's dependencies are installed once: after a package has
/// been started on, starting on it again finds it recorded (and so
/// yields no directory), whatever else was started in between.
pub proof fn law_subset_started_once(before: Set<Seq<char>>, key: Seq<char>, others: Seq<Seq<char>>)
    ensures
        others.fold_left(before.insert(spec_flat_name(key)), |s: Set<Seq<char>>, n: Seq<char>| s.insert(n)).contains(
            spec_flat_name(key),
        ),
    decreases others.len(),
{
    if others.len() > 0 {
        law_subset_started_once(before, key, others.drop_last());
    }
}

} // verus!

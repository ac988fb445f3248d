//! The decisions of `install`: which dependency groups it includes,
//! which install path it takes, and the layout record it writes to
//! `node_modules/.modules.yaml`.
use vstd::prelude::*;
use crate::package_manifest::DependencyGroup;
use crate::text::views_of;
use crate::validate_modules::{IncludedDependencies, LayoutConfig, LayoutVersion, Modules, DEFAULT_VIRTUAL_STORE_DIR_MAX_LENGTH};

verus! {

/// The groups an install includes.
pub open spec fn spec_included(groups: Seq<DependencyGroup>) -> IncludedDependencies {
    IncludedDependencies {
        dependencies: groups.contains(DependencyGroup::Prod),
        dev_dependencies: groups.contains(DependencyGroup::Dev),
        optional_dependencies: groups.contains(DependencyGroup::Optional),
    }
}

/// Which dependency groups an install includes.
pub fn included_dependencies(groups: &[DependencyGroup]) -> (r: IncludedDependencies)
    ensures
        r == spec_included(groups@),
{
    let mut prod = false;
    let mut dev = false;
    let mut optional = false;
    let mut i: usize = 0;
    while i < groups.len()
        invariant
            i <= groups@.len(),
            prod == groups@.take(i as int).contains(DependencyGroup::Prod),
            dev == groups@.take(i as int).contains(DependencyGroup::Dev),
            optional == groups@.take(i as int).contains(DependencyGroup::Optional),
        decreases groups.len() - i,
    {
        let g = groups[i];
        let ghost before = groups@.take(i as int);
        assert(groups@.take(i + 1) =~= before.push(g));
        match g {
            DependencyGroup::Prod => {
                prod = true;
            },
            DependencyGroup::Dev => {
                dev = true;
            },
            DependencyGroup::Optional => {
                optional = true;
            },
            DependencyGroup::Peer => {},
        }
        proof {
            assert(before.push(g)[before.len() as int] == g);
            assert(before.push(g).contains(g));
            assert forall|x: DependencyGroup| before.push(g).contains(x) <==> (before.contains(x) || x == g) by {
                if before.push(g).contains(x) {
                    let k = choose|k: int| 0 <= k < before.push(g).len() && before.push(g)[k] == x;
                    if k < before.len() {
                        assert(before[k] == x);
                    }
                }
                if before.contains(x) {
                    let k = choose|k: int| 0 <= k < before.len() && before[k] == x;
                    assert(before.push(g)[k] == x);
                }
            }
        }
        i = i + 1;
    }
    assert(groups@.take(groups@.len() as int) =~= groups@);
    IncludedDependencies { dependencies: prod, dev_dependencies: dev, optional_dependencies: optional }
}

/// The install paths.
#[derive(Debug, Clone, Copy, PartialEq, Eq, Structural)]
pub enum InstallMode {
    /// Install exactly what the lockfile says.
    FrozenLockfile,
    /// Resolve from the registry without a lockfile.
    WithoutLockfile,
}

/// Why `install` refuses to start.
#[derive(Debug, PartialEq, Eq)]
pub enum InstallError {
    /// `--frozen-lockfile` without a lockfile.
    NoLockfile,
    /// A writable lockfile was asked for; only frozen or no lockfile is
    /// supported.
    UnsupportedLockfileMode,
    /// The lockfile has no entry for the importer.
    NoImporter { importer_id: String },
    /// The lockfile does not match `package.json` (the reason says how).
    OutdatedLockfile { reason: String },
}

/// The path an install takes: a frozen install needs a lockfile, an
/// entry for the root importer `.` and a lockfile that matches the
/// manifest (`staleness` holds the reason it does not), checked in
/// that order; without `--frozen-lockfile` a configured lockfile is not
/// supported, and without one the install resolves from the registry.
pub fn choose_install_mode(
    frozen_lockfile: bool,
    has_lockfile: bool,
    has_root_importer: bool,
    staleness: Option<String>,
    lockfile_enabled: bool,
) -> (r: Result<InstallMode, InstallError>)
    ensures
        frozen_lockfile && !has_lockfile ==> r == Err::<InstallMode, InstallError>(InstallError::NoLockfile),
        frozen_lockfile && has_lockfile && !has_root_importer ==> (r matches Err(InstallError::NoImporter { importer_id })
            && importer_id@ == "."@),
        frozen_lockfile && has_lockfile && has_root_importer ==> match staleness {
            Some(s) => (r matches Err(InstallError::OutdatedLockfile { reason }) && reason@ == s@),
            None => r == Ok::<InstallMode, InstallError>(InstallMode::FrozenLockfile),
        },
        !frozen_lockfile && lockfile_enabled ==> r == Err::<InstallMode, InstallError>(InstallError::UnsupportedLockfileMode),
        !frozen_lockfile && !lockfile_enabled ==> r == Ok::<InstallMode, InstallError>(InstallMode::WithoutLockfile),
{
    proof {
        reveal_strlit(".");
    }
    if frozen_lockfile {
        if !has_lockfile {
            return Err(InstallError::NoLockfile);
        }
        if !has_root_importer {
            return Err(InstallError::NoImporter { importer_id: ".".to_owned() });
        }
        match staleness {
            Some(reason) => Err(InstallError::OutdatedLockfile { reason }),
            None => Ok(InstallMode::FrozenLockfile),
        }
    } else if lockfile_enabled {
        Err(InstallError::UnsupportedLockfileMode)
    } else {
        Ok(InstallMode::WithoutLockfile)
    }
}

fn copy_strings(v: &Vec<String>) -> (r: Vec<String>)
    ensures
        views_of(r@) == views_of(v@),
{
    let mut out: Vec<String> = Vec::new();
    let mut i: usize = 0;
    while i < v.len()
        invariant
            i <= v@.len(),
            views_of(out@) == views_of(v@).take(i as int),
        decreases v.len() - i,
    {
        let ghost b = views_of(out@);
        let c = v[i].clone();
        assert(c@ == v@[i as int]@);
        out.push(c);
        assert(views_of(out@) =~= b.push(v@[i as int]@));
        assert(views_of(v@).take(i + 1) =~= views_of(v@).take(i as int).push(v@[i as int]@));
        i = i + 1;
    }
    assert(views_of(v@).take(v@.len() as int) =~= views_of(v@));
    out
}

fn copy_patterns(p: &Option<Vec<String>>) -> (r: Option<Vec<String>>)
    ensures
        crate::validate_modules::pattern_views(r) == crate::validate_modules::pattern_views(*p),
        r is Some <==> p is Some,
{
    match p {
        Some(v) => Some(copy_strings(v)),
        None => None,
    }
}

/// The layout record an install writes: the current settings, the
/// included groups and the default virtual store name limit.
pub fn build_modules_manifest(
    config: &LayoutConfig,
    included: IncludedDependencies,
    package_manager: &str,
    pruned_at: &str,
) -> (r: Modules)
    ensures
        r.layout_version == Some(LayoutVersion),
        r.node_linker == Some(config.node_linker),
        r.package_manager@ == package_manager@,
        r.pruned_at@ == pruned_at@,
        r.registries matches Some(reg) && reg@.len() == 1 && reg@[0].0@ == "default"@ && reg@[0].1@ == config.registry@,
        crate::validate_modules::pattern_views(r.hoist_pattern) == crate::validate_modules::pattern_views(config.hoist_pattern),
        crate::validate_modules::pattern_views(r.public_hoist_pattern)
            == crate::validate_modules::pattern_views(config.public_hoist_pattern),
        r.included == included,
        r.store_dir@ == config.store_dir@,
        r.virtual_store_dir@ == config.virtual_store_dir@,
        r.virtual_store_dir_max_length == DEFAULT_VIRTUAL_STORE_DIR_MAX_LENGTH,
{
    let mut registries: Vec<(String, String)> = Vec::new();
    registries.push(("default".to_string(), config.registry.clone()));
    Modules {
        hoist_pattern: copy_patterns(&config.hoist_pattern),
        public_hoist_pattern: copy_patterns(&config.public_hoist_pattern),
        included,
        layout_version: Some(LayoutVersion),
        node_linker: Some(config.node_linker),
        package_manager: package_manager.to_owned(),
        pruned_at: pruned_at.to_owned(),
        registries: Some(registries),
        store_dir: config.store_dir.clone(),
        virtual_store_dir: config.virtual_store_dir.clone(),
        virtual_store_dir_max_length: DEFAULT_VIRTUAL_STORE_DIR_MAX_LENGTH,
    }
}

/// What an install records is what the next install with the same
/// settings and groups accepts: validating a freshly built record
/// against the settings it came from finds no drift.
pub proof fn lemma_written_layout_validates(
    written: Modules,
    config: LayoutConfig,
    included: IncludedDependencies,
    lockfile_dir: Seq<char>,
    modules_dir: Seq<char>,
)
    requires
        crate::validate_modules::pattern_views(written.hoist_pattern) == crate::validate_modules::pattern_views(config.hoist_pattern),
        crate::validate_modules::pattern_views(written.public_hoist_pattern)
            == crate::validate_modules::pattern_views(config.public_hoist_pattern),
        written.included == included,
        written.store_dir@ == config.store_dir@,
        written.virtual_store_dir@ == config.virtual_store_dir@,
        written.virtual_store_dir_max_length == DEFAULT_VIRTUAL_STORE_DIR_MAX_LENGTH,
    ensures
        crate::validate_modules::spec_validate(written, config, included, lockfile_dir, modules_dir) == Ok::<(), crate::validate_modules::ValidateModulesErrorView>(()),
{
}

} // verus!

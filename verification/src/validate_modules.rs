//! Check the layout recorded in `node_modules/.modules.yaml` against
//! the current install's settings. Axes are checked in a fixed order
//! and the first drift found is the error.
use vstd::prelude::*;
use crate::path::{paths_equal, spec_components};
use crate::text::{str_eq, views_of};

verus! {

/// The virtual store directory name limit that installs use.
pub const DEFAULT_VIRTUAL_STORE_DIR_MAX_LENGTH: u64 = 120;

/// Which dependency groups an install includes.
#[derive(Debug, Clone, Copy, PartialEq, Eq, Structural)]
pub struct IncludedDependencies {
    pub dependencies: bool,
    pub dev_dependencies: bool,
    pub optional_dependencies: bool,
}

/// The `node_modules` layout version this install writes; a record of
/// another version does not load.
#[derive(Debug, Clone, Copy, PartialEq, Eq, Structural)]
pub struct LayoutVersion;

/// How packages are laid out in `node_modules`.
#[derive(Debug, Clone, Copy, PartialEq, Eq, Structural)]
pub enum NodeLinker {
    Isolated,
    Hoisted,
    Pnp,
}

/// The record of the previous install in `node_modules/.modules.yaml`.
#[derive(Debug)]
pub struct Modules {
    pub hoist_pattern: Option<Vec<String>>,
    pub public_hoist_pattern: Option<Vec<String>>,
    pub included: IncludedDependencies,
    pub layout_version: Option<LayoutVersion>,
    pub node_linker: Option<NodeLinker>,
    /// `name@version` of the package manager that wrote the record.
    pub package_manager: String,
    /// When the record was written, as an HTTP date.
    pub pruned_at: String,
    /// Registry name → URL.
    pub registries: Option<Vec<(String, String)>>,
    pub store_dir: String,
    pub virtual_store_dir: String,
    pub virtual_store_dir_max_length: u64,
}

/// The layout-driving settings of the current install.
#[derive(Debug)]
pub struct LayoutConfig {
    pub hoist_pattern: Option<Vec<String>>,
    pub public_hoist_pattern: Option<Vec<String>>,
    pub node_linker: NodeLinker,
    /// The default registry's URL.
    pub registry: String,
    pub store_dir: String,
    pub virtual_store_dir: String,
}

/// A drift between the recorded layout and the current settings.
#[derive(Debug, PartialEq, Eq)]
pub enum ValidateModulesError {
    /// The recorded `hoistPattern` differs.
    HoistPatternDiff,
    /// The recorded `publicHoistPattern` differs.
    PublicHoistPatternDiff,
    /// The recorded dependency groups differ.
    IncludedDepsConflict { lockfile_dir: String, recorded: String, requested: String },
    /// The recorded `virtualStoreDirMaxLength` differs.
    VirtualStoreDirMaxLengthDiff,
    /// The recorded store directory differs.
    UnexpectedStore { modules_dir: String, recorded: String, requested: String },
    /// The recorded virtual store directory differs.
    UnexpectedVirtualStoreDir { modules_dir: String, recorded: String, requested: String },
}

/// A pattern list with absent taken as empty.
pub open spec fn pattern_views(p: Option<Vec<String>>) -> Seq<Seq<char>> {
    match p {
        Some(v) => views_of(v@),
        None => Seq::empty(),
    }
}

/// Two pattern lists are equal when they hold the same patterns in the
/// same order; an absent list equals an empty one.
pub fn patterns_equal(a: &Option<Vec<String>>, b: &Option<Vec<String>>) -> (r: bool)
    ensures
        r == (pattern_views(*a) == pattern_views(*b)),
{
    let empty: Vec<String> = Vec::new();
    let x: &Vec<String> = match a {
        Some(v) => v,
        None => &empty,
    };
    let y: &Vec<String> = match b {
        Some(v) => v,
        None => &empty,
    };
    assert(views_of(empty@) =~= Seq::<Seq<char>>::empty());
    if x.len() != y.len() {
        assert(views_of(x@).len() != views_of(y@).len());
        return false;
    }
    let mut i: usize = 0;
    while i < x.len()
        invariant
            views_of(x@) == pattern_views(*a),
            views_of(y@) == pattern_views(*b),
            x@.len() == y@.len(),
            i <= x@.len(),
            forall|j: int| 0 <= j < i ==> x@[j]@ == y@[j]@,
        decreases x.len() - i,
    {
        if !str_eq(x[i].as_str(), y[i].as_str()) {
            assert(pattern_views(*a)[i as int] != pattern_views(*b)[i as int]);
            return false;
        }
        i = i + 1;
    }
    assert(views_of(x@) =~= views_of(y@));
    true
}

/// The label of a set of dependency groups used in messages.
pub open spec fn spec_stringify_included(i: IncludedDependencies) -> Seq<char> {
    let parts = (if i.dependencies { seq!["dependencies"@] } else { Seq::empty() })
        + (if i.dev_dependencies { seq!["devDependencies"@] } else { Seq::empty() })
        + (if i.optional_dependencies { seq!["optionalDependencies"@] } else { Seq::empty() });
    if parts.len() == 0 {
        "no dependency groups"@
    } else {
        join_with_comma(parts)
    }
}

/// Pieces joined with `, `.
pub open spec fn join_with_comma(parts: Seq<Seq<char>>) -> Seq<char>
    decreases parts.len(),
{
    if parts.len() == 0 {
        Seq::empty()
    } else if parts.len() == 1 {
        parts[0]
    } else {
        join_with_comma(parts.drop_last()) + ", "@ + parts.last()
    }
}

/// The comma-separated names of the included groups, in the order
/// `dependencies, devDependencies, optionalDependencies`.
pub fn stringify_included(included: IncludedDependencies) -> (r: String)
    ensures
        r@ == spec_stringify_included(included),
{
    proof {
        reveal_strlit("dependencies");
        reveal_strlit("devDependencies");
        reveal_strlit("optionalDependencies");
        reveal_strlit(", ");
    }
    let mut out = String::new();
    let ghost mut parts: Seq<Seq<char>> = Seq::empty();
    if included.dependencies {
        out.append("dependencies");
        proof {
            parts = parts.push("dependencies"@);
        }
    }
    assert(out@ == join_with_comma(parts));
    if included.dev_dependencies {
        if out.unicode_len() > 0 {
            out.append(", ");
        }
        out.append("devDependencies");
        proof {
            assert(parts.push("devDependencies"@).drop_last() =~= parts);
            parts = parts.push("devDependencies"@);
        }
    }
    assert(out@ == join_with_comma(parts));
    assert(out@.len() == 0 <==> parts.len() == 0);
    if included.optional_dependencies {
        if out.unicode_len() > 0 {
            out.append(", ");
        }
        out.append("optionalDependencies");
        proof {
            assert(parts.push("optionalDependencies"@).drop_last() =~= parts);
            parts = parts.push("optionalDependencies"@);
        }
    }
    assert(out@ == join_with_comma(parts));
    let ghost expected = (if included.dependencies { seq!["dependencies"@] } else { Seq::empty() })
        + (if included.dev_dependencies { seq!["devDependencies"@] } else { Seq::empty() })
        + (if included.optional_dependencies { seq!["optionalDependencies"@] } else { Seq::empty() });
    assert(parts =~= expected);
    if out.unicode_len() == 0 {
        proof {
            reveal_strlit("no dependency groups");
        }
        return "no dependency groups".to_owned();
    }
    out
}

/// The first drift between the recorded layout and the current
/// settings, in this order: virtual store name limit, public hoist
/// pattern, hoist pattern, store directory, virtual store directory,
/// dependency groups.
pub open spec fn spec_validate(
    modules: Modules,
    config: LayoutConfig,
    requested: IncludedDependencies,
    lockfile_dir: Seq<char>,
    modules_dir: Seq<char>,
) -> Result<(), ValidateModulesErrorView> {
    if modules.virtual_store_dir_max_length != DEFAULT_VIRTUAL_STORE_DIR_MAX_LENGTH {
        Err(ValidateModulesErrorView::VirtualStoreDirMaxLengthDiff)
    } else if pattern_views(modules.public_hoist_pattern) != pattern_views(config.public_hoist_pattern) {
        Err(ValidateModulesErrorView::PublicHoistPatternDiff)
    } else if pattern_views(modules.hoist_pattern) != pattern_views(config.hoist_pattern) {
        Err(ValidateModulesErrorView::HoistPatternDiff)
    } else if spec_components(modules.store_dir@) != spec_components(config.store_dir@) {
        Err(ValidateModulesErrorView::UnexpectedStore {
            modules_dir,
            recorded: modules.store_dir@,
            requested: config.store_dir@,
        })
    } else if spec_components(modules.virtual_store_dir@) != spec_components(config.virtual_store_dir@) {
        Err(ValidateModulesErrorView::UnexpectedVirtualStoreDir {
            modules_dir,
            recorded: modules.virtual_store_dir@,
            requested: config.virtual_store_dir@,
        })
    } else if modules.included != requested {
        Err(ValidateModulesErrorView::IncludedDepsConflict {
            lockfile_dir,
            recorded: spec_stringify_included(modules.included),
            requested: spec_stringify_included(requested),
        })
    } else {
        Ok(())
    }
}

/// An error with its strings taken as character sequences.
pub enum ValidateModulesErrorView {
    HoistPatternDiff,
    PublicHoistPatternDiff,
    IncludedDepsConflict { lockfile_dir: Seq<char>, recorded: Seq<char>, requested: Seq<char> },
    VirtualStoreDirMaxLengthDiff,
    UnexpectedStore { modules_dir: Seq<char>, recorded: Seq<char>, requested: Seq<char> },
    UnexpectedVirtualStoreDir { modules_dir: Seq<char>, recorded: Seq<char>, requested: Seq<char> },
}

impl ValidateModulesError {
    pub open spec fn view(&self) -> ValidateModulesErrorView {
        match self {
            ValidateModulesError::HoistPatternDiff => ValidateModulesErrorView::HoistPatternDiff,
            ValidateModulesError::PublicHoistPatternDiff => ValidateModulesErrorView::PublicHoistPatternDiff,
            ValidateModulesError::IncludedDepsConflict { lockfile_dir, recorded, requested } =>
                ValidateModulesErrorView::IncludedDepsConflict {
                    lockfile_dir: lockfile_dir@,
                    recorded: recorded@,
                    requested: requested@,
                },
            ValidateModulesError::VirtualStoreDirMaxLengthDiff => ValidateModulesErrorView::VirtualStoreDirMaxLengthDiff,
            ValidateModulesError::UnexpectedStore { modules_dir, recorded, requested } =>
                ValidateModulesErrorView::UnexpectedStore {
                    modules_dir: modules_dir@,
                    recorded: recorded@,
                    requested: requested@,
                },
            ValidateModulesError::UnexpectedVirtualStoreDir { modules_dir, recorded, requested } =>
                ValidateModulesErrorView::UnexpectedVirtualStoreDir {
                    modules_dir: modules_dir@,
                    recorded: recorded@,
                    requested: requested@,
                },
        }
    }
}

/// A result with its error taken by its view.
pub open spec fn result_view(r: Result<(), ValidateModulesError>) -> Result<(), ValidateModulesErrorView> {
    match r {
        Ok(()) => Ok(()),
        Err(e) => Err(e@),
    }
}

/// Compare the recorded layout with the current settings; `Ok` means the
/// modules directory can be reused as it is.
pub fn validate_modules(
    modules: &Modules,
    config: &LayoutConfig,
    requested_included: IncludedDependencies,
    lockfile_dir: &str,
    modules_dir: &str,
) -> (r: Result<(), ValidateModulesError>)
    ensures
        result_view(r) == spec_validate(*modules, *config, requested_included, lockfile_dir@, modules_dir@),
{
    if modules.virtual_store_dir_max_length != DEFAULT_VIRTUAL_STORE_DIR_MAX_LENGTH {
        return Err(ValidateModulesError::VirtualStoreDirMaxLengthDiff);
    }
    if !patterns_equal(&modules.public_hoist_pattern, &config.public_hoist_pattern) {
        return Err(ValidateModulesError::PublicHoistPatternDiff);
    }
    if !patterns_equal(&modules.hoist_pattern, &config.hoist_pattern) {
        return Err(ValidateModulesError::HoistPatternDiff);
    }
    if !paths_equal(modules.store_dir.as_str(), config.store_dir.as_str()) {
        return Err(ValidateModulesError::UnexpectedStore {
            modules_dir: modules_dir.to_owned(),
            recorded: modules.store_dir.clone(),
            requested: config.store_dir.clone(),
        });
    }
    if !paths_equal(modules.virtual_store_dir.as_str(), config.virtual_store_dir.as_str()) {
        return Err(ValidateModulesError::UnexpectedVirtualStoreDir {
            modules_dir: modules_dir.to_owned(),
            recorded: modules.virtual_store_dir.clone(),
            requested: config.virtual_store_dir.clone(),
        });
    }
    if modules.included != requested_included {
        return Err(ValidateModulesError::IncludedDepsConflict {
            lockfile_dir: lockfile_dir.to_owned(),
            recorded: stringify_included(modules.included),
            requested: stringify_included(requested_included),
        });
    }
    Ok(())
}


/// The recorded modules directory is reused only with the same
/// dependency groups: an `Ok` means the recorded and requested groups
/// agree on `dependencies`, `devDependencies` and `optionalDependencies`;
/// and when every earlier setting matches but any one group differs, the
/// answer is `IncludedDepsConflict` naming both lists of groups.
pub proof fn law_reuse_needs_same_groups(
    modules: Modules,
    config: LayoutConfig,
    requested: IncludedDependencies,
    lockfile_dir: Seq<char>,
    modules_dir: Seq<char>,
)
    ensures
        spec_validate(modules, config, requested, lockfile_dir, modules_dir) is Ok ==> {
            &&& modules.included.dependencies == requested.dependencies
            &&& modules.included.dev_dependencies == requested.dev_dependencies
            &&& modules.included.optional_dependencies == requested.optional_dependencies
        },
        ({
            &&& modules.virtual_store_dir_max_length == DEFAULT_VIRTUAL_STORE_DIR_MAX_LENGTH
            &&& pattern_views(modules.public_hoist_pattern) == pattern_views(config.public_hoist_pattern)
            &&& pattern_views(modules.hoist_pattern) == pattern_views(config.hoist_pattern)
            &&& spec_components(modules.store_dir@) == spec_components(config.store_dir@)
            &&& spec_components(modules.virtual_store_dir@) == spec_components(config.virtual_store_dir@)
            &&& (modules.included.dependencies != requested.dependencies
                || modules.included.dev_dependencies != requested.dev_dependencies
                || modules.included.optional_dependencies != requested.optional_dependencies)
        }) ==> spec_validate(modules, config, requested, lockfile_dir, modules_dir) == Err::<(), ValidateModulesErrorView>(
            ValidateModulesErrorView::IncludedDepsConflict {
                lockfile_dir,
                recorded: spec_stringify_included(modules.included),
                requested: spec_stringify_included(requested),
            },
        ),
{
}

} // verus!

//! Where the bins of a virtual-store slot's dependencies go and where
//! their manifests are found: for a lockfile-driven install from the
//! snapshots, otherwise from the names of the slot directories.
use vstd::prelude::*;
use crate::lockfile::{opt_edges, resolve, spec_resolve, spec_without_peer, without_peer, DepEdge, Snapshot, spec_all_edges};
use crate::path::{join, spec_join};
use crate::slots::{flat_name, key_name, spec_flat_name, spec_key_name};
use crate::text::{find_char, lemma_find_props, spec_find, starts_with_char, substr};

verus! {

broadcast use vstd::seq_lib::group_seq_properties;

/// The directory of a package under a `node_modules` directory (a scoped
/// name lands under its scope directory).
pub open spec fn spec_pkg_dir_under(modules_dir: Seq<char>, name: Seq<char>) -> Seq<char> {
    spec_join(modules_dir, name)
}

/// A dependency of a slot whose bins are linked: where it sits in the
/// slot's `node_modules`, and the key of its package (without peers),
/// under which a prefetched manifest is looked up.
#[derive(Debug, PartialEq, Eq)]
pub struct BinChild {
    pub location: String,
    pub metadata_key: String,
}

/// The bins of one slot: the directory they go to
/// (`<package dir>/node_modules/.bin`) and the dependencies whose bins
/// are linked there.
#[derive(Debug, PartialEq, Eq)]
pub struct SlotBins {
    pub bins_dir: String,
    pub children: Vec<BinChild>,
}

/// The `node_modules` directory of a slot.
pub open spec fn spec_slot_modules(virtual_store_dir: Seq<char>, key: Seq<char>) -> Seq<char> {
    spec_join(spec_join(virtual_store_dir, spec_flat_name(key)), "node_modules"@)
}

/// Whether a plan for a slot is the one its snapshot calls for.
pub open spec fn slot_bins_match(b: SlotBins, s: Snapshot, virtual_store_dir: Seq<char>) -> bool {
    let modules = spec_slot_modules(virtual_store_dir, s.key@);
    let edges = spec_all_edges(s.entry);
    &&& b.bins_dir@ == spec_join(spec_pkg_dir_under(modules, spec_key_name(s.key@)), "node_modules/.bin"@)
    &&& b.children@.len() == edges.len()
    &&& forall|i: int| 0 <= i < edges.len() ==> #[trigger] child_ok(b.children@[i], edges[i], modules)
}

/// Whether a bin child is the one a dependency edge calls for.
pub open spec fn child_ok(c: BinChild, e: DepEdge, modules: Seq<char>) -> bool {
    c.location@ == spec_pkg_dir_under(modules, e.alias@) && c.metadata_key@ == spec_without_peer(spec_resolve(e.alias@, e.dep_ref))
}

fn push_children(edges: &Vec<DepEdge>, modules: &str, out: &mut Vec<BinChild>)
    ensures
        final(out)@.len() == old(out)@.len() + edges@.len(),
        forall|i: int| 0 <= i < old(out)@.len() ==> final(out)@[i] == old(out)@[i],
        forall|j: int| old(out)@.len() <= j < final(out)@.len() ==> #[trigger] child_ok(final(out)@[j], edges@[j - old(out)@.len()], modules@),
{
    let ghost start = out@;
    let mut i: usize = 0;
    while i < edges.len()
        invariant
            i <= edges@.len(),
            start == old(out)@,
            out@.len() == start.len() + i,
            forall|j: int| 0 <= j < start.len() ==> out@[j] == start[j],
            forall|j: int| start.len() <= j < out@.len() ==> #[trigger] child_ok(out@[j], edges@[j - start.len()], modules@),
        decreases edges.len() - i,
    {
        let e = &edges[i];
        let child_key = resolve(e.alias.as_str(), &e.dep_ref);
        out.push(BinChild { location: join(modules, e.alias.as_str()), metadata_key: without_peer(child_key.as_str()) });
        i = i + 1;
    }
}

/// The bins plan of a lockfile-driven install: one entry per snapshot.
pub fn lockfile_bins_plan(virtual_store_dir: &str, snapshots: &Vec<Snapshot>) -> (r: Vec<SlotBins>)
    ensures
        r@.len() == snapshots@.len(),
        forall|i: int| 0 <= i < r@.len() ==> #[trigger] slot_bins_match(r@[i], snapshots@[i], virtual_store_dir@),
{
    proof {
        reveal_strlit("node_modules");
        reveal_strlit("node_modules/.bin");
    }
    let mut out: Vec<SlotBins> = Vec::new();
    let mut k: usize = 0;
    while k < snapshots.len()
        invariant
            k <= snapshots@.len(),
            out@.len() == k,
            forall|i: int| 0 <= i < k ==> #[trigger] slot_bins_match(out@[i], snapshots@[i], virtual_store_dir@),
        decreases snapshots.len() - k,
    {
        let s = &snapshots[k];
        let slot = join(virtual_store_dir, flat_name(s.key.as_str()).as_str());
        let modules = join(slot.as_str(), "node_modules");
        let own = join(modules.as_str(), key_name(s.key.as_str()).as_str());
        let bins_dir = join(own.as_str(), "node_modules/.bin");
        let mut children: Vec<BinChild> = Vec::new();
        let ghost deps = crate::lockfile::opt_edges(s.entry.dependencies);
        match &s.entry.dependencies {
            Some(d) => {
                push_children(d, modules.as_str(), &mut children);
                assert forall|i: int| 0 <= i < deps.len() implies #[trigger] child_ok(children@[i], deps[i], modules@) by {
                    assert(child_ok(children@[i], d@[i - 0], modules@));
                }
            },
            None => {},
        }
        let ghost mid = children@;
        assert(mid.len() == deps.len());
        match &s.entry.optional_dependencies {
            Some(d) => push_children(d, modules.as_str(), &mut children),
            None => {},
        }
        proof {
            let edges = spec_all_edges(s.entry);
            let opt = crate::lockfile::opt_edges(s.entry.optional_dependencies);
            assert(edges =~= deps + opt);
            assert forall|i: int| 0 <= i < edges.len() implies #[trigger] child_ok(children@[i], edges[i], modules@) by {
                if i < deps.len() {
                    assert(children@[i] == mid[i]);
                    assert(edges[i] == deps[i]);
                    assert(child_ok(mid[i], deps[i], modules@));
                } else {
                    assert(edges[i] == opt[i - deps.len()]);
                }
            }
        }
        out.push(SlotBins { bins_dir, children });
        k = k + 1;
    }
    out
}

/// The package directory of a slot found from the slot directory's
/// name (`<name with / as +>@<version...>`): the name ends at the first
/// `@` after the first character, and a scoped name's first `+` stands
/// for its `/`. `None` when the name has no version part.
pub open spec fn spec_slot_own_dir(modules_dir: Seq<char>, slot_name: Seq<char>) -> Option<Seq<char>> {
    let scoped = slot_name.len() > 0 && slot_name[0] == '@';
    let start: int = if scoped { 1 } else { 0 };
    match spec_find(slot_name, '@', start) {
        None => None,
        Some(at) => {
            let name_part = slot_name.take(at);
            if scoped {
                match spec_find(name_part, '+', 0) {
                    Some(p) => Some(spec_join(spec_join(modules_dir, name_part.take(p)), name_part.skip(p + 1))),
                    None => Some(spec_join(modules_dir, name_part)),
                }
            } else {
                Some(spec_join(modules_dir, name_part))
            }
        },
    }
}

/// The package directory of a slot, found from the slot directory's name
/// (the caller then checks that it exists).
pub fn find_slot_own_package_dir(modules_dir: &str, slot_name: &str) -> (r: Option<String>)
    ensures
        r matches Some(d) ==> spec_slot_own_dir(modules_dir@, slot_name@) == Some(d@),
        r is None ==> spec_slot_own_dir(modules_dir@, slot_name@) is None,
{
    let scoped = starts_with_char(slot_name, '@');
    let start: usize = if scoped { 1 } else { 0 };
    proof {
        lemma_find_props(slot_name@, '@', start as int);
    }
    let at = match find_char(slot_name, '@', start) {
        Some(at) => at,
        None => {
            return None;
        },
    };
    let name_part = substr(slot_name, 0, at);
    if scoped {
        proof {
            lemma_find_props(name_part@, '+', 0);
        }
        match find_char(name_part.as_str(), '+', 0) {
            Some(p) => {
                let n = name_part.unicode_len();
                let scope = substr(name_part.as_str(), 0, p);
                let bare = substr(name_part.as_str(), p + 1, n);
                let a = join(modules_dir, scope.as_str());
                Some(join(a.as_str(), bare.as_str()))
            },
            None => Some(join(modules_dir, name_part.as_str())),
        }
    } else {
        Some(join(modules_dir, name_part.as_str()))
    }
}

/// What a `node_modules` entry is to the bin linker.
#[derive(Debug, Clone, Copy, PartialEq, Eq, Structural)]
pub enum ModulesEntry {
    /// A hidden entry (`.bin`, `.pnpm`, ...): passed over.
    Hidden,
    /// A scope directory: its entries are packages.
    Scope,
    /// A package directory.
    Package,
}

/// The kind of a `node_modules` entry by its name.
pub open spec fn spec_entry_kind(name: Seq<char>) -> ModulesEntry {
    if name.len() > 0 && name[0] == '.' {
        ModulesEntry::Hidden
    } else if name.len() > 0 && name[0] == '@' {
        ModulesEntry::Scope
    } else {
        ModulesEntry::Package
    }
}

/// The kind of a `node_modules` entry by its name.
pub fn entry_kind(name: &str) -> (r: ModulesEntry)
    ensures
        r == spec_entry_kind(name@),
{
    if starts_with_char(name, '.') {
        ModulesEntry::Hidden
    } else if starts_with_char(name, '@') {
        ModulesEntry::Scope
    } else {
        ModulesEntry::Package
    }
}


/// A slot links the bins of every dependency of its snapshot: one child
/// per entry of `dependencies`, then one per entry of
/// `optionalDependencies`, in order, each found at
/// `<slot node_modules>/<alias>` and looked up under the resolved key
/// without peers. Each plan of `lockfile_bins_plan` meets
/// `slot_bins_match` for its snapshot.
pub proof fn law_slot_bins_cover_dependencies_and_optional_dependencies(
    b: SlotBins,
    s: Snapshot,
    virtual_store_dir: Seq<char>,
)
    requires
        slot_bins_match(b, s, virtual_store_dir),
    ensures
        ({
            let deps = opt_edges(s.entry.dependencies);
            let opt = opt_edges(s.entry.optional_dependencies);
            let modules = spec_join(spec_join(virtual_store_dir, spec_flat_name(s.key@)), "node_modules"@);
            &&& b.children@.len() == deps.len() + opt.len()
            &&& forall|j: int| 0 <= j < deps.len() ==> {
                &&& (#[trigger] b.children@[j]).location@ == spec_join(modules, deps[j].alias@)
                &&& b.children@[j].metadata_key@ == spec_without_peer(spec_resolve(deps[j].alias@, deps[j].dep_ref))
            }
            &&& forall|j: int| 0 <= j < opt.len() ==> {
                &&& (#[trigger] b.children@[deps.len() + j]).location@ == spec_join(modules, opt[j].alias@)
                &&& b.children@[deps.len() + j].metadata_key@ == spec_without_peer(spec_resolve(opt[j].alias@, opt[j].dep_ref))
            }
        }),
{
    let deps = opt_edges(s.entry.dependencies);
    let opt = opt_edges(s.entry.optional_dependencies);
    let modules = spec_slot_modules(virtual_store_dir, s.key@);
    let edges = spec_all_edges(s.entry);
    assert(edges =~= deps + opt);
    assert forall|j: int| 0 <= j < deps.len() implies {
        &&& (#[trigger] b.children@[j]).location@ == spec_join(modules, deps[j].alias@)
        &&& b.children@[j].metadata_key@ == spec_without_peer(spec_resolve(deps[j].alias@, deps[j].dep_ref))
    } by {
        assert(edges[j] == deps[j]);
        assert(child_ok(b.children@[j], edges[j], modules));
    }
    assert forall|j: int| 0 <= j < opt.len() implies {
        &&& (#[trigger] b.children@[deps.len() + j]).location@ == spec_join(modules, opt[j].alias@)
        &&& b.children@[deps.len() + j].metadata_key@ == spec_without_peer(spec_resolve(opt[j].alias@, opt[j].dep_ref))
    } by {
        assert(edges[deps.len() + j] == opt[j]);
        assert(child_ok(b.children@[deps.len() + j], edges[deps.len() + j], modules));
    }
}

} // verus!

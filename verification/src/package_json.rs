//! A project's `package.json` as the `package_json` API sees it: its
//! path and document, with the same queries and edits as
//! `package_manifest` (the production group is called `Default`).
use vstd::prelude::*;
use crate::json::JsonValue;
use crate::manifest_core::{
    add_dependency_in, add_fails, bundle_dependencies_in, create_init_package_json, dependencies_in, dependency_set,
    editable, fields_dependencies, init_package_name, is_init_manifest, pair_views,
    spec_bundle_dependencies, spec_init_name, spec_script, Bundle,
    InvalidBundleDependencies, script_in,
};

verus! {

/// A dependency group of the manifest.
#[derive(Debug, Clone, Copy, PartialEq, Eq, Structural)]
pub enum DependencyGroup {
    Default,
    Dev,
    Optional,
    Peer,
}

/// The manifest field of a group.
pub open spec fn group_field(g: DependencyGroup) -> Seq<char> {
    match g {
        DependencyGroup::Default => "dependencies"@,
        DependencyGroup::Dev => "devDependencies"@,
        DependencyGroup::Optional => "optionalDependencies"@,
        DependencyGroup::Peer => "peerDependencies"@,
    }
}

impl DependencyGroup {
    /// The manifest field of the group.
    pub fn field(self) -> (r: &'static str)
        ensures
            r@ == group_field(self),
    {
        proof {
            reveal_strlit("dependencies");
            reveal_strlit("devDependencies");
            reveal_strlit("optionalDependencies");
            reveal_strlit("peerDependencies");
        }
        match self {
            DependencyGroup::Default => "dependencies",
            DependencyGroup::Dev => "devDependencies",
            DependencyGroup::Optional => "optionalDependencies",
            DependencyGroup::Peer => "peerDependencies",
        }
    }
}

/// Bundled dependencies: a flag, or a list of names.
#[derive(Debug, PartialEq, Eq)]
pub enum BundleDependencies {
    Boolean(bool),
    List(Vec<String>),
}

/// Errors of reading and editing a manifest.
#[derive(Debug, PartialEq, Eq)]
pub enum PackageJsonError {
    /// The document could not be parsed or written (the message says why).
    Serialization(String),
    /// The file could not be read or written (the message says why).
    Io(String),
    /// `init` found a `package.json` already there.
    AlreadyExist,
    /// A field holds a value of the wrong kind.
    InvalidAttribute(String),
    /// No `package.json` at the given path.
    NoImporterManifestFound(String),
    /// The script asked for is not in `scripts`.
    NoScript(String),
}

/// Content of a `package.json` file and its path.
#[derive(Debug)]
pub struct PackageJson {
    path: String,
    value: JsonValue,
}

/// The fields of a list of groups, in order.
pub open spec fn group_fields(groups: Seq<DependencyGroup>) -> Seq<Seq<char>> {
    groups.map_values(|g: DependencyGroup| group_field(g))
}

/// A bundled-dependencies result by views.
pub open spec fn bundle_result_view(r: Result<Option<BundleDependencies>, InvalidBundleDependencies>) -> Result<Option<Result<bool, Seq<Seq<char>>>>, ()> {
    match r {
        Ok(None) => Ok(None),
        Ok(Some(BundleDependencies::Boolean(b))) => Ok(Some(Ok(b))),
        Ok(Some(BundleDependencies::List(l))) => Ok(Some(Err(crate::text::views_of(l@)))),
        Err(_) => Err(()),
    }
}

impl PackageJson {
    /// The path of the file.
    pub closed spec fn path_view(&self) -> Seq<char> {
        self.path@
    }

    /// The document.
    pub closed spec fn document(&self) -> JsonValue {
        self.value
    }

    /// The document `init` writes at `path`, unless a file is already
    /// there (`exists`).
    pub fn init(path: &str, exists: bool) -> (r: Result<JsonValue, PackageJsonError>)
        ensures
            exists ==> r == Err::<JsonValue, PackageJsonError>(PackageJsonError::AlreadyExist),
            !exists ==> (r matches Ok(v) && is_init_manifest(v, spec_init_name(path@))),
    {
        if exists {
            return Err(PackageJsonError::AlreadyExist);
        }
        let name = init_package_name(path);
        Ok(create_init_package_json(name.as_str()))
    }

    /// The manifest at `path`, given the document read from it (`None`
    /// when there is no file there).
    pub fn from_path(path: String, document: Option<JsonValue>) -> (r: Result<PackageJson, PackageJsonError>)
        ensures
            document is None ==> (r matches Err(PackageJsonError::NoImporterManifestFound(p)) && p@ == path@),
            document matches Some(d) ==> (r matches Ok(m) && m.path_view() == path@ && m.document() == d),
    {
        match document {
            Some(value) => Ok(PackageJson { path, value }),
            None => Err(PackageJsonError::NoImporterManifestFound(path)),
        }
    }

    /// The manifest at `path`: the document read from it, or, when there
    /// is no file (`None`), the document `init` writes (which the caller
    /// saves).
    pub fn create_if_needed(path: String, document: Option<JsonValue>) -> (r: PackageJson)
        ensures
            r.path_view() == path@,
            document matches Some(d) ==> r.document() == d,
            document is None ==> is_init_manifest(r.document(), spec_init_name(path@)),
    {
        match document {
            Some(value) => PackageJson { path, value },
            None => {
                let name = init_package_name(path.as_str());
                let value = create_init_package_json(name.as_str());
                PackageJson { path, value }
            },
        }
    }

    /// The path of the file.
    pub fn path(&self) -> (r: &str)
        ensures
            r@ == self.path_view(),
    {
        self.path.as_str()
    }

    /// The document.
    pub fn value(&self) -> (r: &JsonValue)
        ensures
            *r == self.document(),
    {
        &self.value
    }

    /// The `(name, version)` pairs of the given groups, group by group;
    /// a group that is not an object and a version that is not a string
    /// are passed over.
    pub fn dependencies(&self, groups: &[DependencyGroup]) -> (r: Vec<(String, String)>)
        ensures
            pair_views(r@) == fields_dependencies(self.document(), group_fields(groups@)),
    {
        let mut fields: Vec<&str> = Vec::new();
        let mut i: usize = 0;
        while i < groups.len()
            invariant
                i <= groups@.len(),
                fields@.map_values(|f: &str| f@) == group_fields(groups@.take(i as int)),
            decreases groups.len() - i,
        {
            let ghost before = fields@;
            let f = groups[i].field();
            fields.push(f);
            assert(groups@.take(i + 1) =~= groups@.take(i as int).push(groups@[i as int]));
            assert(group_fields(groups@.take(i + 1)) =~= group_fields(groups@.take(i as int)).push(group_field(groups@[i as int])));
            assert(fields@ =~= before.push(f));
            assert(fields@.map_values(|f: &str| f@) =~= before.map_values(|f: &str| f@).push(f@));
            i = i + 1;
        }
        assert(groups@.take(groups@.len() as int) =~= groups@);
        dependencies_in(&self.value, &fields)
    }

    /// The bundled dependencies (`bundleDependencies`, else
    /// `bundledDependencies`).
    pub fn bundle_dependencies(&self) -> (r: Result<Option<BundleDependencies>, InvalidBundleDependencies>)
        ensures
            bundle_result_view(r) == spec_bundle_dependencies(self.document()),
    {
        match bundle_dependencies_in(&self.value) {
            Ok(Some(Bundle::Flag(b))) => Ok(Some(BundleDependencies::Boolean(b))),
            Ok(Some(Bundle::Names(l))) => Ok(Some(BundleDependencies::List(l))),
            Ok(None) => Ok(None),
            Err(e) => Err(e),
        }
    }

    /// Record `name` at `version` under a group.
    pub fn add_dependency(&mut self, name: &str, version: &str, dependency_group: DependencyGroup) -> (r: Result<(), PackageJsonError>)
        requires
            editable(old(self).document()),
        ensures
            final(self).path_view() == old(self).path_view(),
            r is Err <==> add_fails(old(self).document(), group_field(dependency_group)),
            r matches Err(e) ==> (e matches PackageJsonError::InvalidAttribute(m)
                && m@ == "dependencies attribute should be an object"@),
            r is Err ==> final(self).document() == old(self).document(),
            r is Ok ==> dependency_set(old(self).document(), final(self).document(), group_field(dependency_group), name@, version@),
    {
        proof {
            reveal_strlit("dependencies attribute should be an object");
        }
        let field = dependency_group.field();
        match add_dependency_in(&mut self.value, field, name, version) {
            Ok(()) => Ok(()),
            Err(()) => Err(PackageJsonError::InvalidAttribute("dependencies attribute should be an object".to_owned())),
        }
    }

    /// The script `command`: `Some` when it is a string in `scripts`;
    /// otherwise `None` with `if_present`, else a `NoScript` error.
    pub fn script(&self, command: &str, if_present: bool) -> (r: Result<Option<&str>, PackageJsonError>)
        ensures
            spec_script(self.document(), command@) matches Some(s) ==> (r matches Ok(Some(x)) && x@ == s),
            spec_script(self.document(), command@) is None && if_present ==> r matches Ok(None),
            spec_script(self.document(), command@) is None && !if_present ==> (r matches Err(PackageJsonError::NoScript(c))
                && c@ == command@),
    {
        match script_in(&self.value, command) {
            Some(s) => Ok(Some(s)),
            None => if if_present { Ok(None) } else { Err(PackageJsonError::NoScript(command.to_owned())) },
        }
    }
}


/// What `add_dependency` writes, `dependencies` reads back: after
/// `name` is added at `version` to a group, the dependencies listed for
/// any groups that include it hold `(name, version)`.
pub proof fn law_added_dependency_is_listed(
    before: PackageJson,
    after: PackageJson,
    name: Seq<char>,
    version: Seq<char>,
    group: DependencyGroup,
    groups: Seq<DependencyGroup>,
)
    requires
        dependency_set(before.document(), after.document(), group_field(group), name, version),
        groups.contains(group),
    ensures
        fields_dependencies(after.document(), group_fields(groups)).contains((name, version)),
{
    let j = choose|j: int| 0 <= j < groups.len() && groups[j] == group;
    assert(group_fields(groups)[j] == group_field(group));
    crate::manifest_core::lemma_set_dependency_listed(
        before.document(),
        after.document(),
        group_field(group),
        name,
        version,
        group_fields(groups),
    );
}

} // verus!

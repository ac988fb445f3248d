//! What a `package.json` document says and how it is edited: the
//! dependency maps of the dependency groups, scripts, bundled
//! dependencies, adding a dependency, and the document `init` writes.
use vstd::prelude::*;
use crate::json::{find_member, lemma_member_index, member_index, set_member, spec_as_str, spec_get, spec_set_member, JsonValue};
use crate::text::{lemma_rfind_props, rfind_char, spec_rfind, str_eq, substr};
use crate::path::spec_components;

verus! {

broadcast use vstd::seq_lib::group_seq_properties;

/// Whether `v` is the string `s`.
pub open spec fn is_str(v: JsonValue, s: Seq<char>) -> bool {
    v matches JsonValue::Str(x) && x@ == s
}

/// Whether member `key` of `v` is the string `s`.
pub open spec fn member_is_str(v: JsonValue, key: Seq<char>, s: Seq<char>) -> bool {
    spec_get(v, key) matches Some(m) && is_str(m, s)
}

/// The members of an object (none for other values).
pub open spec fn members(v: JsonValue) -> Seq<(String, JsonValue)> {
    match v {
        JsonValue::Object(e) => e@,
        _ => Seq::empty(),
    }
}

/// The `test` script of a fresh manifest.
pub open spec fn init_test_script() -> Seq<char> {
    "echo \"Error: no test specified\" && exit 1"@
}

/// The document `init` writes for a package named `name`.
pub open spec fn is_init_manifest(v: JsonValue, name: Seq<char>) -> bool {
    &&& v is Object
    &&& members(v).len() == 8
    &&& member_is_str(v, "name"@, name)
    &&& member_is_str(v, "version"@, "1.0.0"@)
    &&& member_is_str(v, "description"@, ""@)
    &&& member_is_str(v, "main"@, "index.js"@)
    &&& (spec_get(v, "scripts"@) matches Some(s) && s is Object && members(s).len() == 1
        && member_is_str(s, "test"@, init_test_script()))
    &&& (spec_get(v, "keywords"@) matches Some(JsonValue::Array(k)) && k@.len() == 0)
    &&& member_is_str(v, "author"@, ""@)
    &&& member_is_str(v, "license"@, "ISC"@)
}

fn str_value(s: &str) -> (r: JsonValue)
    ensures
        is_str(r, s@),
{
    JsonValue::Str(s.to_owned())
}

/// The document `init` writes for a package named `name`.
pub fn create_init_package_json(name: &str) -> (r: JsonValue)
    ensures
        is_init_manifest(r, name@),
{
    proof {
        reveal_strlit("name");
        reveal_strlit("version");
        reveal_strlit("1.0.0");
        reveal_strlit("description");
        reveal_strlit("");
        reveal_strlit("main");
        reveal_strlit("index.js");
        reveal_strlit("scripts");
        reveal_strlit("test");
        reveal_strlit("echo \"Error: no test specified\" && exit 1");
        reveal_strlit("keywords");
        reveal_strlit("author");
        reveal_strlit("license");
        reveal_strlit("ISC");
    }
    let mut scripts: Vec<(String, JsonValue)> = Vec::new();
    scripts.push(("test".to_owned(), str_value("echo \"Error: no test specified\" && exit 1")));
    let mut m: Vec<(String, JsonValue)> = Vec::new();
    m.push(("name".to_owned(), str_value(name)));
    m.push(("version".to_owned(), str_value("1.0.0")));
    m.push(("description".to_owned(), str_value("")));
    m.push(("main".to_owned(), str_value("index.js")));
    m.push(("scripts".to_owned(), JsonValue::Object(scripts)));
    m.push(("keywords".to_owned(), JsonValue::Array(Vec::new())));
    m.push(("author".to_owned(), str_value("")));
    m.push(("license".to_owned(), str_value("ISC")));
    let r = JsonValue::Object(m);
    proof {
        let e = m@;
        assert(e[0].0@ == "name"@);
        assert(e[1].0@ == "version"@);
        assert(e[2].0@ == "description"@);
        assert(e[3].0@ == "main"@);
        assert(e[4].0@ == "scripts"@);
        assert(e[5].0@ == "keywords"@);
        assert(e[6].0@ == "author"@);
        assert(e[7].0@ == "license"@);
        assert("main"@[0] != "name"@[0]);
        assert("scripts"@[0] != "version"@[0]);
        assert("license"@[0] != "version"@[0]);
        assert("license"@[0] != "scripts"@[0]);
        assert(member_index(e, "name"@, 0) == Some(0int));
        assert(member_index(e, "version"@, 0) == Some(1int)) by {
            assert(member_index(e, "version"@, 1) == Some(1int));
        }
        assert(member_index(e, "description"@, 0) == Some(2int)) by {
            assert(member_index(e, "description"@, 2) == Some(2int));
            assert(member_index(e, "description"@, 1) == Some(2int));
        }
        assert(member_index(e, "main"@, 0) == Some(3int)) by {
            assert(member_index(e, "main"@, 3) == Some(3int));
            assert(member_index(e, "main"@, 2) == Some(3int));
            assert(member_index(e, "main"@, 1) == Some(3int));
        }
        assert(member_index(e, "scripts"@, 0) == Some(4int)) by {
            assert(member_index(e, "scripts"@, 4) == Some(4int));
            assert(member_index(e, "scripts"@, 3) == Some(4int));
            assert(member_index(e, "scripts"@, 2) == Some(4int));
            assert(member_index(e, "scripts"@, 1) == Some(4int));
        }
        assert(member_index(e, "keywords"@, 0) == Some(5int)) by {
            assert(member_index(e, "keywords"@, 5) == Some(5int));
            assert(member_index(e, "keywords"@, 4) == Some(5int));
            assert(member_index(e, "keywords"@, 3) == Some(5int));
            assert(member_index(e, "keywords"@, 2) == Some(5int));
            assert(member_index(e, "keywords"@, 1) == Some(5int));
        }
        assert(member_index(e, "author"@, 0) == Some(6int)) by {
            assert(member_index(e, "author"@, 6) == Some(6int));
            assert(member_index(e, "author"@, 5) == Some(6int));
            assert(member_index(e, "author"@, 4) == Some(6int));
            assert(member_index(e, "author"@, 3) == Some(6int));
            assert(member_index(e, "author"@, 2) == Some(6int));
            assert(member_index(e, "author"@, 1) == Some(6int));
        }
        assert(member_index(e, "license"@, 0) == Some(7int)) by {
            assert(member_index(e, "license"@, 7) == Some(7int));
            assert(member_index(e, "license"@, 6) == Some(7int));
            assert(member_index(e, "license"@, 5) == Some(7int));
            assert(member_index(e, "license"@, 4) == Some(7int));
            assert(member_index(e, "license"@, 3) == Some(7int));
            assert(member_index(e, "license"@, 2) == Some(7int));
            assert(member_index(e, "license"@, 1) == Some(7int));
        }
        assert(member_index(scripts@, "test"@, 0) == Some(0int));
    }
    r
}

/// The name `init` gives a package: the name of the directory that
/// holds the manifest (empty when there is none, as for `/package.json`
/// or a bare `package.json`).
pub open spec fn spec_init_name(path: Seq<char>) -> Seq<char> {
    let c = spec_components(path);
    if c.len() >= 2 && c[c.len() - 2] != "/"@ && c[c.len() - 2] != "."@ && c[c.len() - 2] != ".."@ {
        c[c.len() - 2]
    } else {
        Seq::empty()
    }
}

/// The name `init` gives the package whose manifest is at `path`.
pub fn init_package_name(path: &str) -> (r: String)
    ensures
        r@ == spec_init_name(path@),
{
    proof {
        reveal_strlit("/");
        reveal_strlit(".");
        reveal_strlit("..");
    }
    let c = crate::path::path_components(path);
    let n = c.len();
    if n >= 2 {
        let p = &c[n - 2];
        assert(crate::text::views_of(c@)[n - 2] == p@);
        if !str_eq(p.as_str(), "/") && !str_eq(p.as_str(), ".") && !str_eq(p.as_str(), "..") {
            return p.clone();
        }
    }
    String::new()
}

/// The string members of an object: `(name, value)` pairs, in order.
pub open spec fn string_members(entries: Seq<(String, JsonValue)>) -> Seq<(Seq<char>, Seq<char>)>
    decreases entries.len(),
{
    if entries.len() == 0 {
        Seq::empty()
    } else {
        let rest = string_members(entries.drop_last());
        match spec_as_str(entries.last().1) {
            Some(s) => rest.push((entries.last().0@, s)),
            None => rest,
        }
    }
}

/// The dependencies one field lists: its string members when it is an
/// object, none otherwise.
pub open spec fn field_dependencies(v: JsonValue, field: Seq<char>) -> Seq<(Seq<char>, Seq<char>)> {
    match spec_get(v, field) {
        Some(JsonValue::Object(e)) => string_members(e@),
        _ => Seq::empty(),
    }
}

/// The dependencies of several fields, one field after another.
pub open spec fn fields_dependencies(v: JsonValue, fields: Seq<Seq<char>>) -> Seq<(Seq<char>, Seq<char>)>
    decreases fields.len(),
{
    if fields.len() == 0 {
        Seq::empty()
    } else {
        fields_dependencies(v, fields.drop_last()) + field_dependencies(v, fields.last())
    }
}

/// A list of pairs of strings by their views.
pub open spec fn pair_views(p: Seq<(String, String)>) -> Seq<(Seq<char>, Seq<char>)> {
    p.map_values(|x: (String, String)| (x.0@, x.1@))
}

/// Append the string members of `entries` to `out`.
fn push_string_members(entries: &Vec<(String, JsonValue)>, out: &mut Vec<(String, String)>)
    ensures
        pair_views(final(out)@) == pair_views(old(out)@) + string_members(entries@),
{
    let mut i: usize = 0;
    let ghost start = pair_views(out@);
    assert(entries@.take(0) =~= Seq::<(String, JsonValue)>::empty());
    assert(start + Seq::empty() =~= start);
    while i < entries.len()
        invariant
            i <= entries@.len(),
            start == pair_views(old(out)@),
            pair_views(out@) == start + string_members(entries@.take(i as int)),
        decreases entries.len() - i,
    {
        assert(entries@.take(i + 1).drop_last() =~= entries@.take(i as int));
        assert(entries@.take(i + 1).last() == entries@[i as int]);
        match entries[i].1.as_str() {
            Some(s) => {
                let ghost b = pair_views(out@);
                out.push((entries[i].0.clone(), s.to_owned()));
                assert(pair_views(out@) =~= b.push((entries@[i as int].0@, s@)));
                assert(start + string_members(entries@.take(i + 1)) =~= b.push((entries@[i as int].0@, s@)));
            },
            None => {},
        }
        i = i + 1;
    }
    assert(entries@.take(entries@.len() as int) =~= entries@);
}

/// The `(name, version)` pairs listed under `fields`, one field after
/// another; fields that are not objects and members that are not
/// strings are passed over.
pub fn dependencies_in(value: &JsonValue, fields: &Vec<&str>) -> (r: Vec<(String, String)>)
    ensures
        pair_views(r@) == fields_dependencies(*value, fields@.map_values(|f: &str| f@)),
{
    let mut out: Vec<(String, String)> = Vec::new();
    let mut i: usize = 0;
    let ghost fv = fields@.map_values(|f: &str| f@);
    assert(fv.take(0) =~= Seq::<Seq<char>>::empty());
    assert(pair_views(out@) =~= Seq::<(Seq<char>, Seq<char>)>::empty());
    while i < fields.len()
        invariant
            i <= fields@.len(),
            fv == fields@.map_values(|f: &str| f@),
            pair_views(out@) == fields_dependencies(*value, fv.take(i as int)),
        decreases fields.len() - i,
    {
        assert(fv.take(i + 1).drop_last() =~= fv.take(i as int));
        assert(fv.take(i + 1).last() == fields@[i as int]@);
        match value.get(fields[i]) {
            Some(JsonValue::Object(entries)) => {
                push_string_members(entries, &mut out);
            },
            _ => {
                assert(field_dependencies(*value, fields@[i as int]@) =~= Seq::<(Seq<char>, Seq<char>)>::empty());
            },
        }
        i = i + 1;
    }
    assert(fv.take(fields@.len() as int) =~= fv);
    out
}

/// The registry name and range of a dependency entry: an `npm:` alias
/// names its target (split at the last `@` when it is not the first
/// character; without a version, `latest`); any other entry is its key
/// and specifier.
pub open spec fn spec_resolve_registry_dependency(key: Seq<char>, bare: Seq<char>) -> (Seq<char>, Seq<char>) {
    if bare.len() >= 4 && bare.take(4) == "npm:"@ {
        let rest = bare.skip(4);
        match spec_rfind(rest, '@') {
            Some(i) => if i >= 1 { (rest.take(i), rest.skip(i + 1)) } else { (rest, "latest"@) },
            None => (rest, "latest"@),
        }
    } else {
        (key, bare)
    }
}

/// Resolve a `(key, specifier)` dependency entry into the registry name
/// and range to fetch.
pub fn resolve_registry_dependency(key: &str, bare_specifier: &str) -> (r: (String, String))
    ensures
        (r.0@, r.1@) == spec_resolve_registry_dependency(key@, bare_specifier@),
{
    proof {
        reveal_strlit("npm:");
        reveal_strlit("latest");
    }
    let n = bare_specifier.unicode_len();
    if n >= 4 {
        let prefix = substr(bare_specifier, 0, 4);
        if str_eq(prefix.as_str(), "npm:") {
            let rest = substr(bare_specifier, 4, n);
            let m = rest.unicode_len();
            proof {
                lemma_rfind_props(rest@, '@');
                assert(bare_specifier@.take(4) =~= prefix@);
                assert(bare_specifier@.skip(4) =~= rest@);
            }
            return match rfind_char(rest.as_str(), '@') {
                Some(idx) => if idx >= 1 {
                    (substr(rest.as_str(), 0, idx), substr(rest.as_str(), idx + 1, m))
                } else {
                    (rest, "latest".to_owned())
                },
                None => (rest, "latest".to_owned()),
            };
        }
        assert(bare_specifier@.take(4) =~= prefix@);
    }
    (key.to_owned(), bare_specifier.to_owned())
}

/// Bundled dependencies as a document declares them: a flag, or a list
/// of names.
#[derive(Debug, PartialEq, Eq)]
pub enum Bundle {
    Flag(bool),
    Names(Vec<String>),
}

/// The value `bundleDependencies` (or else `bundledDependencies`) holds.
pub open spec fn bundle_field(v: JsonValue) -> Option<JsonValue> {
    match spec_get(v, "bundleDependencies"@) {
        Some(x) => Some(x),
        None => spec_get(v, "bundledDependencies"@),
    }
}

/// Whether every item of an array is a string.
pub open spec fn all_strings(items: Seq<JsonValue>) -> bool {
    forall|i: int| 0 <= i < items.len() ==> #[trigger] items[i] is Str
}

/// The strings of an array of strings.
pub open spec fn item_strings(items: Seq<JsonValue>) -> Seq<Seq<char>> {
    items.map_values(|x: JsonValue| match x {
        JsonValue::Str(s) => s@,
        _ => Seq::empty(),
    })
}

/// What `bundle_dependencies` gives, by views: `Ok(None)` when neither
/// field is present, a flag for a boolean, the names for an array of
/// strings, and an error for anything else.
pub open spec fn spec_bundle_dependencies(v: JsonValue) -> Result<Option<Result<bool, Seq<Seq<char>>>>, ()> {
    match bundle_field(v) {
        None => Ok(None),
        Some(JsonValue::Bool(b)) => Ok(Some(Ok(b))),
        Some(JsonValue::Array(items)) => if all_strings(items@) {
            Ok(Some(Err(item_strings(items@))))
        } else {
            Err(())
        },
        Some(_) => Err(()),
    }
}

/// A `bundle_dependencies` result by views.
pub open spec fn bundle_view(r: Result<Option<Bundle>, InvalidBundleDependencies>) -> Result<Option<Result<bool, Seq<Seq<char>>>>, ()> {
    match r {
        Ok(None) => Ok(None),
        Ok(Some(Bundle::Flag(b))) => Ok(Some(Ok(b))),
        Ok(Some(Bundle::Names(l))) => Ok(Some(Err(crate::text::views_of(l@)))),
        Err(_) => Err(()),
    }
}

/// The bundled-dependencies field holds neither a boolean nor an array
/// of strings.
#[derive(Debug, PartialEq, Eq)]
pub struct InvalidBundleDependencies;

/// The bundled dependencies a document declares.
pub fn bundle_dependencies_in(value: &JsonValue) -> (r: Result<Option<Bundle>, InvalidBundleDependencies>)
    ensures
        bundle_view(r) == spec_bundle_dependencies(*value),
{
    proof {
        reveal_strlit("bundleDependencies");
        reveal_strlit("bundledDependencies");
    }
    let field = match value.get("bundleDependencies") {
        Some(x) => Some(x),
        None => value.get("bundledDependencies"),
    };
    match field {
        None => Ok(None),
        Some(JsonValue::Bool(b)) => Ok(Some(Bundle::Flag(*b))),
        Some(JsonValue::Array(items)) => {
            let mut names: Vec<String> = Vec::new();
            let mut i: usize = 0;
            while i < items.len()
                invariant
                    bundle_field(*value) == Some(JsonValue::Array(*items)),
                    i <= items@.len(),
                    forall|j: int| 0 <= j < i ==> #[trigger] items@[j] is Str,
                    crate::text::views_of(names@) == item_strings(items@.take(i as int)),
                decreases items.len() - i,
            {
                match &items[i] {
                    JsonValue::Str(s) => {
                        let ghost b = crate::text::views_of(names@);
                        names.push(s.clone());
                        assert(item_strings(items@.take(i + 1)) =~= item_strings(items@.take(i as int)).push(s@));
                        assert(crate::text::views_of(names@) =~= b.push(s@));
                    },
                    _ => {
                        assert(!(items@[i as int] is Str));
                        assert(!all_strings(items@));
                        return Err(InvalidBundleDependencies);
                    },
                }
                i = i + 1;
            }
            assert(items@.take(items@.len() as int) =~= items@);
            Ok(Some(Bundle::Names(names)))
        },
        Some(_) => Err(InvalidBundleDependencies),
    }
}

/// The script `command` of a document, when it is a string.
pub open spec fn spec_script(v: JsonValue, command: Seq<char>) -> Option<Seq<char>> {
    match spec_get(v, "scripts"@) {
        Some(s) => match spec_get(s, command) {
            Some(x) => spec_as_str(x),
            None => None,
        },
        None => None,
    }
}

/// The script `command` of a document, when it is a string.
pub fn script_in<'a>(value: &'a JsonValue, command: &str) -> (r: Option<&'a str>)
    ensures
        r matches Some(s) ==> spec_script(*value, command@) == Some(s@),
        r is None ==> spec_script(*value, command@) is None,
{
    proof {
        reveal_strlit("scripts");
    }
    match value.get("scripts") {
        Some(scripts) => match scripts.get(command) {
            Some(x) => x.as_str(),
            None => None,
        },
        None => None,
    }
}

/// Whether `add_dependency_in` can edit `v`: an object, or `null`
/// (which becomes an object).
pub open spec fn editable(v: JsonValue) -> bool {
    v is Object || v is Null
}

/// Adding a dependency fails when the group's field holds something
/// other than an object.
pub open spec fn add_fails(v: JsonValue, field: Seq<char>) -> bool {
    spec_get(v, field) matches Some(x) && !(x is Object)
}

/// The dependency map of a group after an edit: `name` maps to the
/// string `version`, and every other member is what it was (absent
/// when the field was absent).
pub open spec fn dependency_set(old_v: JsonValue, new_v: JsonValue, field: Seq<char>, name: Seq<char>, version: Seq<char>) -> bool {
    &&& spec_get(new_v, field) matches Some(d) && d is Object
    &&& member_is_str(spec_get(new_v, field)->0, name, version)
    &&& forall|other: Seq<char>| other != name ==> #[trigger] spec_get(spec_get(new_v, field)->0, other) == match spec_get(old_v, field) {
        Some(od) => spec_get(od, other),
        None => None,
    }
    &&& forall|f: Seq<char>| f != field ==> #[trigger] spec_get(new_v, f) == spec_get(old_v, f)
    &&& new_v is Object
}

/// `member_index` depends only on the keys.
proof fn lemma_member_index_same_keys(a: Seq<(String, JsonValue)>, b: Seq<(String, JsonValue)>, key: Seq<char>, from: int)
    requires
        a.len() == b.len(),
        forall|j: int| 0 <= j < a.len() ==> a[j].0@ == b[j].0@,
    ensures
        member_index(a, key, from) == member_index(b, key, from),
    decreases a.len() - from,
{
    if 0 <= from < a.len() && a[from].0@ != key {
        lemma_member_index_same_keys(a, b, key, from + 1);
    }
}

/// `member_index` after appending a member.
proof fn lemma_member_index_push(a: Seq<(String, JsonValue)>, x: (String, JsonValue), key: Seq<char>, from: int)
    requires
        0 <= from <= a.len(),
    ensures
        member_index(a.push(x), key, from) == match member_index(a, key, from) {
            Some(i) => Some(i),
            None => if x.0@ == key { Some(a.len() as int) } else { None },
        },
    decreases a.len() - from,
{
    if from < a.len() {
        assert(a.push(x)[from] == a[from]);
        if a[from].0@ != key {
            lemma_member_index_push(a, x, key, from + 1);
        }
    } else {
        assert(a.push(x)[from] == x);
        assert(member_index(a.push(x), key, from + 1) is None);
    }
}

/// Looking up members after `spec_set_member`: `key` finds the new
/// value, any other key finds what it found before.
proof fn lemma_set_member_lookup(entries: Seq<(String, JsonValue)>, key: String, value: JsonValue)
    ensures
        ({
            let e2 = spec_set_member(entries, key, value);
            &&& member_index(e2, key@, 0) matches Some(i) && 0 <= i < e2.len() && e2[i].1 == value
            &&& forall|other: Seq<char>| other != key@ ==> #[trigger] member_index(e2, other, 0) == member_index(entries, other, 0)
            &&& forall|other: Seq<char>| other != key@ ==> (#[trigger] member_index(entries, other, 0) matches Some(k)
                ==> 0 <= k < entries.len() && e2[k] == entries[k])
        }),
{
    lemma_member_index(entries, key@, 0);
    let e2 = spec_set_member(entries, key, value);
    match member_index(entries, key@, 0) {
        Some(i) => {
            assert forall|other: Seq<char>| #[trigger] member_index(e2, other, 0) == member_index(entries, other, 0) by {
                lemma_member_index_same_keys(e2, entries, other, 0);
            }
            lemma_member_index_same_keys(e2, entries, key@, 0);
            assert forall|other: Seq<char>| other != key@ implies (#[trigger] member_index(entries, other, 0) matches Some(k)
                ==> 0 <= k < entries.len() && e2[k] == entries[k]) by {
                lemma_member_index(entries, other, 0);
            }
        },
        None => {
            lemma_member_index_push(entries, (key, value), key@, 0);
            assert forall|other: Seq<char>| other != key@ implies #[trigger] member_index(e2, other, 0) == member_index(entries, other, 0) by {
                lemma_member_index_push(entries, (key, value), other, 0);
            }
            assert forall|other: Seq<char>| other != key@ implies (#[trigger] member_index(entries, other, 0) matches Some(k)
                ==> 0 <= k < entries.len() && e2[k] == entries[k]) by {
                lemma_member_index(entries, other, 0);
            }
        },
    }
}

fn add_to_members(entries: &mut Vec<(String, JsonValue)>, field: &str, name: &str, version: &str) -> (r: Result<(), ()>)
    ensures
        r is Err <==> add_fails(JsonValue::Object(*old(entries)), field@),
        r is Err ==> *final(entries) == *old(entries),
        r is Ok ==> dependency_set(JsonValue::Object(*old(entries)), JsonValue::Object(*final(entries)), field@, name@, version@),
{
    let ghost before = entries@;
    let ghost old_v = JsonValue::Object(*entries);
    proof {
        lemma_member_index(before, field@, 0);
    }
    match find_member(entries, field) {
        Some(i) => {
            let is_object = match &entries[i].1 {
                JsonValue::Object(_) => true,
                _ => false,
            };
            if !is_object {
                return Err(());
            }
            let (k, member) = entries.remove(i);
            match member {
                JsonValue::Object(mut deps) => {
                    let ghost old_deps = deps@;
                    let name_s = name.to_owned();
                    let ghost name_g = name_s;
                    let new_val = JsonValue::Str(version.to_owned());
                    let ghost new_g = new_val;
                    set_member(&mut deps, name_s, new_val);
                    proof {
                        lemma_set_member_lookup(old_deps, name_g, new_g);
                    }
                    let ghost new_member = JsonValue::Object(deps);
                    entries.insert(i, (k, JsonValue::Object(deps)));
                    proof {
                        let after = entries@;
                        assert(after =~= before.update(i as int, (before[i as int].0, new_member)));
                        assert forall|f: Seq<char>| #[trigger] member_index(after, f, 0) == member_index(before, f, 0) by {
                            lemma_member_index_same_keys(after, before, f, 0);
                        }
                        let new_v = JsonValue::Object(*entries);
                        assert(spec_get(new_v, field@) == Some(new_member));
                        assert(spec_get(old_v, field@) == Some(before[i as int].1));
                        assert forall|f: Seq<char>| f != field@ implies #[trigger] spec_get(new_v, f) == spec_get(old_v, f) by {
                            lemma_member_index(before, f, 0);
                        }
                        assert forall|other: Seq<char>| other != name@ implies #[trigger] spec_get(new_member, other)
                            == spec_get(before[i as int].1, other) by {
                            lemma_member_index(old_deps, other, 0);
                        }
                    }
                    Ok(())
                },
                other => {
                    entries.insert(i, (k, other));
                    Err(())
                },
            }
        },
        None => {
            let mut deps: Vec<(String, JsonValue)> = Vec::new();
            deps.push((name.to_owned(), JsonValue::Str(version.to_owned())));
            let ghost d = deps@;
            let ghost new_member = JsonValue::Object(deps);
            entries.push((field.to_owned(), JsonValue::Object(deps)));
            proof {
                let after = entries@;
                lemma_member_index_push(before, after.last(), field@, 0);
                assert(after =~= before.push(after.last()));
                assert forall|f: Seq<char>| f != field@ implies #[trigger] member_index(after, f, 0) == member_index(before, f, 0) by {
                    lemma_member_index_push(before, after.last(), f, 0);
                }
                assert(member_index(d, name@, 0) == Some(0int));
                let new_v = JsonValue::Object(*entries);
                assert(spec_get(new_v, field@) == Some(new_member));
                assert forall|f: Seq<char>| f != field@ implies #[trigger] spec_get(new_v, f) == spec_get(old_v, f) by {
                    lemma_member_index(before, f, 0);
                }
                assert forall|other: Seq<char>| other != name@ implies #[trigger] spec_get(new_member, other) == None::<JsonValue> by {
                    assert(member_index(d, other, 1) is None);
                }
            }
            Ok(())
        },
    }
}

/// Set `name` to the string `version` in the dependency map under
/// `field`, creating the map when the field is absent; fails, leaving
/// the document as it was, when the field holds something other than
/// an object.
pub fn add_dependency_in(value: &mut JsonValue, field: &str, name: &str, version: &str) -> (r: Result<(), ()>)
    requires
        editable(*old(value)),
    ensures
        r is Err <==> add_fails(*old(value), field@),
        r is Err ==> *final(value) == *old(value),
        r is Ok ==> dependency_set(*old(value), *final(value), field@, name@, version@),
{
    match value {
        JsonValue::Object(entries) => add_to_members(entries, field, name, version),
        _ => {
            let mut entries: Vec<(String, JsonValue)> = Vec::new();
            let ghost empty = JsonValue::Object(entries);
            assert forall|f: Seq<char>| #[trigger] spec_get(empty, f) == spec_get(*old(value), f) by {}
            let r = add_to_members(&mut entries, field, name, version);
            *value = JsonValue::Object(entries);
            r
        },
    }
}


proof fn lemma_string_members_contains(entries: Seq<(String, JsonValue)>, i: int, text: Seq<char>)
    requires
        0 <= i < entries.len(),
        spec_as_str(entries[i].1) == Some(text),
    ensures
        string_members(entries).contains((entries[i].0@, text)),
    decreases entries.len(),
{
    let rest = string_members(entries.drop_last());
    if i == entries.len() - 1 {
        assert(string_members(entries) == rest.push((entries[i].0@, text)));
        assert(string_members(entries).last() == (entries[i].0@, text));
    } else {
        lemma_string_members_contains(entries.drop_last(), i, text);
        let p = (entries[i].0@, text);
        let k = choose|k: int| 0 <= k < rest.len() && rest[k] == p;
        match spec_as_str(entries.last().1) {
            Some(x) => {
                assert(string_members(entries)[k] == p);
            },
            None => {},
        }
    }
}

/// After a dependency is set in a field, the field lists it.
proof fn lemma_field_lists_set(old_v: JsonValue, new_v: JsonValue, field: Seq<char>, name: Seq<char>, version: Seq<char>)
    requires
        dependency_set(old_v, new_v, field, name, version),
    ensures
        field_dependencies(new_v, field).contains((name, version)),
{
    let d = spec_get(new_v, field)->0;
    let e = d->Object_0;
    crate::json::lemma_member_index(e@, name, 0);
    let i = member_index(e@, name, 0)->0;
    lemma_string_members_contains(e@, i, version);
}

/// What an edit sets, a listing of the fields gives back: after `name`
/// is set to `version` in `field`, the dependencies of any list of
/// fields that includes `field` hold `(name, version)`.
pub proof fn lemma_set_dependency_listed(
    old_v: JsonValue,
    new_v: JsonValue,
    field: Seq<char>,
    name: Seq<char>,
    version: Seq<char>,
    fields: Seq<Seq<char>>,
)
    requires
        dependency_set(old_v, new_v, field, name, version),
        fields.contains(field),
    ensures
        fields_dependencies(new_v, fields).contains((name, version)),
    decreases fields.len(),
{
    lemma_field_lists_set(old_v, new_v, field, name, version);
    let rest = fields_dependencies(new_v, fields.drop_last());
    let here = field_dependencies(new_v, fields.last());
    if fields.last() == field {
        let k = choose|k: int| 0 <= k < here.len() && here[k] == (name, version);
        assert((rest + here)[rest.len() + k] == (name, version));
    } else {
        let j = choose|j: int| 0 <= j < fields.len() && fields[j] == field;
        assert(fields.drop_last()[j] == field);
        lemma_set_dependency_listed(old_v, new_v, field, name, version, fields.drop_last());
        let k = choose|k: int| 0 <= k < rest.len() && rest[k] == (name, version);
        assert((rest + here)[k] == (name, version));
    }
}

} // verus!

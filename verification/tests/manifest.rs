use pacquet_package_manager::json::JsonValue;
use pacquet_package_manager::manifest_core::{create_init_package_json, init_package_name};
use pacquet_package_manager::package_json::{self, PackageJson};
use pacquet_package_manager::package_manifest::{BundleDependencies, DependencyGroup, PackageManifest, PackageManifestError};

fn to_value(v: &serde_json::Value) -> JsonValue {
    match v {
        serde_json::Value::Null => JsonValue::Null,
        serde_json::Value::Bool(b) => JsonValue::Bool(*b),
        serde_json::Value::Number(n) => JsonValue::Number(n.to_string()),
        serde_json::Value::String(s) => JsonValue::Str(s.clone()),
        serde_json::Value::Array(a) => JsonValue::Array(a.iter().map(to_value).collect()),
        serde_json::Value::Object(o) => JsonValue::Object(o.iter().map(|(k, v)| (k.clone(), to_value(v))).collect()),
    }
}

fn parse(text: &str) -> JsonValue {
    to_value(&serde_json::from_str(text).unwrap())
}

fn str_member<'a>(v: &'a JsonValue, key: &str) -> Option<&'a str> {
    v.get(key).and_then(|x| x.as_str())
}

fn check_init(v: &JsonValue, name: &str) {
    assert_eq!(str_member(v, "name"), Some(name));
    assert_eq!(str_member(v, "version"), Some("1.0.0"));
    assert_eq!(str_member(v, "description"), Some(""));
    assert_eq!(str_member(v, "main"), Some("index.js"));
    assert_eq!(str_member(v.get("scripts").unwrap(), "test"), Some("echo \"Error: no test specified\" && exit 1"));
    assert_eq!(v.get("keywords"), Some(&JsonValue::Array(Vec::new())));
    assert_eq!(str_member(v, "author"), Some(""));
    assert_eq!(str_member(v, "license"), Some("ISC"));
}

fn manifest(text: &str) -> PackageManifest {
    PackageManifest::create_if_needed("/proj/package.json".to_string(), Some(parse(text)))
}

fn deps(m: &PackageManifest, groups: &[DependencyGroup]) -> std::collections::HashMap<String, String> {
    m.dependencies(groups).into_iter().collect()
}

fn pair(a: &str, b: &str) -> (String, String) {
    (a.to_string(), b.to_string())
}

#[test]
fn lib_test_init_package_json_content() {
    check_init(&create_init_package_json("test"), "test");
    let m = PackageManifest::create_if_needed("/x/test/package.json".to_string(), None);
    check_init(m.value(), "test");
    let j = PackageJson::create_if_needed("/x/test/package.json".to_string(), None);
    check_init(j.value(), "test");
}

#[test]
fn tests_test_init_package_json_content() {
    check_init(&create_init_package_json("test"), "test");
}

#[test]
fn lib_init_should_throw_if_exists() {
    assert_eq!(PackageManifest::init("/tmp/package.json", true), Err(PackageManifestError::AlreadyExist));
    assert!(matches!(PackageJson::init("/tmp/package.json", true), Err(package_json::PackageJsonError::AlreadyExist)));
}

#[test]
fn tests_init_should_throw_if_exists() {
    assert_eq!(PackageManifest::init("/tmp/package.json", true), Err(PackageManifestError::AlreadyExist));
}

#[test]
fn lib_init_should_create_package_json_if_not_exist() {
    let value = PackageManifest::init("/tmp/proj/package.json", false).unwrap();
    check_init(&value, "proj");
    let m = PackageManifest::from_path("/tmp/proj/package.json".to_string(), Some(value)).unwrap();
    assert_eq!(m.path(), "/tmp/proj/package.json");
}

#[test]
fn tests_init_should_create_package_json_if_not_exist() {
    let value = PackageManifest::init("/tmp/proj/package.json", false).unwrap();
    let m = PackageManifest::from_path("/tmp/proj/package.json".to_string(), Some(value)).unwrap();
    assert_eq!(m.path(), "/tmp/proj/package.json");
    assert_eq!(
        PackageManifest::from_path("/nowhere/package.json".to_string(), None).unwrap_err(),
        PackageManifestError::NoImporterManifestFound("/nowhere/package.json".to_string()),
    );
}

#[test]
fn lib_should_add_dependency() {
    let mut m = PackageManifest::create_if_needed("/proj/package.json".to_string(), None);
    m.add_dependency("fastify", "1.0.0", DependencyGroup::Prod).unwrap();
    let d = deps(&m, &[DependencyGroup::Prod]);
    assert_eq!(d.get("fastify").map(String::as_str), Some("1.0.0"));
    let mut j = PackageJson::create_if_needed("/proj/package.json".to_string(), None);
    j.add_dependency("fastify", "1.0.0", package_json::DependencyGroup::Default).unwrap();
    assert_eq!(j.dependencies(&[package_json::DependencyGroup::Default]), vec![pair("fastify", "1.0.0")]);
}

#[test]
fn tests_should_add_dependency() {
    let mut m = manifest(r#"{ "dependencies": { "a": "1.0.0" } }"#);
    m.add_dependency("a", "2.0.0", DependencyGroup::Prod).unwrap();
    m.add_dependency("b", "3.0.0", DependencyGroup::Prod).unwrap();
    let d = deps(&m, &[DependencyGroup::Prod]);
    assert_eq!(d.get("a").map(String::as_str), Some("2.0.0"));
    assert_eq!(d.get("b").map(String::as_str), Some("3.0.0"));
}

#[test]
fn add_dependency_refuses_non_object_field() {
    let mut m = manifest(r#"{ "devDependencies": ["x"] }"#);
    assert_eq!(
        m.add_dependency("a", "1.0.0", DependencyGroup::Dev),
        Err(PackageManifestError::InvalidAttribute("dependencies attribute should be an object".to_string())),
    );
}

#[test]
fn lib_should_throw_on_missing_command() {
    let m = PackageManifest::create_if_needed("/proj/package.json".to_string(), None);
    m.script("dev", false).expect_err("dev command should not exist");
}

#[test]
fn tests_should_throw_on_missing_command() {
    let m = manifest("{}");
    assert_eq!(m.script("dev", false), Err(PackageManifestError::NoScript("dev".to_string())));
}

#[test]
fn lib_should_execute_a_command() {
    let m = manifest(r#"{ "scripts": { "test": "echo" } }"#);
    assert_eq!(m.script("test", false), Ok(Some("echo")));
    m.script("invalid", false).expect_err("invalid command should not exist");
    assert_eq!(m.script("invalid", true), Ok(None));
}

#[test]
fn tests_should_execute_a_command() {
    let m = manifest(r#"{ "scripts": { "test": "echo" } }"#);
    m.script("test", false).unwrap();
    m.script("invalid", false).expect_err("invalid command should not exist");
    m.script("invalid", true).unwrap();
}

#[test]
fn lib_get_dependencies_should_return_peers() {
    let text = r#"{ "dependencies": { "fastify": "1.0.0" }, "peerDependencies": { "fast-querystring": "1.0.0" } }"#;
    let m = manifest(text);
    assert!(deps(&m, &[DependencyGroup::Peer]).contains_key("fast-querystring"));
    assert!(deps(&m, &[DependencyGroup::Prod]).contains_key("fastify"));
    let j = PackageJson::create_if_needed("/p/package.json".to_string(), Some(parse(text)));
    assert_eq!(j.dependencies(&[package_json::DependencyGroup::Peer]), vec![pair("fast-querystring", "1.0.0")]);
}

#[test]
fn tests_get_dependencies_should_return_peers() {
    let m = manifest(r#"{ "dependencies": { "fastify": "1.0.0" }, "peerDependencies": { "fast-querystring": "1.0.0" } }"#);
    assert_eq!(
        m.dependencies(&[DependencyGroup::Prod, DependencyGroup::Peer]),
        vec![pair("fastify", "1.0.0"), pair("fast-querystring", "1.0.0")],
    );
}

fn bundle_case(text: &str) -> Option<BundleDependencies> {
    manifest(text).bundle_dependencies().unwrap()
}

fn list(items: &[&str]) -> BundleDependencies {
    BundleDependencies::List(items.iter().map(|s| s.to_string()).collect())
}

#[test]
fn lib_bundle_dependencies() {
    assert_eq!(bundle_case(r#"{ "bundleDependencies": ["foo", "bar"] }"#), Some(list(&["foo", "bar"])));
    assert_eq!(bundle_case(r#"{ "bundledDependencies": ["foo", "bar"] }"#), Some(list(&["foo", "bar"])));
    assert_eq!(bundle_case(r#"{ "bundleDependencies": false }"#), Some(BundleDependencies::Boolean(false)));
    assert_eq!(bundle_case(r#"{ "bundledDependencies": false }"#), Some(BundleDependencies::Boolean(false)));
    assert_eq!(bundle_case(r#"{ "bundleDependencies": true }"#), Some(BundleDependencies::Boolean(true)));
    assert_eq!(bundle_case(r#"{ "bundledDependencies": true }"#), Some(BundleDependencies::Boolean(true)));
    assert_eq!(bundle_case(r#"{}"#), None);
}

#[test]
fn tests_bundle_dependencies() {
    assert_eq!(bundle_case(r#"{ "bundleDependencies": ["foo", "bar"] }"#), Some(list(&["foo", "bar"])));
    assert_eq!(bundle_case(r#"{}"#), None);
    assert!(manifest(r#"{ "bundleDependencies": [1] }"#).bundle_dependencies().is_err());
    assert!(manifest(r#"{ "bundleDependencies": "x" }"#).bundle_dependencies().is_err());
}

fn resolve(key: &str, spec: &str) -> (String, String) {
    PackageManifest::resolve_registry_dependency(key, spec)
}

#[test]
fn lib_resolve_registry_dependency_passes_through_plain_specs() {
    for (key, spec) in [("foo", "^1.0.0"), ("foo", "1.2.3"), ("foo", "latest"), ("@scope/foo", "^1.0.0"), ("foo", "*"), ("foo", ">=1 <2")] {
        assert_eq!(resolve(key, spec), pair(key, spec), "plain spec ({key:?}, {spec:?}) should pass through unchanged");
    }
}

#[test]
fn tests_resolve_registry_dependency_passes_through_plain_specs() {
    for (key, spec) in [("foo", "^1.0.0"), ("@scope/foo", "^1.0.0"), ("foo", "npm"), ("foo", "")] {
        assert_eq!(resolve(key, spec), pair(key, spec));
    }
}

#[test]
fn lib_resolve_registry_dependency_strips_npm_alias_prefix() {
    assert_eq!(resolve("ansi-strip", "npm:strip-ansi@^6.0.1"), pair("strip-ansi", "^6.0.1"));
}

#[test]
fn tests_resolve_registry_dependency_strips_npm_alias_prefix() {
    assert_eq!(resolve("ansi-strip", "npm:strip-ansi@^6.0.1"), pair("strip-ansi", "^6.0.1"));
}

#[test]
fn lib_resolve_registry_dependency_handles_scoped_target() {
    assert_eq!(resolve("react17", "npm:@types/react@^17.0.49"), pair("@types/react", "^17.0.49"));
}

#[test]
fn tests_resolve_registry_dependency_handles_scoped_target() {
    assert_eq!(resolve("react17", "npm:@types/react@^17.0.49"), pair("@types/react", "^17.0.49"));
}

#[test]
fn lib_resolve_registry_dependency_handles_pinned_version() {
    assert_eq!(resolve("foo-cjs", "npm:foo@1.2.3"), pair("foo", "1.2.3"));
}

#[test]
fn tests_resolve_registry_dependency_handles_pinned_version() {
    assert_eq!(resolve("foo-cjs", "npm:foo@1.2.3"), pair("foo", "1.2.3"));
}

#[test]
fn lib_resolve_registry_dependency_unversioned_npm_alias_defaults_to_latest() {
    assert_eq!(resolve("foo-cjs", "npm:foo"), pair("foo", "latest"));
    assert_eq!(resolve("react17", "npm:@types/react"), pair("@types/react", "latest"));
}

#[test]
fn tests_resolve_registry_dependency_unversioned_npm_alias_defaults_to_latest() {
    assert_eq!(resolve("foo-cjs", "npm:foo"), pair("foo", "latest"));
    assert_eq!(resolve("react17", "npm:@types/react"), pair("@types/react", "latest"));
}

#[test]
fn lib_resolve_registry_dependency_picks_last_at_for_alias() {
    assert_eq!(resolve("foo-rc", "npm:@scope/foo@1.0.0-rc.1"), pair("@scope/foo", "1.0.0-rc.1"));
}

#[test]
fn tests_resolve_registry_dependency_picks_last_at_for_alias() {
    assert_eq!(resolve("foo-rc", "npm:@scope/foo@1.0.0-rc.1"), pair("@scope/foo", "1.0.0-rc.1"));
}

#[test]
fn init_name_is_the_manifest_directory() {
    assert_eq!(init_package_name("/a/b/package.json"), "b");
    assert_eq!(init_package_name("package.json"), "");
    assert_eq!(init_package_name("/package.json"), "");
    assert_eq!(init_package_name("./package.json"), "");
}

#[test]
fn group_fields_name_the_manifest_sections() {
    assert_eq!(DependencyGroup::Prod.field(), "dependencies");
    assert_eq!(DependencyGroup::Dev.field(), "devDependencies");
    assert_eq!(DependencyGroup::Optional.field(), "optionalDependencies");
    assert_eq!(DependencyGroup::Peer.field(), "peerDependencies");
    assert_eq!(package_json::DependencyGroup::Default.field(), "dependencies");
}

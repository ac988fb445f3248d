use pacquet_package_manager::json::JsonValue;
use pacquet_package_manager::path::{join, path_components, paths_equal, split_path};
use pacquet_package_manager::text::sort_strings;

#[test]
fn paths_compare_by_components() {
    assert!(paths_equal("/a/b", "/a/b/"));
    assert!(paths_equal("/a//b", "/a/./b"));
    assert!(!paths_equal("/a/b", "a/b"));
    assert!(!paths_equal("/a/b", "/a/c"));
    assert!(paths_equal("./a", "./a/"));
    assert!(!paths_equal("./a", "a"));
}

#[test]
fn components_like_std() {
    assert_eq!(path_components("/a//b/./c/"), vec!["/", "a", "b", "c"]);
    assert_eq!(path_components("./x"), vec![".", "x"]);
    assert_eq!(path_components("a/../b"), vec!["a", "..", "b"]);
    assert!(path_components("").is_empty());
}

#[test]
fn join_and_split() {
    assert_eq!(join("/a", "b"), "/a/b");
    assert_eq!(join("/a/", "b"), "/a/b");
    assert_eq!(join("/a", "/b"), "/b");
    assert_eq!(join("", "b"), "b");
    assert_eq!(split_path("a//b"), vec!["a", "", "b"]);
}

#[test]
fn sorting_is_lexicographic() {
    let v: Vec<String> = ["b", "a", "ab", "B"].iter().map(|s| s.to_string()).collect();
    assert_eq!(sort_strings(v), vec!["B", "a", "ab", "b"]);
}

#[test]
fn json_member_lookup_takes_the_first() {
    let v = JsonValue::Object(vec![
        ("k".to_string(), JsonValue::Str("first".to_string())),
        ("k".to_string(), JsonValue::Str("second".to_string())),
    ]);
    assert_eq!(v.get("k").and_then(|x| x.as_str()), Some("first"));
    assert_eq!(v.get("missing"), None);
    assert_eq!(JsonValue::Bool(true).as_bool(), Some(true));
    assert_eq!(JsonValue::Null.get("k"), None);
}

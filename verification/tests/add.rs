use pacquet_package_manager::add::{parse_pkg_arg, plan_specifier, saved_range, specifier_is_decidable, SpecifierPlan};

fn pair(a: &str, b: &str) -> (String, String) {
    (a.to_string(), b.to_string())
}

#[test]
fn parse_pkg_arg_no_specifier() {
    assert_eq!(parse_pkg_arg("react"), pair("react", ""));
}

#[test]
fn parse_pkg_arg_with_version() {
    assert_eq!(parse_pkg_arg("react@18.2.0"), pair("react", "18.2.0"));
}

#[test]
fn parse_pkg_arg_with_range() {
    assert_eq!(parse_pkg_arg("react@^18"), pair("react", "^18"));
}

#[test]
fn parse_pkg_arg_with_tag() {
    assert_eq!(parse_pkg_arg("react@next"), pair("react", "next"));
}

#[test]
fn parse_pkg_arg_scoped_no_specifier() {
    assert_eq!(parse_pkg_arg("@scope/pkg"), pair("@scope/pkg", ""));
}

#[test]
fn parse_pkg_arg_scoped_with_version() {
    assert_eq!(parse_pkg_arg("@scope/pkg@1.0.0"), pair("@scope/pkg", "1.0.0"));
}

#[test]
fn parse_pkg_arg_scoped_with_range() {
    assert_eq!(parse_pkg_arg("@scope/pkg@^1.0.0"), pair("@scope/pkg", "^1.0.0"));
}

#[test]
fn parse_pkg_arg_rejoins_to_the_argument() {
    for arg in ["react", "react@18.2.0", "@scope/pkg", "@scope/pkg@^1.0.0", "@", "@@x", "a@b@c"] {
        let (name, spec) = parse_pkg_arg(arg);
        let rejoined = if arg[1.min(arg.len())..].contains('@') { format!("{name}@{spec}") } else { name.clone() };
        assert_eq!(rejoined, arg);
    }
}

#[test]
fn parse_pkg_arg_lone_scope_marker_is_a_name() {
    assert_eq!(parse_pkg_arg("@"), pair("@", ""));
    assert_eq!(parse_pkg_arg("@@x"), pair("@", "x"));
}

#[test]
fn plan_for_empty_and_latest_fetches_latest() {
    assert_eq!(plan_specifier("", false), SpecifierPlan::FetchLatest);
    assert_eq!(plan_specifier("latest", true), SpecifierPlan::FetchLatest);
}

#[test]
fn plan_for_exact_version_saves_caret_unless_exact() {
    assert_eq!(
        plan_specifier("18.2.0", false),
        SpecifierPlan::FetchExact { version: "18.2.0".to_string(), save: "^18.2.0".to_string() },
    );
    assert_eq!(
        plan_specifier("18.2.0", true),
        SpecifierPlan::FetchExact { version: "18.2.0".to_string(), save: "18.2.0".to_string() },
    );
}

#[test]
fn plan_for_range_saves_it_as_written() {
    assert_eq!(plan_specifier("^18", false), SpecifierPlan::SaveRange("^18".to_string()));
    assert_eq!(plan_specifier(">=1 <2", false), SpecifierPlan::SaveRange(">=1 <2".to_string()));
}

#[test]
fn plan_for_dist_tag_fetches_the_tag() {
    assert_eq!(plan_specifier("next", false), SpecifierPlan::FetchTag("next".to_string()));
}

#[test]
fn saved_range_prefixes_caret() {
    assert_eq!(saved_range("1.2.3", false), "^1.2.3");
    assert_eq!(saved_range("1.2.3", true), "1.2.3");
}

#[test]
fn specifiers_the_range_parser_cannot_decide_are_recognised() {
    for bad in [
        "=*", "= x", "1 || =X", "~*", "~> x", "~1.x.3", "^1 ~2.*.0", "~\t*", "=\t*", "=v *", "||=x", "a||||~*",
        "1\t=x",
    ] {
        assert!(!specifier_is_decidable(bad), "{bad:?}");
    }
    for good in [
        "", "latest", "18.2.0", "^18", ">=1 <2", "<=*", ">=*", "~1.2.3", "~>1.2", "~1.x", "next", "=1.2.3", "a=x", "x~*",
        "=>*", "a|||=x", "~99999999999999999.x.1", "~1.x.x", "~ >1.x", "1.x - =2", "= 1", "~\t1.2.x",
    ] {
        assert!(specifier_is_decidable(good), "{good:?}");
        let _ = plan_specifier(good, false);
    }
}

#[test]
fn specifiers_with_a_stray_operator_are_dist_tags() {
    for tag in ["a=x", "x~*", "=>*", "a|||=x"] {
        assert!(specifier_is_decidable(tag), "{tag:?}");
        assert_eq!(plan_specifier(tag, false), SpecifierPlan::FetchTag(tag.to_string()), "{tag:?}");
    }
}

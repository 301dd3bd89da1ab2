use turbo_ncu::semver_utils::{
    classify_update, construct_new_range, extract_prefix, normalize_wildcards, parse_base_version,
    fill_components, strip_operators,
};
use turbo_ncu::target::{is_range_text_unsafe, parse_target, resolve_target_version, text_equals, Target};
use turbo_ncu::version::{Identifier, Version};

fn v(major: u64, minor: u64, patch: u64) -> Version {
    Version { major, minor, patch, build: vec![], pre_release: vec![] }
}

fn strings(items: &[&str]) -> Vec<String> {
    items.iter().map(|s| s.to_string()).collect()
}

#[test]
fn test_extract_prefix() {
    assert_eq!(extract_prefix("^1.2.3"), "^");
    assert_eq!(extract_prefix("~1.2.3"), "~");
    assert_eq!(extract_prefix(">=1.0.0"), ">=");
    assert_eq!(extract_prefix(">1.0.0"), ">");
    assert_eq!(extract_prefix("1.2.3"), "");
}

#[test]
fn test_parse_base_version() {
    let v = parse_base_version("^1.2.3").unwrap();
    assert_eq!(v.major, 1);
    assert_eq!(v.minor, 2);
    assert_eq!(v.patch, 3);

    let v = parse_base_version("~0.5.1").unwrap();
    assert_eq!(v.major, 0);
    assert_eq!(v.minor, 5);
    assert_eq!(v.patch, 1);

    let v = parse_base_version(">=2.0.0").unwrap();
    assert_eq!(v.major, 2);
}

#[test]
fn test_classify_update() {
    let v1 = v(1, 0, 0);
    let v2 = v(2, 0, 0);
    assert_eq!(classify_update(&v1, &v2), "major");

    let v3 = v(1, 1, 0);
    assert_eq!(classify_update(&v1, &v3), "minor");

    let v4 = v(1, 0, 1);
    assert_eq!(classify_update(&v1, &v4), "patch");
}

#[test]
fn test_construct_new_range() {
    let v = v(2, 0, 0);
    assert_eq!(construct_new_range("^1.0.0", &v), "^2.0.0");
    assert_eq!(construct_new_range("~1.0.0", &v), "~2.0.0");
    assert_eq!(construct_new_range("1.0.0", &v), "2.0.0");
}

#[test]
fn test_resolve_target_latest() {
    let versions = strings(&["1.0.0", "1.1.0", "2.0.0", "2.1.0"]);
    let result = resolve_target_version("^1.0.0", &versions, "latest", false);
    assert!(result.is_some());
    let v = result.unwrap();
    assert_eq!(v.major, 2);
    assert_eq!(v.minor, 1);
}

#[test]
fn test_resolve_target_minor() {
    let versions = strings(&["1.0.0", "1.1.0", "1.2.0", "2.0.0"]);
    let result = resolve_target_version("^1.0.0", &versions, "minor", false);
    assert!(result.is_some());
    let v = result.unwrap();
    assert_eq!(v.major, 1);
    assert_eq!(v.minor, 2);
}

#[test]
fn test_resolve_target_patch() {
    let versions = strings(&["1.0.0", "1.0.1", "1.0.2", "1.1.0"]);
    let result = resolve_target_version("^1.0.0", &versions, "patch", false);
    assert!(result.is_some());
    let v = result.unwrap();
    assert_eq!(v.patch, 2);
}

#[test]
fn test_resolve_excludes_prerelease() {
    let versions = strings(&["1.0.0", "2.0.0-alpha.1", "2.0.0"]);
    let result = resolve_target_version("^1.0.0", &versions, "latest", false);
    let v = result.unwrap();
    assert_eq!(v.to_text(), "2.0.0");
}

#[test]
fn test_resolve_includes_prerelease() {
    let versions = strings(&["1.0.0", "2.0.0", "3.0.0-beta.1"]);
    let result = resolve_target_version("^1.0.0", &versions, "latest", true);
    let v = result.unwrap();
    assert_eq!(v.major, 3);
}

#[test]
fn prefix_of_every_operator() {
    for p in [">=", "<=", "^", "~", ">", "<", "="] {
        assert_eq!(extract_prefix(&format!("{}1.2.3", p)), p);
    }
    assert_eq!(extract_prefix("  ^1.0.0  "), "^");
    assert_eq!(extract_prefix("1.0.0 - 2.0.0"), "");
    assert_eq!(extract_prefix("1.0.0 || 2.0.0"), "");
}

#[test]
fn base_version_of_x_ranges() {
    let v = parse_base_version("1.x.x").unwrap();
    assert_eq!((v.major, v.minor, v.patch), (1, 0, 0));
    let v = parse_base_version("^1.2.x").unwrap();
    assert_eq!((v.major, v.minor, v.patch), (1, 2, 0));
    let v = parse_base_version("1.x").unwrap();
    assert_eq!((v.major, v.minor, v.patch), (1, 0, 0));
    let v = parse_base_version("^2").unwrap();
    assert_eq!((v.major, v.minor, v.patch), (2, 0, 0));
    let v = parse_base_version("1.2-beta.1").unwrap();
    assert_eq!((v.major, v.minor, v.patch), (1, 2, 0));
    assert_eq!(v.to_text(), "1.2.0-beta.1");
    let v = parse_base_version("~1.2.*").unwrap();
    assert_eq!((v.major, v.minor, v.patch), (1, 2, 0));
    assert!(parse_base_version("latest").is_none());
    assert!(parse_base_version("").is_none());
}

#[test]
fn operators_and_wildcards_rewritten() {
    assert_eq!(strip_operators(">=>=1.0.0"), "1.0.0");
    assert_eq!(strip_operators("^~1.0.0"), "1.0.0");
    assert_eq!(strip_operators("1.0.0"), "1.0.0");
    assert_eq!(normalize_wildcards("1.x.*"), "1.0.0");
    assert_eq!(normalize_wildcards("1.2.3"), "1.2.3");
    assert_eq!(normalize_wildcards("..x"), "..0");
}

#[test]
fn classify_prerelease_and_none() {
    let mut pre = v(1, 0, 0);
    pre.pre_release = vec![Identifier::AlphaNumeric("beta".to_string())];
    assert_eq!(classify_update(&v(1, 0, 0), &pre), "prerelease");
    assert_eq!(classify_update(&v(1, 0, 0), &v(1, 0, 0)), "none");
    assert_eq!(classify_update(&v(2, 0, 0), &v(1, 5, 0)), "minor");
}

#[test]
fn new_range_keeps_prerelease_and_digits() {
    let mut pre = v(2, 0, 0);
    pre.pre_release = vec![Identifier::AlphaNumeric("beta".to_string()), Identifier::Numeric(1)];
    assert_eq!(construct_new_range("^1.0.0", &pre), "^2.0.0-beta.1");
    assert_eq!(construct_new_range(">=1.0.0", &v(12, 34, 560)), ">=12.34.560");
}

#[test]
fn version_text_with_build() {
    let mut x = v(1, 2, 3);
    x.pre_release = vec![Identifier::Numeric(7)];
    x.build = vec![Identifier::AlphaNumeric("sha".to_string())];
    assert_eq!(x.to_text(), "1.2.3-7+sha");
}

#[test]
fn precedence_of_prereleases() {
    let mut a = v(1, 0, 0);
    a.pre_release = vec![Identifier::AlphaNumeric("alpha".to_string())];
    let mut b = v(1, 0, 0);
    b.pre_release = vec![Identifier::AlphaNumeric("alpha".to_string()), Identifier::Numeric(1)];
    let mut c = v(1, 0, 0);
    c.pre_release = vec![Identifier::Numeric(2)];
    assert_eq!(a.compare(&b), -1);
    assert_eq!(c.compare(&a), -1);
    assert_eq!(v(1, 0, 0).compare(&a), 1);
    assert_eq!(v(1, 0, 0).compare(&v(1, 0, 0)), 0);
    assert_eq!(v(0, 9, 0).compare(&v(1, 0, 0)), -1);
}

#[test]
fn resolve_semver_policy() {
    let versions = strings(&["1.0.0", "1.5.0", "2.0.0"]);
    let r = resolve_target_version("^1.0.0", &versions, "semver", false).unwrap();
    assert_eq!(r.to_text(), "1.5.0");
    let r = resolve_target_version("~1.0.0", &strings(&["1.0.3", "1.1.0"]), "semver", false).unwrap();
    assert_eq!(r.to_text(), "1.0.3");
}

#[test]
fn resolve_without_candidates() {
    let versions = strings(&["1.0.0", "0.9.0", "garbage"]);
    assert!(resolve_target_version("^1.0.0", &versions, "latest", false).is_none());
    assert!(resolve_target_version("^1.0.0", &strings(&["2.0.0"]), "bogus", false).is_none());
    assert!(resolve_target_version("not-a-version", &strings(&["2.0.0"]), "latest", false).is_none());
    assert!(resolve_target_version("^1.0.0", &strings(&["2.0.0"]), "minor", false).is_none());
}

#[test]
fn resolve_latest_ignores_input_order() {
    let versions = strings(&["2.1.0", "1.0.0", "2.0.0", "1.1.0"]);
    let r = resolve_target_version("1.0.0", &versions, "latest", false).unwrap();
    assert_eq!(r.to_text(), "2.1.0");
}

#[test]
fn target_names() {
    assert_eq!(parse_target("latest"), Some(Target::Latest));
    assert_eq!(parse_target("minor"), Some(Target::Minor));
    assert_eq!(parse_target("patch"), Some(Target::Patch));
    assert_eq!(parse_target("semver"), Some(Target::Semver));
    assert_eq!(parse_target("Latest"), None);
    assert!(text_equals("abc", "abc"));
    assert!(!text_equals("abc", "abd"));
}

#[test]
fn components_filled_in() {
    assert_eq!(fill_components("1"), "1.0.0");
    assert_eq!(fill_components("1.0"), "1.0.0");
    assert_eq!(fill_components("1.2.3"), "1.2.3");
    assert_eq!(fill_components("1.2+b.c"), "1.2.0+b.c");
}

#[test]
fn semver_policy_skips_ranges_that_node_semver_cannot_take() {
    let versions = strings(&["1.0.3", "1.0.5", "1.2.5", "2.0.0"]);
    for t in ["~1.x.3", "~>1.x.3", "~x", "~ >x", "=*", "=x", "= v*", ">=1.0.0 =X"] {
        assert!(is_range_text_unsafe(t), "{}", t);
    }
    for t in ["^1.0.0", "~1.2.x", "~1.x", ">=1.x", "~1.0.0-next", ">=1.0.0 <2.0.0-x", ">=x", "1.x.3"] {
        assert!(!is_range_text_unsafe(t), "{}", t);
    }
    assert!(resolve_target_version("~1.x.3", &versions, "semver", false).is_none());
    assert!(resolve_target_version("=x", &versions, "semver", false).is_none());
    let r = resolve_target_version("~1.x.3", &versions, "latest", false).unwrap();
    assert_eq!(r.to_text(), "2.0.0");
    let r = resolve_target_version("~1.2.x", &versions, "semver", false).unwrap();
    assert_eq!(r.to_text(), "1.2.5");
    let r = resolve_target_version(">=1.x", &versions, "semver", false).unwrap();
    assert_eq!(r.to_text(), "2.0.0");
}

//! Tests for the change-application engine, templates and diffs.

use bumpversion::change::FileChange;
use bumpversion::component::VersionComponentSpec;
use bumpversion::f_string::{PythonFormatString, RegexTemplate};
use bumpversion::files::{replace_version, all_ignore_missing_file, Modification};
use bumpversion::pattern::CompiledPattern;
use bumpversion::version::{Version, VersionSpec};

const SEMVER_PATTERN: &str = r"(?P<major>\d+)\.(?P<minor>\d+)\.(?P<patch>\d+)";

fn semver_spec() -> VersionSpec {
    let components = vec![
        ("major".to_string(), VersionComponentSpec::default()),
        ("minor".to_string(), VersionComponentSpec::default()),
        ("patch".to_string(), VersionComponentSpec::default()),
    ];
    VersionSpec::from_components(components)
}

fn version_of(text: &str) -> Version {
    let spec = semver_spec();
    let pattern = CompiledPattern::new(SEMVER_PATTERN).unwrap();
    Version::parse(text, &pattern, &spec).unwrap()
}

fn component_names() -> Vec<String> {
    vec!["major".to_string(), "minor".to_string(), "patch".to_string()]
}

fn simple_change(search: &str, replace: &str) -> FileChange {
    FileChange::new(
        SEMVER_PATTERN.to_string(),
        vec!["{major}.{minor}.{patch}".parse::<PythonFormatString>().unwrap()],
        RegexTemplate::parse(search).unwrap(),
        replace.to_string(),
        false,
        false,
        component_names(),
    )
}

#[test]
fn test_replace_version_custom_search() {
    let change = simple_change("my-version: {current_version}", "my-version: {new_version}");
    let current = version_of("1.2.3");
    let new = version_of("1.2.4");
    let ctx: Vec<(String, String)> = Vec::new();

    let m = replace_version("my-version: 1.2.3", &vec![change], &current, &new, &ctx).unwrap();
    assert_eq!(m.before, "my-version: 1.2.3");
    assert_eq!(m.after, "my-version: 1.2.4");
    assert_eq!(m.replacements.len(), 1);
    assert_eq!(m.replacements[0].replace, "my-version: 1.2.4");
}

#[test]
fn test_replace_version_idempotent() {
    // Re-running with current == new on the already-updated content leaves
    // the content unchanged.
    let current = version_of("1.2.4");
    let new = version_of("1.2.4");
    let ctx: Vec<(String, String)> = Vec::new();
    let change = simple_change("my-version: {current_version}", "my-version: {new_version}");

    let m = replace_version("my-version: 1.2.4", &vec![change], &current, &new, &ctx).unwrap();
    assert_eq!(m.before, m.after);
    assert!(m.diff(None).is_none());
}

#[test]
fn test_replace_version_escapes_literal_text() {
    // The literal "a.b" in the search template must match only a literal
    // dot, not any character.
    let change = simple_change("a.b {current_version}", "a.b {new_version}");
    let current = version_of("1.2.3");
    let new = version_of("1.2.4");
    let ctx: Vec<(String, String)> = Vec::new();

    let before = "axb 1.2.3 and a.b 1.2.3";
    let m = replace_version(before, &vec![change], &current, &new, &ctx).unwrap();
    assert_eq!(m.after, "axb 1.2.3 and a.b 1.2.4");
}

#[test]
fn test_replace_version_applies_changes_in_order() {
    let first = simple_change("version = {current_version}", "version = {new_version}");
    let second = simple_change("version = {new_version}", "release {new_version}");
    let current = version_of("0.1.0");
    let new = version_of("0.2.0");
    let ctx: Vec<(String, String)> = Vec::new();

    let m = replace_version(
        "version = 0.1.0",
        &vec![first, second],
        &current,
        &new,
        &ctx,
    )
    .unwrap();
    // The first change rewrites to the new version; the second sees that
    // output and rewrites it again.
    assert_eq!(m.after, "release 0.2.0");
    assert_eq!(m.replacements.len(), 2);
}

#[test]
fn test_replace_version_no_match_is_not_an_error() {
    let change = simple_change("nothing like {current_version}", "x {new_version}");
    let current = version_of("1.2.3");
    let new = version_of("1.2.4");
    let ctx: Vec<(String, String)> = Vec::new();

    let m = replace_version("plain text", &vec![change], &current, &new, &ctx).unwrap();
    assert_eq!(m.before, m.after);
    assert_eq!(m.replacements.len(), 1);
}

#[test]
fn test_replace_version_missing_context_field() {
    let change = simple_change("v{current_version}", "v{new_version} on {branch}");
    let current = version_of("1.2.3");
    let new = version_of("1.2.4");
    let ctx: Vec<(String, String)> = Vec::new();

    assert!(replace_version("v1.2.3", &vec![change], &current, &new, &ctx).is_err());
}

#[test]
fn test_replace_version_invalid_replace_template() {
    let change = simple_change("v{current_version}", "v{new_version");
    let current = version_of("1.2.3");
    let new = version_of("1.2.4");
    let ctx: Vec<(String, String)> = Vec::new();

    assert!(replace_version("v1.2.3", &vec![change], &current, &new, &ctx).is_err());
}

#[test]
fn test_replace_version_invalid_search_pattern() {
    // The field value is inserted into the search pattern unescaped; an
    // unbalanced group makes the rendered pattern invalid.
    let change = simple_change("{marker}{current_version}", "x{new_version}");
    let current = version_of("1.2.3");
    let new = version_of("1.2.4");
    let ctx: Vec<(String, String)> = vec![("marker".to_string(), "(".to_string())];

    assert!(replace_version("v1.2.3", &vec![change], &current, &new, &ctx).is_err());
}

#[test]
fn test_replace_version_serialize_failure() {
    let change = FileChange::new(
        SEMVER_PATTERN.to_string(),
        vec!["{major}".parse::<PythonFormatString>().unwrap()],
        RegexTemplate::parse("{current_version}").unwrap(),
        "{new_version}".to_string(),
        false,
        false,
        component_names(),
    );
    let current = version_of("1.2.3");
    let new = version_of("1.2.4");
    let ctx: Vec<(String, String)> = Vec::new();

    // "{major}" does not cover the required minor and patch components.
    assert!(replace_version("1.2.3", &vec![change], &current, &new, &ctx).is_err());
}

#[test]
fn test_template_parse_errors() {
    assert!(PythonFormatString::parse("{").is_err());
    assert!(PythonFormatString::parse("{}").is_err());
    assert!(PythonFormatString::parse("}x").is_err());
    assert!(PythonFormatString::parse("{a{b}").is_err());
    assert!(PythonFormatString::parse("a{name}b").is_ok());
    assert!(PythonFormatString::parse("{{literal}}").is_ok());
}

#[test]
fn test_template_brace_escapes() {
    let f = PythonFormatString::parse("{{{name}}}").unwrap();
    let ctx: Vec<(String, String)> = vec![("name".to_string(), "x".to_string())];
    assert_eq!(f.format(&ctx, false).unwrap(), "{x}");
}

#[test]
fn test_template_missing_argument_names_field() {
    let f = PythonFormatString::parse("{present} {absent}").unwrap();
    let ctx: Vec<(String, String)> = vec![("present".to_string(), "1".to_string())];
    let err = f.format(&ctx, false).unwrap_err();
    assert_eq!(err.name, "absent");
}

#[test]
fn test_compiled_pattern_rejects_invalid_regex() {
    assert!(CompiledPattern::new("(").is_none());
    assert!(CompiledPattern::new(SEMVER_PATTERN).is_some());
}

#[test]
fn test_diff_labels_both_sides() {
    let m = Modification {
        before: "a\n".to_string(),
        after: "b\n".to_string(),
        replacements: Vec::new(),
    };
    let d = m.diff(Some("f.txt")).unwrap();
    assert!(!d.is_empty());
    assert!(d.contains("f.txt (before)"));
    assert!(d.contains("f.txt (after)"));

    let unlabeled = m.diff(None).unwrap();
    assert!(unlabeled.contains("before"));
    assert!(unlabeled.contains("after"));
}

#[test]
fn test_diff_none_when_unchanged() {
    let m = Modification {
        before: "same\n".to_string(),
        after: "same\n".to_string(),
        replacements: Vec::new(),
    };
    assert!(m.diff(Some("f.txt")).is_none());
}

#[test]
fn test_will_bump_component() {
    let change = simple_change("{current_version}", "{new_version}");
    assert!(change.will_bump_component("major"));
    assert!(change.will_bump_component("patch"));
    assert!(!change.will_bump_component("release"));
    assert!(!change.will_not_bump_component("major"));
}

#[test]
fn test_all_ignore_missing_file() {
    let tolerant = FileChange {
        ignore_missing_file: true,
        ..simple_change("{current_version}", "{new_version}")
    };
    let strict = simple_change("{current_version}", "{new_version}");

    assert!(all_ignore_missing_file(&vec![tolerant.clone()]));
    assert!(!all_ignore_missing_file(&vec![tolerant, strict]));
    assert!(all_ignore_missing_file(&Vec::new()));
}

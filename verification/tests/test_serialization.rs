//! Tests for version parsing and serialization.

use bumpversion::component::VersionComponentSpec;
use bumpversion::f_string::PythonFormatString;
use bumpversion::pattern::CompiledPattern;
use bumpversion::version::{Version, VersionSpec};

fn semver_spec() -> VersionSpec {
    let components = vec![
        ("major".to_string(), VersionComponentSpec::default()),
        ("minor".to_string(), VersionComponentSpec::default()),
        ("patch".to_string(), VersionComponentSpec::default()),
    ];
    VersionSpec::from_components(components)
}

fn create_version(spec: &VersionSpec, parts: &[(&str, &str)]) -> Version {
    let raw: Vec<(String, String)> = parts
        .iter()
        .map(|(k, v)| (k.to_string(), v.to_string()))
        .collect();
    spec.build(&raw)
}

#[test]
fn test_parse_version_empty() {
    let spec = semver_spec();
    let regex = CompiledPattern::new(r"(?P<major>\d+)\.(?P<minor>\d+)\.(?P<patch>\d+)").unwrap();

    assert!(Version::parse("", &regex, &spec).is_none());
}

#[test]
fn test_parse_version_semver() {
    let spec = semver_spec();
    let regex = CompiledPattern::new(r"(?P<major>\d+)\.(?P<minor>\d+)\.(?P<patch>\d+)").unwrap();

    let version = Version::parse("1.2.3", &regex, &spec).expect("expected version to parse");

    assert_eq!(
        version.get("major").expect("missing major component").value(),
        Some("1")
    );
    assert_eq!(
        version.get("minor").expect("missing minor component").value(),
        Some("2")
    );
    assert_eq!(
        version.get("patch").expect("missing patch component").value(),
        Some("3")
    );
}

#[test]
fn test_parse_version_optional_group() {
    let spec = semver_spec();
    let regex =
        CompiledPattern::new(r"(?P<major>\d+)(\.(?P<minor>\d+))?").expect("pattern compiles");

    // minor and patch are not captured: they are omitted and resolve to "0".
    let version = Version::parse("2", &regex, &spec).expect("expected version to parse");
    assert_eq!(version.get("major").unwrap().value(), Some("2"));
    assert_eq!(version.get("minor").unwrap().value(), Some("0"));
    assert_eq!(version.get("patch").unwrap().value(), Some("0"));
}

#[test]
fn test_serialize_component_overrides_context() {
    let spec = semver_spec();
    let version = create_version(&spec, &[("major", "1"), ("minor", "2"), ("patch", "3")]);

    let patterns: Vec<PythonFormatString> = vec!["{major}.{minor}.{patch}".parse().unwrap()];
    // A context entry under a component's name does not shadow the component.
    let ctx: Vec<(String, String)> = vec![("major".to_string(), "9".to_string())];
    assert_eq!(version.serialize(&patterns, &ctx).unwrap(), "1.2.3");
}

#[test]
fn test_serialize_format_selection() {
    let spec = semver_spec();
    let version = create_version(&spec, &[("major", "1"), ("minor", "2"), ("patch", "3")]);

    let patterns: Vec<PythonFormatString> = vec![
        "{major}.{minor}.{patch}".parse().unwrap(),
        "{major}.{minor}".parse().unwrap(),
        "{major}".parse().unwrap(),
    ];

    let ctx: Vec<(String, String)> = Vec::new();
    let serialized = version.serialize(&patterns, &ctx).unwrap();
    assert_eq!(serialized, "1.2.3");
}

#[test]
fn test_serialize_format_selection_shorter() {
    let spec = semver_spec();
    // 1.2.0 -> "1.2" if available: patch holds its optional marker ("0" by
    // default), so only major and minor are required, and "{major}.{minor}"
    // is the covering pattern with the fewest fields.
    let version = create_version(&spec, &[("major", "1"), ("minor", "2"), ("patch", "0")]);

    let patterns: Vec<PythonFormatString> = vec![
        "{major}.{minor}.{patch}".parse().unwrap(),
        "{major}.{minor}".parse().unwrap(),
        "{major}".parse().unwrap(),
    ];

    let ctx: Vec<(String, String)> = Vec::new();
    let serialized = version.serialize(&patterns, &ctx).unwrap();
    assert_eq!(serialized, "1.2");
}

#[test]
fn test_serialize_format_selection_shortest() {
    let spec = semver_spec();
    // 1.0.0 -> "1"
    let version = create_version(&spec, &[("major", "1"), ("minor", "0"), ("patch", "0")]);

    let patterns: Vec<PythonFormatString> = vec![
        "{major}.{minor}.{patch}".parse().unwrap(),
        "{major}.{minor}".parse().unwrap(),
        "{major}".parse().unwrap(),
    ];

    let ctx: Vec<(String, String)> = Vec::new();
    let serialized = version.serialize(&patterns, &ctx).unwrap();
    assert_eq!(serialized, "1");
}

#[test]
fn test_serialize_with_newlines() {
    let spec = semver_spec();
    let version = create_version(&spec, &[("major", "31"), ("minor", "0"), ("patch", "3")]);

    let patterns: Vec<PythonFormatString> =
        vec![PythonFormatString::parse("MAJOR={major}\nMINOR={minor}\nPATCH={patch}\n").unwrap()];

    let ctx: Vec<(String, String)> = Vec::new();
    let serialized = version.serialize(&patterns, &ctx).unwrap();
    assert_eq!(serialized, "MAJOR=31\nMINOR=0\nPATCH=3\n");
}

#[test]
fn test_serialize_explicit_optional_marker() {
    // An explicit optional_value("0") on patch: 1.2.0 serializes as "1.2";
    // "{major}" alone is disqualified because minor is still required.
    let components = vec![
        ("major".to_string(), VersionComponentSpec::default()),
        ("minor".to_string(), VersionComponentSpec::default()),
        (
            "patch".to_string(),
            VersionComponentSpec { optional_value: Some("0".to_string()), ..Default::default() },
        ),
    ];
    let spec = VersionSpec::from_components(components);
    let version = create_version(&spec, &[("major", "1"), ("minor", "2"), ("patch", "0")]);

    let patterns: Vec<PythonFormatString> = vec![
        "{major}.{minor}.{patch}".parse().unwrap(),
        "{major}.{minor}".parse().unwrap(),
        "{major}".parse().unwrap(),
    ];
    let ctx: Vec<(String, String)> = Vec::new();
    assert_eq!(version.serialize(&patterns, &ctx).unwrap(), "1.2");
}

#[test]
fn test_serialize_optional_minor_and_patch() {
    // optional_value("0") on minor and patch: 1.0.0 serializes as "1".
    let components = vec![
        ("major".to_string(), VersionComponentSpec::default()),
        (
            "minor".to_string(),
            VersionComponentSpec { optional_value: Some("0".to_string()), ..Default::default() },
        ),
        (
            "patch".to_string(),
            VersionComponentSpec { optional_value: Some("0".to_string()), ..Default::default() },
        ),
    ];
    let spec = VersionSpec::from_components(components);
    let version = create_version(&spec, &[("major", "1"), ("minor", "0"), ("patch", "0")]);

    let patterns: Vec<PythonFormatString> = vec![
        "{major}.{minor}.{patch}".parse().unwrap(),
        "{major}.{minor}".parse().unwrap(),
        "{major}".parse().unwrap(),
    ];
    let ctx: Vec<(String, String)> = Vec::new();
    assert_eq!(version.serialize(&patterns, &ctx).unwrap(), "1");
}

#[test]
fn test_serialize_no_qualifying_pattern() {
    let spec = semver_spec();
    let version = create_version(&spec, &[("major", "1"), ("minor", "2"), ("patch", "3")]);

    // No candidate covers the required minor and patch components.
    let patterns: Vec<PythonFormatString> = vec!["{major}".parse().unwrap()];
    let ctx: Vec<(String, String)> = Vec::new();
    assert!(version.serialize(&patterns, &ctx).is_err());
}

#[test]
fn test_serialize_context_field() {
    let spec = semver_spec();
    let version = create_version(&spec, &[("major", "1"), ("minor", "2"), ("patch", "3")]);

    let patterns: Vec<PythonFormatString> =
        vec!["{major}.{minor}.{patch}+{branch}".parse().unwrap()];
    let ctx: Vec<(String, String)> = vec![("branch".to_string(), "main".to_string())];
    assert_eq!(version.serialize(&patterns, &ctx).unwrap(), "1.2.3+main");

    // The same template fails without the context entry, naming the field.
    let empty: Vec<(String, String)> = Vec::new();
    assert!(version.serialize(&patterns, &empty).is_err());
}

#[test]
fn test_bump_resets_lower_components() {
    let spec = semver_spec();
    let version = create_version(&spec, &[("major", "1"), ("minor", "2"), ("patch", "3")]);

    let bumped = version.bump("minor").unwrap();
    assert_eq!(bumped.get("major").unwrap().value(), Some("1"));
    assert_eq!(bumped.get("minor").unwrap().value(), Some("3"));
    assert_eq!(bumped.get("patch").unwrap().value(), Some("0"));
}

#[test]
fn test_bump_release_component() {
    // A release component enumerating alpha..final: bumping release moves
    // alpha to beta and leaves the higher-precedence components unchanged.
    let components = vec![
        ("major".to_string(), VersionComponentSpec::default()),
        ("minor".to_string(), VersionComponentSpec::default()),
        ("patch".to_string(), VersionComponentSpec::default()),
        (
            "release".to_string(),
            VersionComponentSpec {
                values: vec![
                    "alpha".to_string(),
                    "beta".to_string(),
                    "rc".to_string(),
                    "final".to_string(),
                ],
                ..Default::default()
            },
        ),
    ];
    let spec = VersionSpec::from_components(components);
    let version = create_version(
        &spec,
        &[("major", "1"), ("minor", "0"), ("patch", "0"), ("release", "alpha")],
    );

    let bumped = version.bump("release").unwrap();
    assert_eq!(bumped.get("major").unwrap().value(), Some("1"));
    assert_eq!(bumped.get("minor").unwrap().value(), Some("0"));
    assert_eq!(bumped.get("patch").unwrap().value(), Some("0"));
    assert_eq!(bumped.get("release").unwrap().value(), Some("beta"));

    // Bumping a higher-precedence component resets release to its first value.
    let reset = bumped.bump("minor").unwrap();
    assert_eq!(reset.get("minor").unwrap().value(), Some("1"));
    assert_eq!(reset.get("patch").unwrap().value(), Some("0"));
    assert_eq!(reset.get("release").unwrap().value(), Some("alpha"));
}

#[test]
fn test_bump_missing_component() {
    let spec = semver_spec();
    let version = create_version(&spec, &[("major", "1"), ("minor", "2"), ("patch", "3")]);
    assert!(version.bump("build").is_err());
}

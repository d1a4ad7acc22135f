use cargo_patch::directive::{
    find, get_patches, parse_patch_entry, parse_patches, Field, MetaValue, PatchEntry, Warning,
};
use cargo_patch::matcher::{get_ids, select, DependencyId, Selection};
use semver::{Version, VersionReq};

fn text(value: &str) -> MetaValue {
    MetaValue::Text(value.to_string())
}

fn list(items: Vec<MetaValue>) -> MetaValue {
    MetaValue::List(items)
}

fn table(fields: Vec<(&str, MetaValue)>) -> MetaValue {
    MetaValue::Table(
        fields.into_iter().map(|(key, value)| Field { key: key.to_string(), value }).collect(),
    )
}

fn entry(name: &str, version: Option<&str>, patches: &[&str]) -> PatchEntry {
    PatchEntry {
        name: name.to_string(),
        version: version.map(|v| VersionReq::parse(v).expect("a version requirement")),
        patches: patches.iter().map(|p| p.to_string()).collect(),
    }
}

fn dependency(name: &str, version: &str) -> DependencyId {
    DependencyId {
        name: name.to_string(),
        version: Version::parse(version).expect("a version"),
    }
}

fn not_found(name: &str) -> Warning {
    Warning::NotFound { name: name.to_string() }
}

fn ambiguous(name: &str) -> Warning {
    Warning::Ambiguous { name: name.to_string() }
}

#[test]
fn entry_with_version_and_patches_is_read() {
    let value = table(vec![
        ("version", text("1.0")),
        ("patches", list(vec![text("a.patch"), text("dir/b.patch")])),
    ]);
    let (parsed, warnings) = parse_patch_entry("serde", &value);
    let parsed = parsed.expect("a directive");
    assert_eq!(parsed.name, "serde");
    assert_eq!(parsed.version, Some(VersionReq::parse("1.0").unwrap()));
    assert_eq!(parsed.patches, vec!["a.patch".to_string(), "dir/b.patch".to_string()]);
    assert_eq!(warnings, vec![]);
}

#[test]
fn entry_that_is_no_table_declares_nothing() {
    for value in [text("1.0"), list(vec![]), MetaValue::Other] {
        let (parsed, warnings) = parse_patch_entry("serde", &value);
        assert!(parsed.is_none());
        assert_eq!(warnings, vec![Warning::NotATable { name: "serde".to_string() }]);
    }
}

#[test]
fn entry_without_version_stands_for_every_version() {
    let value = table(vec![("patches", list(vec![text("a.patch")]))]);
    let (parsed, warnings) = parse_patch_entry("serde", &value);
    let parsed = parsed.expect("a directive");
    assert_eq!(parsed.version, None);
    assert_eq!(parsed.patches, vec!["a.patch".to_string()]);
    assert_eq!(warnings, vec![]);
}

#[test]
fn version_that_is_no_requirement_is_reported_and_dropped() {
    for version in [text("not a version"), text(""), MetaValue::Other, list(vec![text("1.0")])] {
        let value = table(vec![("version", version), ("patches", list(vec![text("a.patch")]))]);
        let (parsed, warnings) = parse_patch_entry("serde", &value);
        let parsed = parsed.expect("a directive");
        assert_eq!(parsed.name, "serde");
        assert_eq!(parsed.version, None);
        assert_eq!(parsed.patches, vec!["a.patch".to_string()]);
        assert_eq!(warnings, vec![Warning::BadVersion { name: "serde".to_string() }]);
    }
}

#[test]
fn requirement_is_parsed_not_copied() {
    let value = table(vec![("version", text(">=1.2.3, <2"))]);
    let (parsed, _) = parse_patch_entry("serde", &value);
    let requirement = parsed.expect("a directive").version.expect("a requirement");
    assert!(requirement.matches(&Version::new(1, 2, 3)));
    assert!(requirement.matches(&Version::new(1, 9, 0)));
    assert!(!requirement.matches(&Version::new(1, 2, 2)));
    assert!(!requirement.matches(&Version::new(2, 0, 0)));
}

#[test]
fn patch_items_that_are_no_strings_are_reported_and_left_out() {
    let value = table(vec![(
        "patches",
        list(vec![MetaValue::Other, text("a.patch"), list(vec![]), text("b.patch"), table(vec![])]),
    )]);
    let (parsed, warnings) = parse_patch_entry("serde", &value);
    let parsed = parsed.expect("a directive");
    assert_eq!(parsed.patches, vec!["a.patch".to_string(), "b.patch".to_string()]);
    assert_eq!(
        warnings,
        vec![
            Warning::BadPatchPath { name: "serde".to_string(), index: 0 },
            Warning::BadPatchPath { name: "serde".to_string(), index: 2 },
            Warning::BadPatchPath { name: "serde".to_string(), index: 4 },
        ]
    );
}

#[test]
fn version_is_reported_before_patch_items() {
    let value = table(vec![("patches", list(vec![MetaValue::Other])), ("version", text("?"))]);
    let (_, warnings) = parse_patch_entry("serde", &value);
    assert_eq!(
        warnings,
        vec![
            Warning::BadVersion { name: "serde".to_string() },
            Warning::BadPatchPath { name: "serde".to_string(), index: 0 },
        ]
    );
}

#[test]
fn patches_that_are_no_list_give_no_paths() {
    for value in [
        table(vec![]),
        table(vec![("patches", text("a.patch"))]),
        table(vec![("patches", MetaValue::Other)]),
    ] {
        let (parsed, warnings) = parse_patch_entry("serde", &value);
        assert_eq!(parsed.expect("a directive").patches, Vec::<String>::new());
        assert_eq!(warnings, vec![]);
    }
}

#[test]
fn parse_patches_keeps_the_order_of_the_strings() {
    let items = vec![text("z.patch"), MetaValue::Other, text("a.patch")];
    let parsed = parse_patches(&items);
    assert_eq!(parsed.paths, vec!["z.patch".to_string(), "a.patch".to_string()]);
    assert_eq!(parsed.rejected, vec![1]);
    let none = parse_patches(&vec![]);
    assert_eq!(none.paths, Vec::<String>::new());
    assert_eq!(none.rejected, Vec::<usize>::new());
}

#[test]
fn find_gives_the_first_field_of_the_key() {
    let fields = vec![
        Field { key: "a".to_string(), value: text("1") },
        Field { key: "b".to_string(), value: text("2") },
        Field { key: "a".to_string(), value: text("3") },
    ];
    assert!(matches!(find(&fields, "a"), Some(MetaValue::Text(t)) if t == "1"));
    assert!(matches!(find(&fields, "b"), Some(MetaValue::Text(t)) if t == "2"));
    assert!(find(&fields, "c").is_none());
    assert!(find(&vec![], "a").is_none());
}

#[test]
fn directives_are_read_from_the_patch_table() {
    let metadata = table(vec![
        ("docs", table(vec![("patch", text("unrelated"))])),
        (
            "patch",
            table(vec![
                ("serde", table(vec![("version", text("1.0")), ("patches", list(vec![text("s.patch")]))])),
                ("broken", text("no table")),
                ("rand", table(vec![("patches", list(vec![text("r1.patch"), text("r2.patch")]))])),
            ]),
        ),
    ]);
    let (entries, warnings) = get_patches(Some(&metadata));
    assert_eq!(entries.len(), 2);
    assert_eq!(entries[0].name, "serde");
    assert_eq!(entries[0].version, Some(VersionReq::parse("1.0").unwrap()));
    assert_eq!(entries[0].patches, vec!["s.patch".to_string()]);
    assert_eq!(entries[1].name, "rand");
    assert_eq!(entries[1].version, None);
    assert_eq!(entries[1].patches, vec!["r1.patch".to_string(), "r2.patch".to_string()]);
    assert_eq!(warnings, vec![Warning::NotATable { name: "broken".to_string() }]);
}

#[test]
fn metadata_without_a_patch_table_declares_nothing() {
    for metadata in [
        None,
        Some(MetaValue::Other),
        Some(text("patch")),
        Some(table(vec![])),
        Some(table(vec![("patch", text("serde"))])),
        Some(table(vec![("patch", list(vec![table(vec![])]))])),
        Some(table(vec![("patch", table(vec![]))])),
    ] {
        let (entries, warnings) = get_patches(metadata.as_ref());
        assert!(entries.is_empty());
        assert_eq!(warnings, vec![]);
    }
}

#[test]
fn directive_is_matched_by_name() {
    let resolved = vec![dependency("rand", "0.8.5"), dependency("serde", "1.0.110")];
    assert_eq!(select(&entry("serde", None, &[]), &resolved), Selection::Unique(1));
    assert_eq!(select(&entry("rand", None, &[]), &resolved), Selection::Unique(0));
}

#[test]
fn directive_for_an_absent_dependency_is_not_found() {
    let resolved = vec![dependency("rand", "0.8.5"), dependency("serde", "1.0.110")];
    assert_eq!(select(&entry("serde_json", None, &[]), &resolved), Selection::NotFound);
    assert_eq!(select(&entry("serde", None, &[]), &vec![]), Selection::NotFound);
    assert_eq!(select(&entry("Serde", None, &[]), &resolved), Selection::NotFound);
}

#[test]
fn requirement_tells_versions_apart() {
    let resolved = vec![
        dependency("syn", "1.0.109"),
        dependency("quote", "1.0.40"),
        dependency("syn", "2.0.100"),
    ];
    assert_eq!(select(&entry("syn", None, &[]), &resolved), Selection::Ambiguous);
    assert_eq!(select(&entry("syn", Some("1"), &[]), &resolved), Selection::Unique(0));
    assert_eq!(select(&entry("syn", Some("2.0"), &[]), &resolved), Selection::Unique(2));
    assert_eq!(select(&entry("syn", Some(">=1"), &[]), &resolved), Selection::Ambiguous);
    assert_eq!(select(&entry("syn", Some("3"), &[]), &resolved), Selection::NotFound);
    assert_eq!(select(&entry("quote", Some("2"), &[]), &resolved), Selection::NotFound);
}

#[test]
fn three_candidates_are_ambiguous() {
    let resolved = vec![
        dependency("syn", "0.15.0"),
        dependency("syn", "1.0.109"),
        dependency("syn", "2.0.100"),
    ];
    assert_eq!(select(&entry("syn", None, &[]), &resolved), Selection::Ambiguous);
    assert_eq!(select(&entry("syn", Some("<2"), &[]), &resolved), Selection::Ambiguous);
    assert_eq!(select(&entry("syn", Some("<1"), &[]), &resolved), Selection::Unique(0));
}

#[test]
fn unmatched_directives_are_dropped_and_reported() {
    let resolved = vec![
        dependency("syn", "1.0.109"),
        dependency("serde", "1.0.110"),
        dependency("syn", "2.0.100"),
    ];
    let patches = vec![
        entry("syn", None, &["a.patch"]),
        entry("serde", Some("1.0"), &["b.patch", "c.patch"]),
        entry("absent", None, &["d.patch"]),
        entry("syn", Some("^2"), &[]),
        entry("serde", Some("2"), &["e.patch"]),
    ];
    let (matched, warnings) = get_ids(patches, &resolved);
    assert_eq!(matched.len(), 2);
    assert_eq!(matched[0].entry.name, "serde");
    assert_eq!(matched[0].entry.patches, vec!["b.patch".to_string(), "c.patch".to_string()]);
    assert_eq!(matched[0].dependency, 1);
    assert_eq!(matched[1].entry.name, "syn");
    assert_eq!(matched[1].entry.version, Some(VersionReq::parse("^2").unwrap()));
    assert_eq!(matched[1].dependency, 2);
    assert_eq!(warnings, vec![ambiguous("syn"), not_found("absent"), not_found("serde")]);
}

#[test]
fn no_directives_match_nothing() {
    let (matched, warnings) = get_ids(vec![], &vec![dependency("serde", "1.0.110")]);
    assert!(matched.is_empty());
    assert_eq!(warnings, vec![]);
}

#[test]
fn prerelease_is_admitted_only_where_the_requirement_names_one() {
    let resolved = vec![dependency("tool", "1.0.0-beta.2")];
    assert_eq!(select(&entry("tool", Some("1"), &[]), &resolved), Selection::NotFound);
    assert_eq!(select(&entry("tool", Some(">=1.0.0-beta.1"), &[]), &resolved), Selection::Unique(0));
    assert_eq!(select(&entry("tool", None, &[]), &resolved), Selection::Unique(0));
}

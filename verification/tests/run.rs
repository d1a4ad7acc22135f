use cargo_patch::diff::{FileDiff, Hunk, Line};
use cargo_patch::directive::{Field, MetaValue, Warning};
use cargo_patch::guard::is_contained;
use cargo_patch::matcher::DependencyId;
use cargo_patch::pipeline::{Abort, Action, Event, Reading, Removal, Run, Staging};
use patch::Patch;
use semver::Version;

fn string(value: &str) -> MetaValue {
    MetaValue::Text(value.to_string())
}

fn fields(entries: Vec<(&str, MetaValue)>) -> MetaValue {
    MetaValue::Table(
        entries.into_iter().map(|(key, value)| Field { key: key.to_string(), value }).collect(),
    )
}

fn directive(version: Option<&str>, patches: &[&str]) -> MetaValue {
    let mut entries = Vec::new();
    if let Some(version) = version {
        entries.push(("version", string(version)));
    }
    entries.push(("patches", MetaValue::List(patches.iter().map(|p| string(p)).collect())));
    fields(entries)
}

fn member(directives: Vec<(&str, MetaValue)>) -> Event {
    Event::Member(Some(fields(vec![("patch", fields(directives))])))
}

fn resolved(name: &str, version: &str) -> DependencyId {
    DependencyId { name: name.to_string(), version: Version::parse(version).expect("a version") }
}

fn path(components: &[&str]) -> Vec<String> {
    components.iter().map(|c| c.to_string()).collect()
}

fn diffs_of(text: &str) -> Vec<FileDiff> {
    Patch::from_multiple(text)
        .expect("Unable to parse patch")
        .iter()
        .map(|parsed| FileDiff {
            path: parsed.old.path.to_string(),
            hunks: parsed
                .hunks
                .iter()
                .map(|hunk| Hunk {
                    old_start: hunk.old_range.start,
                    lines: hunk
                        .lines
                        .iter()
                        .map(|line| match line {
                            patch::Line::Context(t) => Line::Context(t.to_string()),
                            patch::Line::Add(t) => Line::Add(t.to_string()),
                            patch::Line::Remove(t) => Line::Remove(t.to_string()),
                        })
                        .collect(),
                })
                .collect(),
        })
        .collect()
}

fn quiet(run: Run, event: Event) -> (Run, Action) {
    let (run, action, warnings) = run.step(event);
    assert_eq!(warnings, vec![]);
    (run, action)
}

fn loaded(dependencies: Vec<DependencyId>) -> Run {
    let (run, action) = quiet(Run::new(), Event::Begin);
    assert!(matches!(action, Action::Reset));
    let (run, action) = quiet(run, Event::Reset(Removal::Removed));
    assert!(matches!(action, Action::Load));
    let (run, action) = quiet(run, Event::Loaded(Some(dependencies)));
    assert!(matches!(action, Action::NextMember));
    run
}

fn resolving(root: &[&str], patch_text: &str) -> Run {
    let run = loaded(vec![resolved("serde", "1.0.110")]);
    let (run, action) = quiet(run, member(vec![("serde", directive(None, &["a.patch"]))]));
    assert!(matches!(action, Action::Stage { dependency: 0 }));
    let (run, action) = quiet(run, Event::Staged(Staging::Staged(path(root))));
    assert!(matches!(action, Action::ReadPatch { .. }));
    let (run, action) = quiet(run, Event::PatchRead(Reading::Read(patch_text.to_string())));
    let text = match action {
        Action::Parse { text } => text,
        other => panic!("{:?}", other),
    };
    let (run, action) = quiet(run, Event::Parsed(Some(diffs_of(&text))));
    assert!(matches!(action, Action::Resolve { .. }));
    run
}

const ONE_FILE: &str = "--- src/lib.rs\n+++ src/lib.rs\n@@ -1,2 +1,2 @@ fn main()\n a\n-b\n+B\n";

const TWO_FILES: &str = "--- one.txt\n+++ one.txt\n@@ -1,1 +1,1 @@\n-1\n+one\n--- two.txt\n+++ two.txt\n@@ -1,1 +1,2 @@ hint\n 2\n+two\n";

#[test]
fn absent_dependency_is_reported_and_nothing_is_patched() {
    let run = loaded(vec![resolved("serde", "1.0.110")]);
    let (run, action, warnings) =
        run.step(member(vec![("serde_json", directive(None, &["a.patch"]))]));
    assert_eq!(warnings, vec![Warning::NotFound { name: "serde_json".to_string() }]);
    assert!(matches!(action, Action::NextMember));
    let (run, action) = quiet(run, Event::NoMember);
    assert!(matches!(action, Action::Finish { patched: false }));
    assert!(run.is_done());
}

#[test]
fn one_directive_runs_from_reset_to_finish() {
    let run = Run::new();
    assert!(!run.is_done());
    let (run, action) = quiet(run, Event::Begin);
    assert!(matches!(action, Action::Reset));
    let (run, action) = quiet(run, Event::Reset(Removal::Removed));
    assert!(matches!(action, Action::Load));
    let dependencies = vec![resolved("rand", "0.8.5"), resolved("serde", "1.0.110")];
    let (run, action) = quiet(run, Event::Loaded(Some(dependencies)));
    assert!(matches!(action, Action::NextMember));
    let (run, action) = quiet(run, member(vec![("serde", directive(Some("1.0"), &["a.patch"]))]));
    assert!(matches!(action, Action::Stage { dependency: 1 }));
    let root = ["/", "work", "target", "patch", "serde-1.0.110"];
    let (run, action) = quiet(run, Event::Staged(Staging::Staged(path(&root))));
    match action {
        Action::ReadPatch { path } => assert_eq!(path, "a.patch"),
        other => panic!("{:?}", other),
    }
    let (run, action) = quiet(run, Event::PatchRead(Reading::Read(ONE_FILE.to_string())));
    let text = match action {
        Action::Parse { text } => text,
        other => panic!("{:?}", other),
    };
    assert_eq!(text, "--- src/lib.rs\n+++ src/lib.rs\n@@ -1,2 +1,2 @@\n a\n-b\n+B\n");
    let (run, action) = quiet(run, Event::Parsed(Some(diffs_of(&text))));
    match action {
        Action::Resolve { root: from, relative } => {
            assert_eq!(from, path(&root));
            assert_eq!(relative, "src/lib.rs");
        }
        other => panic!("{:?}", other),
    }
    let target = ["/", "work", "target", "patch", "serde-1.0.110", "src", "lib.rs"];
    let (run, action) = quiet(run, Event::Resolved(Some(path(&target))));
    match action {
        Action::ReadTarget { path: asked } => assert_eq!(asked, path(&target)),
        other => panic!("{:?}", other),
    }
    let (run, action) = quiet(run, Event::TargetRead(Some("a\nb\nc\n".to_string())));
    match action {
        Action::Write { path: asked, content, name } => {
            assert_eq!(asked, path(&target));
            assert_eq!(content, "a\nB\nc\n");
            assert_eq!(name, "serde");
        }
        other => panic!("{:?}", other),
    }
    let (run, action) = quiet(run, Event::Written(true));
    assert!(matches!(action, Action::NextMember));
    assert!(!run.is_done());
    let (run, action) = quiet(run, Event::NoMember);
    assert!(matches!(action, Action::Finish { patched: true }));
    assert!(run.is_done());
}

#[test]
fn missing_staging_root_is_no_error() {
    let (run, _) = quiet(Run::new(), Event::Begin);
    let (run, action) = quiet(run, Event::Reset(Removal::Missing));
    assert!(matches!(action, Action::Load));
    assert!(!run.is_done());
    let (run, _) = quiet(Run::new(), Event::Begin);
    let (run, action) = quiet(run, Event::Reset(Removal::Removed));
    assert!(matches!(action, Action::Load));
    assert!(!run.is_done());
}

#[test]
fn failed_reset_ends_the_run() {
    let (run, _) = quiet(Run::new(), Event::Begin);
    let (run, action) = quiet(run, Event::Reset(Removal::Failed));
    assert!(matches!(action, Action::Abort(Abort::Io)));
    assert!(run.is_done());
}

#[test]
fn failed_load_ends_the_run() {
    let (run, _) = quiet(Run::new(), Event::Begin);
    let (run, _) = quiet(run, Event::Reset(Removal::Removed));
    let (run, action) = quiet(run, Event::Loaded(None));
    assert!(matches!(action, Action::Abort(Abort::Io)));
    assert!(run.is_done());
}

#[test]
fn workspace_without_members_finds_no_patches() {
    let run = loaded(vec![]);
    let (run, action) = quiet(run, Event::NoMember);
    assert!(matches!(action, Action::Finish { patched: false }));
    assert!(run.is_done());
}

#[test]
fn member_without_metadata_is_passed_over() {
    let run = loaded(vec![resolved("serde", "1.0.110")]);
    let (run, action) = quiet(run, Event::Member(None));
    assert!(matches!(action, Action::NextMember));
    let (_, action) = quiet(run, member(vec![]));
    assert!(matches!(action, Action::NextMember));
}

#[test]
fn escaping_target_ends_the_run_before_any_write() {
    let root = ["/", "stage", "serde-1.0.110"];
    let run = resolving(&root, "--- ../../etc/passwd\n+++ x\n@@ -1,1 +1,1 @@\n-a\n+b\n");
    let (run, action) = quiet(run, Event::Resolved(Some(path(&["/", "etc", "passwd"]))));
    assert!(matches!(action, Action::Abort(Abort::Escape)));
    assert!(run.is_done());
    let (run, action) = quiet(run, Event::TargetRead(Some("a\n".to_string())));
    assert!(matches!(action, Action::Abort(Abort::OutOfTurn)));
    let (run, action) = quiet(run, Event::Written(true));
    assert!(matches!(action, Action::Abort(Abort::OutOfTurn)));
    assert!(run.is_done());
}

#[test]
fn sibling_with_a_longer_name_is_outside() {
    let root = ["/", "stage", "serde"];
    let run = resolving(&root, ONE_FILE);
    let (run, action) =
        quiet(run, Event::Resolved(Some(path(&["/", "stage", "serde-extra", "src", "lib.rs"]))));
    assert!(matches!(action, Action::Abort(Abort::Escape)));
    assert!(run.is_done());
}

#[test]
fn containment_goes_by_whole_components() {
    let root = path(&["/", "stage", "pkg"]);
    assert!(is_contained(&root, &path(&["/", "stage", "pkg"])));
    assert!(is_contained(&root, &path(&["/", "stage", "pkg", "src", "lib.rs"])));
    assert!(!is_contained(&root, &path(&["/", "stage", "pkg-extra", "lib.rs"])));
    assert!(!is_contained(&root, &path(&["/", "stage"])));
    assert!(!is_contained(&root, &path(&["/", "other", "pkg", "lib.rs"])));
    assert!(!is_contained(&root, &path(&[])));
    assert!(is_contained(&path(&[]), &path(&["/", "etc"])));
    assert!(is_contained(&path(&[]), &path(&[])));
}

#[test]
fn unresolved_target_ends_the_run() {
    let run = resolving(&["/", "stage", "serde"], ONE_FILE);
    let (run, action) = quiet(run, Event::Resolved(None));
    assert!(matches!(action, Action::Abort(Abort::Io)));
    assert!(run.is_done());
}

#[test]
fn unread_target_ends_the_run() {
    let run = resolving(&["/", "stage", "serde"], ONE_FILE);
    let (run, _) = quiet(run, Event::Resolved(Some(path(&["/", "stage", "serde", "src", "lib.rs"]))));
    let (run, action) = quiet(run, Event::TargetRead(None));
    assert!(matches!(action, Action::Abort(Abort::Io)));
    assert!(run.is_done());
}

#[test]
fn failed_write_ends_the_run() {
    let run = resolving(&["/", "stage", "serde"], ONE_FILE);
    let (run, _) = quiet(run, Event::Resolved(Some(path(&["/", "stage", "serde", "src", "lib.rs"]))));
    let (run, _) = quiet(run, Event::TargetRead(Some("a\nb\n".to_string())));
    let (run, action) = quiet(run, Event::Written(false));
    assert!(matches!(action, Action::Abort(Abort::Io)));
    assert!(run.is_done());
}

#[test]
fn staging_failures_end_the_run() {
    for (outcome, reason) in
        [(Staging::NoName, Abort::NoDirectoryName), (Staging::Failed, Abort::Io)]
    {
        let run = loaded(vec![resolved("serde", "1.0.110")]);
        let (run, _) = quiet(run, member(vec![("serde", directive(None, &["a.patch"]))]));
        let (run, action) = quiet(run, Event::Staged(outcome));
        assert!(matches!(action, Action::Abort(r) if r == reason));
        assert!(run.is_done());
    }
}

#[test]
fn patch_file_failures_end_the_run() {
    for (outcome, reason) in
        [(Reading::Missing, Abort::PatchFileMissing), (Reading::Failed, Abort::Io)]
    {
        let run = loaded(vec![resolved("serde", "1.0.110")]);
        let (run, _) = quiet(run, member(vec![("serde", directive(None, &["a.patch"]))]));
        let (run, _) = quiet(run, Event::Staged(Staging::Staged(path(&["/", "stage", "serde"]))));
        let (run, action) = quiet(run, Event::PatchRead(outcome));
        assert!(matches!(action, Action::Abort(r) if r == reason));
        assert!(run.is_done());
    }
}

#[test]
fn text_that_is_no_diff_ends_the_run() {
    let run = loaded(vec![resolved("serde", "1.0.110")]);
    let (run, _) = quiet(run, member(vec![("serde", directive(None, &["a.patch"]))]));
    let (run, _) = quiet(run, Event::Staged(Staging::Staged(path(&["/", "stage", "serde"]))));
    let (run, _) = quiet(run, Event::PatchRead(Reading::Read("no diff".to_string())));
    let (run, action) = quiet(run, Event::Parsed(None));
    assert!(matches!(action, Action::Abort(Abort::Unparsable)));
    assert!(run.is_done());
}

#[test]
fn event_out_of_turn_ends_the_run() {
    let (run, action) = quiet(Run::new(), Event::Written(true));
    assert!(matches!(action, Action::Abort(Abort::OutOfTurn)));
    assert!(run.is_done());
    let run = loaded(vec![]);
    let (run, action) = quiet(run, Event::Begin);
    assert!(matches!(action, Action::Abort(Abort::OutOfTurn)));
    assert!(run.is_done());
    let (_, action) = quiet(run, Event::NoMember);
    assert!(matches!(action, Action::Abort(Abort::OutOfTurn)));
}

#[test]
fn directive_without_patch_files_is_staged_only() {
    let run = loaded(vec![resolved("serde", "1.0.110")]);
    let (run, action) = quiet(run, member(vec![("serde", directive(None, &[]))]));
    assert!(matches!(action, Action::Stage { dependency: 0 }));
    let (run, action) = quiet(run, Event::Staged(Staging::Staged(path(&["/", "stage", "serde"]))));
    assert!(matches!(action, Action::NextMember));
    let (_, action) = quiet(run, Event::NoMember);
    assert!(matches!(action, Action::Finish { patched: true }));
}

#[test]
fn directives_patch_files_and_diffs_are_taken_in_order() {
    let run = loaded(vec![resolved("rand", "0.8.5"), resolved("serde", "1.0.110")]);
    let (run, action, warnings) = run.step(member(vec![
        ("serde", directive(None, &["first.patch", "second.patch"])),
        ("absent", directive(None, &["never.patch"])),
        ("rand", directive(Some("0.8"), &["third.patch"])),
    ]));
    assert_eq!(warnings, vec![Warning::NotFound { name: "absent".to_string() }]);
    assert!(matches!(action, Action::Stage { dependency: 1 }));
    let serde = ["/", "stage", "serde"];
    let (run, action) = quiet(run, Event::Staged(Staging::Staged(path(&serde))));
    assert!(matches!(action, Action::ReadPatch { path } if path == "first.patch"));
    let (run, action) = quiet(run, Event::PatchRead(Reading::Read(TWO_FILES.to_string())));
    let text = match action {
        Action::Parse { text } => text,
        other => panic!("{:?}", other),
    };
    let (run, action) = quiet(run, Event::Parsed(Some(diffs_of(&text))));
    assert!(matches!(action, Action::Resolve { relative, .. } if relative == "one.txt"));
    let (run, _) = quiet(run, Event::Resolved(Some(path(&["/", "stage", "serde", "one.txt"]))));
    let (run, action) = quiet(run, Event::TargetRead(Some("1\n".to_string())));
    match action {
        Action::Write { path: asked, content, name } => {
            assert_eq!(asked, path(&["/", "stage", "serde", "one.txt"]));
            assert_eq!(content, "one\n");
            assert_eq!(name, "serde");
        }
        other => panic!("{:?}", other),
    }
    let (run, action) = quiet(run, Event::Written(true));
    assert!(matches!(action, Action::Resolve { relative, .. } if relative == "two.txt"));
    let (run, _) = quiet(run, Event::Resolved(Some(path(&["/", "stage", "serde", "two.txt"]))));
    let (run, action) = quiet(run, Event::TargetRead(Some("2".to_string())));
    assert!(matches!(action, Action::Write { content, .. } if content == "2\ntwo"));
    let (run, action) = quiet(run, Event::Written(true));
    assert!(matches!(action, Action::ReadPatch { path } if path == "second.patch"));
    let (run, _) = quiet(run, Event::PatchRead(Reading::Read(ONE_FILE.to_string())));
    let (run, action) = quiet(run, Event::Parsed(Some(vec![])));
    assert!(matches!(action, Action::Stage { dependency: 0 }));
    let rand = ["/", "stage", "rand"];
    let (run, action) = quiet(run, Event::Staged(Staging::Staged(path(&rand))));
    assert!(matches!(action, Action::ReadPatch { path } if path == "third.patch"));
    let (run, action) = quiet(run, Event::PatchRead(Reading::Read(ONE_FILE.to_string())));
    let text = match action {
        Action::Parse { text } => text,
        other => panic!("{:?}", other),
    };
    let (run, action) = quiet(run, Event::Parsed(Some(diffs_of(&text))));
    assert!(matches!(action, Action::Resolve { root, .. } if root == path(&rand)));
    let (run, action) =
        quiet(run, Event::Resolved(Some(path(&["/", "stage", "serde", "src", "lib.rs"]))));
    assert!(matches!(action, Action::Abort(Abort::Escape)));
    assert!(run.is_done());
}

#[test]
fn second_member_is_matched_against_the_same_dependencies() {
    let run = loaded(vec![resolved("syn", "1.0.109"), resolved("syn", "2.0.100")]);
    let (run, action, warnings) = run.step(member(vec![("syn", directive(None, &["a.patch"]))]));
    assert_eq!(warnings, vec![Warning::Ambiguous { name: "syn".to_string() }]);
    assert!(matches!(action, Action::NextMember));
    let (run, action, warnings) = run.step(member(vec![
        ("syn", directive(Some("not a version"), &["a.patch"])),
        ("quote", string("1.0")),
    ]));
    assert_eq!(
        warnings,
        vec![
            Warning::BadVersion { name: "syn".to_string() },
            Warning::NotATable { name: "quote".to_string() },
            Warning::Ambiguous { name: "syn".to_string() },
        ]
    );
    assert!(matches!(action, Action::NextMember));
    let (_, action) = quiet(run, member(vec![("syn", directive(Some("2"), &["a.patch"]))]));
    assert!(matches!(action, Action::Stage { dependency: 1 }));
}

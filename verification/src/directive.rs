//! Patch directives: which dependency to patch, in which versions, with
//! which patch files; and how they are read from a package's metadata.
//!
//! A package declares its directives in a table named `patch` of its
//! metadata.  Each entry of that table is named after a dependency and
//! holds a table with an optional `version`, a version requirement, and a
//! list `patches` of paths to patch files:
//!
//! ```toml
//! [package.metadata.patch.serde]
//! version = "1.0"
//! patches = ["test.patch"]
//! ```
//!
//! A malformed piece is reported and left out; the rest of the directive
//! stands.

use crate::version::{parse_requirement, parsed_requirement};
use semver::VersionReq;
use vstd::prelude::*;

verus! {

/// A value of package metadata, as far as directives are read from it.
#[derive(Debug)]
pub enum MetaValue {
    /// A string.
    Text(String),
    /// An array, with its items in order.
    List(Vec<MetaValue>),
    /// A table, with its fields in order.
    Table(Vec<Field>),
    /// Any other value: a number, a boolean, a date.
    Other,
}

/// A field of a table.
#[derive(Debug)]
pub struct Field {
    pub key: String,
    pub value: MetaValue,
}

/// One directive: the dependency's name, the versions of it that are
/// meant, and the patch files to apply in order.
#[derive(Clone, Debug)]
pub struct PatchEntry {
    pub name: String,
    pub version: Option<VersionReq>,
    pub patches: Vec<String>,
}

/// A directive over sequences of characters.
pub struct PatchEntryView {
    pub name: Seq<char>,
    pub version: Option<VersionReq>,
    pub patches: Seq<Seq<char>>,
}

/// The texts of the strings, in order.
pub open spec fn texts(strings: Seq<String>) -> Seq<Seq<char>> {
    strings.map_values(|s: String| s@)
}

impl View for PatchEntry {
    type V = PatchEntryView;

    open spec fn view(&self) -> PatchEntryView {
        PatchEntryView { name: self.name@, version: self.version, patches: texts(self.patches@) }
    }
}

/// The directives over sequences of characters.
pub open spec fn entry_views(entries: Seq<PatchEntry>) -> Seq<PatchEntryView> {
    entries.map_values(|entry: PatchEntry| entry@)
}

/// What was wrong with a directive.  None of these ends a run.
#[derive(Clone, Debug, PartialEq, Eq)]
pub enum Warning {
    /// The entry named `name` is no table; there is no such directive.
    NotATable { name: String },
    /// The `version` of the directive `name` is no string or no version
    /// requirement; the directive stands for every version.
    BadVersion { name: String },
    /// Item `index` of the `patches` of the directive `name` is no string;
    /// it is left out.
    BadPatchPath { name: String, index: usize },
    /// No resolved dependency is named `name` and meets the directive's
    /// requirement; the directive is dropped.
    NotFound { name: String },
    /// More than one resolved dependency is named `name` and meets the
    /// directive's requirement; the directive is dropped.
    Ambiguous { name: String },
}

/// A warning over sequences of characters.
pub enum WarningView {
    NotATable { name: Seq<char> },
    BadVersion { name: Seq<char> },
    BadPatchPath { name: Seq<char>, index: usize },
    NotFound { name: Seq<char> },
    Ambiguous { name: Seq<char> },
}

impl View for Warning {
    type V = WarningView;

    open spec fn view(&self) -> WarningView {
        match self {
            Warning::NotATable { name } => WarningView::NotATable { name: name@ },
            Warning::BadVersion { name } => WarningView::BadVersion { name: name@ },
            Warning::BadPatchPath { name, index } => WarningView::BadPatchPath {
                name: name@,
                index: *index,
            },
            Warning::NotFound { name } => WarningView::NotFound { name: name@ },
            Warning::Ambiguous { name } => WarningView::Ambiguous { name: name@ },
        }
    }
}

/// The warnings over sequences of characters.
pub open spec fn warning_views(warnings: Seq<Warning>) -> Seq<WarningView> {
    warnings.map_values(|warning: Warning| warning@)
}

/// The value of the first field of `fields` whose key is `key`.
pub open spec fn lookup(fields: Seq<Field>, key: Seq<char>) -> Option<MetaValue>
    decreases fields.len(),
{
    if fields.len() == 0 {
        None
    } else if fields[0].key@ == key {
        Some(fields[0].value)
    } else {
        lookup(fields.drop_first(), key)
    }
}

/// The texts of the strings among `items`, in order.
pub open spec fn text_items(items: Seq<MetaValue>) -> Seq<Seq<char>>
    decreases items.len(),
{
    if items.len() == 0 {
        seq![]
    } else {
        let head = text_items(items.drop_last());
        match items.last() {
            MetaValue::Text(text) => head.push(text@),
            _ => head,
        }
    }
}

/// The indices of the items of `items` that are no strings, in order.
pub open spec fn other_items(items: Seq<MetaValue>) -> Seq<usize>
    decreases items.len(),
{
    if items.len() == 0 {
        seq![]
    } else {
        let head = other_items(items.drop_last());
        match items.last() {
            MetaValue::Text(_) => head,
            _ => head.push((items.len() - 1) as usize),
        }
    }
}

/// The requirement that the field `version` states, if it states one.
pub open spec fn entry_version(fields: Seq<Field>) -> Option<VersionReq> {
    match lookup(fields, "version"@) {
        Some(MetaValue::Text(text)) => parsed_requirement(text@),
        _ => None,
    }
}

/// There is a field `version`, and it states no requirement.
pub open spec fn version_rejected(fields: Seq<Field>) -> bool {
    lookup(fields, "version"@) is Some && entry_version(fields) is None
}

/// The items of the field `patches`, if it is a list.
pub open spec fn entry_patch_items(fields: Seq<Field>) -> Seq<MetaValue> {
    match lookup(fields, "patches"@) {
        Some(MetaValue::List(items)) => items@,
        _ => seq![],
    }
}

/// The directive that the entry `name` with the value `value` declares:
/// none unless the value is a table.
pub open spec fn parsed_entry(name: Seq<char>, value: MetaValue) -> Option<PatchEntryView> {
    match value {
        MetaValue::Table(fields) => Some(
            PatchEntryView {
                name,
                version: entry_version(fields@),
                patches: text_items(entry_patch_items(fields@)),
            },
        ),
        _ => None,
    }
}

/// The warnings for the patch items `rejected` of the directive `name`.
pub open spec fn path_warnings(name: Seq<char>, rejected: Seq<usize>) -> Seq<WarningView> {
    rejected.map_values(|index: usize| WarningView::BadPatchPath { name, index })
}

/// What is reported of the entry `name` with the value `value`: that it is
/// no table; or that its version was rejected, and then each item of
/// `patches` that is no string.
pub open spec fn entry_warnings(name: Seq<char>, value: MetaValue) -> Seq<WarningView> {
    match value {
        MetaValue::Table(fields) => {
            let version = if version_rejected(fields@) {
                seq![WarningView::BadVersion { name }]
            } else {
                seq![]
            };
            version + path_warnings(name, other_items(entry_patch_items(fields@)))
        },
        _ => seq![WarningView::NotATable { name }],
    }
}

/// The entries of the table `patch` of the metadata; none where the
/// metadata or that table is missing or no table.
pub open spec fn patch_table(metadata: Option<MetaValue>) -> Seq<Field> {
    match metadata {
        Some(MetaValue::Table(fields)) => match lookup(fields@, "patch"@) {
            Some(MetaValue::Table(entries)) => entries@,
            _ => seq![],
        },
        _ => seq![],
    }
}

/// The directives that the entries declare, in order.
pub open spec fn declared_entries(entries: Seq<Field>) -> Seq<PatchEntryView>
    decreases entries.len(),
{
    if entries.len() == 0 {
        seq![]
    } else {
        let head = declared_entries(entries.drop_last());
        match parsed_entry(entries.last().key@, entries.last().value) {
            Some(entry) => head.push(entry),
            None => head,
        }
    }
}

/// What is reported of the entries, in order.
pub open spec fn declared_warnings(entries: Seq<Field>) -> Seq<WarningView>
    decreases entries.len(),
{
    if entries.len() == 0 {
        seq![]
    } else {
        declared_warnings(entries.drop_last()) + entry_warnings(
            entries.last().key@,
            entries.last().value,
        )
    }
}

/// The value of the first field whose key is `key`.
pub fn find<'a>(fields: &'a Vec<Field>, key: &str) -> (found: Option<&'a MetaValue>)
    ensures
        match found {
            Some(value) => lookup(fields@, key@) == Some(*value),
            None => lookup(fields@, key@) is None,
        },
{
    let wanted = key.to_owned();
    let mut i: usize = 0;
    assert(fields@.skip(0) == fields@);
    while i < fields.len()
        invariant
            i <= fields@.len(),
            wanted@ == key@,
            lookup(fields@, key@) == lookup(fields@.skip(i as int), key@),
        decreases fields@.len() - i,
    {
        if fields[i].key == wanted {
            return Some(&fields[i].value);
        }
        assert(fields@.skip(i as int).drop_first() == fields@.skip(i + 1));
        i = i + 1;
    }
    None
}

/// The patch paths of a directive, and which items of the list were none.
pub struct PatchList {
    pub paths: Vec<String>,
    pub rejected: Vec<usize>,
}

/// Reads the list `patches` of a directive: each string is a path; any
/// other item is left out and its index noted.
pub fn parse_patches(entries: &Vec<MetaValue>) -> (list: PatchList)
    ensures
        texts(list.paths@) == text_items(entries@),
        list.rejected@ == other_items(entries@),
{
    let mut paths: Vec<String> = Vec::new();
    let mut rejected: Vec<usize> = Vec::new();
    let mut i: usize = 0;
    while i < entries.len()
        invariant
            i <= entries@.len(),
            texts(paths@) == text_items(entries@.take(i as int)),
            rejected@ == other_items(entries@.take(i as int)),
        decreases entries@.len() - i,
    {
        assert(entries@.take(i + 1).drop_last() == entries@.take(i as int));
        match &entries[i] {
            MetaValue::Text(text) => {
                paths.push(text.clone());
            },
            _ => {
                rejected.push(i);
            },
        }
        i = i + 1;
    }
    assert(entries@.take(i as int) == entries@);
    PatchList { paths, rejected }
}

/// Reads the directive that the entry `name` of the table `patch`
/// declares.  An entry that is no table declares none.  A `version` that
/// is no version requirement is reported and the directive then stands for
/// every version; an item of `patches` that is no string is reported and
/// left out.
pub fn parse_patch_entry(name: &str, entry: &MetaValue) -> (parsed: (
    Option<PatchEntry>,
    Vec<Warning>,
))
    ensures
        match parsed.0 {
            Some(directive) => parsed_entry(name@, *entry) == Some(directive@),
            None => parsed_entry(name@, *entry) is None,
        },
        warning_views(parsed.1@) == entry_warnings(name@, *entry),
{
    let mut warnings: Vec<Warning> = Vec::new();
    let fields = match entry {
        MetaValue::Table(fields) => fields,
        _ => {
            warnings.push(Warning::NotATable { name: name.to_owned() });
            return (None, warnings);
        },
    };
    let version = match find(fields, "version") {
        None => None,
        Some(value) => {
            let version = match value {
                MetaValue::Text(text) => parse_requirement(text.as_str()),
                _ => None,
            };
            if version.is_none() {
                warnings.push(Warning::BadVersion { name: name.to_owned() });
            }
            version
        },
    };
    let ghost version_part = warning_views(warnings@);
    let list = match find(fields, "patches") {
        Some(MetaValue::List(items)) => parse_patches(items),
        _ => PatchList { paths: Vec::new(), rejected: Vec::new() },
    };
    assert(texts(list.paths@) == text_items(entry_patch_items(fields@)));
    let mut i: usize = 0;
    while i < list.rejected.len()
        invariant
            i <= list.rejected@.len(),
            warning_views(warnings@) == version_part + path_warnings(
                name@,
                list.rejected@.take(i as int),
            ),
        decreases list.rejected@.len() - i,
    {
        let ghost before = warnings@;
        warnings.push(Warning::BadPatchPath { name: name.to_owned(), index: list.rejected[i] });
        assert(warning_views(warnings@) == warning_views(before).push(
            WarningView::BadPatchPath { name: name@, index: list.rejected@[i as int] },
        ));
        i = i + 1;
    }
    (Some(PatchEntry { name: name.to_owned(), version, patches: list.paths }), warnings)
}

/// Reads the directives that a package's metadata declares, in the order
/// of the table `patch`, together with what was wrong with them.
pub fn get_patches(metadata: Option<&MetaValue>) -> (found: (Vec<PatchEntry>, Vec<Warning>))
    ensures
        entry_views(found.0@) == declared_entries(
            patch_table(
                match metadata {
                    Some(value) => Some(*value),
                    None => None,
                },
            ),
        ),
        warning_views(found.1@) == declared_warnings(
            patch_table(
                match metadata {
                    Some(value) => Some(*value),
                    None => None,
                },
            ),
        ),
{
    let mut entries: Vec<PatchEntry> = Vec::new();
    let mut warnings: Vec<Warning> = Vec::new();
    let table = match metadata {
        Some(MetaValue::Table(fields)) => match find(fields, "patch") {
            Some(MetaValue::Table(table)) => table,
            _ => {
                return (entries, warnings);
            },
        },
        _ => {
            return (entries, warnings);
        },
    };
    let mut i: usize = 0;
    while i < table.len()
        invariant
            i <= table@.len(),
            entry_views(entries@) == declared_entries(table@.take(i as int)),
            warning_views(warnings@) == declared_warnings(table@.take(i as int)),
        decreases table@.len() - i,
    {
        assert(table@.take(i + 1).drop_last() == table@.take(i as int));
        let (parsed, mut reported) = parse_patch_entry(table[i].key.as_str(), &table[i].value);
        if let Some(directive) = parsed {
            entries.push(directive);
        }
        warnings.append(&mut reported);
        i = i + 1;
    }
    assert(table@.take(i as int) == table@);
    (entries, warnings)
}

} // verus!

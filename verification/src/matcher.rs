//! Finding, for each directive, the one resolved dependency it is meant
//! for.
//!
//! A directive is meant for a dependency of its name whose version meets
//! the directive's requirement, or of any version where it states none.
//! Several versions of one dependency may be resolved at once, so a name
//! alone can fit more than one.  A directive that fits none, or more than
//! one, is reported and dropped; nothing is guessed.

use crate::directive::{entry_views, warning_views, PatchEntry, PatchEntryView, Warning, WarningView};
use crate::version::{admits, requirement_admits};
use semver::Version;
use vstd::prelude::*;

verus! {

/// A resolved dependency: its name and its version.  No two resolved
/// dependencies agree in both.
#[derive(Debug)]
pub struct DependencyId {
    pub name: String,
    pub version: Version,
}

/// A resolved dependency over sequences of characters.
pub struct DependencyView {
    pub name: Seq<char>,
    pub version: Version,
}

impl View for DependencyId {
    type V = DependencyView;

    open spec fn view(&self) -> DependencyView {
        DependencyView { name: self.name@, version: self.version }
    }
}

/// The dependencies over sequences of characters.
pub open spec fn dependency_views(dependencies: Seq<DependencyId>) -> Seq<DependencyView> {
    dependencies.map_values(|dependency: DependencyId| dependency@)
}

/// The directive is meant for the dependency.
pub open spec fn meant_for(entry: PatchEntryView, dependency: DependencyView) -> bool {
    entry.name == dependency.name && match entry.version {
        Some(requirement) => requirement_admits(requirement, dependency.version),
        None => true,
    }
}

/// The directive is meant for none of the dependencies.
pub open spec fn no_candidate(entry: PatchEntryView, dependencies: Seq<DependencyView>) -> bool {
    forall|j: int| 0 <= j < dependencies.len() ==> !meant_for(entry, #[trigger] dependencies[j])
}

/// The directive is meant for dependency `i` and for no other.
pub open spec fn sole_candidate(
    entry: PatchEntryView,
    dependencies: Seq<DependencyView>,
    i: int,
) -> bool {
    &&& 0 <= i < dependencies.len()
    &&& meant_for(entry, dependencies[i])
    &&& forall|j: int|
        0 <= j < dependencies.len() && j != i ==> !meant_for(entry, #[trigger] dependencies[j])
}

/// What the search for a directive's dependency found.
#[derive(Clone, Copy, Debug, PartialEq, Eq)]
pub enum Selection {
    /// The dependency of this index, and no other.
    Unique(usize),
    /// No dependency.
    NotFound,
    /// Two dependencies or more.
    Ambiguous,
}

/// What there is to find: nothing where the directive is meant for no
/// dependency, the one dependency where it is meant for one only, and too
/// many otherwise.
pub open spec fn selection(entry: PatchEntryView, dependencies: Seq<DependencyView>) -> Selection {
    if no_candidate(entry, dependencies) {
        Selection::NotFound
    } else if exists|i: int| sole_candidate(entry, dependencies, i) {
        Selection::Unique((choose|i: int| sole_candidate(entry, dependencies, i)) as usize)
    } else {
        Selection::Ambiguous
    }
}

/// A directive with the index of its dependency among the resolved ones.
#[derive(Clone, Debug)]
pub struct Matched {
    pub entry: PatchEntry,
    pub dependency: usize,
}

/// A matched directive over sequences of characters.
pub struct MatchedView {
    pub entry: PatchEntryView,
    pub dependency: usize,
}

impl View for Matched {
    type V = MatchedView;

    open spec fn view(&self) -> MatchedView {
        MatchedView { entry: self.entry@, dependency: self.dependency }
    }
}

/// The matched directives over sequences of characters.
pub open spec fn matched_views(matched: Seq<Matched>) -> Seq<MatchedView> {
    matched.map_values(|m: Matched| m@)
}

/// The directives that are meant for exactly one dependency, each with
/// that dependency, in the order of the directives.
pub open spec fn matched_entries(
    entries: Seq<PatchEntryView>,
    dependencies: Seq<DependencyView>,
) -> Seq<MatchedView>
    decreases entries.len(),
{
    if entries.len() == 0 {
        seq![]
    } else {
        let head = matched_entries(entries.drop_last(), dependencies);
        match selection(entries.last(), dependencies) {
            Selection::Unique(i) => head.push(MatchedView { entry: entries.last(), dependency: i }),
            _ => head,
        }
    }
}

/// One warning for each directive that is dropped, in the order of the
/// directives.
pub open spec fn dropped_entries(
    entries: Seq<PatchEntryView>,
    dependencies: Seq<DependencyView>,
) -> Seq<WarningView>
    decreases entries.len(),
{
    if entries.len() == 0 {
        seq![]
    } else {
        let head = dropped_entries(entries.drop_last(), dependencies);
        match selection(entries.last(), dependencies) {
            Selection::Unique(_) => head,
            Selection::NotFound => head.push(WarningView::NotFound { name: entries.last().name }),
            Selection::Ambiguous => head.push(
                WarningView::Ambiguous { name: entries.last().name },
            ),
        }
    }
}

/// A directive whose name no resolved dependency bears is not found,
/// whatever versions it asks for.
pub proof fn lemma_absent_is_not_found(entry: PatchEntryView, dependencies: Seq<DependencyView>)
    requires
        forall|j: int|
            0 <= j < dependencies.len() ==> (#[trigger] dependencies[j]).name != entry.name,
    ensures
        selection(entry, dependencies) == Selection::NotFound,
        matched_entries(seq![entry], dependencies) == Seq::<MatchedView>::empty(),
        dropped_entries(seq![entry], dependencies) == seq![
            WarningView::NotFound { name: entry.name },
        ],
{
    let one = seq![entry];
    assert(one.drop_last() == Seq::<PatchEntryView>::empty());
    assert(matched_entries(one.drop_last(), dependencies) == Seq::<MatchedView>::empty());
    assert(dropped_entries(one.drop_last(), dependencies) == Seq::<WarningView>::empty());
}

fn is_meant_for(entry: &PatchEntry, dependency: &DependencyId) -> (meant: bool)
    ensures
        meant == meant_for(entry@, dependency@),
{
    if entry.name == dependency.name {
        match &entry.version {
            Some(requirement) => admits(requirement, &dependency.version),
            None => true,
        }
    } else {
        false
    }
}

/// Searches the resolved dependencies for the one that the directive is
/// meant for.
pub fn select(entry: &PatchEntry, resolved: &Vec<DependencyId>) -> (found: Selection)
    ensures
        found == selection(entry@, dependency_views(resolved@)),
{
    let ghost dependencies = dependency_views(resolved@);
    let mut first: Option<usize> = None;
    let mut i: usize = 0;
    while i < resolved.len()
        invariant
            i <= resolved@.len(),
            dependencies == dependency_views(resolved@),
            match first {
                Some(k) => {
                    &&& k < i
                    &&& meant_for(entry@, dependencies[k as int])
                    &&& forall|j: int|
                        0 <= j < i && j != k ==> !meant_for(entry@, #[trigger] dependencies[j])
                },
                None => forall|j: int|
                    0 <= j < i ==> !meant_for(entry@, #[trigger] dependencies[j]),
            },
        decreases resolved@.len() - i,
    {
        if is_meant_for(entry, &resolved[i]) {
            match first {
                Some(k) => {
                    assert(meant_for(entry@, dependencies[i as int]));
                    assert forall|c: int| !sole_candidate(entry@, dependencies, c) by {
                        if sole_candidate(entry@, dependencies, c) {
                            if c == k {
                                assert(!meant_for(entry@, dependencies[i as int]));
                            } else {
                                assert(!meant_for(entry@, dependencies[k as int]));
                            }
                        }
                    }
                    return Selection::Ambiguous;
                },
                None => {
                    first = Some(i);
                },
            }
        }
        i = i + 1;
    }
    match first {
        Some(k) => {
            assert(sole_candidate(entry@, dependencies, k as int));
            let ghost chosen = choose|c: int| sole_candidate(entry@, dependencies, c);
            assert(chosen == k) by {
                if chosen != k {
                    assert(!meant_for(entry@, dependencies[k as int]));
                }
            }
            Selection::Unique(k)
        },
        None => Selection::NotFound,
    }
}

/// Pairs each directive with the resolved dependency it is meant for.  A
/// directive that is meant for none, or for more than one, is reported and
/// dropped.
pub fn get_ids(patches: Vec<PatchEntry>, resolved: &Vec<DependencyId>) -> (found: (
    Vec<Matched>,
    Vec<Warning>,
))
    ensures
        matched_views(found.0@) == matched_entries(
            entry_views(patches@),
            dependency_views(resolved@),
        ),
        warning_views(found.1@) == dropped_entries(
            entry_views(patches@),
            dependency_views(resolved@),
        ),
{
    let ghost given = patches@;
    let ghost entries = entry_views(patches@);
    let ghost dependencies = dependency_views(resolved@);
    let mut matched: Vec<Matched> = Vec::new();
    let mut warnings: Vec<Warning> = Vec::new();
    for entry in it: patches
        invariant
            it.seq() == given,
            entries == entry_views(given),
            dependencies == dependency_views(resolved@),
            matched_views(matched@) == matched_entries(entries.take(it.index() as int), dependencies),
            warning_views(warnings@) == dropped_entries(
                entries.take(it.index() as int),
                dependencies,
            ),
    {
        let ghost i = it.index() as int;
        assert(entries.take(i + 1).drop_last() == entries.take(i));
        match select(&entry, resolved) {
            Selection::Unique(dependency) => {
                let pair = Matched { entry, dependency };
                matched.push(pair);
            },
            Selection::NotFound => {
                let warning = Warning::NotFound { name: entry.name };
                warnings.push(warning);
            },
            Selection::Ambiguous => {
                let warning = Warning::Ambiguous { name: entry.name };
                warnings.push(warning);
            },
        }
    }
    assert(entries.take(given.len() as int) == entries);
    (matched, warnings)
}

} // verus!

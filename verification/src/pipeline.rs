//! The order of a patching run.
//!
//! A run resets the staging area, loads the resolved dependencies, and then
//! takes the workspace members one by one: it reads a member's directives,
//! matches them, and for each matched directive stages the dependency and
//! applies its patch files in order, file by file.  The run itself touches
//! nothing.  It asks for one [`Action`] at a time; the caller performs it
//! and hands back what came of it as an [`Event`].  What goes wrong with a
//! directive is a [`Warning`] and the run goes on; what goes wrong with an
//! action ends the run, and so does a patch that reaches for a file outside
//! the staged package.  What was written before stays written.

use crate::apply::{apply_hunks, patched_text};
use crate::diff::{diff_views, FileDiff, FileDiffView};
use crate::directive::{
    declared_entries, declared_warnings, get_patches, patch_table, texts, warning_views, MetaValue,
    Warning, WarningView,
};
use crate::guard::{is_contained, lies_within};
use crate::matcher::{
    dependency_views, dropped_entries, get_ids, matched_entries, matched_views, DependencyId,
    DependencyView, Matched, MatchedView,
};
use crate::normalize::{normalize_hunk_headers, normalized};
use vstd::prelude::*;

verus! {

/// The staging root: the directory, below the workspace, that holds the
/// staged packages, each in a directory named as the last component of its
/// source root.
pub const STAGING_ROOT: &'static str = "target/patch";

/// What came of removing the staging root.
#[derive(Clone, Copy, Debug, PartialEq, Eq)]
pub enum Removal {
    /// It was there and is gone.
    Removed,
    /// It was not there.
    Missing,
    /// It could not be removed.
    Failed,
}

/// What came of staging a dependency.
#[derive(Debug)]
pub enum Staging {
    /// The copy stands; these are the components of its resolved path.
    Staged(Vec<String>),
    /// The dependency's source root has no last component to name the copy
    /// after.
    NoName,
    /// The copy failed.
    Failed,
}

/// What came of reading a patch file.
#[derive(Debug)]
pub enum Reading {
    /// The file's text.
    Read(String),
    /// There is no such file.
    Missing,
    /// The file could not be read.
    Failed,
}

/// What came of the action that the run asked for last.
#[derive(Debug)]
pub enum Event {
    /// Nothing yet: the run starts.
    Begin,
    /// The staging root was dealt with.
    Reset(Removal),
    /// The resolved dependencies, or none where resolving failed.
    Loaded(Option<Vec<DependencyId>>),
    /// The metadata of the next workspace member, if it has any.
    Member(Option<MetaValue>),
    /// There is no further workspace member.
    NoMember,
    /// The dependency was dealt with.
    Staged(Staging),
    /// The patch file was dealt with.
    PatchRead(Reading),
    /// The diffs that the text holds, one for each file, or none for a text
    /// that is no diff.
    Parsed(Option<Vec<FileDiff>>),
    /// The components of the target's resolved path, or none where it
    /// could not be resolved.
    Resolved(Option<Vec<String>>),
    /// The target's text, or none where it could not be read.
    TargetRead(Option<String>),
    /// Whether the target was written.
    Written(bool),
}

/// Why a run ended early.
#[derive(Clone, Copy, Debug, PartialEq, Eq)]
pub enum Abort {
    /// An action failed.
    Io,
    /// A dependency's source root has no name to stage it under.
    NoDirectoryName,
    /// A declared patch file does not exist.
    PatchFileMissing,
    /// A patch file holds no diff.
    Unparsable,
    /// A patch names a file outside the staged package.
    Escape,
    /// The event does not answer the action that was asked for.
    OutOfTurn,
}

/// What the caller is to do next.
#[derive(Debug)]
pub enum Action {
    /// Remove the staging root with all it holds.
    Reset,
    /// Resolve the workspace's dependencies.
    Load,
    /// Hand over the next workspace member.
    NextMember,
    /// Copy the source tree of the resolved dependency of this index below
    /// the staging root.
    Stage { dependency: usize },
    /// Read the patch file at `path`.
    ReadPatch { path: String },
    /// Parse `text` as a diff of one or more files.
    Parse { text: String },
    /// Resolve the path `relative`, taken from below `root`.
    Resolve { root: Vec<String>, relative: String },
    /// Read the file at `path`.
    ReadTarget { path: Vec<String> },
    /// Write `content` to the file at `path`, for the directive `name`.
    Write { path: Vec<String>, content: String, name: String },
    /// The run is over; `patched` says whether any dependency was staged.
    Finish { patched: bool },
    /// The run is over and has failed.
    Abort(Abort),
}

/// An action over sequences of characters.
pub enum ActionView {
    Reset,
    Load,
    NextMember,
    Stage { dependency: usize },
    ReadPatch { path: Seq<char> },
    Parse { text: Seq<char> },
    Resolve { root: Seq<Seq<char>>, relative: Seq<char> },
    ReadTarget { path: Seq<Seq<char>> },
    Write { path: Seq<Seq<char>>, content: Seq<char>, name: Seq<char> },
    Finish { patched: bool },
    Abort(Abort),
}

impl View for Action {
    type V = ActionView;

    open spec fn view(&self) -> ActionView {
        match self {
            Action::Reset => ActionView::Reset,
            Action::Load => ActionView::Load,
            Action::NextMember => ActionView::NextMember,
            Action::Stage { dependency } => ActionView::Stage { dependency: *dependency },
            Action::ReadPatch { path } => ActionView::ReadPatch { path: path@ },
            Action::Parse { text } => ActionView::Parse { text: text@ },
            Action::Resolve { root, relative } => ActionView::Resolve {
                root: texts(root@),
                relative: relative@,
            },
            Action::ReadTarget { path } => ActionView::ReadTarget { path: texts(path@) },
            Action::Write { path, content, name } => ActionView::Write {
                path: texts(path@),
                content: content@,
                name: name@,
            },
            Action::Finish { patched } => ActionView::Finish { patched: *patched },
            Action::Abort(reason) => ActionView::Abort(*reason),
        }
    }
}

/// Which event the run waits for.
#[derive(Clone, Copy, Debug, PartialEq, Eq)]
pub enum Stage {
    /// The run has not started.
    Fresh,
    /// The staging root is being removed.
    Resetting,
    /// The dependencies are being resolved.
    Loading,
    /// The next workspace member is being fetched.
    AwaitingMember,
    /// A dependency is being staged.
    Staging,
    /// A patch file is being read.
    ReadingPatch,
    /// A patch file's text is being parsed.
    Parsing,
    /// A target's path is being resolved.
    Resolving,
    /// A target is being read.
    ReadingTarget,
    /// A target is being written.
    Writing,
    /// The run is over.
    Done,
}

/// A run and how far it has come.
#[derive(Debug)]
pub struct Run {
    stage: Stage,
    resolved: Vec<DependencyId>,
    plan: Vec<Matched>,
    name: String,
    patches: Vec<String>,
    root: Vec<String>,
    diffs: Vec<FileDiff>,
    target: Vec<String>,
    patched: bool,
}

/// A run as the rules see it.
pub struct RunView {
    pub stage: Stage,
    /// The resolved dependencies.
    pub resolved: Seq<DependencyView>,
    /// The matched directives of the member at hand that wait to be staged.
    pub plan: Seq<MatchedView>,
    /// The name of the directive at hand.
    pub name: Seq<char>,
    /// The patch files of the directive at hand that wait to be read.
    pub patches: Seq<Seq<char>>,
    /// The resolved path of the staged package at hand.
    pub root: Seq<Seq<char>>,
    /// The diffs of the patch file at hand that wait to be applied.
    pub diffs: Seq<FileDiffView>,
    /// The resolved path of the file at hand.
    pub target: Seq<Seq<char>>,
    /// Whether any dependency has been staged.
    pub patched: bool,
}

impl View for Run {
    type V = RunView;

    closed spec fn view(&self) -> RunView {
        RunView {
            stage: self.stage,
            resolved: dependency_views(self.resolved@),
            plan: matched_views(self.plan@),
            name: self.name@,
            patches: texts(self.patches@),
            root: texts(self.root@),
            diffs: diff_views(self.diffs@),
            target: texts(self.target@),
            patched: self.patched,
        }
    }
}

/// A state, what is asked for in it, and what is reported on the way.
pub struct Outcome {
    pub run: RunView,
    pub action: ActionView,
    pub warnings: Seq<WarningView>,
}

/// A run that has not started.
pub open spec fn fresh() -> RunView {
    RunView {
        stage: Stage::Fresh,
        resolved: seq![],
        plan: seq![],
        name: seq![],
        patches: seq![],
        root: seq![],
        diffs: seq![],
        target: seq![],
        patched: false,
    }
}

/// An outcome without warnings.
pub open spec fn quiet(run: RunView, action: ActionView) -> Outcome {
    Outcome { run, action, warnings: seq![] }
}

/// The run goes to `stage` and asks for `action`; nothing else changes.
pub open spec fn moved(run: RunView, stage: Stage, action: ActionView) -> Outcome {
    quiet(RunView { stage, ..run }, action)
}

/// The run is over and asks to stop for `reason`.
pub open spec fn halted(run: RunView, reason: Abort) -> Outcome {
    moved(run, Stage::Done, ActionView::Abort(reason))
}

/// The next directive is staged; after the last, the next member is asked
/// for.
pub open spec fn enter_directive(run: RunView) -> Outcome {
    if run.plan.len() > 0 {
        moved(run, Stage::Staging, ActionView::Stage { dependency: run.plan[0].dependency })
    } else {
        moved(run, Stage::AwaitingMember, ActionView::NextMember)
    }
}

/// The next patch file is read; after the last, the next directive is
/// taken up.
pub open spec fn enter_patch(run: RunView) -> Outcome {
    if run.patches.len() > 0 {
        quiet(
            RunView { stage: Stage::ReadingPatch, patches: run.patches.drop_first(), ..run },
            ActionView::ReadPatch { path: run.patches[0] },
        )
    } else {
        enter_directive(run)
    }
}

/// The next diff's target is resolved; after the last, the next patch file
/// is taken up.
pub open spec fn enter_diff(run: RunView) -> Outcome {
    if run.diffs.len() > 0 {
        moved(
            run,
            Stage::Resolving,
            ActionView::Resolve { root: run.root, relative: run.diffs[0].path },
        )
    } else {
        enter_patch(run)
    }
}

/// A member's directives are read and matched; what is wrong with them is
/// reported, first what was declared wrongly, then what was not matched.
pub open spec fn enter_member(run: RunView, metadata: Option<MetaValue>) -> Outcome {
    let entries = declared_entries(patch_table(metadata));
    let planned = RunView { plan: matched_entries(entries, run.resolved), ..run };
    Outcome {
        warnings: declared_warnings(patch_table(metadata)) + dropped_entries(
            entries,
            run.resolved,
        ),
        ..enter_directive(planned)
    }
}

/// The staged directive becomes the one at hand.
pub open spec fn enter_staged(run: RunView, root: Seq<Seq<char>>) -> Outcome {
    if run.plan.len() > 0 {
        enter_patch(
            RunView {
                plan: run.plan.drop_first(),
                name: run.plan[0].entry.name,
                patches: run.plan[0].entry.patches,
                root,
                patched: true,
                ..run
            },
        )
    } else {
        halted(run, Abort::OutOfTurn)
    }
}

/// The target is read if it is the staged package or lies below it;
/// otherwise the run ends.
pub open spec fn enter_target(run: RunView, target: Seq<Seq<char>>) -> Outcome {
    if lies_within(run.root, target) {
        quiet(
            RunView { stage: Stage::ReadingTarget, target, ..run },
            ActionView::ReadTarget { path: target },
        )
    } else {
        halted(run, Abort::Escape)
    }
}

/// The diff at hand is applied to the target's text and the result is to
/// be written.
pub open spec fn enter_write(run: RunView, text: Seq<char>) -> Outcome {
    if run.diffs.len() > 0 {
        quiet(
            RunView { stage: Stage::Writing, diffs: run.diffs.drop_first(), ..run },
            ActionView::Write {
                path: run.target,
                content: patched_text(run.diffs[0].hunks, text),
                name: run.name,
            },
        )
    } else {
        halted(run, Abort::OutOfTurn)
    }
}

/// What follows in the state `run` on the event `event`.
pub open spec fn next(run: RunView, event: Event) -> Outcome {
    match run.stage {
        Stage::Fresh => match event {
            Event::Begin => moved(run, Stage::Resetting, ActionView::Reset),
            _ => halted(run, Abort::OutOfTurn),
        },
        Stage::Resetting => match event {
            Event::Reset(Removal::Removed) => moved(run, Stage::Loading, ActionView::Load),
            Event::Reset(Removal::Missing) => moved(run, Stage::Loading, ActionView::Load),
            Event::Reset(Removal::Failed) => halted(run, Abort::Io),
            _ => halted(run, Abort::OutOfTurn),
        },
        Stage::Loading => match event {
            Event::Loaded(Some(resolved)) => quiet(
                RunView {
                    stage: Stage::AwaitingMember,
                    resolved: dependency_views(resolved@),
                    ..run
                },
                ActionView::NextMember,
            ),
            Event::Loaded(None) => halted(run, Abort::Io),
            _ => halted(run, Abort::OutOfTurn),
        },
        Stage::AwaitingMember => match event {
            Event::Member(metadata) => enter_member(run, metadata),
            Event::NoMember => moved(
                run,
                Stage::Done,
                ActionView::Finish { patched: run.patched },
            ),
            _ => halted(run, Abort::OutOfTurn),
        },
        Stage::Staging => match event {
            Event::Staged(Staging::Staged(root)) => enter_staged(run, texts(root@)),
            Event::Staged(Staging::NoName) => halted(run, Abort::NoDirectoryName),
            Event::Staged(Staging::Failed) => halted(run, Abort::Io),
            _ => halted(run, Abort::OutOfTurn),
        },
        Stage::ReadingPatch => match event {
            Event::PatchRead(Reading::Read(text)) => moved(
                run,
                Stage::Parsing,
                ActionView::Parse { text: normalized(text@) },
            ),
            Event::PatchRead(Reading::Missing) => halted(run, Abort::PatchFileMissing),
            Event::PatchRead(Reading::Failed) => halted(run, Abort::Io),
            _ => halted(run, Abort::OutOfTurn),
        },
        Stage::Parsing => match event {
            Event::Parsed(Some(diffs)) => enter_diff(RunView { diffs: diff_views(diffs@), ..run }),
            Event::Parsed(None) => halted(run, Abort::Unparsable),
            _ => halted(run, Abort::OutOfTurn),
        },
        Stage::Resolving => match event {
            Event::Resolved(Some(target)) => enter_target(run, texts(target@)),
            Event::Resolved(None) => halted(run, Abort::Io),
            _ => halted(run, Abort::OutOfTurn),
        },
        Stage::ReadingTarget => match event {
            Event::TargetRead(Some(text)) => enter_write(run, text@),
            Event::TargetRead(None) => halted(run, Abort::Io),
            _ => halted(run, Abort::OutOfTurn),
        },
        Stage::Writing => match event {
            Event::Written(true) => enter_diff(run),
            Event::Written(false) => halted(run, Abort::Io),
            _ => halted(run, Abort::OutOfTurn),
        },
        Stage::Done => halted(run, Abort::OutOfTurn),
    }
}

/// The state that a run is in after the events `events`, the first of
/// which reaches it fresh.
pub open spec fn after(events: Seq<Event>) -> RunView
    decreases events.len(),
{
    if events.len() == 0 {
        fresh()
    } else {
        next(after(events.drop_last()), events.last()).run
    }
}

/// While a target is being read, it is the staged package or lies below
/// it.
pub open spec fn guarded(run: RunView) -> bool {
    run.stage is ReadingTarget ==> lies_within(run.root, run.target)
}

/// A staging root that was not there is as good as one that was removed:
/// the run goes on in the same way, and to loading where it waited for the
/// reset.
pub proof fn lemma_reset_idempotent(run: RunView)
    ensures
        next(run, Event::Reset(Removal::Missing)) == next(run, Event::Reset(Removal::Removed)),
        run.stage is Resetting ==> next(run, Event::Reset(Removal::Missing)) == moved(
            run,
            Stage::Loading,
            ActionView::Load,
        ),
{
}

/// A target that resolves to a path outside the staged package ends the
/// run at once.
pub proof fn lemma_escape_aborts(run: RunView, target: Vec<String>)
    requires
        run.stage is Resolving,
        !lies_within(run.root, texts(target@)),
    ensures
        next(run, Event::Resolved(Some(target))) == halted(run, Abort::Escape),
{
}

/// A run that is over stays over: whatever the event, it asks for nothing
/// but to stop.
pub proof fn lemma_done_is_final(run: RunView, event: Event)
    requires
        run.stage is Done,
    ensures
        next(run, event) == halted(run, Abort::OutOfTurn),
        next(run, event).run.stage is Done,
{
}

/// A step keeps a guarded run guarded, and what it asks to write lies in
/// the staged package.
pub proof fn lemma_step_guarded(run: RunView, event: Event)
    requires
        guarded(run),
    ensures
        guarded(next(run, event).run),
        next(run, event).action matches ActionView::Write { path, .. } ==> lies_within(
            run.root,
            path,
        ),
{
}

/// Whatever the events of a run were, a file that it then asks to write is
/// the staged package at hand or lies below it.
pub proof fn lemma_writes_stay_inside(events: Seq<Event>, event: Event)
    ensures
        guarded(after(events)),
        next(after(events), event).action matches ActionView::Write { path, .. } ==> lies_within(
            after(events).root,
            path,
        ),
    decreases events.len(),
{
    if events.len() > 0 {
        lemma_writes_stay_inside(events.drop_last(), events.last());
        lemma_step_guarded(after(events.drop_last()), events.last());
    }
    lemma_step_guarded(after(events), event);
}

/// A run whose events ran into an escaping target asks for no write
/// afterwards, whatever follows.
pub proof fn lemma_no_write_after_escape(events: Seq<Event>, target: Vec<String>, later: Event)
    requires
        after(events).stage is Resolving,
        !lies_within(after(events).root, texts(target@)),
    ensures
        next(after(events), Event::Resolved(Some(target))).action == ActionView::Abort(
            Abort::Escape,
        ),
        next(after(events.push(Event::Resolved(Some(target)))), later).action == ActionView::Abort(
            Abort::OutOfTurn,
        ),
{
    let escaped = events.push(Event::Resolved(Some(target)));
    assert(escaped.drop_last() == events);
}


/// What `outcome` holds, as `result` gives it.
pub open spec fn gives(result: (Run, Action, Vec<Warning>), outcome: Outcome) -> bool {
    &&& result.0@ == outcome.run
    &&& result.1@ == outcome.action
    &&& warning_views(result.2@) == outcome.warnings
}

fn copy_of(strings: &Vec<String>) -> (copy: Vec<String>)
    ensures
        texts(copy@) == texts(strings@),
{
    let mut copy: Vec<String> = Vec::new();
    let mut i: usize = 0;
    while i < strings.len()
        invariant
            i <= strings@.len(),
            texts(copy@) == texts(strings@).take(i as int),
        decreases strings@.len() - i,
    {
        let ghost before = copy@;
        copy.push(strings[i].clone());
        assert(texts(copy@) == texts(before).push(strings@[i as int]@));
        i = i + 1;
    }
    copy
}

fn no_warnings() -> (warnings: Vec<Warning>)
    ensures
        warning_views(warnings@) == Seq::<WarningView>::empty(),
{
    let warnings: Vec<Warning> = Vec::new();
    warnings
}

impl Run {
    /// A run that has not started.  Its first event is [`Event::Begin`].
    pub fn new() -> (run: Run)
        ensures
            run@ == fresh(),
    {
        let run = Run {
            stage: Stage::Fresh,
            resolved: Vec::new(),
            plan: Vec::new(),
            name: String::new(),
            patches: Vec::new(),
            root: Vec::new(),
            diffs: Vec::new(),
            target: Vec::new(),
            patched: false,
        };
        assert(run@.resolved == Seq::<DependencyView>::empty());
        assert(run@.plan == Seq::<MatchedView>::empty());
        assert(run@.patches == Seq::<Seq<char>>::empty());
        assert(run@.root == Seq::<Seq<char>>::empty());
        assert(run@.diffs == Seq::<FileDiffView>::empty());
        assert(run@.target == Seq::<Seq<char>>::empty());
        run
    }

    /// Whether the run is over.
    pub fn is_done(&self) -> (done: bool)
        ensures
            done == (self@.stage is Done),
    {
        match self.stage {
            Stage::Done => true,
            _ => false,
        }
    }

    fn go(self, stage: Stage, action: Action) -> (result: (Run, Action, Vec<Warning>))
        ensures
            gives(result, moved(self@, stage, action@)),
    {
        (Run { stage, ..self }, action, no_warnings())
    }

    fn halt(self, reason: Abort) -> (result: (Run, Action, Vec<Warning>))
        ensures
            gives(result, halted(self@, reason)),
    {
        self.go(Stage::Done, Action::Abort(reason))
    }

    fn directive(self) -> (result: (Run, Action, Vec<Warning>))
        ensures
            gives(result, enter_directive(self@)),
    {
        if self.plan.len() > 0 {
            let dependency = self.plan[0].dependency;
            self.go(Stage::Staging, Action::Stage { dependency })
        } else {
            self.go(Stage::AwaitingMember, Action::NextMember)
        }
    }

    fn patch(self) -> (result: (Run, Action, Vec<Warning>))
        ensures
            gives(result, enter_patch(self@)),
    {
        if self.patches.len() > 0 {
            let mut run = self;
            let ghost before = run.patches@;
            let path = run.patches.remove(0);
            assert(texts(run.patches@) == texts(before).drop_first());
            run.stage = Stage::ReadingPatch;
            (run, Action::ReadPatch { path }, no_warnings())
        } else {
            self.directive()
        }
    }

    fn diff(self) -> (result: (Run, Action, Vec<Warning>))
        ensures
            gives(result, enter_diff(self@)),
    {
        if self.diffs.len() > 0 {
            let root = copy_of(&self.root);
            let relative = self.diffs[0].path.clone();
            self.go(Stage::Resolving, Action::Resolve { root, relative })
        } else {
            self.patch()
        }
    }

    fn member(self, metadata: Option<MetaValue>) -> (result: (Run, Action, Vec<Warning>))
        ensures
            gives(result, enter_member(self@, metadata)),
    {
        let (entries, mut warnings) = get_patches(metadata.as_ref());
        let (plan, mut dropped) = get_ids(entries, &self.resolved);
        let ghost declared = warnings@;
        let ghost unmatched = dropped@;
        warnings.append(&mut dropped);
        assert(warning_views(warnings@) == warning_views(declared) + warning_views(unmatched));
        let run = Run { plan, ..self };
        let (run, action, _) = run.directive();
        (run, action, warnings)
    }

    fn staged(self, root: Vec<String>) -> (result: (Run, Action, Vec<Warning>))
        ensures
            gives(result, enter_staged(self@, texts(root@))),
    {
        if self.plan.len() > 0 {
            let mut run = self;
            let ghost before = run.plan@;
            let current = run.plan.remove(0);
            assert(matched_views(run.plan@) == matched_views(before).drop_first());
            run.name = current.entry.name;
            run.patches = current.entry.patches;
            run.root = root;
            run.patched = true;
            run.patch()
        } else {
            self.halt(Abort::OutOfTurn)
        }
    }

    fn target(self, target: Vec<String>) -> (result: (Run, Action, Vec<Warning>))
        ensures
            gives(result, enter_target(self@, texts(target@))),
    {
        if is_contained(&self.root, &target) {
            let path = copy_of(&target);
            (
                Run { stage: Stage::ReadingTarget, target, ..self },
                Action::ReadTarget { path },
                no_warnings(),
            )
        } else {
            self.halt(Abort::Escape)
        }
    }

    fn write(self, text: String) -> (result: (Run, Action, Vec<Warning>))
        ensures
            gives(result, enter_write(self@, text@)),
    {
        if self.diffs.len() > 0 {
            let mut run = self;
            let ghost before = run.diffs@;
            let diff = run.diffs.remove(0);
            assert(diff_views(run.diffs@) == diff_views(before).drop_first());
            let content = apply_hunks(&diff.hunks, text.as_str());
            let path = copy_of(&run.target);
            let name = run.name.clone();
            run.stage = Stage::Writing;
            (run, Action::Write { path, content, name }, no_warnings())
        } else {
            self.halt(Abort::OutOfTurn)
        }
    }

    /// Takes what came of the last action and says what to do next.  The
    /// first event of a run is [`Event::Begin`].  After [`Action::Finish`]
    /// or [`Action::Abort`] the run is over.
    pub fn step(self, event: Event) -> (result: (Run, Action, Vec<Warning>))
        ensures
            gives(result, next(self@, event)),
    {
        match self.stage {
            Stage::Fresh => match event {
                Event::Begin => self.go(Stage::Resetting, Action::Reset),
                _ => self.halt(Abort::OutOfTurn),
            },
            Stage::Resetting => match event {
                Event::Reset(Removal::Removed) => self.go(Stage::Loading, Action::Load),
                Event::Reset(Removal::Missing) => self.go(Stage::Loading, Action::Load),
                Event::Reset(Removal::Failed) => self.halt(Abort::Io),
                _ => self.halt(Abort::OutOfTurn),
            },
            Stage::Loading => match event {
                Event::Loaded(Some(resolved)) => {
                    let run = Run { stage: Stage::AwaitingMember, resolved, ..self };
                    (run, Action::NextMember, no_warnings())
                },
                Event::Loaded(None) => self.halt(Abort::Io),
                _ => self.halt(Abort::OutOfTurn),
            },
            Stage::AwaitingMember => match event {
                Event::Member(metadata) => self.member(metadata),
                Event::NoMember => {
                    let patched = self.patched;
                    self.go(Stage::Done, Action::Finish { patched })
                },
                _ => self.halt(Abort::OutOfTurn),
            },
            Stage::Staging => match event {
                Event::Staged(Staging::Staged(root)) => self.staged(root),
                Event::Staged(Staging::NoName) => self.halt(Abort::NoDirectoryName),
                Event::Staged(Staging::Failed) => self.halt(Abort::Io),
                _ => self.halt(Abort::OutOfTurn),
            },
            Stage::ReadingPatch => match event {
                Event::PatchRead(Reading::Read(text)) => {
                    let text = normalize_hunk_headers(text.as_str());
                    self.go(Stage::Parsing, Action::Parse { text })
                },
                Event::PatchRead(Reading::Missing) => self.halt(Abort::PatchFileMissing),
                Event::PatchRead(Reading::Failed) => self.halt(Abort::Io),
                _ => self.halt(Abort::OutOfTurn),
            },
            Stage::Parsing => match event {
                Event::Parsed(Some(diffs)) => {
                    let run = Run { diffs, ..self };
                    run.diff()
                },
                Event::Parsed(None) => self.halt(Abort::Unparsable),
                _ => self.halt(Abort::OutOfTurn),
            },
            Stage::Resolving => match event {
                Event::Resolved(Some(target)) => self.target(target),
                Event::Resolved(None) => self.halt(Abort::Io),
                _ => self.halt(Abort::OutOfTurn),
            },
            Stage::ReadingTarget => match event {
                Event::TargetRead(Some(text)) => self.write(text),
                Event::TargetRead(None) => self.halt(Abort::Io),
                _ => self.halt(Abort::OutOfTurn),
            },
            Stage::Writing => match event {
                Event::Written(true) => self.diff(),
                Event::Written(false) => self.halt(Abort::Io),
                _ => self.halt(Abort::OutOfTurn),
            },
            Stage::Done => self.halt(Abort::OutOfTurn),
        }
    }
}

} // verus!

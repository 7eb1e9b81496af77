//! The steps of the work on one candidate, as a machine.
//!
//! The machine decides; a driver acts. The machine hands out an `Action`,
//! the driver performs it on the file system and hands back what happened
//! as an `Event`, and the machine answers with the next action, until the
//! action is `Finish`.
//!
//! A free name is found by probing: the machine asks whether a file stands
//! at a path, and on each yes it asks for the next name that the names seen
//! so far leave free.

use crate::name::{archive_name, sibling, splits};
use crate::outcome::{ErrorKind, Outcome, OutcomeView};
use crate::path::{FilePath, FilePathView};
use crate::unique::{law_next_try, tried, unique};
use vstd::prelude::*;

verus! {

/// What the machine waits for.
#[derive(Clone, Copy, Debug, PartialEq, Eq, Structural)]
pub enum Stage {
    /// Whether the name tried for the archive is taken.
    Archive,
    /// The opening of the candidate.
    Open,
    /// The creation of the archive.
    Create,
    /// The next chunk of the candidate, compressed.
    Read,
    /// The writing of compressed bytes.
    Write,
    /// The writing of the last bytes.
    Finalize,
    /// Whether the name tried for the original is taken.
    Target,
    /// The move of the original.
    Move,
    /// Nothing: the work has ended.
    Finished,
}

/// What the driver is to do next.
#[derive(Debug, PartialEq, Eq)]
pub enum Action {
    /// Find out whether a file stands at the path.
    Probe { path: FilePath },
    /// Open the candidate for reading.
    OpenSource { path: FilePath },
    /// Create the archive for writing.
    CreateArchive { path: FilePath },
    /// Read the next chunk of the candidate.
    ReadSource,
    /// Append the bytes to the archive.
    WriteArchive { bytes: Vec<u8> },
    /// Append the last bytes to the archive and flush it.
    FinalizeArchive { bytes: Vec<u8> },
    /// Move the original into the holding directory.
    MoveOriginal { from: FilePath, to: FilePath },
    /// Stop: the work has ended in `outcome`.
    Finish { outcome: Outcome },
}

/// What an `Action` stands for.
pub enum ActionView {
    Probe { path: FilePathView },
    OpenSource { path: FilePathView },
    CreateArchive { path: FilePathView },
    ReadSource,
    WriteArchive { bytes: Seq<u8> },
    FinalizeArchive { bytes: Seq<u8> },
    MoveOriginal { from: FilePathView, to: FilePathView },
    Finish { outcome: OutcomeView },
}

impl View for Action {
    type V = ActionView;

    open spec fn view(&self) -> ActionView {
        match self {
            Action::Probe { path } => ActionView::Probe { path: path@ },
            Action::OpenSource { path } => ActionView::OpenSource { path: path@ },
            Action::CreateArchive { path } => ActionView::CreateArchive { path: path@ },
            Action::ReadSource => ActionView::ReadSource,
            Action::WriteArchive { bytes } => ActionView::WriteArchive { bytes: bytes@ },
            Action::FinalizeArchive { bytes } => ActionView::FinalizeArchive { bytes: bytes@ },
            Action::MoveOriginal { from, to } => ActionView::MoveOriginal { from: from@, to: to@ },
            Action::Finish { outcome } => ActionView::Finish { outcome: outcome@ },
        }
    }
}

impl DeepView for Action {
    type V = ActionView;

    open spec fn deep_view(&self) -> ActionView {
        self@
    }
}

impl ActionView {
    /// Whether the action makes or changes a file: all but probing,
    /// opening, reading and stopping.
    pub open spec fn changes_disk(self) -> bool {
        self is CreateArchive || self is WriteArchive || self is FinalizeArchive
            || self is MoveOriginal
    }
}

/// What happened when the driver performed the action.
#[derive(Debug, PartialEq, Eq)]
pub enum Event {
    /// A file stands at the path probed.
    Present,
    /// No file stands at the path probed, as far as can be told.
    Absent,
    /// The action was done.
    Done,
    /// The action failed, for this reason.
    Failed(String),
    /// A chunk was read and compressed to these bytes.
    Encoded(Vec<u8>),
    /// A chunk was read and the compressor failed on it, for this reason.
    EncodeFailed(String),
    /// The candidate was read to its end and the compressor closed with
    /// these last bytes.
    Closed(Vec<u8>),
    /// The candidate was read to its end and the compressor failed to
    /// close, for this reason.
    CloseFailed(String),
}

/// What an `Event` stands for.
pub enum EventView {
    Present,
    Absent,
    Done,
    Failed(Seq<char>),
    Encoded(Seq<u8>),
    EncodeFailed(Seq<char>),
    Closed(Seq<u8>),
    CloseFailed(Seq<char>),
}

impl View for Event {
    type V = EventView;

    open spec fn view(&self) -> EventView {
        match self {
            Event::Present => EventView::Present,
            Event::Absent => EventView::Absent,
            Event::Done => EventView::Done,
            Event::Failed(cause) => EventView::Failed(cause@),
            Event::Encoded(bytes) => EventView::Encoded(bytes@),
            Event::EncodeFailed(cause) => EventView::EncodeFailed(cause@),
            Event::Closed(bytes) => EventView::Closed(bytes@),
            Event::CloseFailed(cause) => EventView::CloseFailed(cause@),
        }
    }
}

/// The state of the work on one candidate.
pub struct JobView {
    /// The file to archive.
    pub candidate: FilePathView,
    /// The holding directory.
    pub originals_dir: Seq<char>,
    /// What the machine waits for.
    pub stage: Stage,
    /// The archive's name: the one tried, then the one chosen.
    pub archive: Seq<char>,
    /// The original's name in the holding directory: the one tried, then
    /// the one chosen.
    pub target: Seq<char>,
    /// The names found taken while a free name is sought.
    pub known: Seq<Seq<char>>,
}

impl JobView {
    /// Where the archive is made: beside the candidate.
    pub open spec fn archive_path(self) -> FilePathView {
        FilePathView { dir: self.candidate.dir, name: self.archive }
    }

    /// Where the original is moved to.
    pub open spec fn target_path(self) -> FilePathView {
        FilePathView { dir: self.originals_dir, name: self.target }
    }

    /// The same work at another stage.
    pub open spec fn at(self, stage: Stage) -> JobView {
        JobView { stage, ..self }
    }
}

/// The work on `candidate` before its first step: the archive's name is
/// sought, beginning with the name that it should have.
pub open spec fn start(candidate: FilePathView, originals_dir: Seq<char>) -> JobView {
    JobView {
        candidate,
        originals_dir,
        stage: Stage::Archive,
        archive: archive_name(candidate.name),
        target: Seq::empty(),
        known: Seq::empty(),
    }
}

/// The first action of the work on `candidate`.
pub open spec fn first_action(candidate: FilePathView) -> ActionView {
    ActionView::Probe {
        path: FilePathView { dir: candidate.dir, name: archive_name(candidate.name) },
    }
}

/// Whether `event` can be what happened to the action that the machine
/// waits for at `stage`.
pub open spec fn fits(stage: Stage, event: EventView) -> bool {
    match stage {
        Stage::Archive | Stage::Target => event is Present || event is Absent,
        Stage::Open | Stage::Create | Stage::Write | Stage::Finalize | Stage::Move => event is Done
            || event is Failed,
        Stage::Read => event is Encoded || event is EncodeFailed || event is Closed
            || event is CloseFailed || event is Failed,
        Stage::Finished => false,
    }
}

/// The end of the work in a failure of the step `kind`.
pub open spec fn failed(job: JobView, kind: ErrorKind, cause: Seq<char>) -> (JobView, ActionView) {
    (
        job.at(Stage::Finished),
        ActionView::Finish {
            outcome: OutcomeView::Failure { candidate: job.candidate, kind, cause },
        },
    )
}

/// The state after `event` and the action to take then, where `event` fits
/// the stage of `job`.
pub open spec fn next(job: JobView, event: EventView) -> (JobView, ActionView) {
    match job.stage {
        Stage::Archive => match event {
            EventView::Present => {
                let known = job.known.push(job.archive);
                let archive = unique(archive_name(job.candidate.name), known);
                let again = JobView { archive, known, ..job };
                (again, ActionView::Probe { path: again.archive_path() })
            },
            _ => (
                JobView { stage: Stage::Open, known: Seq::empty(), ..job },
                ActionView::OpenSource { path: job.candidate },
            ),
        },
        Stage::Open => match event {
            EventView::Failed(cause) => failed(job, ErrorKind::Open, cause),
            _ => (job.at(Stage::Create), ActionView::CreateArchive { path: job.archive_path() }),
        },
        Stage::Create => match event {
            EventView::Failed(cause) => failed(job, ErrorKind::Create, cause),
            _ => (job.at(Stage::Read), ActionView::ReadSource),
        },
        Stage::Read => match event {
            EventView::Encoded(bytes) => (job.at(Stage::Write), ActionView::WriteArchive { bytes }),
            EventView::Closed(bytes) => (
                job.at(Stage::Finalize),
                ActionView::FinalizeArchive { bytes },
            ),
            EventView::CloseFailed(cause) => failed(job, ErrorKind::Finalize, cause),
            EventView::EncodeFailed(cause) => failed(job, ErrorKind::Compression, cause),
            EventView::Failed(cause) => failed(job, ErrorKind::Compression, cause),
            _ => arbitrary(),
        },
        Stage::Write => match event {
            EventView::Failed(cause) => failed(job, ErrorKind::Compression, cause),
            _ => (job.at(Stage::Read), ActionView::ReadSource),
        },
        Stage::Finalize => match event {
            EventView::Failed(cause) => failed(job, ErrorKind::Finalize, cause),
            _ => {
                let sought = JobView {
                    stage: Stage::Target,
                    target: job.candidate.name,
                    known: Seq::empty(),
                    ..job
                };
                (sought, ActionView::Probe { path: sought.target_path() })
            },
        },
        Stage::Target => match event {
            EventView::Present => {
                let known = job.known.push(job.target);
                let target = unique(job.candidate.name, known);
                let again = JobView { target, known, ..job };
                (again, ActionView::Probe { path: again.target_path() })
            },
            _ => (
                JobView { stage: Stage::Move, known: Seq::empty(), ..job },
                ActionView::MoveOriginal { from: job.candidate, to: job.target_path() },
            ),
        },
        Stage::Move => match event {
            EventView::Failed(cause) => failed(job, ErrorKind::Move, cause),
            _ => (
                job.at(Stage::Finished),
                ActionView::Finish {
                    outcome: OutcomeView::Success {
                        candidate: job.candidate,
                        archive: job.archive_path(),
                        relocated: job.target_path(),
                    },
                },
            ),
        },
        Stage::Finished => arbitrary(),
    }
}

/// The state after `event` and the action to take then, or nothing where
/// `event` does not fit the stage of `job`.
pub open spec fn step(job: JobView, event: EventView) -> Option<(JobView, ActionView)> {
    if fits(job.stage, event) {
        Some(next(job, event))
    } else {
        None
    }
}

/// Whether `after` and `action` are the state and the answer that `event`
/// leads to from `before`: those of `step`, or no answer and no change
/// where the event does not fit.
pub open spec fn follows(
    before: JobView,
    event: EventView,
    after: JobView,
    action: Option<ActionView>,
) -> bool {
    match step(before, event) {
        Some((job, then)) => after == job && action == Some(then),
        None => after == before && action is None,
    }
}

/// The state after a run of events from `job`, and the actions that they
/// were answered with, in order. An event that does not fit is passed
/// over.
pub open spec fn run(job: JobView, events: Seq<EventView>) -> (JobView, Seq<ActionView>)
    decreases events.len(),
{
    if events.len() == 0 {
        (job, Seq::empty())
    } else {
        let (before, actions) = run(job, events.drop_last());
        match step(before, events.last()) {
            Some((after, action)) => (after, actions.push(action)),
            None => (before, actions),
        }
    }
}

/// Whether one of `actions` satisfies `which`.
pub open spec fn any_is(actions: Seq<ActionView>, which: spec_fn(ActionView) -> bool) -> bool {
    exists|k: int| 0 <= k < actions.len() && which(#[trigger] actions[k])
}

/// The actions that make or change a file.
pub open spec fn changing_disk() -> spec_fn(ActionView) -> bool {
    |a: ActionView| a.changes_disk()
}

/// The actions that end the work.
pub open spec fn ending() -> spec_fn(ActionView) -> bool {
    |a: ActionView| a is Finish
}

/// The action that ends the work in success.
pub open spec fn succeeding() -> spec_fn(ActionView) -> bool {
    |a: ActionView| a matches ActionView::Finish { outcome } && outcome is Success
}

/// The actions that end the work in a failure of the step `kind`.
pub open spec fn failing_at(kind: ErrorKind) -> spec_fn(ActionView) -> bool {
    |a: ActionView|
        a matches ActionView::Finish { outcome: OutcomeView::Failure { kind: k, .. } } && k == kind
}

/// The actions that end the work in a failure.
pub open spec fn failing() -> spec_fn(ActionView) -> bool {
    |a: ActionView| a matches ActionView::Finish { outcome } && outcome is Failure
}

/// The opening of the candidate.
pub open spec fn opening() -> spec_fn(ActionView) -> bool {
    |a: ActionView| a is OpenSource
}

/// The creation of the archive.
pub open spec fn creating() -> spec_fn(ActionView) -> bool {
    |a: ActionView| a is CreateArchive
}

/// The last write to the archive.
pub open spec fn finalizing() -> spec_fn(ActionView) -> bool {
    |a: ActionView| a is FinalizeArchive
}

/// The move of the original.
pub open spec fn moving() -> spec_fn(ActionView) -> bool {
    |a: ActionView| a is MoveOriginal
}

/// An action added at the end is found, and nothing else is.
proof fn lemma_any_push(
    actions: Seq<ActionView>,
    action: ActionView,
    which: spec_fn(ActionView) -> bool,
)
    ensures
        any_is(actions.push(action), which) <==> any_is(actions, which) || which(action),
{
    let all = actions.push(action);
    if any_is(actions, which) {
        let k = choose|k: int| 0 <= k < actions.len() && which(#[trigger] actions[k]);
        assert(all[k] == actions[k]);
    }
    if which(action) {
        assert(all[actions.len() as int] == action);
    }
    if any_is(all, which) {
        let k = choose|k: int| 0 <= k < all.len() && which(#[trigger] all[k]);
        if k < actions.len() {
            assert(all[k] == actions[k]);
        }
    }
}

/// What is found of one kind is found of every wider kind.
proof fn lemma_any_weakens(
    actions: Seq<ActionView>,
    which: spec_fn(ActionView) -> bool,
    wider: spec_fn(ActionView) -> bool,
)
    requires
        forall|a: ActionView| #[trigger] which(a) ==> wider(a),
    ensures
        any_is(actions, which) ==> any_is(actions, wider),
{
    if any_is(actions, which) {
        let k = choose|k: int| 0 <= k < actions.len() && which(#[trigger] actions[k]);
        assert(wider(actions[k]));
    }
}

/// Whether `pending` is the name tried for `wanted` after the names
/// `known` were found taken: `known` holds the names tried before it, in
/// their order.
pub open spec fn is_try(wanted: Seq<char>, known: Seq<Seq<char>>, pending: Seq<char>) -> bool {
    known == tried(wanted, known.len()) && pending == sibling(wanted, known.len())
}

/// What holds at each stage of the names in the state and of the actions
/// taken so far.
spec fn history_fits_stage(job: JobView, actions: Seq<ActionView>) -> bool {
    let stage = job.stage;
    let wanted = archive_name(job.candidate.name);
    &&& stage == Stage::Archive ==> is_try(wanted, job.known, job.archive)
    &&& stage == Stage::Target ==> is_try(job.candidate.name, job.known, job.target)
    &&& stage != Stage::Archive ==> exists|k: nat| job.archive == #[trigger] sibling(wanted, k)
    &&& stage == Stage::Move ==> exists|k: nat|
        job.target == #[trigger] sibling(job.candidate.name, k)
    &&& history_of_actions(job, actions)
}

/// What holds of the actions taken so far at each stage.
spec fn history_of_actions(job: JobView, actions: Seq<ActionView>) -> bool {
    let stage = job.stage;
    let live = stage != Stage::Finished || any_is(actions, succeeding());
    &&& stage == Stage::Archive || stage == Stage::Open ==> !any_is(actions, changing_disk())
    &&& stage != Stage::Finished ==> !any_is(actions, ending())
    &&& any_is(actions, failing_at(ErrorKind::Open)) ==> !any_is(actions, changing_disk())
    &&& any_is(actions, succeeding()) ==> !any_is(actions, failing())
    &&& live && stage != Stage::Archive ==> any_is(actions, opening())
    &&& live && stage != Stage::Archive && stage != Stage::Open ==> any_is(actions, creating())
    &&& live && (stage == Stage::Finalize || stage == Stage::Target || stage == Stage::Move
        || stage == Stage::Finished) ==> any_is(actions, finalizing())
    &&& live && (stage == Stage::Move || stage == Stage::Finished) ==> any_is(actions, moving())
}

/// Every run from the start keeps `history_fits_stage`.
proof fn lemma_history(candidate: FilePathView, originals_dir: Seq<char>, events: Seq<EventView>)
    ensures
        history_fits_stage(
            run(start(candidate, originals_dir), events).0,
            run(start(candidate, originals_dir), events).1,
        ),
    decreases events.len(),
{
    let begin = start(candidate, originals_dir);
    if events.len() > 0 {
        lemma_history(candidate, originals_dir, events.drop_last());
        lemma_run_keeps_candidate(candidate, originals_dir, events.drop_last());
        let (before, actions) = run(begin, events.drop_last());
        match step(before, events.last()) {
            Some((after, action)) => {
                lemma_any_push(actions, action, changing_disk());
                lemma_any_push(actions, action, ending());
                lemma_any_push(actions, action, succeeding());
                lemma_any_push(actions, action, failing());
                lemma_any_push(actions, action, failing_at(ErrorKind::Open));
                lemma_any_push(actions, action, opening());
                lemma_any_push(actions, action, creating());
                lemma_any_push(actions, action, finalizing());
                lemma_any_push(actions, action, moving());
                lemma_any_weakens(actions, succeeding(), ending());
                lemma_any_weakens(actions, failing(), ending());
                lemma_any_weakens(actions, failing_at(ErrorKind::Open), ending());
                let n = before.known.len();
                law_next_try(archive_name(candidate.name), n);
                law_next_try(archive_name(candidate.name), n + 1);
                law_next_try(candidate.name, n);
                law_next_try(candidate.name, n + 1);
                if before.stage == Stage::Finalize && after.stage == Stage::Target {
                    assert(after.known =~= tried(candidate.name, 0));
                }
            },
            None => {},
        }
    } else {
        assert(begin.known =~= tried(archive_name(candidate.name), 0));
    }
}

/// The names that the work settles on follow the pattern: at every point
/// of a run the archive's name is the wanted name or one of its numbered
/// siblings, and while a name is sought, the names found taken are those
/// tried before, in their order.
pub proof fn law_names_follow_the_pattern(
    candidate: FilePathView,
    originals_dir: Seq<char>,
    events: Seq<EventView>,
)
    requires
        splits(candidate.name),
    ensures
        ({
            let job = run(start(candidate, originals_dir), events).0;
            let wanted = archive_name(candidate.name);
            &&& exists|k: nat| job.archive == #[trigger] sibling(wanted, k)
            &&& job.stage == Stage::Archive ==> is_try(wanted, job.known, job.archive)
            &&& job.stage == Stage::Target ==> is_try(candidate.name, job.known, job.target)
            &&& job.stage == Stage::Move ==> exists|k: nat|
                job.target == #[trigger] sibling(candidate.name, k)
        }),
{
    lemma_history(candidate, originals_dir, events);
    lemma_run_keeps_candidate(candidate, originals_dir, events);
    let job = run(start(candidate, originals_dir), events).0;
    if job.stage == Stage::Archive {
        assert(job.archive == sibling(archive_name(candidate.name), job.known.len()));
    }
}

/// No run changes the candidate.
proof fn lemma_run_keeps_candidate(
    candidate: FilePathView,
    originals_dir: Seq<char>,
    events: Seq<EventView>,
)
    ensures
        run(start(candidate, originals_dir), events).0.candidate == candidate,
    decreases events.len(),
{
    if events.len() > 0 {
        lemma_run_keeps_candidate(candidate, originals_dir, events.drop_last());
    }
}

/// If the candidate cannot be opened, nothing on disk is changed: a run
/// that ends in a failure to open holds no action that makes or changes a
/// file.
pub proof fn law_failed_open_changes_nothing(
    candidate: FilePathView,
    originals_dir: Seq<char>,
    events: Seq<EventView>,
)
    ensures
        any_is(run(start(candidate, originals_dir), events).1, failing_at(ErrorKind::Open))
            ==> !any_is(run(start(candidate, originals_dir), events).1, changing_disk()),
{
    lemma_history(candidate, originals_dir, events);
}

/// Success comes only after every step: a run that ends in success has
/// opened the candidate, created the archive, finalized it and moved the
/// original, and holds no failure.
pub proof fn law_success_takes_every_step(
    candidate: FilePathView,
    originals_dir: Seq<char>,
    events: Seq<EventView>,
)
    ensures
        ({
            let actions = run(start(candidate, originals_dir), events).1;
            any_is(actions, succeeding()) ==> {
                &&& any_is(actions, opening())
                &&& any_is(actions, creating())
                &&& any_is(actions, finalizing())
                &&& any_is(actions, moving())
                &&& !any_is(actions, failing())
            }
        }),
{
    lemma_history(candidate, originals_dir, events);
    let (end, actions) = run(start(candidate, originals_dir), events);
    lemma_any_weakens(actions, succeeding(), ending());
}

/// The place of a stage in the order of the steps. Reading and writing
/// alternate and share a place.
pub open spec fn order(stage: Stage) -> nat {
    match stage {
        Stage::Archive => 0,
        Stage::Open => 1,
        Stage::Create => 2,
        Stage::Read => 3,
        Stage::Write => 3,
        Stage::Finalize => 4,
        Stage::Target => 5,
        Stage::Move => 6,
        Stage::Finished => 7,
    }
}

/// The steps are taken in their order: an event moves the work to a later
/// stage, or from reading to writing and back, or, where a name is taken,
/// to the probe of another; it never changes the candidate or the holding
/// directory.
pub proof fn law_steps_keep_their_order(job: JobView, event: EventView)
    requires
        fits(job.stage, event),
    ensures
        ({
            let after = next(job, event).0;
            &&& after.candidate == job.candidate
            &&& after.originals_dir == job.originals_dir
            &&& order(after.stage) >= order(job.stage)
            &&& order(after.stage) == order(job.stage) && after.stage == job.stage ==> event
                is Present
        }),
{
}

/// A failure ends the work: whatever the step and the cause, the machine
/// stops and takes no further event.
pub proof fn law_failure_is_final(job: JobView, kind: ErrorKind, cause: Seq<char>, event: EventView)
    ensures
        failed(job, kind, cause).1 == (ActionView::Finish {
            outcome: OutcomeView::Failure { candidate: job.candidate, kind, cause },
        }),
        step(failed(job, kind, cause).0, event) is None,
{
}

} // verus!

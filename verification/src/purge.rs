//! The purge: preview, selection, confirmation and deletion of the files of
//! one scan, as a state machine. The caller shows what an action asks for,
//! prompts, looks for files and deletes them, and hands back what happened
//! as the next event.

use crate::models::{
    file_views, lemma_selected_size_bounded, line_views, optional_text, selected_size,
    total_size, InstallerFile, InstallerFileView, ScanSummary,
};
use crate::selection::{index_set, is_selection_set, parse_selection, selection, SelectionError};
use vstd::prelude::*;
use vstd::string::*;

verus! {

/// What came of one attempt to delete a file.
#[derive(Debug, Clone, PartialEq, Eq)]
pub enum DeleteOutcome {
    /// The file was removed.
    Deleted,
    /// The path no longer existed.
    Missing,
    /// The operating system refused; `cause` is its message.
    Failed { cause: String },
}

/// The mathematical content of a [`DeleteOutcome`].
pub enum DeleteOutcomeView {
    Deleted,
    Missing,
    Failed { cause: Seq<char> },
}

impl View for DeleteOutcome {
    type V = DeleteOutcomeView;

    open spec fn view(&self) -> DeleteOutcomeView {
        match self {
            DeleteOutcome::Deleted => DeleteOutcomeView::Deleted,
            DeleteOutcome::Missing => DeleteOutcomeView::Missing,
            DeleteOutcome::Failed { cause } => DeleteOutcomeView::Failed { cause: cause@ },
        }
    }
}

/// What a purge did.
#[derive(Debug, Clone, PartialEq, Eq)]
pub struct PurgeReport {
    pub deleted_count: u64,
    pub deleted_bytes: u64,
    /// One line per file that could not be deleted, in scan order.
    pub failures: Vec<String>,
}

/// The mathematical content of a [`PurgeReport`].
pub struct PurgeReportView {
    pub deleted_count: nat,
    pub deleted_bytes: nat,
    pub failures: Seq<Seq<char>>,
}

impl View for PurgeReport {
    type V = PurgeReportView;

    open spec fn view(&self) -> PurgeReportView {
        PurgeReportView {
            deleted_count: self.deleted_count as nat,
            deleted_bytes: self.deleted_bytes as nat,
            failures: line_views(self.failures@),
        }
    }
}

/// The files that a purge is about to act on, with their combined size.
#[derive(Debug, Clone, PartialEq, Eq)]
pub struct Preview {
    /// Positions in the scan's file list, ascending.
    pub targets: Vec<usize>,
    pub total_bytes: u64,
}

/// Where a purge stands.
#[derive(Debug, Clone, Copy, PartialEq, Eq, Structural)]
pub enum PurgePhase {
    /// Nothing has happened yet.
    Preview,
    /// A selection has been asked for.
    Selection,
    /// A selection was made and awaits a yes or no.
    Confirm,
    /// Files are being deleted, one at a time.
    Execute,
    /// The purge is over.
    Done,
}

/// What the caller reports back.
#[derive(Debug, Clone, PartialEq, Eq)]
pub enum PurgeEvent {
    /// The purge was started, with or without leave to delete.
    Start { confirmed: bool },
    /// The user entered a line in answer to [`PurgeAction::AskSelection`].
    SelectionEntered { input: String },
    /// The user answered [`PurgeAction::AskConfirmation`].
    Answered { yes: bool },
    /// The path asked about by [`PurgeAction::CheckExists`] was looked for.
    ExistenceChecked { exists: bool },
    /// The deletion asked for by [`PurgeAction::Delete`] was attempted;
    /// `error` is the operating system's message where it failed.
    DeleteAttempted { error: Option<String> },
}

/// What the caller is to do next.
#[derive(Debug, Clone, PartialEq, Eq)]
pub enum PurgeAction {
    /// Show what would be deleted, and stop: this is a dry run.
    ShowDryRun { preview: Preview },
    /// Tell the user that the scan found no files, and stop.
    NothingToDelete,
    /// List the files and ask which to delete.
    AskSelection,
    /// Tell the user what is wrong with the line entered, and ask again.
    RejectSelection { error: SelectionError },
    /// Tell the user that nothing was selected, and stop.
    NothingSelected,
    /// Show the selected files and ask whether to delete them.
    AskConfirmation { preview: Preview },
    /// Tell the user that nothing was deleted, and stop.
    Declined,
    /// See whether the file at this position is still there.
    CheckExists { index: usize },
    /// Delete the file at this position, which was found to be there.
    Delete { index: usize },
    /// Show the report, and stop.
    Finished { report: PurgeReport },
    /// The event does not belong to the current phase; nothing changed.
    Unexpected,
}

/// The line that reports a file at `path` that was not deleted.
pub open spec fn failure_line(path: Seq<char>, outcome: DeleteOutcomeView) -> Seq<char> {
    match outcome {
        DeleteOutcomeView::Deleted => Seq::empty(),
        DeleteOutcomeView::Missing => "Missing: "@ + path,
        DeleteOutcomeView::Failed { cause } => path + " ("@ + cause + ")"@,
    }
}

/// What came of a deletion that was attempted: the file is deleted unless
/// the operating system gave an error.
pub open spec fn removal_outcome(error: Option<Seq<char>>) -> DeleteOutcomeView {
    match error {
        None => DeleteOutcomeView::Deleted,
        Some(cause) => DeleteOutcomeView::Failed { cause },
    }
}

/// The report before any deletion.
pub open spec fn empty_report() -> PurgeReportView {
    PurgeReportView { deleted_count: 0, deleted_bytes: 0, failures: Seq::empty() }
}

/// `report` once the attempt on `file` has ended in `outcome`: a deleted file
/// counts, with its size; any other outcome adds a failure line and leaves the
/// counts alone.
pub open spec fn recorded(
    report: PurgeReportView,
    file: InstallerFileView,
    outcome: DeleteOutcomeView,
) -> PurgeReportView {
    match outcome {
        DeleteOutcomeView::Deleted => PurgeReportView {
            deleted_count: report.deleted_count + 1,
            deleted_bytes: report.deleted_bytes + file.size_bytes,
            failures: report.failures,
        },
        _ => PurgeReportView {
            deleted_count: report.deleted_count,
            deleted_bytes: report.deleted_bytes,
            failures: report.failures.push(failure_line(file.path, outcome)),
        },
    }
}

/// The report after the first `outcomes.len()` of `targets` were attempted in
/// order, the attempt on `targets[k]` ending in `outcomes[k]`.
pub open spec fn purge_report(
    files: Seq<InstallerFileView>,
    targets: Seq<usize>,
    outcomes: Seq<DeleteOutcomeView>,
) -> PurgeReportView
    decreases outcomes.len(),
{
    if outcomes.len() == 0 {
        empty_report()
    } else {
        recorded(
            purge_report(files, targets, outcomes.drop_last()),
            files[targets[outcomes.len() - 1] as int],
            outcomes.last(),
        )
    }
}

/// The targets whose attempt ended in a deletion, in order.
pub open spec fn deleted_targets(targets: Seq<usize>, outcomes: Seq<DeleteOutcomeView>) -> Seq<
    usize,
>
    decreases outcomes.len(),
{
    if outcomes.len() == 0 {
        Seq::empty()
    } else if outcomes.last() is Deleted {
        deleted_targets(targets, outcomes.drop_last()).push(targets[outcomes.len() - 1])
    } else {
        deleted_targets(targets, outcomes.drop_last())
    }
}

/// One file's failure touches no other file: whatever the outcomes, every
/// attempt is accounted for once, as a deletion or as a failure line, and the
/// bytes counted are those of the files that were deleted and of no other.
pub proof fn lemma_failures_are_isolated(
    files: Seq<InstallerFile>,
    targets: Seq<usize>,
    outcomes: Seq<DeleteOutcomeView>,
)
    requires
        outcomes.len() <= targets.len(),
        forall|k: int| 0 <= k < targets.len() ==> targets[k] < files.len(),
    ensures
        ({
            let report = purge_report(file_views(files), targets, outcomes);
            let deleted = deleted_targets(targets, outcomes);
            &&& report.deleted_count == deleted.len()
            &&& report.failures.len() == outcomes.len() - deleted.len()
            &&& report.deleted_bytes == selected_size(files, deleted)
        }),
    decreases outcomes.len(),
{
    if outcomes.len() > 0 {
        lemma_failures_are_isolated(files, targets, outcomes.drop_last());
        let earlier = deleted_targets(targets, outcomes.drop_last());
        let at = targets[outcomes.len() - 1];
        if outcomes.last() is Deleted {
            assert(earlier.push(at).drop_last() =~= earlier);
            assert(file_views(files)[at as int] == files[at as int]@);
        }
    }
}

/// Every position below `n`, ascending.
pub open spec fn every_index(n: nat) -> Seq<usize> {
    Seq::new(n, |i: int| i as usize)
}

/// One purge of the files of one scan. The scan is held as it was when the
/// purge began; positions in it stay what they were.
pub struct PurgeSession {
    summary: ScanSummary,
    phase: PurgePhase,
    targets: Vec<usize>,
    attempts: usize,
    removing: bool,
    report: PurgeReport,
    outcomes: Ghost<Seq<DeleteOutcomeView>>,
}

impl PurgeSession {
    /// The scan that this purge works on.
    pub closed spec fn scan(&self) -> ScanSummary {
        self.summary
    }

    /// The phase that the purge is in.
    pub closed spec fn current_phase(&self) -> PurgePhase {
        self.phase
    }

    /// The positions selected for deletion; empty until a selection is made.
    pub closed spec fn selected(&self) -> Seq<usize> {
        self.targets@
    }

    /// The outcomes so far, one per attempted target, in order.
    pub closed spec fn attempted(&self) -> Seq<DeleteOutcomeView> {
        self.outcomes@
    }

    /// Whether the next target was found to be there and its deletion is
    /// awaited.
    pub closed spec fn awaits_removal(&self) -> bool {
        self.removing
    }

    #[verifier::type_invariant]
    closed spec fn consistent(&self) -> bool {
        let done = self.outcomes@.len();
        &&& self.attempts == done
        &&& self.removing ==> self.phase == PurgePhase::Execute
        &&& total_size(self.summary.files@) <= u64::MAX
        &&& is_selection_set(self.targets@, self.summary.files@.len())
        &&& done <= self.targets@.len()
        &&& self.report@ == purge_report(
            file_views(self.summary.files@),
            self.targets@,
            self.outcomes@,
        )
        &&& self.report.deleted_count + self.report.failures@.len() == done
        &&& self.report.deleted_bytes <= selected_size(
            self.summary.files@,
            self.targets@.take(done as int),
        )
        &&& match self.phase {
            PurgePhase::Preview | PurgePhase::Selection => self.targets@.len() == 0,
            PurgePhase::Confirm => self.targets@.len() > 0 && done == 0,
            PurgePhase::Execute => done < self.targets@.len(),
            PurgePhase::Done => true,
        }
    }

    /// Begins a purge of `summary`. There is none where the sizes of its
    /// files do not add up to a 64-bit number.
    pub fn new(summary: ScanSummary) -> (session: Option<PurgeSession>)
        ensures
            session is Some <==> summary.total() <= u64::MAX,
            session matches Some(s) ==> {
                &&& s.scan() == summary
                &&& s.current_phase() == PurgePhase::Preview
                &&& s.selected().len() == 0
                &&& s.attempted().len() == 0
                &&& !s.awaits_removal()
            },
    {
        if summary.checked_total_size_bytes().is_none() {
            return None;
        }
        let report = PurgeReport { deleted_count: 0, deleted_bytes: 0, failures: Vec::new() };
        assert(report@.failures =~= Seq::<Seq<char>>::empty());
        Some(
            PurgeSession {
                summary,
                phase: PurgePhase::Preview,
                targets: Vec::new(),
                attempts: 0,
                removing: false,
                report,
                outcomes: Ghost(Seq::empty()),
            },
        )
    }

    /// The scan that this purge works on.
    pub fn summary(&self) -> (summary: &ScanSummary)
        ensures
            *summary == self.scan(),
            summary.total() <= u64::MAX,
    {
        proof {
            use_type_invariant(self);
        }
        &self.summary
    }

    /// The phase that the purge is in.
    pub fn phase(&self) -> (phase: PurgePhase)
        ensures
            phase == self.current_phase(),
    {
        self.phase
    }

    /// Whether `next` is what a start leads to: a dry run shows every file
    /// and ends; a purge with leave to delete ends at once where the scan
    /// holds no file, and else asks for a selection.
    pub open spec fn starts(&self, confirmed: bool, next: (PurgeSession, PurgeAction)) -> bool {
        let n = self.scan().files@.len();
        if !confirmed {
            &&& next.0.current_phase() == PurgePhase::Done
            &&& next.1 matches PurgeAction::ShowDryRun { preview }
            &&& preview.targets@ == every_index(n)
            &&& preview.total_bytes == self.scan().total()
        } else if n == 0 {
            &&& next.0.current_phase() == PurgePhase::Done
            &&& next.1 is NothingToDelete
        } else {
            &&& next.0.current_phase() == PurgePhase::Selection
            &&& next.0.selected().len() == 0
            &&& !next.0.awaits_removal()
            &&& next.1 is AskSelection
        }
    }

    /// Whether `next` is what the entered line `input` leads to: a line that
    /// does not parse is turned down and asked for again, an empty selection
    /// ends the purge, and any other is kept and shown for confirmation.
    pub open spec fn selects(&self, input: Seq<char>, next: (PurgeSession, PurgeAction)) -> bool {
        let n = self.scan().files@.len();
        match selection(input, n) {
            Err(fault) => {
                &&& next.0.current_phase() == PurgePhase::Selection
                &&& next.0.selected().len() == 0
                &&& !next.0.awaits_removal()
                &&& next.1 matches PurgeAction::RejectSelection { error }
                &&& error@ == fault
            },
            Ok(chosen) => if chosen =~= Set::empty() {
                &&& next.0.current_phase() == PurgePhase::Done
                &&& next.1 is NothingSelected
            } else {
                &&& next.0.current_phase() == PurgePhase::Confirm
                &&& is_selection_set(next.0.selected(), n)
                &&& index_set(next.0.selected()) == chosen
                &&& next.0.attempted().len() == 0
                &&& !next.0.awaits_removal()
                &&& next.1 matches PurgeAction::AskConfirmation { preview }
                &&& preview.targets@ == next.0.selected()
                &&& preview.total_bytes == selected_size(self.scan().files@, next.0.selected())
            },
        }
    }

    /// Whether `next` is what the answer `yes` leads to: after a yes the
    /// first selected file is looked for, and a no ends the purge.
    pub open spec fn answers(&self, yes: bool, next: (PurgeSession, PurgeAction)) -> bool {
        if yes {
            &&& next.0.current_phase() == PurgePhase::Execute
            &&& next.0.selected() == self.selected()
            &&& next.0.attempted().len() == 0
            &&& !next.0.awaits_removal()
            &&& next.1 == (PurgeAction::CheckExists { index: self.selected()[0] })
        } else {
            &&& next.0.current_phase() == PurgePhase::Done
            &&& next.1 is Declined
        }
    }

    /// Whether `next` is what a look for the next target leads to: a file
    /// that is there is to be deleted, and one that is not is entered in the
    /// account as missing.
    pub open spec fn checks(&self, exists: bool, next: (PurgeSession, PurgeAction)) -> bool {
        if exists {
            &&& next.0.current_phase() == PurgePhase::Execute
            &&& next.0.selected() == self.selected()
            &&& next.0.attempted() == self.attempted()
            &&& next.0.awaits_removal()
            &&& next.1 == (PurgeAction::Delete {
                index: self.selected()[self.attempted().len() as int],
            })
        } else {
            self.records(DeleteOutcomeView::Missing, next)
        }
    }

    /// Whether `next` is what the outcome of one attempt leads to. Whatever
    /// the outcome, it is entered in the account and the next selected file
    /// follows; after the last the report is handed out.
    pub open spec fn records(
        &self,
        outcome: DeleteOutcomeView,
        next: (PurgeSession, PurgeAction),
    ) -> bool {
        let attempted = self.attempted().push(outcome);
        &&& next.0.selected() == self.selected()
        &&& next.0.attempted() == attempted
        &&& !next.0.awaits_removal()
        &&& if attempted.len() < self.selected().len() {
            &&& next.0.current_phase() == PurgePhase::Execute
            &&& next.1 == (PurgeAction::CheckExists {
                index: self.selected()[attempted.len() as int],
            })
        } else {
            &&& next.0.current_phase() == PurgePhase::Done
            &&& attempted.len() == self.selected().len()
            &&& next.1 matches PurgeAction::Finished { report }
            &&& report@ == purge_report(
                file_views(self.scan().files@),
                self.selected(),
                attempted,
            )
        }
    }

    /// Whether `next` is this session unchanged, with the event turned down.
    pub open spec fn ignores(&self, next: (PurgeSession, PurgeAction)) -> bool {
        &&& next.0.current_phase() == self.current_phase()
        &&& next.0.selected() == self.selected()
        &&& next.0.attempted() == self.attempted()
        &&& next.0.awaits_removal() == self.awaits_removal()
        &&& next.1 is Unexpected
    }

    /// Whether `next` is what `event` leads to. An event that does not belong
    /// to the current phase changes nothing.
    pub open spec fn steps_to(&self, event: PurgeEvent, next: (PurgeSession, PurgeAction)) -> bool {
        &&& next.0.scan() == self.scan()
        &&& match (self.current_phase(), event) {
            (PurgePhase::Preview, PurgeEvent::Start { confirmed }) => self.starts(confirmed, next),
            (PurgePhase::Selection, PurgeEvent::SelectionEntered { input }) => self.selects(
                input@,
                next,
            ),
            (PurgePhase::Confirm, PurgeEvent::Answered { yes }) => self.answers(yes, next),
            (PurgePhase::Execute, PurgeEvent::ExistenceChecked { exists }) => {
                if self.awaits_removal() {
                    self.ignores(next)
                } else {
                    self.checks(exists, next)
                }
            },
            (PurgePhase::Execute, PurgeEvent::DeleteAttempted { error }) => {
                if self.awaits_removal() {
                    self.records(removal_outcome(optional_text(error)), next)
                } else {
                    self.ignores(next)
                }
            },
            _ => self.ignores(next),
        }
    }

    /// Takes the purge one step further: `event` is what happened since the
    /// last action, and the result is the session as it now stands together
    /// with what the caller is to do next.
    ///
    /// A dry run ends with the preview of all files. A confirmed purge asks
    /// for a selection until one parses, stops if it is empty, asks for a yes,
    /// stops on a no, and then takes the selected files in scan order: each
    /// is looked for, and deleted if it is there. Whatever the outcome for
    /// one file, the next follows; after the last the report is handed out.
    pub fn step(self, event: PurgeEvent) -> (next: (PurgeSession, PurgeAction))
        ensures
            self.steps_to(event, next),
    {
        proof {
            use_type_invariant(&self);
        }
        match (self.phase, event) {
            (PurgePhase::Preview, PurgeEvent::Start { confirmed }) => self.start(confirmed),
            (PurgePhase::Selection, PurgeEvent::SelectionEntered { input }) => self.select(
                input.as_str(),
            ),
            (PurgePhase::Confirm, PurgeEvent::Answered { yes }) => self.answer(yes),
            (PurgePhase::Execute, PurgeEvent::ExistenceChecked { exists }) => {
                if self.removing {
                    (self, PurgeAction::Unexpected)
                } else if exists {
                    self.remove()
                } else {
                    self.record(DeleteOutcome::Missing)
                }
            },
            (PurgePhase::Execute, PurgeEvent::DeleteAttempted { error }) => {
                if !self.removing {
                    (self, PurgeAction::Unexpected)
                } else {
                    match error {
                        None => self.record(DeleteOutcome::Deleted),
                        Some(cause) => self.record(DeleteOutcome::Failed { cause }),
                    }
                }
            },
            _ => (self, PurgeAction::Unexpected),
        }
    }

    fn start(self, confirmed: bool) -> (next: (PurgeSession, PurgeAction))
        requires
            self.current_phase() == PurgePhase::Preview,
        ensures
            next.0.scan() == self.scan(),
            self.starts(confirmed, next),
    {
        proof {
            use_type_invariant(&self);
        }
        let PurgeSession { summary, phase: _, targets, attempts, removing: _, report, outcomes } = self;
        if !confirmed {
            let total_bytes = summary.total_size_bytes();
            let mut all: Vec<usize> = Vec::new();
            let mut i: usize = 0;
            while i < summary.files.len()
                invariant
                    i <= summary.files.len(),
                    all@ == every_index(i as nat),
                decreases summary.files.len() - i,
            {
                all.push(i);
                assert(all@ =~= every_index((i + 1) as nat));
                i = i + 1;
            }
            let preview = Preview { targets: all, total_bytes };
            (
                PurgeSession {
                    summary,
                    phase: PurgePhase::Done,
                    targets,
                    attempts,
                    removing: false,
                    report,
                    outcomes,
                },
                PurgeAction::ShowDryRun { preview },
            )
        } else if summary.files.len() == 0 {
            (
                PurgeSession {
                    summary,
                    phase: PurgePhase::Done,
                    targets,
                    attempts,
                    removing: false,
                    report,
                    outcomes,
                },
                PurgeAction::NothingToDelete,
            )
        } else {
            (
                PurgeSession {
                    summary,
                    phase: PurgePhase::Selection,
                    targets,
                    attempts,
                    removing: false,
                    report,
                    outcomes,
                },
                PurgeAction::AskSelection,
            )
        }
    }

    fn select(self, input: &str) -> (next: (PurgeSession, PurgeAction))
        requires
            self.current_phase() == PurgePhase::Selection,
        ensures
            next.0.scan() == self.scan(),
            self.selects(input@, next),
    {
        proof {
            use_type_invariant(&self);
        }
        let PurgeSession { summary, phase, targets, attempts, removing: _, report, outcomes } = self;
        match parse_selection(input, summary.files.len()) {
            Err(error) => (
                PurgeSession {
                    summary,
                    phase,
                    targets,
                    attempts,
                    removing: false,
                    report,
                    outcomes,
                },
                PurgeAction::RejectSelection { error },
            ),
            Ok(chosen) => {
                if chosen.len() == 0 {
                    assert(index_set(chosen@) =~= Set::<int>::empty());
                    (
                        PurgeSession {
                            summary,
                            phase: PurgePhase::Done,
                            targets,
                            attempts,
                            removing: false,
                            report,
                            outcomes,
                        },
                        PurgeAction::NothingSelected,
                    )
                } else {
                    assert(index_set(chosen@).contains(chosen@[0] as int));
                    let total_bytes = selected_size_bytes(&summary.files, &chosen);
                    let preview = Preview { targets: chosen.clone(), total_bytes };
                    assert(chosen@.take(0) =~= Seq::<usize>::empty());
                    (
                        PurgeSession {
                            summary,
                            phase: PurgePhase::Confirm,
                            targets: chosen,
                            attempts,
                            removing: false,
                            report,
                            outcomes,
                        },
                        PurgeAction::AskConfirmation { preview },
                    )
                }
            },
        }
    }

    fn answer(self, yes: bool) -> (next: (PurgeSession, PurgeAction))
        requires
            self.current_phase() == PurgePhase::Confirm,
        ensures
            next.0.scan() == self.scan(),
            self.answers(yes, next),
    {
        proof {
            use_type_invariant(&self);
        }
        let PurgeSession { summary, phase: _, targets, attempts, removing: _, report, outcomes } = self;
        if yes {
            let index = targets[0];
            (
                PurgeSession {
                    summary,
                    phase: PurgePhase::Execute,
                    targets,
                    attempts,
                    removing: false,
                    report,
                    outcomes,
                },
                PurgeAction::CheckExists { index },
            )
        } else {
            (
                PurgeSession {
                    summary,
                    phase: PurgePhase::Done,
                    targets,
                    attempts,
                    removing: false,
                    report,
                    outcomes,
                },
                PurgeAction::Declined,
            )
        }
    }

    fn remove(self) -> (next: (PurgeSession, PurgeAction))
        requires
            self.current_phase() == PurgePhase::Execute,
            !self.awaits_removal(),
        ensures
            next.0.scan() == self.scan(),
            self.checks(true, next),
    {
        proof {
            use_type_invariant(&self);
        }
        let PurgeSession { summary, phase, targets, attempts, removing: _, report, outcomes } =
            self;
        let index = targets[attempts];
        (
            PurgeSession { summary, phase, targets, attempts, removing: true, report, outcomes },
            PurgeAction::Delete { index },
        )
    }

    fn record(self, outcome: DeleteOutcome) -> (next: (PurgeSession, PurgeAction))
        requires
            self.current_phase() == PurgePhase::Execute,
        ensures
            next.0.scan() == self.scan(),
            self.records(outcome@, next),
    {
        proof {
            use_type_invariant(&self);
        }
        let PurgeSession { summary, phase: _, targets, attempts, removing: _, report, outcomes } = self;
        let ghost attempted = outcomes@.push(outcome@);
        let ghost done = outcomes@.len() as int;
        let selected_count = targets.len();
        let index = targets[attempts];
        let ghost reached = targets@.take(done + 1);
        proof {
            assert(report.deleted_count <= done);
            assert(reached.drop_last() =~= targets@.take(done));
            assert(reached.last() == index);
            assert forall|i: int, j: int| 0 <= i < j < reached.len() implies reached[i]
                < reached[j] by {
                assert(reached[i] == targets@[i] && reached[j] == targets@[j]);
            }
            lemma_selected_size_bounded(summary.files@, reached, summary.files@.len() as int);
            assert(summary.files@.take(summary.files@.len() as int) =~= summary.files@);
            assert(attempted.drop_last() =~= outcomes@);
            assert(file_views(summary.files@)[index as int] == summary.files@[index as int]@);
            assert(selected_size(summary.files@, reached) == selected_size(
                summary.files@,
                targets@.take(done),
            ) + summary.files@[index as int].size_bytes);
        }
        let report = record_outcome(report, &summary.files[index], &outcome);
        let outcomes = Ghost(attempted);
        let attempts = attempts + 1;
        if attempts < selected_count {
            let index = targets[attempts];
            (
                PurgeSession {
                    summary,
                    phase: PurgePhase::Execute,
                    targets,
                    attempts,
                    removing: false,
                    report,
                    outcomes,
                },
                PurgeAction::CheckExists { index },
            )
        } else {
            let handed = PurgeReport {
                deleted_count: report.deleted_count,
                deleted_bytes: report.deleted_bytes,
                failures: report.failures.clone(),
            };
            assert(handed@.failures =~= report@.failures);
            (
                PurgeSession {
                    summary,
                    phase: PurgePhase::Done,
                    targets,
                    attempts,
                    removing: false,
                    report,
                    outcomes,
                },
                PurgeAction::Finished { report: handed },
            )
        }
    }
}

/// Whether `trace` is a run of the purge: each entry is reached from the one
/// before it by the event of the same position in `events`.
pub open spec fn is_purge_run(
    trace: Seq<(PurgeSession, PurgeAction)>,
    events: Seq<PurgeEvent>,
) -> bool {
    &&& trace.len() == events.len() + 1
    &&& forall|k: int|
        0 <= k < events.len() ==> (#[trigger] trace[k]).0.steps_to(events[k], trace[k + 1])
}

/// Whether a session is in the middle of its batch, with targets left, or
/// at its end, with every target attempted.
pub open spec fn is_mid_batch_or_through(session: PurgeSession) -> bool {
    ||| session.current_phase() == PurgePhase::Execute && session.attempted().len()
        < session.selected().len()
    ||| session.current_phase() == PurgePhase::Done && session.attempted().len()
        == session.selected().len()
}

/// No failure ends the batch early. Once deletion has begun, whatever is
/// reported of the files, the purge is over only when every selected file
/// was attempted; until then it goes on, with the same selection and with all
/// earlier outcomes kept.
pub proof fn lemma_batch_is_never_cut_short(
    trace: Seq<(PurgeSession, PurgeAction)>,
    events: Seq<PurgeEvent>,
    k: int,
)
    requires
        is_purge_run(trace, events),
        trace[0].0.current_phase() == PurgePhase::Execute,
        trace[0].0.attempted().len() < trace[0].0.selected().len(),
        0 <= k <= events.len(),
    ensures
        is_mid_batch_or_through(trace[k].0),
        trace[k].0.scan() == trace[0].0.scan(),
        trace[k].0.selected() == trace[0].0.selected(),
        trace[0].0.attempted().is_prefix_of(trace[k].0.attempted()),
    decreases k,
{
    if k > 0 {
        lemma_batch_is_never_cut_short(trace, events, k - 1);
        assert(trace[k - 1].0.steps_to(events[k - 1], trace[k]));
        assert(trace[k - 1].0.attempted().is_prefix_of(trace[k].0.attempted()));
    }
}

/// A file that is no longer there needs no deletion: it is entered in the
/// account as missing, and the batch goes on with the next target or ends
/// with the report.
pub proof fn lemma_missing_file_is_passed_over(
    session: PurgeSession,
    next: (PurgeSession, PurgeAction),
)
    requires
        session.current_phase() == PurgePhase::Execute,
        !session.awaits_removal(),
        session.steps_to(PurgeEvent::ExistenceChecked { exists: false }, next),
    ensures
        next.0.attempted() == session.attempted().push(DeleteOutcomeView::Missing),
        next.1 is CheckExists || next.1 is Finished,
{
}

/// The sizes of the files at `targets`, added up.
fn selected_size_bytes(files: &Vec<InstallerFile>, targets: &Vec<usize>) -> (sum: u64)
    requires
        total_size(files@) <= u64::MAX,
        is_selection_set(targets@, files@.len()),
    ensures
        sum == selected_size(files@, targets@),
{
    let mut sum: u64 = 0;
    let mut i: usize = 0;
    while i < targets.len()
        invariant
            i <= targets.len(),
            total_size(files@) <= u64::MAX,
            is_selection_set(targets@, files@.len()),
            sum == selected_size(files@, targets@.take(i as int)),
        decreases targets.len() - i,
    {
        proof {
            let reached = targets@.take(i + 1);
            assert(reached.drop_last() =~= targets@.take(i as int));
            assert forall|a: int, b: int| 0 <= a < b < reached.len() implies reached[a]
                < reached[b] by {
                assert(reached[a] == targets@[a] && reached[b] == targets@[b]);
            }
            lemma_selected_size_bounded(files@, reached, files@.len() as int);
            assert(files@.take(files@.len() as int) =~= files@);
        }
        sum = sum + files[targets[i]].size_bytes;
        i = i + 1;
    }
    assert(targets@.take(i as int) =~= targets@);
    sum
}

/// Enters the outcome of the attempt on `file` into `report`.
fn record_outcome(report: PurgeReport, file: &InstallerFile, outcome: &DeleteOutcome) -> (updated:
    PurgeReport)
    requires
        outcome is Deleted ==> report.deleted_count < u64::MAX && report.deleted_bytes
            + file.size_bytes <= u64::MAX,
    ensures
        updated@ == recorded(report@, file@, outcome@),
        outcome is Deleted ==> updated.failures@.len() == report.failures@.len(),
        !(outcome is Deleted) ==> updated.failures@.len() == report.failures@.len() + 1,
{
    let PurgeReport { deleted_count, deleted_bytes, failures } = report;
    let mut failures = failures;
    let ghost before = line_views(failures@);
    match outcome {
        DeleteOutcome::Deleted => PurgeReport {
            deleted_count: deleted_count + 1,
            deleted_bytes: deleted_bytes + file.size_bytes,
            failures,
        },
        DeleteOutcome::Missing => {
            let mut line = String::from_str("Missing: ");
            line.append(file.path.as_str());
            failures.push(line);
            assert(line_views(failures@) =~= before.push(line@));
            PurgeReport { deleted_count, deleted_bytes, failures }
        },
        DeleteOutcome::Failed { cause } => {
            let mut line = file.path.clone();
            line.append(" (");
            line.append(cause.as_str());
            line.append(")");
            failures.push(line);
            assert(line_views(failures@) =~= before.push(line@));
            PurgeReport { deleted_count, deleted_bytes, failures }
        },
    }
}

} // verus!

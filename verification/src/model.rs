//! An import run as a state machine: the state between two operations, and
//! what each answer leads to.

use crate::entry::PathKind;
use crate::outcome::{ErrorView, OutcomeView, SkipReason};
use crate::protocol::{ActionView, EventView, StepView};
use crate::scan::import_paths;
use vstd::prelude::*;

verus! {

/// Which answer a run is waiting for.
#[derive(Debug, Clone, Copy, PartialEq, Eq, Structural)]
pub enum Phase {
    /// The resource is being opened.
    Opening,
    /// The input in hand is being probed.
    Probing,
    /// The input in hand is a directory, and is being listed.
    Listing,
    /// The resource is being asked whether it holds the file in hand.
    Containing,
    /// The resource is being asked whether it takes the file in hand.
    Accepting,
    /// The file in hand is being stored under `id`.
    Ingesting { id: u128 },
    /// The run is over.
    Finished,
}

/// The state of a run between two operations.
pub struct RunModel {
    /// The name of the resource that the run imports into.
    pub resource: Seq<char>,
    /// The paths given to the run that it is not done with. The first is the input in hand.
    pub inputs: Seq<Seq<char>>,
    /// The files of the input in hand that the run is not done with. The
    /// first is the file in hand.
    pub files: Seq<Seq<char>>,
    /// Which answer the run is waiting for.
    pub phase: Phase,
    /// The error that ended the run, if one did.
    pub failure: Option<ErrorView>,
}

impl RunModel {
    /// A run that has all of `inputs` before it.
    pub open spec fn start(resource: Seq<char>, inputs: Seq<Seq<char>>) -> RunModel {
        RunModel { resource, inputs, files: Seq::empty(), phase: Phase::Opening, failure: None }
    }

    /// What a state must satisfy: there is an input in hand while one is
    /// worked on, a file in hand while one is examined, and only a finished
    /// run has failed.
    pub open spec fn wf(self) -> bool {
        &&& (self.phase is Probing || self.phase is Listing) ==> self.inputs.len() > 0
        &&& (self.phase is Containing || self.phase is Accepting || self.phase is Ingesting) ==> {
            &&& self.inputs.len() > 0
            &&& self.files.len() > 0
        }
        &&& self.failure is Some ==> self.phase is Finished
    }

    /// How the run ended, if it is over.
    pub open spec fn result(self) -> Result<(), ErrorView> {
        match self.failure {
            Some(error) => Err(error),
            None => Ok(()),
        }
    }

    /// The operation that the run is waiting for.
    pub open spec fn pending(self) -> ActionView {
        match self.phase {
            Phase::Opening => ActionView::Open { resource: self.resource },
            Phase::Probing => ActionView::Probe { path: self.inputs.first() },
            Phase::Listing => ActionView::List { path: self.inputs.first() },
            Phase::Containing => ActionView::Contains { path: self.files.first() },
            Phase::Accepting => ActionView::Accepts { path: self.files.first() },
            Phase::Ingesting { id } => ActionView::Ingest { id, path: self.files.first() },
            Phase::Finished => ActionView::Finish(self.result()),
        }
    }

    /// The run ended by `error`.
    pub open spec fn failed(self, error: ErrorView) -> RunModel {
        RunModel { phase: Phase::Finished, failure: Some(error), ..self }
    }

    /// The run about to take up the first of `inputs`, or over if there is none.
    pub open spec fn take_up(self, inputs: Seq<Seq<char>>) -> RunModel {
        RunModel {
            inputs,
            files: Seq::empty(),
            phase: if inputs.len() > 0 {
                Phase::Probing
            } else {
                Phase::Finished
            },
            ..self
        }
    }

    /// The run about to examine the first of `files`; with none, it goes on
    /// to the next input.
    pub open spec fn examine(self, files: Seq<Seq<char>>) -> RunModel {
        if files.len() > 0 {
            RunModel { files, phase: Phase::Containing, ..self }
        } else {
            self.take_up(self.inputs.drop_first())
        }
    }

    /// The state after `event`. `draw` is the identifier at hand in case the
    /// step has a file stored. An event that does not answer the pending
    /// operation changes nothing.
    pub open spec fn next(self, event: EventView, draw: u128) -> RunModel {
        match (self.phase, event) {
            (Phase::Opening, EventView::Opened(Ok(_))) => self.take_up(self.inputs),
            (Phase::Opening, EventView::Opened(Err(detail))) => self.failed(
                ErrorView::ResourceError(detail),
            ),
            (Phase::Probing, EventView::Probed(PathKind::Missing)) => self.failed(
                ErrorView::ImportPathNotFound(self.inputs.first()),
            ),
            (Phase::Probing, EventView::Probed(PathKind::Directory)) => RunModel {
                phase: Phase::Listing,
                ..self
            },
            (Phase::Probing, EventView::Probed(PathKind::File)) => self.examine(
                seq![self.inputs.first()],
            ),
            (Phase::Probing, EventView::Probed(PathKind::Other)) => self.take_up(
                self.inputs.drop_first(),
            ),
            (Phase::Listing, EventView::Listed(Ok(entries))) => self.examine(import_paths(entries)),
            (Phase::Listing, EventView::Listed(Err(detail))) => self.failed(
                ErrorView::ReadImportsError(detail),
            ),
            (Phase::Containing, EventView::Contained(Ok(true))) => self.examine(
                self.files.drop_first(),
            ),
            (Phase::Containing, EventView::Contained(Ok(false))) => RunModel {
                phase: Phase::Accepting,
                ..self
            },
            (Phase::Containing, EventView::Contained(Err(detail))) => self.failed(
                ErrorView::ContainsFileError(detail),
            ),
            (Phase::Accepting, EventView::Accepted(false)) => self.examine(self.files.drop_first()),
            (Phase::Accepting, EventView::Accepted(true)) => RunModel {
                phase: Phase::Ingesting { id: draw },
                ..self
            },
            (Phase::Ingesting { .. }, EventView::Ingested(Ok(_))) => self.examine(
                self.files.drop_first(),
            ),
            (Phase::Ingesting { .. }, EventView::Ingested(Err(detail))) => self.failed(
                ErrorView::CopyFileError(detail),
            ),
            _ => self,
        }
    }

    /// The outcome that `event` settles for the file in hand, if it settles one.
    pub open spec fn outcome(self, event: EventView) -> Option<OutcomeView> {
        match (self.phase, event) {
            (Phase::Containing, EventView::Contained(Ok(true))) => Some(
                OutcomeView::Skipped {
                    source: self.files.first(),
                    reason: SkipReason::AlreadyImported,
                },
            ),
            (Phase::Accepting, EventView::Accepted(false)) => Some(
                OutcomeView::Skipped {
                    source: self.files.first(),
                    reason: SkipReason::InvalidFormat,
                },
            ),
            (Phase::Ingesting { .. }, EventView::Ingested(Ok(target))) => Some(
                OutcomeView::Imported { source: self.files.first(), target },
            ),
            _ => None,
        }
    }

    /// What a step on `event` yields: the outcome that it settles, and the
    /// operation that the run then waits for.
    pub open spec fn step(self, event: EventView, draw: u128) -> StepView {
        StepView { outcome: self.outcome(event), action: self.next(event, draw).pending() }
    }

    /// Whether `event` has a file stored, and so uses the identifier at hand.
    pub open spec fn draws(self, event: EventView) -> bool {
        self.phase is Accepting && event == EventView::Accepted(true)
    }
}

/// Every step keeps a well-formed state well-formed.
pub proof fn lemma_next_wf(run: RunModel, event: EventView, draw: u128)
    requires
        run.wf(),
    ensures
        run.next(event, draw).wf(),
{
}

/// The identifier at hand matters to a step only where the step has a file stored.
pub proof fn law_draw_only_used_to_store(run: RunModel, event: EventView, one: u128, other: u128)
    requires
        !run.draws(event),
    ensures
        run.next(event, one) == run.next(event, other),
        run.step(event, one) == run.step(event, other),
{
}

} // verus!

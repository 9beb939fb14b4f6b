//! An import run, driven one operation at a time.
//!
//! The run decides; it performs nothing. Whoever drives it carries out the
//! operation that the run asks for and hands back how it went:
//! [`ImportRun::pending`] names the first operation, each call of
//! [`ImportRun::step`] takes an answer and names the next.

use crate::entry::PathKind;
use crate::ident::{fresh_id, is_random_uuid};
use crate::model::{Phase, RunModel};
use crate::outcome::{outcome_view, Error, Outcome, SkipReason};
use crate::protocol::{Action, Event, Step};
use crate::scan::import_order;
use vstd::prelude::*;

verus! {

/// A run that imports the files named by a list of paths into one resource.
pub struct ImportRun {
    resource: String,
    inputs: Vec<String>,
    /// Index into `inputs` of the input in hand.
    cursor: usize,
    files: Vec<String>,
    /// Index into `files` of the file in hand.
    position: usize,
    phase: Phase,
    failure: Option<Error>,
}

impl View for ImportRun {
    type V = RunModel;

    closed spec fn view(&self) -> RunModel {
        RunModel {
            resource: self.resource@,
            inputs: self.inputs.deep_view().skip(self.cursor as int),
            files: self.files.deep_view().skip(self.position as int),
            phase: self.phase,
            failure: match self.failure {
                Some(error) => Some(error@),
                None => None,
            },
        }
    }
}

impl ImportRun {
    /// Whether the run's indices lie within its lists and its state is well-formed.
    pub closed spec fn wf(&self) -> bool {
        &&& self.cursor <= self.inputs.len()
        &&& self.position <= self.files.len()
        &&& self@.wf()
    }

    /// A run that will import `inputs`, in this order, into the resource named `resource`.
    pub fn new(resource: String, inputs: Vec<String>) -> (run: ImportRun)
        ensures
            run.wf(),
            run@ == RunModel::start(resource@, inputs.deep_view()),
    {
        let run = ImportRun {
            resource,
            inputs,
            cursor: 0,
            files: Vec::new(),
            position: 0,
            phase: Phase::Opening,
            failure: None,
        };
        assert(run@.inputs =~= inputs.deep_view());
        assert(run@.files =~= Seq::empty());
        run
    }

    /// The operation that the run is waiting for.
    pub fn pending(&self) -> (action: Action)
        requires
            self.wf(),
        ensures
            action@ == self@.pending(),
    {
        match self.phase {
            Phase::Opening => Action::Open { resource: self.resource.clone() },
            Phase::Probing => Action::Probe { path: self.inputs[self.cursor].clone() },
            Phase::Listing => Action::List { path: self.inputs[self.cursor].clone() },
            Phase::Containing => Action::Contains { path: self.files[self.position].clone() },
            Phase::Accepting => Action::Accepts { path: self.files[self.position].clone() },
            Phase::Ingesting { id } => Action::Ingest {
                id,
                path: self.files[self.position].clone(),
            },
            Phase::Finished => match &self.failure {
                Some(error) => Action::Finish(Err(error.clone())),
                None => Action::Finish(Ok(())),
            },
        }
    }

    /// Whether a step on `event` has a file stored, and so needs a fresh identifier.
    pub fn draws(&self, event: &Event) -> (needed: bool)
        ensures
            needed == self@.draws(event@),
    {
        match self.phase {
            Phase::Accepting => match event {
                Event::Accepted(true) => true,
                _ => false,
            },
            _ => false,
        }
    }

    /// Takes the answer to the pending operation and tells what the run asks
    /// for next. Where the answer has a file stored, the identifier for it
    /// is drawn afresh.
    pub fn step(&mut self, event: Event) -> (step: Step)
        requires
            old(self).wf(),
        ensures
            final(self).wf(),
            exists|draw: u128|
                #![trigger old(self)@.next(event@, draw)]
                {
                    &&& old(self)@.draws(event@) ==> is_random_uuid(draw)
                    &&& final(self)@ == old(self)@.next(event@, draw)
                    &&& step@ == old(self)@.step(event@, draw)
                },
            !old(self)@.draws(event@) ==> {
                &&& final(self)@ == old(self)@.next(event@, 0)
                &&& step@ == old(self)@.step(event@, 0)
            },
    {
        let draw: u128 = if self.draws(&event) {
            fresh_id()
        } else {
            0
        };
        let ghost answer = event@;
        let step = self.step_with(event, draw);
        assert(self@ == old(self)@.next(answer, draw) && step@ == old(self)@.step(answer, draw));
        step
    }

    /// As [`ImportRun::step`], with the identifier to use given as `draw`.
    pub fn step_with(&mut self, event: Event, draw: u128) -> (step: Step)
        requires
            old(self).wf(),
        ensures
            final(self).wf(),
            final(self)@ == old(self)@.next(event@, draw),
            step@ == old(self)@.step(event@, draw),
    {
        let outcome = match self.phase {
            Phase::Opening => {
                self.open_resource(event);
                None
            },
            Phase::Probing => {
                self.probe_input(event);
                None
            },
            Phase::Listing => {
                self.import_dir(event);
                None
            },
            Phase::Containing | Phase::Accepting | Phase::Ingesting { .. } => self.import_file(
                event,
                draw,
            ),
            Phase::Finished => None,
        };
        let action = self.pending();
        Step { outcome, action }
    }

    /// The step of a run that is opening its resource.
    fn open_resource(&mut self, event: Event)
        requires
            old(self).wf(),
            old(self).phase is Opening,
        ensures
            final(self).wf(),
            final(self)@ == old(self)@.next(event@, 0),
    {
        match event {
            Event::Opened(Ok(_)) => {
                assert(self@.inputs.skip(0) =~= self@.inputs);
                self.take_up(self.cursor);
            },
            Event::Opened(Err(detail)) => {
                self.fail(Error::ResourceError(detail));
            },
            _ => {},
        }
    }

    /// The step of a run that is probing the input in hand.
    fn probe_input(&mut self, event: Event)
        requires
            old(self).wf(),
            old(self).phase is Probing,
        ensures
            final(self).wf(),
            final(self)@ == old(self)@.next(event@, 0),
    {
        match event {
            Event::Probed(PathKind::Missing) => {
                let path = self.inputs[self.cursor].clone();
                self.fail(Error::ImportPathNotFound(path));
            },
            Event::Probed(PathKind::Directory) => {
                self.phase = Phase::Listing;
            },
            Event::Probed(PathKind::File) => {
                let mut files: Vec<String> = Vec::new();
                files.push(self.inputs[self.cursor].clone());
                assert(files.deep_view() =~= seq![old(self)@.inputs.first()]);
                self.examine(files);
            },
            Event::Probed(PathKind::Other) => {
                self.take_up(self.cursor + 1);
            },
            _ => {},
        }
    }

    /// The step of a run that is listing a directory: its regular files
    /// are examined in the order of their modification times.
    fn import_dir(&mut self, event: Event)
        requires
            old(self).wf(),
            old(self).phase is Listing,
        ensures
            final(self).wf(),
            final(self)@ == old(self)@.next(event@, 0),
    {
        match event {
            Event::Listed(Ok(entries)) => {
                let files = import_order(&entries);
                self.examine(files);
            },
            Event::Listed(Err(detail)) => {
                self.fail(Error::ReadImportsError(detail));
            },
            _ => {},
        }
    }

    /// The step of a run that is examining the file in hand: a file that
    /// the resource holds is skipped; one that it does not hold and does
    /// not take is skipped; any other is stored under `draw`.
    fn import_file(&mut self, event: Event, draw: u128) -> (outcome: Option<Outcome>)
        requires
            old(self).wf(),
            old(self).phase is Containing || old(self).phase is Accepting || old(
                self,
            ).phase is Ingesting,
        ensures
            final(self).wf(),
            final(self)@ == old(self)@.next(event@, draw),
            outcome_view(outcome) == old(self)@.outcome(event@),
    {
        match self.phase {
            Phase::Containing => match event {
                Event::Contained(Ok(true)) => {
                    let source = self.files[self.position].clone();
                    self.next_file();
                    Some(Outcome::Skipped { source, reason: SkipReason::AlreadyImported })
                },
                Event::Contained(Ok(false)) => {
                    self.phase = Phase::Accepting;
                    None
                },
                Event::Contained(Err(detail)) => {
                    self.fail(Error::ContainsFileError(detail));
                    None
                },
                _ => None,
            },
            Phase::Accepting => match event {
                Event::Accepted(false) => {
                    let source = self.files[self.position].clone();
                    self.next_file();
                    Some(Outcome::Skipped { source, reason: SkipReason::InvalidFormat })
                },
                Event::Accepted(true) => {
                    self.phase = Phase::Ingesting { id: draw };
                    None
                },
                _ => None,
            },
            Phase::Ingesting { .. } => match event {
                Event::Ingested(Ok(target)) => {
                    let source = self.files[self.position].clone();
                    self.next_file();
                    Some(Outcome::Imported { source, target })
                },
                Event::Ingested(Err(detail)) => {
                    self.fail(Error::CopyFileError(detail));
                    None
                },
                _ => None,
            },
            _ => None,
        }
    }

    /// Ends the run with `error`.
    fn fail(&mut self, error: Error)
        requires
            old(self).wf(),
        ensures
            final(self).wf(),
            final(self)@ == old(self)@.failed(error@),
    {
        self.phase = Phase::Finished;
        self.failure = Some(error);
    }

    /// Takes up the input at `cursor`, or ends the run if there is none.
    fn take_up(&mut self, cursor: usize)
        requires
            old(self).wf(),
            old(self).failure is None,
            old(self).cursor <= cursor <= old(self).inputs.len(),
        ensures
            final(self).wf(),
            final(self)@ == old(self)@.take_up(
                old(self)@.inputs.skip(cursor - old(self).cursor),
            ),
    {
        self.cursor = cursor;
        self.files = Vec::new();
        self.position = 0;
        self.phase = if cursor < self.inputs.len() {
            Phase::Probing
        } else {
            Phase::Finished
        };
        assert(self@.inputs =~= old(self)@.inputs.skip(cursor - old(self).cursor));
        assert(self@.files =~= Seq::empty());
    }

    /// Starts on `files`; with none, goes on to the next input.
    fn examine(&mut self, files: Vec<String>)
        requires
            old(self).wf(),
            old(self).failure is None,
            old(self).cursor < old(self).inputs.len(),
        ensures
            final(self).wf(),
            final(self)@ == old(self)@.examine(files.deep_view()),
    {
        if files.len() > 0 {
            self.files = files;
            self.position = 0;
            self.phase = Phase::Containing;
            assert(self@.files =~= files.deep_view());
        } else {
            assert(old(self)@.inputs.skip(1) =~= old(self)@.inputs.drop_first());
            self.take_up(self.cursor + 1);
        }
    }

    /// Goes on to the file after the one in hand; after the last, to the next input.
    fn next_file(&mut self)
        requires
            old(self).wf(),
            old(self).failure is None,
            old(self).cursor < old(self).inputs.len(),
            old(self).position < old(self).files.len(),
        ensures
            final(self).wf(),
            final(self)@ == old(self)@.examine(old(self)@.files.drop_first()),
    {
        assert(old(self)@.files.drop_first() =~= old(self).files.deep_view().skip(
            old(self).position + 1,
        ));
        if self.position + 1 < self.files.len() {
            self.position = self.position + 1;
            self.phase = Phase::Containing;
        } else {
            assert(old(self)@.inputs.skip(1) =~= old(self)@.inputs.drop_first());
            self.take_up(self.cursor + 1);
        }
    }
}

} // verus!

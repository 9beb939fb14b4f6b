//! What passes between an import run and whoever carries out its requests:
//! the run asks for one operation at a time and is told how it went.

use crate::entry::{DirEntry, DirEntryView, PathKind};
use crate::outcome::{outcome_view, result_view, Error, ErrorView, Outcome, OutcomeView};
use vstd::prelude::*;

verus! {

/// An operation that the run asks for.
#[derive(Debug, PartialEq, Eq)]
pub enum Action {
    /// Open the resource of this name, creating it if there is none.
    Open { resource: String },
    /// Find out what is at a path that the run was given.
    Probe { path: String },
    /// List the immediate entries of a directory, with their modification times.
    List { path: String },
    /// Ask the resource whether it already holds the file.
    Contains { path: String },
    /// Ask the resource whether it takes files of this format.
    Accepts { path: String },
    /// Store the file in the resource under `id`.
    Ingest { id: u128, path: String },
    /// Nothing more: the run is over, and this is how it ended.
    Finish(Result<(), Error>),
}

/// An action as contracts see it.
pub enum ActionView {
    Open { resource: Seq<char> },
    Probe { path: Seq<char> },
    List { path: Seq<char> },
    Contains { path: Seq<char> },
    Accepts { path: Seq<char> },
    Ingest { id: u128, path: Seq<char> },
    Finish(Result<(), ErrorView>),
}

impl View for Action {
    type V = ActionView;

    open spec fn view(&self) -> ActionView {
        match self {
            Action::Open { resource } => ActionView::Open { resource: resource@ },
            Action::Probe { path } => ActionView::Probe { path: path@ },
            Action::List { path } => ActionView::List { path: path@ },
            Action::Contains { path } => ActionView::Contains { path: path@ },
            Action::Accepts { path } => ActionView::Accepts { path: path@ },
            Action::Ingest { id, path } => ActionView::Ingest { id: *id, path: path@ },
            Action::Finish(result) => ActionView::Finish(result_view(*result)),
        }
    }
}

impl Clone for Action {
    fn clone(&self) -> (copy: Action)
        ensures
            copy@ == self@,
    {
        match self {
            Action::Open { resource } => Action::Open { resource: resource.clone() },
            Action::Probe { path } => Action::Probe { path: path.clone() },
            Action::List { path } => Action::List { path: path.clone() },
            Action::Contains { path } => Action::Contains { path: path.clone() },
            Action::Accepts { path } => Action::Accepts { path: path.clone() },
            Action::Ingest { id, path } => Action::Ingest { id: *id, path: path.clone() },
            Action::Finish(Ok(_)) => Action::Finish(Ok(())),
            Action::Finish(Err(error)) => Action::Finish(Err(error.clone())),
        }
    }
}

/// How an operation went. A failure carries what the operation said of it.
#[derive(Debug, PartialEq, Eq)]
pub enum Event {
    /// The resource was opened, or could not be.
    Opened(Result<(), String>),
    /// What is at the probed path.
    Probed(PathKind),
    /// The entries of the directory, in any order, or why they could not be read.
    Listed(Result<Vec<DirEntry>, String>),
    /// Whether the resource holds the file, or why it could not tell.
    Contained(Result<bool, String>),
    /// Whether the resource takes the file's format.
    Accepted(bool),
    /// The path under which the file was stored, or why it was not.
    Ingested(Result<String, String>),
}

/// An event as contracts see it.
pub enum EventView {
    Opened(Result<(), Seq<char>>),
    Probed(PathKind),
    Listed(Result<Seq<DirEntryView>, Seq<char>>),
    Contained(Result<bool, Seq<char>>),
    Accepted(bool),
    Ingested(Result<Seq<char>, Seq<char>>),
}

impl View for Event {
    type V = EventView;

    open spec fn view(&self) -> EventView {
        match self {
            Event::Opened(Ok(_)) => EventView::Opened(Ok(())),
            Event::Opened(Err(detail)) => EventView::Opened(Err(detail@)),
            Event::Probed(kind) => EventView::Probed(*kind),
            Event::Listed(Ok(entries)) => EventView::Listed(Ok(entries.deep_view())),
            Event::Listed(Err(detail)) => EventView::Listed(Err(detail@)),
            Event::Contained(Ok(held)) => EventView::Contained(Ok(*held)),
            Event::Contained(Err(detail)) => EventView::Contained(Err(detail@)),
            Event::Accepted(taken) => EventView::Accepted(*taken),
            Event::Ingested(Ok(target)) => EventView::Ingested(Ok(target@)),
            Event::Ingested(Err(detail)) => EventView::Ingested(Err(detail@)),
        }
    }
}

/// What one step of a run yields.
#[derive(Debug, PartialEq, Eq)]
pub struct Step {
    /// The outcome for the file that this step was done with, if it was done with one.
    pub outcome: Option<Outcome>,
    /// What the run asks for next.
    pub action: Action,
}

impl Clone for Step {
    fn clone(&self) -> (copy: Step)
        ensures
            copy@ == self@,
    {
        Step {
            outcome: match &self.outcome {
                Some(outcome) => Some(outcome.clone()),
                None => None,
            },
            action: self.action.clone(),
        }
    }
}

/// A step as contracts see it.
pub struct StepView {
    pub outcome: Option<OutcomeView>,
    pub action: ActionView,
}

impl View for Step {
    type V = StepView;

    open spec fn view(&self) -> StepView {
        StepView { outcome: outcome_view(self.outcome), action: self.action@ }
    }
}

} // verus!

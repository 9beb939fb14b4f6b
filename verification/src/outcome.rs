//! What a run reports: one outcome for each file it examined, or the error
//! that ended it.

use vstd::prelude::*;
use vstd::string::*;

verus! {

/// Why a file was left out.
#[derive(Debug, Clone, Copy, PartialEq, Eq, Structural)]
pub enum SkipReason {
    /// The resource already holds the file.
    AlreadyImported,
    /// The resource does not take files of this format.
    InvalidFormat,
}

/// What became of one examined file.
#[derive(Debug, PartialEq, Eq)]
pub enum Outcome {
    /// The file at `source` was stored at `target`.
    Imported { source: String, target: String },
    /// The file at `source` was left out.
    Skipped { source: String, reason: SkipReason },
}

/// An outcome as contracts see it.
pub enum OutcomeView {
    Imported { source: Seq<char>, target: Seq<char> },
    Skipped { source: Seq<char>, reason: SkipReason },
}

impl View for Outcome {
    type V = OutcomeView;

    open spec fn view(&self) -> OutcomeView {
        match self {
            Outcome::Imported { source, target } => OutcomeView::Imported {
                source: source@,
                target: target@,
            },
            Outcome::Skipped { source, reason } => OutcomeView::Skipped {
                source: source@,
                reason: *reason,
            },
        }
    }
}

impl OutcomeView {
    /// The path of the file that the outcome is about.
    pub open spec fn source(self) -> Seq<char> {
        match self {
            OutcomeView::Imported { source, .. } => source,
            OutcomeView::Skipped { source, .. } => source,
        }
    }
}

/// The view of an outcome that may be absent.
pub open spec fn outcome_view(outcome: Option<Outcome>) -> Option<OutcomeView> {
    match outcome {
        Some(o) => Some(o@),
        None => None,
    }
}

/// The line that tells of an outcome.
pub open spec fn outcome_line(outcome: OutcomeView) -> Seq<char> {
    match outcome {
        OutcomeView::Imported { source, target } => "Copied: "@ + source + " to "@ + target,
        OutcomeView::Skipped { source, reason: SkipReason::AlreadyImported } =>
            "Skipping (already imported): "@ + source,
        OutcomeView::Skipped { source, reason: SkipReason::InvalidFormat } =>
            "Skipping (invalid format): "@ + source,
    }
}

/// The line that announces a path given to the run.
pub open spec fn found_line(path: Seq<char>) -> Seq<char> {
    "Found: "@ + path
}

impl Outcome {
    /// The line to print for this outcome.
    pub fn describe(&self) -> (line: String)
        ensures
            line@ == outcome_line(self@),
    {
        match self {
            Outcome::Imported { source, target } => {
                let mut line = String::from_str("Copied: ");
                line.append(source.as_str());
                line.append(" to ");
                line.append(target.as_str());
                line
            },
            Outcome::Skipped { source, reason: SkipReason::AlreadyImported } => {
                let mut line = String::from_str("Skipping (already imported): ");
                line.append(source.as_str());
                line
            },
            Outcome::Skipped { source, reason: SkipReason::InvalidFormat } => {
                let mut line = String::from_str("Skipping (invalid format): ");
                line.append(source.as_str());
                line
            },
        }
    }
}

/// The line to print when the run takes up one of the paths it was given.
pub fn describe_found(path: &str) -> (line: String)
    ensures
        line@ == found_line(path@),
{
    let mut line = String::from_str("Found: ");
    line.append(path);
    line
}

/// Why a run ended early. Each variant carries what the failed operation
/// said, but for `ImportPathNotFound`, which carries the path.
#[derive(Debug, PartialEq, Eq)]
pub enum Error {
    /// The resource could not be opened or created.
    ResourceError(String),
    /// A path given to the run does not exist.
    ImportPathNotFound(String),
    /// The resource could not tell whether it holds a file.
    ContainsFileError(String),
    /// A directory could not be listed, or the metadata of one of its
    /// entries could not be read.
    ReadImportsError(String),
    /// A file could not be stored.
    CopyFileError(String),
}

/// An error as contracts see it.
pub enum ErrorView {
    ResourceError(Seq<char>),
    ImportPathNotFound(Seq<char>),
    ContainsFileError(Seq<char>),
    ReadImportsError(Seq<char>),
    CopyFileError(Seq<char>),
}

impl View for Error {
    type V = ErrorView;

    open spec fn view(&self) -> ErrorView {
        match self {
            Error::ResourceError(detail) => ErrorView::ResourceError(detail@),
            Error::ImportPathNotFound(path) => ErrorView::ImportPathNotFound(path@),
            Error::ContainsFileError(detail) => ErrorView::ContainsFileError(detail@),
            Error::ReadImportsError(detail) => ErrorView::ReadImportsError(detail@),
            Error::CopyFileError(detail) => ErrorView::CopyFileError(detail@),
        }
    }
}

impl Clone for Error {
    fn clone(&self) -> (copy: Error)
        ensures
            copy@ == self@,
    {
        match self {
            Error::ResourceError(detail) => Error::ResourceError(detail.clone()),
            Error::ImportPathNotFound(path) => Error::ImportPathNotFound(path.clone()),
            Error::ContainsFileError(detail) => Error::ContainsFileError(detail.clone()),
            Error::ReadImportsError(detail) => Error::ReadImportsError(detail.clone()),
            Error::CopyFileError(detail) => Error::CopyFileError(detail.clone()),
        }
    }
}

impl Clone for Outcome {
    fn clone(&self) -> (copy: Outcome)
        ensures
            copy@ == self@,
    {
        match self {
            Outcome::Imported { source, target } => Outcome::Imported {
                source: source.clone(),
                target: target.clone(),
            },
            Outcome::Skipped { source, reason } => Outcome::Skipped {
                source: source.clone(),
                reason: *reason,
            },
        }
    }
}

/// How a run ended, as contracts see it.
pub open spec fn result_view(result: Result<(), Error>) -> Result<(), ErrorView> {
    match result {
        Ok(_) => Ok(()),
        Err(e) => Err(e@),
    }
}

} // verus!

//! How the work on one candidate ended.

use crate::path::{FilePath, FilePathView};
use vstd::prelude::*;

verus! {

/// The step at which the work on a candidate failed.
#[derive(Clone, Copy, Debug, PartialEq, Eq, Structural)]
pub enum ErrorKind {
    /// The candidate could not be opened for reading.
    Open,
    /// The archive could not be created.
    Create,
    /// Reading, compressing or writing failed in mid-stream.
    Compression,
    /// The compressor could not be closed, or its last bytes not written.
    Finalize,
    /// The original could not be moved to the holding directory.
    Move,
}

/// The result of the work on one candidate. It is final: nothing is tried
/// again.
#[derive(Debug, PartialEq, Eq)]
pub enum Outcome {
    /// Every step was done: the archive stands at `archive` and the
    /// original at `relocated`.
    Success { candidate: FilePath, archive: FilePath, relocated: FilePath },
    /// The step `kind` failed for the reason `cause`; no later step was
    /// taken.
    Failure { candidate: FilePath, kind: ErrorKind, cause: String },
}

/// What an `Outcome` stands for.
pub enum OutcomeView {
    Success { candidate: FilePathView, archive: FilePathView, relocated: FilePathView },
    Failure { candidate: FilePathView, kind: ErrorKind, cause: Seq<char> },
}

impl View for Outcome {
    type V = OutcomeView;

    open spec fn view(&self) -> OutcomeView {
        match self {
            Outcome::Success { candidate, archive, relocated } => OutcomeView::Success {
                candidate: candidate@,
                archive: archive@,
                relocated: relocated@,
            },
            Outcome::Failure { candidate, kind, cause } => OutcomeView::Failure {
                candidate: candidate@,
                kind: *kind,
                cause: cause@,
            },
        }
    }
}

impl DeepView for Outcome {
    type V = OutcomeView;

    open spec fn deep_view(&self) -> OutcomeView {
        self@
    }
}

impl OutcomeView {
    /// The candidate that the outcome is about.
    pub open spec fn candidate(self) -> FilePathView {
        match self {
            OutcomeView::Success { candidate, .. } => candidate,
            OutcomeView::Failure { candidate, .. } => candidate,
        }
    }
}

impl Outcome {
    /// Whether every step was done.
    pub fn is_success(&self) -> (yes: bool)
        ensures
            yes == (self@ is Success),
    {
        match self {
            Outcome::Success { .. } => true,
            Outcome::Failure { .. } => false,
        }
    }

    /// The candidate that the outcome is about.
    pub fn candidate(&self) -> (path: &FilePath)
        ensures
            path@ == self@.candidate(),
    {
        match self {
            Outcome::Success { candidate, .. } => candidate,
            Outcome::Failure { candidate, .. } => candidate,
        }
    }

    /// The step that failed, if one did.
    pub fn error_kind(&self) -> (kind: Option<ErrorKind>)
        ensures
            kind == match self@ {
                OutcomeView::Success { .. } => None,
                OutcomeView::Failure { kind, .. } => Some(kind),
            },
    {
        match self {
            Outcome::Success { .. } => None,
            Outcome::Failure { kind, .. } => Some(*kind),
        }
    }
}

} // verus!

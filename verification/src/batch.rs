//! The batch coordinator: one worker for each candidate, once the holding
//! directory stands, and the account of how the workers ended.

use crate::outcome::{Outcome, OutcomeView};
use crate::protocol::{first_action, start, Action};
use crate::select::Candidate;
use crate::worker::Worker;
use vstd::prelude::*;

verus! {

/// Why a whole run was given up before any candidate was worked on.
#[derive(Debug, PartialEq, Eq)]
pub enum BatchError {
    /// The holding directory could not be created, for the reason `cause`.
    DirectoryCreation { dir: String, cause: String },
}

/// What a `BatchError` stands for.
pub enum BatchErrorView {
    DirectoryCreation { dir: Seq<char>, cause: Seq<char> },
}

impl View for BatchError {
    type V = BatchErrorView;

    open spec fn view(&self) -> BatchErrorView {
        match self {
            BatchError::DirectoryCreation { dir, cause } => BatchErrorView::DirectoryCreation {
                dir: dir@,
                cause: cause@,
            },
        }
    }
}

/// Sets up the work on a batch, given how the creation of the holding
/// directory went: where it failed, the run is given up and no worker is
/// made; else there is one fresh worker for each candidate, in order, with
/// its first action.
pub fn dispatch(
    candidates: &Vec<Candidate>,
    originals_dir: &str,
    created: Result<(), String>,
) -> (jobs: Result<Vec<(Worker, Action)>, BatchError>)
    ensures
        match created {
            Err(cause) => jobs matches Err(error) && error@ == (BatchErrorView::DirectoryCreation {
                dir: originals_dir@,
                cause: cause@,
            }),
            Ok(_) => jobs matches Ok(begun) && begun.len() == candidates.len() && forall|i: int|
                0 <= i < begun.len() ==> (#[trigger] begun[i]).0@ == start(
                    candidates[i]@,
                    originals_dir@,
                ) && begun[i].1@ == first_action(candidates[i]@),
        },
{
    match created {
        Err(cause) => Err(BatchError::DirectoryCreation { dir: originals_dir.to_owned(), cause }),
        Ok(_) => {
            let mut begun: Vec<(Worker, Action)> = Vec::new();
            let mut i: usize = 0;
            while i < candidates.len()
                invariant
                    i <= candidates.len(),
                    begun.len() == i,
                    forall|k: int|
                        0 <= k < i ==> (#[trigger] begun[k]).0@ == start(
                            candidates[k]@,
                            originals_dir@,
                        ) && begun[k].1@ == first_action(candidates[k]@),
                decreases candidates.len() - i,
            {
                begun.push(Worker::new(candidates[i].clone(), originals_dir));
                i = i + 1;
            }
            Ok(begun)
        },
    }
}

/// How many of `outcomes` are successes.
pub open spec fn successes(outcomes: Seq<OutcomeView>) -> nat
    decreases outcomes.len(),
{
    if outcomes.len() == 0 {
        0
    } else {
        successes(outcomes.drop_last()) + if outcomes.last() is Success {
            1nat
        } else {
            0nat
        }
    }
}

/// The account of a batch: how many candidates were archived and how many
/// failed.
#[derive(Clone, Copy, Debug, PartialEq, Eq, Structural)]
pub struct Summary {
    pub succeeded: usize,
    pub failed: usize,
}

/// Counts the successes and the failures among the outcomes of a batch.
pub fn summarize(outcomes: &Vec<Outcome>) -> (summary: Summary)
    ensures
        summary.succeeded == successes(outcomes.deep_view()),
        summary.succeeded + summary.failed == outcomes.len(),
{
    let ghost all = outcomes.deep_view();
    let mut succeeded: usize = 0;
    let mut failed: usize = 0;
    let mut i: usize = 0;
    while i < outcomes.len()
        invariant
            i <= outcomes.len(),
            all == outcomes.deep_view(),
            succeeded == successes(all.take(i as int)),
            succeeded + failed == i,
        decreases outcomes.len() - i,
    {
        proof {
            assert(all.take(i + 1).drop_last() =~= all.take(i as int));
            assert(all.take(i + 1).last() == outcomes@[i as int]@);
        }
        if outcomes[i].is_success() {
            succeeded = succeeded + 1;
        } else {
            failed = failed + 1;
        }
        i = i + 1;
    }
    assert(all.take(i as int) =~= all);
    Summary { succeeded, failed }
}

/// The exit code of the process: only a run that was given up is an error.
/// Candidates that failed do not make the run fail.
pub fn exit_code(run: &Result<Summary, BatchError>) -> (code: i32)
    ensures
        code == if run is Ok {
            0i32
        } else {
            1i32
        },
{
    match run {
        Ok(_) => 0,
        Err(_) => 1,
    }
}

/// One failure among the outcomes of a batch leaves every other candidate
/// a success: where all outcomes but the one at `k` are successes, one
/// less than all are counted.
pub proof fn law_one_failure_leaves_the_rest(outcomes: Seq<OutcomeView>, k: int)
    requires
        0 <= k < outcomes.len(),
        outcomes[k] is Failure,
        forall|i: int| 0 <= i < outcomes.len() && i != k ==> outcomes[i] is Success,
    ensures
        successes(outcomes) == outcomes.len() - 1,
    decreases outcomes.len(),
{
    let front = outcomes.drop_last();
    if k == outcomes.len() - 1 {
        lemma_all_successes(front);
    } else {
        law_one_failure_leaves_the_rest(front, k);
    }
}

/// Where every outcome is a success, all are counted.
pub proof fn lemma_all_successes(outcomes: Seq<OutcomeView>)
    requires
        forall|i: int| 0 <= i < outcomes.len() ==> outcomes[i] is Success,
    ensures
        successes(outcomes) == outcomes.len(),
    decreases outcomes.len(),
{
    if outcomes.len() > 0 {
        lemma_all_successes(outcomes.drop_last());
    }
}

} // verus!

//! What a run reports once all its workers have ended.
//!
//! A run succeeds where every worker has completed its share. Otherwise it
//! fails as its first worker that did not complete failed, first by worker
//! index, whatever the order in which the workers ended.
use crate::error::TransferError;
use vstd::prelude::*;

verus! {

/// How one worker ended.
#[derive(Clone, Copy, Debug, PartialEq, Eq, Structural)]
pub enum WorkerOutcome {
    /// The worker moved its whole share.
    Completed,
    /// The worker gave up with this error.
    Failed(TransferError),
    /// The worker ended without reporting anything.
    Panicked,
}

impl WorkerOutcome {
    /// The error that the outcome stands for, if it is a failure. A worker
    /// that reported nothing counts as a thread failure.
    pub open spec fn failure(self) -> Option<TransferError> {
        match self {
            WorkerOutcome::Completed => None,
            WorkerOutcome::Failed(error) => Some(error),
            WorkerOutcome::Panicked => Some(TransferError::ThreadFailure),
        }
    }
}

/// The failure of the first worker that did not complete, if there is one.
pub open spec fn first_failure(outcomes: Seq<WorkerOutcome>) -> Option<TransferError>
    decreases outcomes.len(),
{
    if outcomes.len() == 0 {
        None
    } else if outcomes[0].failure() is Some {
        outcomes[0].failure()
    } else {
        first_failure(outcomes.drop_first())
    }
}

/// There is no first failure exactly where every worker completed. Where
/// there is one, it is the failure of a worker before which every worker
/// completed.
pub proof fn lemma_first_failure(outcomes: Seq<WorkerOutcome>)
    ensures
        first_failure(outcomes) is None <==> forall|i: int|
            0 <= i < outcomes.len() ==> outcomes[i] == WorkerOutcome::Completed,
        first_failure(outcomes) is Some ==> exists|i: int|
            0 <= i < outcomes.len() && first_failure(outcomes) == (#[trigger] outcomes[i]).failure()
                && forall|j: int| 0 <= j < i ==> outcomes[j] == WorkerOutcome::Completed,
    decreases outcomes.len(),
{
    if outcomes.len() > 0 {
        let rest = outcomes.drop_first();
        lemma_first_failure(rest);
        if outcomes[0].failure() is Some {
            assert(first_failure(outcomes) == outcomes[0].failure());
        } else {
            assert(outcomes[0] == WorkerOutcome::Completed);
            assert forall|i: int| 0 < i < outcomes.len() implies outcomes[i] == rest[i - 1] by {}
            if first_failure(rest) is None {
                assert forall|i: int| 0 <= i < outcomes.len() implies outcomes[i]
                    == WorkerOutcome::Completed by {
                    if i > 0 {
                        assert(rest[i - 1] == WorkerOutcome::Completed);
                    }
                }
            } else {
                let at = choose|i: int|
                    0 <= i < rest.len() && first_failure(rest) == (#[trigger] rest[i]).failure()
                        && forall|j: int| 0 <= j < i ==> rest[j] == WorkerOutcome::Completed;
                assert(outcomes[at + 1] == rest[at]);
                assert forall|j: int| 0 <= j < at + 1 implies outcomes[j]
                    == WorkerOutcome::Completed by {
                    if j > 0 {
                        assert(rest[j - 1] == WorkerOutcome::Completed);
                    }
                }
                assert(rest[at] != WorkerOutcome::Completed);
            }
        }
    }
}

/// The worker whose failure is the failure of the run: the first one, by
/// worker index, that did not complete.
pub open spec fn first_failed(outcomes: Seq<WorkerOutcome>) -> Option<int>
    decreases outcomes.len(),
{
    if outcomes.len() == 0 {
        None
    } else if outcomes[0].failure() is Some {
        Some(0)
    } else {
        match first_failed(outcomes.drop_first()) {
            None => None,
            Some(index) => Some(index + 1),
        }
    }
}

/// The first failed worker is a worker that did not complete, every worker
/// before it completed, and its failure is the first failure. There is none
/// exactly where there is no failure.
pub proof fn lemma_first_failed(outcomes: Seq<WorkerOutcome>)
    ensures
        first_failed(outcomes) is None <==> first_failure(outcomes) is None,
        first_failed(outcomes) matches Some(index) ==> 0 <= index < outcomes.len()
            && outcomes[index].failure() == first_failure(outcomes) && outcomes[index]
            != WorkerOutcome::Completed && forall|j: int|
            0 <= j < index ==> outcomes[j] == WorkerOutcome::Completed,
    decreases outcomes.len(),
{
    if outcomes.len() > 0 {
        let rest = outcomes.drop_first();
        lemma_first_failed(rest);
        if outcomes[0].failure() is None {
            assert(outcomes[0] == WorkerOutcome::Completed);
            if let Some(index) = first_failed(rest) {
                assert(outcomes[index + 1] == rest[index]);
                assert forall|j: int| 0 <= j < index + 1 implies outcomes[j]
                    == WorkerOutcome::Completed by {
                    if j > 0 {
                        assert(rest[j - 1] == WorkerOutcome::Completed);
                    }
                }
            }
        }
    }
}

/// Finds the worker whose failure is the failure of the run.
pub fn find_first_failed(outcomes: &Vec<WorkerOutcome>) -> (found: Option<usize>)
    ensures
        found is None <==> first_failed(outcomes@) is None,
        found matches Some(index) ==> first_failed(outcomes@) == Some(index as int),
{
    let mut index: usize = 0;
    proof {
        assert(outcomes@.skip(0) =~= outcomes@);
    }
    while index < outcomes.len()
        invariant
            index <= outcomes@.len(),
            first_failed(outcomes@) == match first_failed(outcomes@.skip(index as int)) {
                None => None::<int>,
                Some(at) => Some(at + index),
            },
        decreases outcomes@.len() - index,
    {
        let rest = Ghost(outcomes@.skip(index as int));
        proof {
            assert(rest@[0] == outcomes@[index as int]);
            assert(rest@.drop_first() =~= outcomes@.skip(index as int + 1));
        }
        match outcomes[index] {
            WorkerOutcome::Completed => {},
            _ => {
                return Some(index);
            },
        }
        index = index + 1;
    }
    proof {
        assert(outcomes@.skip(index as int).len() == 0);
    }
    None
}

/// The result of a run whose workers ended as `outcomes` says, by worker
/// index: success where all completed, else the first failure.
pub fn collect_outcomes(outcomes: &Vec<WorkerOutcome>) -> (result: Result<(), TransferError>)
    ensures
        result == match first_failure(outcomes@) {
            None => Ok::<(), TransferError>(()),
            Some(error) => Err::<(), TransferError>(error),
        },
{
    proof {
        lemma_first_failed(outcomes@);
    }
    match find_first_failed(outcomes) {
        None => Ok(()),
        Some(index) => match outcomes[index] {
            WorkerOutcome::Completed => Ok(()),
            WorkerOutcome::Failed(error) => Err(error),
            WorkerOutcome::Panicked => Err(TransferError::ThreadFailure),
        },
    }
}

} // verus!

//! The ways in which a transfer can fail.
use vstd::prelude::*;

verus! {

/// Why a transfer was refused or abandoned.
#[derive(Clone, Copy, Debug, PartialEq, Eq, Structural)]
pub enum TransferError {
    /// The buffer could not be laid out with the size and alignment asked for.
    Allocation,
    /// The parameters of the run contradict each other or the chosen strategy.
    Configuration,
    /// A transfer primitive reported a failure or an impossible byte count.
    Io,
    /// A worker ended without reporting an outcome.
    ThreadFailure,
}

} // verus!

//! What can go wrong inside a replication.

use vstd::prelude::*;
use crate::id::Id;
use crate::task::SubTask;

verus! {

/// A breach of the marketplace protocol. Each one ends the replication.
#[derive(Clone, Copy, Debug, PartialEq, Eq, Structural)]
pub enum SimulationError {
    /// The world holds no requestor under this identifier.
    RequestorNotFound(Id),
    /// The world holds no provider under this identifier.
    ProviderNotFound(Id),
    /// The requestor (first) has no current task.
    TaskNotFound(Id),
    /// The requestor (first) has no rating for the provider (second).
    RatingNotFound(Id, Id),
    /// The requestor (first) does not await a verification result for the subtask.
    VerificationForSubtaskNotFound(Id, SubTask),
}

} // verus!

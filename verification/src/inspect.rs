//! Resolving a storage location to the objects under test: the decision on
//! a direct metadata lookup's outcome, and the uniform-size check that the
//! layout planner requires.

use vstd::prelude::*;

use crate::error::BenchError;

verus! {

/// What the backend answered to a direct metadata lookup of the location.
#[derive(Clone, Copy, Debug, PartialEq, Eq, Structural)]
pub enum HeadOutcome {
    /// The location addresses an object of this size.
    Found { size: u64 },
    /// The backend reported that no such object exists.
    NotFound,
    /// Any other backend error.
    Failed,
}

/// What to do next with a location, given the lookup's outcome.
#[derive(Clone, Copy, Debug, PartialEq, Eq, Structural)]
pub enum InspectAction {
    /// The location is a single object: benchmark just it.
    UseSingle { size: u64 },
    /// The location is not an object: treat it as a prefix and list all
    /// objects under it, in the order the backend provides.
    ListPrefix,
    /// The lookup failed; fatal, nothing is fetched.
    Abort,
}

/// Decides how to resolve a location from its metadata lookup: an existing
/// object is used as is, a missing one makes the location a prefix to list,
/// and any other error aborts the run.
pub fn inspect_step(head: &HeadOutcome) -> (r: InspectAction)
    ensures
        match *head {
            HeadOutcome::Found { size } => r == (InspectAction::UseSingle { size }),
            HeadOutcome::NotFound => r == InspectAction::ListPrefix,
            HeadOutcome::Failed => r == InspectAction::Abort,
        },
{
    match head {
        HeadOutcome::Found { size } => InspectAction::UseSingle { size: *size },
        HeadOutcome::NotFound => InspectAction::ListPrefix,
        HeadOutcome::Failed => InspectAction::Abort,
    }
}

/// Checks that the resolved objects all share one size and returns it.
///
/// An empty resolution means the location addressed nothing and is a
/// resolution error; differing sizes are a size mismatch. Both are fatal
/// before any layout is planned.
pub fn uniform_size(sizes: &Vec<u64>) -> (r: Result<u64, BenchError>)
    ensures
        (r is Ok) <==> (sizes@.len() > 0 && forall|i: int|
            0 <= i < sizes@.len() ==> #[trigger] sizes@[i] == sizes@[0]),
        r is Ok ==> r->Ok_0 == sizes@[0],
        sizes@.len() == 0 ==> r == Result::<u64, BenchError>::Err(BenchError::ResolutionError),
        (sizes@.len() > 0 && exists|i: int|
            0 <= i < sizes@.len() && #[trigger] sizes@[i] != sizes@[0]) ==> r == Result::<
            u64,
            BenchError,
        >::Err(BenchError::SizeMismatchError),
{
    if sizes.len() == 0 {
        return Err(BenchError::ResolutionError);
    }
    let first = sizes[0];
    let mut i: usize = 1;
    while i < sizes.len()
        invariant
            sizes@.len() > 0,
            first == sizes@[0],
            1 <= i <= sizes@.len(),
            forall|j: int| 0 <= j < i ==> #[trigger] sizes@[j] == sizes@[0],
        decreases sizes@.len() - i,
    {
        if sizes[i] != first {
            return Err(BenchError::SizeMismatchError);
        }
        i = i + 1;
    }
    Ok(first)
}

} // verus!

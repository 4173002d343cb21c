//! What the library reports when it cannot give a result.

use vstd::prelude::*;

verus! {

/// The ways in which a computation of this library can fail.
#[derive(Clone, Copy, Debug, PartialEq, Eq, Structural)]
pub enum Error {
    /// A counter would have left the range that 32 bits can hold.
    CounterOverflow,
    /// The players of a match record are not in ascending order of their identifiers.
    MalformedRecord,
    /// The roster has more players than the balancer enumerates.
    InputTooLarge,
    /// A player was asked for of whom the aggregate holds nothing.
    UnknownPlayer,
    /// The power iteration did not settle within its iteration cap.
    RankingUndefined,
}

} // verus!

use vstd::prelude::*;

verus! {

/// What a rule of this library can report.
#[derive(Debug, Clone, PartialEq, Eq)]
pub enum Error {
    /// A vector has `actual` entries where `expected` were called for.
    LengthMismatch { expected: usize, actual: usize },
    /// A joint name that the backend does not have.
    NoJoint { name: String },
    /// A joint name that occurs twice in one joint set.
    DuplicateJoint { name: String },
    /// The velocity limit at `index` is not positive.
    InvalidLimit { index: usize },
    /// The trajectory point at `index` does not lie after its predecessor
    /// in time, or the duration of a single move is negative.
    InvalidTime { index: usize },
    /// The stretched time of the trajectory point at `index` does not fit.
    DurationOverflow { index: usize },
    /// The target was not reached within the time allowed.
    Timeout,
    /// There is no sub-client with the number `client`.
    NoClient { client: usize },
    /// The sub-client `client` has a command that has not ended yet.
    Busy { client: usize },
    /// The sub-client `client` has no command that could end.
    Idle { client: usize },
    /// No address of the backend can be made from its base address.
    InvalidUrl,
    /// There is no control node at all.
    NoValidNodes,
    /// No control node has the mode `mode`.
    NoSpecifiedNode { mode: String },
    /// The backend refused a command or could not be reached.
    Backend { reason: String },
}

} // verus!

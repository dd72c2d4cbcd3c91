use crate::error::Error;
use crate::fixed::{distance, magnitude};
use vstd::prelude::*;

verus! {

/// The pause between two readings of the joint positions: ten
/// milliseconds.
pub const POLL_INTERVAL: i64 = 10_000;

/// What to do after a reading of the joint positions.
#[derive(Debug, Clone, Copy, PartialEq, Eq, Structural)]
pub enum WaitStep {
    /// The target is reached: the wait is over.
    Finished,
    /// The target is not reached yet: read again after `seconds`.
    Sleep { seconds: i64 },
}

/// The sum of the distances between `current` and `target` over the first
/// `n` joints.
pub open spec fn total_diff(current: Seq<i64>, target: Seq<i64>, n: int) -> int
    decreases n,
{
    if n <= 0 {
        0
    } else {
        total_diff(current, target, n - 1) + magnitude(target[n - 1] - current[n - 1])
    }
}

/// Each of the first `n` joints is within its own allowable error of its
/// target.
pub open spec fn each_within(current: Seq<i64>, target: Seq<i64>, allowable_errors: Seq<i64>, n: int) -> bool {
    forall|i: int| 0 <= i < n ==> magnitude(target[i] - current[i]) <= #[trigger] allowable_errors[i]
}

/// A rule that decides from a reading of the joint positions whether a
/// commanded target counts as reached.
pub trait CompleteCondition {
    /// Whether `target` counts as reached at `current`, or what is wrong
    /// with the two vectors.
    spec fn reached_spec(&self, current: Seq<i64>, target: Seq<i64>) -> Result<bool, Error>;

    /// The time that the condition grants beyond the commanded duration.
    spec fn timeout_spec(&self) -> int;

    /// Decides whether `target` counts as reached at `current`.
    fn reached(&self, current: &Vec<i64>, target: &Vec<i64>) -> (verdict: Result<bool, Error>)
        ensures
            verdict == self.reached_spec(current@, target@),
    ;

    /// The time that the condition grants beyond the commanded duration.
    fn timeout(&self) -> (seconds: i64)
        ensures
            seconds == self.timeout_spec(),
    ;
}

/// The step that follows a reading `current` taken `elapsed` after the
/// wait began, for a command of `duration`: the wait is over as soon as
/// the target counts as reached; it fails once more time has passed than
/// the commanded duration and the condition's timeout together; until
/// then the positions are read again after `POLL_INTERVAL`.
pub open spec fn poll_spec<C: CompleteCondition>(
    condition: &C,
    current: Seq<i64>,
    target: Seq<i64>,
    elapsed: int,
    duration: int,
) -> Result<WaitStep, Error> {
    match condition.reached_spec(current, target) {
        Err(e) => Err(e),
        Ok(true) => Ok(WaitStep::Finished),
        Ok(false) => if elapsed > condition.timeout_spec() + duration {
            Err(Error::Timeout)
        } else {
            Ok(WaitStep::Sleep { seconds: POLL_INTERVAL })
        },
    }
}

/// Decides the step that follows one reading of the joint positions.
/// The caller reads the positions, hands them in with the time that has
/// passed since the wait began, and sleeps where it is told to.
pub fn poll<C: CompleteCondition>(
    condition: &C,
    current: &Vec<i64>,
    target: &Vec<i64>,
    elapsed: i64,
    duration: i64,
) -> (step: Result<WaitStep, Error>)
    ensures
        step == poll_spec(condition, current@, target@, elapsed as int, duration as int),
{
    match condition.reached(current, target) {
        Err(e) => Err(e),
        Ok(true) => Ok(WaitStep::Finished),
        Ok(false) => {
            let allowed: i128 = condition.timeout() as i128 + duration as i128;
            if elapsed as i128 > allowed {
                Err(Error::Timeout)
            } else {
                Ok(WaitStep::Sleep { seconds: POLL_INTERVAL })
            }
        },
    }
}

/// The target counts as reached where the distances of all joints from
/// their targets add up to no more than `allowable_error`. The record
/// may be written in any number type; the rule is given for fixed-point
/// values.
#[derive(Debug, Clone)]
pub struct TotalJointDiffCondition<T> {
    pub allowable_error: T,
    pub timeout_sec: T,
}

impl<T> TotalJointDiffCondition<T> {
    pub fn new(allowable_error: T, timeout_sec: T) -> (condition: Self)
        ensures
            condition.allowable_error == allowable_error,
            condition.timeout_sec == timeout_sec,
    {
        TotalJointDiffCondition { allowable_error, timeout_sec }
    }
}

impl CompleteCondition for TotalJointDiffCondition<i64> {
    open spec fn reached_spec(&self, current: Seq<i64>, target: Seq<i64>) -> Result<bool, Error> {
        if current.len() != target.len() {
            Err(Error::LengthMismatch { expected: target.len() as usize, actual: current.len() as usize })
        } else {
            Ok(total_diff(current, target, target.len() as int) <= self.allowable_error)
        }
    }

    open spec fn timeout_spec(&self) -> int {
        self.timeout_sec as int
    }

    fn reached(&self, current: &Vec<i64>, target: &Vec<i64>) -> (verdict: Result<bool, Error>) {
        if current.len() != target.len() {
            return Err(Error::LengthMismatch { expected: target.len(), actual: current.len() });
        }
        let mut sum: u128 = 0;
        let mut i: usize = 0;
        while i < target.len()
            invariant
                i <= target.len(),
                current.len() == target.len(),
                sum == total_diff(current@, target@, i as int),
                sum <= i * u64::MAX,
            decreases target.len() - i,
        {
            sum = sum + distance(target[i], current[i]) as u128;
            i += 1;
        }
        Ok(self.allowable_error >= 0 && sum <= self.allowable_error as u128)
    }

    fn timeout(&self) -> (seconds: i64) {
        self.timeout_sec
    }
}

/// The target counts as reached where each joint is within its own
/// allowable error of its target. The record may be written in any
/// number type; the rule is given for fixed-point values.
#[derive(Debug, Clone)]
pub struct EachJointDiffCondition<T> {
    pub allowable_errors: Vec<T>,
    pub timeout_sec: T,
}

impl<T> EachJointDiffCondition<T> {
    pub fn new(allowable_errors: Vec<T>, timeout_sec: T) -> (condition: Self)
        ensures
            condition.allowable_errors == allowable_errors,
            condition.timeout_sec == timeout_sec,
    {
        EachJointDiffCondition { allowable_errors, timeout_sec }
    }
}

impl CompleteCondition for EachJointDiffCondition<i64> {
    open spec fn reached_spec(&self, current: Seq<i64>, target: Seq<i64>) -> Result<bool, Error> {
        if target.len() != self.allowable_errors@.len() {
            Err(Error::LengthMismatch { expected: self.allowable_errors.len(), actual: target.len() as usize })
        } else if current.len() != target.len() {
            Err(Error::LengthMismatch { expected: target.len() as usize, actual: current.len() as usize })
        } else {
            Ok(each_within(current, target, self.allowable_errors@, target.len() as int))
        }
    }

    open spec fn timeout_spec(&self) -> int {
        self.timeout_sec as int
    }

    fn reached(&self, current: &Vec<i64>, target: &Vec<i64>) -> (verdict: Result<bool, Error>) {
        if target.len() != self.allowable_errors.len() {
            return Err(Error::LengthMismatch { expected: self.allowable_errors.len(), actual: target.len() });
        }
        if current.len() != target.len() {
            return Err(Error::LengthMismatch { expected: target.len(), actual: current.len() });
        }
        let mut i: usize = 0;
        while i < target.len()
            invariant
                i <= target.len(),
                current.len() == target.len(),
                target.len() == self.allowable_errors.len(),
                each_within(current@, target@, self.allowable_errors@, i as int),
            decreases target.len() - i,
        {
            let allowed: i64 = self.allowable_errors[i];
            if allowed < 0 || distance(target[i], current[i]) > allowed as u64 {
                assert(!(magnitude(target@[i as int] - current@[i as int]) <= self.allowable_errors@[i as int]));
                return Ok(false);
            }
            i += 1;
        }
        Ok(true)
    }

    fn timeout(&self) -> (seconds: i64) {
        self.timeout_sec
    }
}

/// A reading that equals the target ends the wait at once under a total
/// condition whose allowable error is not negative, whatever time has
/// passed and whatever duration was commanded.
pub proof fn lemma_total_finished_at_target(
    condition: TotalJointDiffCondition<i64>,
    target: Seq<i64>,
    elapsed: int,
    duration: int,
)
    requires
        condition.allowable_error >= 0,
    ensures
        poll_spec(&condition, target, target, elapsed, duration) == Ok::<WaitStep, Error>(WaitStep::Finished),
{
    lemma_total_diff_zero(target, target.len() as int);
}

proof fn lemma_total_diff_zero(target: Seq<i64>, n: int)
    ensures
        total_diff(target, target, n) == 0,
    decreases n,
{
    if n > 0 {
        lemma_total_diff_zero(target, n - 1);
    }
}

/// An each-joint condition never compares a target that has another
/// number of entries than the condition has allowable errors: every
/// reading then fails with the two numbers, whatever the positions are.
pub proof fn lemma_each_rejects_other_length(
    condition: EachJointDiffCondition<i64>,
    current: Seq<i64>,
    target: Seq<i64>,
    elapsed: int,
    duration: int,
)
    requires
        condition.allowable_errors@.len() != target.len(),
    ensures
        poll_spec(&condition, current, target, elapsed, duration) == Err::<WaitStep, Error>(
            Error::LengthMismatch { expected: condition.allowable_errors.len(), actual: target.len() as usize },
        ),
{
}

/// A reading with no joints reaches a target with no joints under either
/// condition, provided that a total condition's allowable error is not
/// negative and an each-joint condition has no allowable errors.
pub proof fn lemma_empty_target_reached(
    total: TotalJointDiffCondition<i64>,
    each: EachJointDiffCondition<i64>,
)
    requires
        total.allowable_error >= 0,
        each.allowable_errors@.len() == 0,
    ensures
        total.reached_spec(Seq::empty(), Seq::empty()) == Ok::<bool, Error>(true),
        each.reached_spec(Seq::empty(), Seq::empty()) == Ok::<bool, Error>(true),
{
}

} // verus!

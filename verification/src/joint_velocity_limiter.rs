use crate::error::Error;
use crate::fixed::{distance, lemma_travel_time_least, lemma_travel_time_suffices, magnitude, travel, travel_time, ONE};
use crate::trajectory::{copy_of, TrajectoryPoint};
use vstd::prelude::*;

verus! {

/// The longest travel time among the first `n` joints of a move from
/// `from` to `to` under `limits`.
pub open spec fn slowest(from: Seq<i64>, to: Seq<i64>, limits: Seq<i64>, n: int) -> int
    decreases n,
{
    if n <= 0 {
        0
    } else {
        let rest = slowest(from, to, limits, n - 1);
        let own = travel_time(magnitude(to[n - 1] - from[n - 1]), limits[n - 1] as int);
        if own > rest {
            own
        } else {
            rest
        }
    }
}

/// The duration that a move from `from` to `to` is given: the commanded
/// `duration`, stretched as far as the slowest joint needs it.
pub open spec fn limited_duration(from: Seq<i64>, to: Seq<i64>, limits: Seq<i64>, duration: int) -> int {
    let need = slowest(from, to, limits, limits.len() as int);
    if need > duration {
        need
    } else {
        duration
    }
}

/// The time at which point `k` of `points` is due before stretching,
/// counted from the point before it (from the start for the first point).
pub open spec fn segment_duration(points: Seq<TrajectoryPoint<i64>>, k: int) -> int {
    if k == 0 {
        points[0].time_from_start as int
    } else {
        points[k].time_from_start - points[k - 1].time_from_start
    }
}

/// Where the joints are when the move to point `k` begins.
pub open spec fn segment_start(current: Seq<i64>, points: Seq<TrajectoryPoint<i64>>, k: int) -> Seq<i64> {
    if k == 0 {
        current
    } else {
        points[k - 1].positions@
    }
}

/// The stretched time from start of point `k`: the sum of the limited
/// durations of the moves up to and including the one that ends in it.
pub open spec fn limited_time(
    current: Seq<i64>,
    points: Seq<TrajectoryPoint<i64>>,
    limits: Seq<i64>,
    k: int,
) -> int
    decreases k + 1,
{
    if k < 0 {
        0
    } else {
        limited_time(current, points, limits, k - 1) + limited_duration(
            segment_start(current, points, k),
            points[k].positions@,
            limits,
            segment_duration(points, k),
        )
    }
}

/// What is wrong with point `k`, if anything: the number of its positions,
/// its place in time, or the size of its stretched time, in that order.
pub open spec fn point_fault(
    current: Seq<i64>,
    points: Seq<TrajectoryPoint<i64>>,
    limits: Seq<i64>,
    k: int,
) -> Option<Error> {
    if points[k].positions@.len() != limits.len() {
        Some(Error::LengthMismatch { expected: limits.len() as usize, actual: points[k].positions.len() })
    } else if (k == 0 && points[0].time_from_start < 0) || (k > 0 && points[k].time_from_start
        <= points[k - 1].time_from_start) {
        Some(Error::InvalidTime { index: k as usize })
    } else if limited_time(current, points, limits, k) > i64::MAX {
        Some(Error::DurationOverflow { index: k as usize })
    } else {
        None
    }
}

/// What is wrong with the first faulty point among the first `n`, if any
/// of them is faulty.
pub open spec fn first_fault(
    current: Seq<i64>,
    points: Seq<TrajectoryPoint<i64>>,
    limits: Seq<i64>,
    n: int,
) -> Option<Error>
    decreases n,
{
    if n <= 0 {
        None
    } else {
        match first_fault(current, points, limits, n - 1) {
            Some(e) => Some(e),
            None => point_fault(current, points, limits, n - 1),
        }
    }
}

proof fn lemma_first_fault_stays(
    current: Seq<i64>,
    points: Seq<TrajectoryPoint<i64>>,
    limits: Seq<i64>,
    m: int,
    n: int,
)
    requires
        m <= n,
        first_fault(current, points, limits, m) is Some,
    ensures
        first_fault(current, points, limits, n) == first_fault(current, points, limits, m),
    decreases n - m,
{
    if m < n {
        lemma_first_fault_stays(current, points, limits, m, n - 1);
    }
}

/// Where the first `n` points have no fault among them, none of them has
/// one.
pub proof fn lemma_no_fault_before(
    current: Seq<i64>,
    points: Seq<TrajectoryPoint<i64>>,
    limits: Seq<i64>,
    n: int,
    k: int,
)
    requires
        0 <= k < n,
        first_fault(current, points, limits, n) is None,
    ensures
        point_fault(current, points, limits, k) is None,
    decreases n,
{
    if k < n - 1 {
        lemma_no_fault_before(current, points, limits, n - 1, k);
    }
}

/// Stretching keeps the points in their order: each stretched move takes
/// at least as long as it was commanded to take.
pub proof fn lemma_limited_time_keeps_order(
    current: Seq<i64>,
    points: Seq<TrajectoryPoint<i64>>,
    limits: Seq<i64>,
    k: int,
)
    requires
        0 <= k < points.len(),
    ensures
        limited_time(current, points, limits, k) - limited_time(current, points, limits, k - 1)
            >= segment_duration(points, k),
{
}

/// In a stretched trajectory every joint stays within its limit on the
/// move that ends in point `k`.
pub proof fn lemma_limited_time_suffices(
    current: Seq<i64>,
    points: Seq<TrajectoryPoint<i64>>,
    limits: Seq<i64>,
    k: int,
    i: int,
)
    requires
        0 <= k < points.len(),
        0 <= i < limits.len(),
        forall|j: int| 0 <= j < limits.len() ==> limits[j] > 0,
        current.len() == limits.len(),
        forall|j: int| 0 <= j < points.len() ==> (#[trigger] points[j]).positions@.len() == limits.len(),
    ensures
        limits[i] * (limited_time(current, points, limits, k) - limited_time(current, points, limits, k - 1))
            >= magnitude(points[k].positions@[i] - segment_start(current, points, k)[i]) * ONE,
{
    if k > 0 {
        assert(points[k - 1].positions@.len() == limits.len());
    }
    assert(points[k].positions@.len() == limits.len());
    lemma_limited_duration_suffices(
        segment_start(current, points, k),
        points[k].positions@,
        limits,
        segment_duration(points, k),
    );
}

/// No point of a stretched trajectory is due before it was commanded to
/// be.
pub proof fn lemma_limited_time_not_earlier(
    current: Seq<i64>,
    points: Seq<TrajectoryPoint<i64>>,
    limits: Seq<i64>,
    k: int,
)
    requires
        0 <= k < points.len(),
    ensures
        limited_time(current, points, limits, k) >= points[k].time_from_start,
    decreases k,
{
    if k > 0 {
        lemma_limited_time_not_earlier(current, points, limits, k - 1);
    } else {
        assert(limited_time(current, points, limits, -1) == 0);
    }
}

/// Every joint stays within its limit when a move from `from` to `to`
/// takes `limited_duration`, and the commanded duration is never cut.
pub proof fn lemma_limited_duration_suffices(from: Seq<i64>, to: Seq<i64>, limits: Seq<i64>, duration: int)
    requires
        from.len() == limits.len(),
        to.len() == limits.len(),
        forall|i: int| 0 <= i < limits.len() ==> limits[i] > 0,
    ensures
        limited_duration(from, to, limits, duration) >= duration,
        forall|i: int|
            0 <= i < limits.len() ==> #[trigger] limits[i] * limited_duration(from, to, limits, duration)
                >= magnitude(to[i] - from[i]) * ONE,
{
    let d = limited_duration(from, to, limits, duration);
    assert forall|i: int| 0 <= i < limits.len() implies #[trigger] limits[i] * d >= magnitude(to[i] - from[i])
        * ONE by {
        lemma_slowest_covers(from, to, limits, limits.len() as int, i);
        let own = travel_time(magnitude(to[i] - from[i]), limits[i] as int);
        lemma_travel_time_suffices(magnitude(to[i] - from[i]), limits[i] as int);
        assert(limits[i] * d >= limits[i] * own) by (nonlinear_arith)
            requires
                limits[i] > 0,
                d >= own,
        ;
    }
}

/// No duration shorter than `limited_duration` is at least the commanded
/// one and keeps every joint within its limit.
pub proof fn lemma_limited_duration_least(
    from: Seq<i64>,
    to: Seq<i64>,
    limits: Seq<i64>,
    duration: int,
    other: int,
)
    requires
        from.len() == limits.len(),
        to.len() == limits.len(),
        forall|i: int| 0 <= i < limits.len() ==> limits[i] > 0,
        duration >= 0,
        other >= duration,
        forall|i: int| 0 <= i < limits.len() ==> #[trigger] limits[i] * other >= magnitude(to[i] - from[i]) * ONE,
    ensures
        other >= limited_duration(from, to, limits, duration),
{
    lemma_slowest_bounded(from, to, limits, limits.len() as int, other);
}

/// A move that no limit binds keeps its commanded duration.
pub proof fn lemma_unbound_move_keeps_duration(from: Seq<i64>, to: Seq<i64>, limits: Seq<i64>, duration: int)
    requires
        from.len() == limits.len(),
        to.len() == limits.len(),
        forall|i: int| 0 <= i < limits.len() ==> limits[i] > 0,
        duration >= 0,
        forall|i: int| 0 <= i < limits.len() ==> #[trigger] limits[i] * duration >= magnitude(to[i] - from[i]) * ONE,
    ensures
        limited_duration(from, to, limits, duration) == duration,
{
    lemma_limited_duration_least(from, to, limits, duration, duration);
    lemma_limited_duration_suffices(from, to, limits, duration);
}

proof fn lemma_slowest_covers(from: Seq<i64>, to: Seq<i64>, limits: Seq<i64>, n: int, i: int)
    requires
        0 <= i < n,
    ensures
        slowest(from, to, limits, n) >= travel_time(magnitude(to[i] - from[i]), limits[i] as int),
    decreases n,
{
    if i < n - 1 {
        lemma_slowest_covers(from, to, limits, n - 1, i);
    }
}

proof fn lemma_slowest_bounded(from: Seq<i64>, to: Seq<i64>, limits: Seq<i64>, n: int, bound: int)
    requires
        0 <= n <= limits.len(),
        from.len() == limits.len(),
        to.len() == limits.len(),
        forall|i: int| 0 <= i < limits.len() ==> limits[i] > 0,
        forall|i: int| 0 <= i < n ==> #[trigger] limits[i] * bound >= magnitude(to[i] - from[i]) * ONE,
    ensures
        n > 0 ==> bound >= slowest(from, to, limits, n),
        slowest(from, to, limits, n) >= 0,
    decreases n,
{
    if n > 0 {
        lemma_slowest_bounded(from, to, limits, n - 1, bound);
        assert(limits[n - 1] * bound >= magnitude(to[n - 1] - from[n - 1]) * ONE);
        lemma_travel_time_least(magnitude(to[n - 1] - from[n - 1]), limits[n - 1] as int, bound);
        lemma_travel_time_suffices(magnitude(to[n - 1] - from[n - 1]), limits[n - 1] as int);
        if n == 1 {
            assert(slowest(from, to, limits, 0) == 0);
        }
    }
}

/// Stretches commanded durations so that no joint has to move faster than
/// its limit allows. A duration is never shortened.
pub struct JointVelocityLimiter {
    velocity_limits: Vec<i64>,
}

impl JointVelocityLimiter {
    /// The limits, one per joint, in the order of the joints.
    pub closed spec fn limits(&self) -> Seq<i64> {
        self.velocity_limits@
    }

    /// Every limit is positive.
    pub open spec fn wf(&self) -> bool {
        forall|i: int| 0 <= i < self.limits().len() ==> self.limits()[i] > 0
    }

    #[verifier::type_invariant]
    spec fn inv(&self) -> bool {
        self.wf()
    }

    /// A limiter for a client of `dof` joints. There must be one limit
    /// for each joint, and each limit must be positive.
    pub fn new(dof: usize, velocity_limits: Vec<i64>) -> (made: Result<Self, Error>)
        ensures
            match made {
                Ok(limiter) => {
                    &&& limiter.wf()
                    &&& limiter.limits() == velocity_limits@
                    &&& velocity_limits.len() == dof
                },
                Err(Error::LengthMismatch { expected, actual }) => {
                    &&& velocity_limits.len() != dof
                    &&& expected == dof
                    &&& actual == velocity_limits.len()
                },
                Err(Error::InvalidLimit { index }) => {
                    &&& velocity_limits.len() == dof
                    &&& index < dof
                    &&& velocity_limits[index as int] <= 0
                    &&& forall|j: int| 0 <= j < index ==> velocity_limits[j] > 0
                },
                Err(_) => false,
            },
    {
        if velocity_limits.len() != dof {
            return Err(Error::LengthMismatch { expected: dof, actual: velocity_limits.len() });
        }
        let mut i: usize = 0;
        while i < velocity_limits.len()
            invariant
                i <= velocity_limits.len(),
                velocity_limits.len() == dof,
                forall|j: int| 0 <= j < i ==> velocity_limits[j] > 0,
            decreases velocity_limits.len() - i,
        {
            if velocity_limits[i] <= 0 {
                return Err(Error::InvalidLimit { index: i });
            }
            i += 1;
        }
        Ok(JointVelocityLimiter { velocity_limits })
    }

    /// The limits, one per joint.
    pub fn velocity_limits(&self) -> (limits: &Vec<i64>)
        ensures
            limits@ == self.limits(),
            self.wf(),
    {
        proof {
            use_type_invariant(self);
        }
        &self.velocity_limits
    }

    /// The number of joints.
    pub fn dof(&self) -> (n: usize)
        ensures
            n == self.limits().len(),
    {
        self.velocity_limits.len()
    }

    fn stretch(&self, from: &Vec<i64>, to: &Vec<i64>, duration: i64) -> (stretched: u128)
        requires
            from.len() == self.limits().len(),
            to.len() == self.limits().len(),
            duration >= 0,
        ensures
            stretched == limited_duration(from@, to@, self.limits(), duration as int),
    {
        proof {
            use_type_invariant(self);
        }
        let mut need: u128 = 0;
        let mut i: usize = 0;
        while i < self.velocity_limits.len()
            invariant
                i <= self.velocity_limits.len(),
                from.len() == self.velocity_limits.len(),
                to.len() == self.velocity_limits.len(),
                forall|j: int| 0 <= j < self.velocity_limits.len() ==> self.velocity_limits[j] > 0,
                need == slowest(from@, to@, self.velocity_limits@, i as int),
            decreases self.velocity_limits.len() - i,
        {
            let own: u128 = travel(distance(to[i], from[i]), self.velocity_limits[i]);
            if own > need {
                need = own;
            }
            i += 1;
        }
        if need > duration as u128 {
            need
        } else {
            duration as u128
        }
    }

    /// The duration that a move from `current` to `target` is given in
    /// place of `duration`: the least duration that is no shorter than
    /// `duration` and lets every joint stay within its limit.
    pub fn limited_duration(&self, current: &Vec<i64>, target: &Vec<i64>, duration: i64) -> (limited: Result<
        i64,
        Error,
    >)
        ensures
            self.wf(),
            match limited {
                Ok(d) => {
                    &&& current.len() == self.limits().len()
                    &&& target.len() == self.limits().len()
                    &&& duration >= 0
                    &&& d == limited_duration(current@, target@, self.limits(), duration as int)
                },
                Err(Error::LengthMismatch { expected, actual }) => {
                    &&& expected == self.limits().len()
                    &&& if current.len() != self.limits().len() {
                        actual == current.len()
                    } else {
                        target.len() != self.limits().len() && actual == target.len()
                    }
                },
                Err(Error::InvalidTime { index }) => {
                    &&& current.len() == self.limits().len()
                    &&& target.len() == self.limits().len()
                    &&& duration < 0
                    &&& index == 0
                },
                Err(Error::DurationOverflow { index }) => {
                    &&& current.len() == self.limits().len()
                    &&& target.len() == self.limits().len()
                    &&& duration >= 0
                    &&& limited_duration(current@, target@, self.limits(), duration as int) > i64::MAX
                    &&& index == 0
                },
                Err(_) => false,
            },
    {
        proof {
            use_type_invariant(self);
        }
        let dof: usize = self.velocity_limits.len();
        if current.len() != dof {
            return Err(Error::LengthMismatch { expected: dof, actual: current.len() });
        }
        if target.len() != dof {
            return Err(Error::LengthMismatch { expected: dof, actual: target.len() });
        }
        if duration < 0 {
            return Err(Error::InvalidTime { index: 0 });
        }
        let stretched: u128 = self.stretch(current, target, duration);
        if stretched > i64::MAX as u128 {
            return Err(Error::DurationOverflow { index: 0 });
        }
        Ok(stretched as i64)
    }

    /// Stretches a trajectory that starts at `current`: every point keeps
    /// its positions, and each move from one point to the
    /// next is given its limited duration, so that a point's time from
    /// start is the sum of the limited durations up to it. The first
    /// faulty point, if there is one, decides the error.
    pub fn limit_trajectory(&self, current: &Vec<i64>, trajectory: &Vec<TrajectoryPoint<i64>>) -> (limited:
        Result<Vec<TrajectoryPoint<i64>>, Error>)
        ensures
            self.wf(),
            match limited {
                Ok(out) => {
                    &&& current.len() == self.limits().len()
                    &&& first_fault(current@, trajectory@, self.limits(), trajectory.len() as int) is None
                    &&& out.len() == trajectory.len()
                    &&& forall|k: int|
                        0 <= k < trajectory.len() ==> {
                            &&& (#[trigger] out[k]).positions@ == trajectory[k].positions@
                            &&& out[k].time_from_start == limited_time(current@, trajectory@, self.limits(), k)
                        }
                },
                Err(e) => if current.len() != self.limits().len() {
                    e == (Error::LengthMismatch { expected: self.limits().len() as usize, actual: current.len() })
                } else {
                    first_fault(current@, trajectory@, self.limits(), trajectory.len() as int) == Some(e)
                },
            },
    {
        proof {
            use_type_invariant(self);
        }
        let dof: usize = self.velocity_limits.len();
        if current.len() != dof {
            return Err(Error::LengthMismatch { expected: dof, actual: current.len() });
        }
        let ghost limits = self.velocity_limits@;
        let mut out: Vec<TrajectoryPoint<i64>> = Vec::new();
        let mut total: i64 = 0;
        let mut k: usize = 0;
        while k < trajectory.len()
            invariant
                k <= trajectory.len(),
                current.len() == dof,
                dof == self.velocity_limits.len(),
                limits == self.velocity_limits@,
                limits == self.limits(),
                self.wf(),
                out.len() == k,
                first_fault(current@, trajectory@, limits, k as int) is None,
                total == limited_time(current@, trajectory@, limits, k - 1),
                total >= 0,
                k > 0 ==> trajectory[k - 1].time_from_start >= 0 && trajectory[k - 1].positions.len() == dof,
                forall|j: int|
                    0 <= j < k ==> {
                        &&& (#[trigger] out[j]).positions@ == trajectory[j].positions@
                        &&& out[j].time_from_start == limited_time(current@, trajectory@, limits, j)
                    },
            decreases trajectory.len() - k,
        {
            let point = &trajectory[k];
            let ghost here = k as int;
            if point.positions.len() != dof {
                proof {
                    lemma_first_fault_stays(current@, trajectory@, limits, here + 1, trajectory.len() as int);
                }
                return Err(Error::LengthMismatch { expected: dof, actual: point.positions.len() });
            }
            let previous_time: i64 = if k == 0 {
                0
            } else {
                trajectory[k - 1].time_from_start
            };
            if (k == 0 && point.time_from_start < 0) || (k > 0 && point.time_from_start <= previous_time) {
                proof {
                    lemma_first_fault_stays(current@, trajectory@, limits, here + 1, trajectory.len() as int);
                }
                return Err(Error::InvalidTime { index: k });
            }
            let duration: i64 = point.time_from_start - previous_time;
            let stretched: u128 = if k == 0 {
                self.stretch(current, &point.positions, duration)
            } else {
                self.stretch(&trajectory[k - 1].positions, &point.positions, duration)
            };
            if stretched > i64::MAX as u128 || total as u128 + stretched > i64::MAX as u128 {
                proof {
                    lemma_first_fault_stays(current@, trajectory@, limits, here + 1, trajectory.len() as int);
                }
                return Err(Error::DurationOverflow { index: k });
            }
            total = (total as u128 + stretched) as i64;
            out.push(
                TrajectoryPoint {
                    positions: copy_of(&point.positions),
                    time_from_start: total,
                },
            );
            k += 1;
        }
        Ok(out)
    }
}

} // verus!

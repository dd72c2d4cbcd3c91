use vstd::prelude::*;

verus! {

/// One point of a trajectory: where the joints shall be, and when, counted
/// from the start of the trajectory.
#[derive(Debug, Clone)]
pub struct TrajectoryPoint<T> {
    pub positions: Vec<T>,
    pub time_from_start: T,
}

impl<T> TrajectoryPoint<T> {
    /// The point at which the joints are at `positions` when
    /// `time_from_start` has passed.
    pub fn new(positions: Vec<T>, time_from_start: T) -> (point: Self)
        ensures
            point.positions == positions,
            point.time_from_start == time_from_start,
    {
        TrajectoryPoint { positions, time_from_start }
    }
}

/// A copy of `values`.
pub(crate) fn copy_of<T: Copy>(values: &Vec<T>) -> (copy: Vec<T>)
    ensures
        copy@ == values@,
{
    let mut copy: Vec<T> = Vec::new();
    let mut i: usize = 0;
    while i < values.len()
        invariant
            i <= values.len(),
            copy@ == values@.subrange(0, i as int),
        decreases values.len() - i,
    {
        copy.push(values[i]);
        assert(copy@ =~= values@.subrange(0, i + 1));
        i += 1;
    }
    assert(values@.subrange(0, values.len() as int) =~= values@);
    copy
}

/// A copy of the entries of `values` from `start` up to `end`.
pub(crate) fn slice_of<T: Copy>(values: &Vec<T>, start: usize, end: usize) -> (copy: Vec<T>)
    requires
        start <= end <= values.len(),
    ensures
        copy@ == values@.subrange(start as int, end as int),
{
    let mut copy: Vec<T> = Vec::new();
    let mut i: usize = start;
    while i < end
        invariant
            start <= i <= end,
            end <= values.len(),
            copy@ == values@.subrange(start as int, i as int),
        decreases end - i,
    {
        copy.push(values[i]);
        assert(copy@ =~= values@.subrange(start as int, i + 1));
        i += 1;
    }
    copy
}

} // verus!

use vstd::prelude::*;

verus! {

/// The fixed-point value that stands for 1.0.
pub const ONE: i64 = 1_000_000;

/// The absolute value of `x`.
pub open spec fn magnitude(x: int) -> int {
    if x < 0 {
        -x
    } else {
        x
    }
}

/// The distance between two fixed-point values. It always fits in `u64`.
pub fn distance(a: i64, b: i64) -> (d: u64)
    ensures
        d == magnitude(a - b),
{
    if a >= b {
        (a as i128 - b as i128) as u64
    } else {
        (b as i128 - a as i128) as u64
    }
}

/// The time, in fixed-point seconds and rounded up, that a joint needs to
/// cover `delta` at the speed `limit`.
pub open spec fn travel_time(delta: int, limit: int) -> int
    recommends
        delta >= 0,
        limit > 0,
{
    (delta * ONE + limit - 1) / limit
}

/// Within `travel_time` the joint covers `delta` without exceeding `limit`.
pub proof fn lemma_travel_time_suffices(delta: int, limit: int)
    requires
        delta >= 0,
        limit > 0,
    ensures
        travel_time(delta, limit) >= 0,
        limit * travel_time(delta, limit) >= delta * ONE,
{
    let n = delta * ONE + limit - 1;
    assert(n >= 0);
    assert(n / limit >= 0 && limit * (n / limit) > n - limit) by (nonlinear_arith)
        requires
            n >= 0,
            limit > 0,
    ;
}

/// No shorter time than `travel_time` keeps the joint within `limit`.
pub proof fn lemma_travel_time_least(delta: int, limit: int, t: int)
    requires
        delta >= 0,
        limit > 0,
        limit * t >= delta * ONE,
    ensures
        t >= travel_time(delta, limit),
{
    let n = delta * ONE + limit - 1;
    assert(t >= n / limit) by (nonlinear_arith)
        requires
            limit > 0,
            limit * t + limit - 1 >= n,
    ;
}

/// Computes `travel_time` for a distance and a positive limit.
pub fn travel(delta: u64, limit: i64) -> (t: u128)
    requires
        limit > 0,
    ensures
        t == travel_time(delta as int, limit as int),
{
    let scaled: u128 = delta as u128 * 1_000_000u128;
    let divisor: u128 = limit as u128;
    (scaled + (divisor - 1)) / divisor
}

} // verus!

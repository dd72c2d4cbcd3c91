use arci::fixed::{distance, travel, ONE};
use arci::{Error, JointVelocityLimiter, TrajectoryPoint};

fn fx(x: f64) -> i64 {
    (x * 1_000_000.0).round() as i64
}

fn fxs(xs: &[f64]) -> Vec<i64> {
    xs.iter().map(|x| fx(*x)).collect()
}

#[test]
fn limiter_stretches_to_the_slowest_joint() {
    let limiter = JointVelocityLimiter::new(2, fxs(&[1.0, 1.0])).unwrap();
    let current = fxs(&[0.0, 0.0]);
    let target = fxs(&[1.0, 2.0]);
    assert_eq!(travel(distance(target[0], current[0]), fx(1.0)), 1_000_000);
    assert_eq!(travel(distance(target[1], current[1]), fx(1.0)), 2_000_000);
    assert_eq!(limiter.limited_duration(&current, &target, fx(1.0)), Ok(fx(2.0)));
    let limited = limiter
        .limit_trajectory(&current, &vec![TrajectoryPoint::new(target.clone(), fx(1.0))])
        .unwrap();
    assert_eq!(limited.len(), 1);
    assert_eq!(limited[0].positions, target);
    assert_eq!(limited[0].time_from_start, fx(2.0));
}

#[test]
fn limiter_never_shortens() {
    let limiter = JointVelocityLimiter::new(2, fxs(&[1.0, 1.0])).unwrap();
    let current = fxs(&[0.0, 0.0]);
    assert_eq!(limiter.limited_duration(&current, &fxs(&[0.5, -0.25]), fx(3.0)), Ok(fx(3.0)));
    assert_eq!(limiter.limited_duration(&current, &current, 0), Ok(0));
    assert_eq!(limiter.limited_duration(&current, &fxs(&[-4.0, 0.0]), fx(3.0)), Ok(fx(4.0)));
}

#[test]
fn limiter_rounds_travel_time_up() {
    let limiter = JointVelocityLimiter::new(1, vec![3]).unwrap();
    assert_eq!(limiter.limited_duration(&vec![0], &vec![1], 0), Ok(333_334));
    assert_eq!(travel(1, 3), 333_334);
    assert_eq!(travel(0, 3), 0);
    assert_eq!(travel(3, 3), ONE as u128);
    assert_eq!(distance(i64::MIN, i64::MAX), u64::MAX);
    assert_eq!(distance(-3, 4), 7);
    assert_eq!(distance(4, -3), 7);
}

#[test]
fn limiter_construction_rejects_bad_limits() {
    assert_eq!(
        JointVelocityLimiter::new(3, vec![1, 1]).err(),
        Some(Error::LengthMismatch { expected: 3, actual: 2 })
    );
    assert_eq!(
        JointVelocityLimiter::new(3, vec![1, 0, -1]).err(),
        Some(Error::InvalidLimit { index: 1 })
    );
    assert_eq!(
        JointVelocityLimiter::new(1, vec![-5]).err(),
        Some(Error::InvalidLimit { index: 0 })
    );
    let limiter = JointVelocityLimiter::new(2, vec![7, 9]).unwrap();
    assert_eq!(limiter.velocity_limits(), &vec![7, 9]);
    assert_eq!(limiter.dof(), 2);
    assert!(JointVelocityLimiter::new(0, vec![]).is_ok());
}

#[test]
fn limiter_reports_bad_moves() {
    let limiter = JointVelocityLimiter::new(2, fxs(&[1.0, 1.0])).unwrap();
    assert_eq!(
        limiter.limited_duration(&vec![0], &vec![0, 0], 1),
        Err(Error::LengthMismatch { expected: 2, actual: 1 })
    );
    assert_eq!(
        limiter.limited_duration(&vec![0, 0], &vec![0, 0, 0], 1),
        Err(Error::LengthMismatch { expected: 2, actual: 3 })
    );
    assert_eq!(
        limiter.limited_duration(&vec![0, 0], &vec![0, 0], -1),
        Err(Error::InvalidTime { index: 0 })
    );
    let slow = JointVelocityLimiter::new(1, vec![1]).unwrap();
    assert_eq!(
        slow.limited_duration(&vec![i64::MIN], &vec![i64::MAX], 1),
        Err(Error::DurationOverflow { index: 0 })
    );
}

#[test]
fn limiter_stretches_each_move_of_a_trajectory() {
    let limiter = JointVelocityLimiter::new(2, fxs(&[1.0, 2.0])).unwrap();
    let current = fxs(&[0.0, 0.0]);
    let trajectory = vec![
        TrajectoryPoint::new(fxs(&[1.0, 0.0]), fx(0.5)),
        TrajectoryPoint::new(fxs(&[1.0, 1.0]), fx(2.5)),
        TrajectoryPoint::new(fxs(&[-1.0, 5.0]), fx(3.0)),
    ];
    let limited = limiter.limit_trajectory(&current, &trajectory).unwrap();
    assert_eq!(limited.len(), 3);
    assert_eq!(limited[0].positions, trajectory[0].positions);
    assert_eq!(limited[1].positions, trajectory[1].positions);
    assert_eq!(limited[2].positions, trajectory[2].positions);
    assert_eq!(limited[0].time_from_start, fx(1.0));
    assert_eq!(limited[1].time_from_start, fx(3.0));
    assert_eq!(limited[2].time_from_start, fx(5.0));
    assert_eq!(limiter.limit_trajectory(&current, &vec![]).unwrap().len(), 0);
}

#[test]
fn limiter_reports_the_first_faulty_point() {
    let limiter = JointVelocityLimiter::new(1, fxs(&[1.0])).unwrap();
    let current = vec![0];
    assert_eq!(
        limiter.limit_trajectory(&vec![0, 0], &vec![]).err(),
        Some(Error::LengthMismatch { expected: 1, actual: 2 })
    );
    let short = vec![TrajectoryPoint::new(vec![0], 1), TrajectoryPoint::new(vec![], 2)];
    assert_eq!(
        limiter.limit_trajectory(&current, &short).err(),
        Some(Error::LengthMismatch { expected: 1, actual: 0 })
    );
    let backwards = vec![TrajectoryPoint::new(vec![0], 5), TrajectoryPoint::new(vec![0], 5)];
    assert_eq!(
        limiter.limit_trajectory(&current, &backwards).err(),
        Some(Error::InvalidTime { index: 1 })
    );
    let early = vec![TrajectoryPoint::new(vec![0], -1)];
    assert_eq!(
        limiter.limit_trajectory(&current, &early).err(),
        Some(Error::InvalidTime { index: 0 })
    );
    let slow = JointVelocityLimiter::new(1, vec![1]).unwrap();
    let far = vec![TrajectoryPoint::new(vec![1], 1), TrajectoryPoint::new(vec![i64::MAX], 2)];
    assert_eq!(
        slow.limit_trajectory(&current, &far).err(),
        Some(Error::DurationOverflow { index: 1 })
    );
}

use arci::{
    join_outcomes, CommandEvent, CommandSlots, Error, JointTrajectoryClientsContainer, TrajectoryPoint,
};

fn names(names: &[&str]) -> Vec<String> {
    names.iter().map(|n| n.to_string()).collect()
}

#[test]
fn container_cuts_a_command_by_sub_client() {
    let container =
        JointTrajectoryClientsContainer::new(&vec![names(&["j1", "j2"]), names(&["j3", "j4"])]).unwrap();
    assert_eq!(container.joint_names(), &names(&["j1", "j2", "j3", "j4"]));
    assert_eq!(container.len(), 2);
    let parts = container.partition(&vec![1.0, 2.0, 3.0, 4.0]).unwrap();
    assert_eq!(parts, vec![vec![1.0, 2.0], vec![3.0, 4.0]]);
    assert_eq!(container.combine(&parts), Ok(vec![1.0, 2.0, 3.0, 4.0]));
}

#[test]
fn container_with_uneven_and_empty_sub_clients() {
    let container = JointTrajectoryClientsContainer::new(&vec![
        names(&["a"]),
        vec![],
        names(&["b", "c", "d"]),
    ])
    .unwrap();
    let parts = container.partition(&vec![1, 2, 3, 4]).unwrap();
    assert_eq!(parts, vec![vec![1], vec![], vec![2, 3, 4]]);
    assert_eq!(container.combine(&vec![vec![9], vec![], vec![8, 7, 6]]), Ok(vec![9, 8, 7, 6]));
    let none = JointTrajectoryClientsContainer::new(&vec![]).unwrap();
    assert_eq!(none.len(), 0);
    assert_eq!(none.partition(&Vec::<i64>::new()), Ok(vec![]));
    assert_eq!(none.combine(&Vec::<Vec<i64>>::new()), Ok(vec![]));
}

#[test]
fn container_refuses_a_joint_twice() {
    assert_eq!(
        JointTrajectoryClientsContainer::new(&vec![names(&["j1", "j2"]), names(&["j3", "j1"])]).err(),
        Some(Error::DuplicateJoint { name: "j1".to_owned() })
    );
    assert_eq!(
        JointTrajectoryClientsContainer::new(&vec![names(&["j1", "j1"]), names(&["j3", "j3"])]).err(),
        Some(Error::DuplicateJoint { name: "j1".to_owned() })
    );
}

#[test]
fn container_reports_lengths() {
    let container =
        JointTrajectoryClientsContainer::new(&vec![names(&["j1", "j2"]), names(&["j3"])]).unwrap();
    assert_eq!(
        container.partition(&vec![1, 2]),
        Err(Error::LengthMismatch { expected: 3, actual: 2 })
    );
    assert_eq!(
        container.combine(&vec![vec![1, 2]]),
        Err(Error::LengthMismatch { expected: 2, actual: 1 })
    );
    assert_eq!(
        container.combine(&vec![vec![1, 2], vec![3, 4]]),
        Err(Error::LengthMismatch { expected: 1, actual: 2 })
    );
    assert_eq!(
        container.combine(&vec![vec![1], vec![3, 4]]),
        Err(Error::LengthMismatch { expected: 2, actual: 1 })
    );
}

#[test]
fn container_cuts_a_trajectory_by_sub_client() {
    let container =
        JointTrajectoryClientsContainer::new(&vec![names(&["j1", "j2"]), names(&["j3"])]).unwrap();
    let trajectory = vec![
        TrajectoryPoint::new(vec![1.0, 2.0, 3.0], 0.1),
        TrajectoryPoint::new(vec![4.0, 5.0, 6.0], 0.2),
    ];
    let parts = container.partition_trajectory(&trajectory).unwrap();
    assert_eq!(parts.len(), 2);
    assert_eq!(parts[0].len(), 2);
    assert_eq!(parts[0][0].positions, vec![1.0, 2.0]);
    assert_eq!(parts[0][1].positions, vec![4.0, 5.0]);
    assert_eq!(parts[1][0].positions, vec![3.0]);
    assert_eq!(parts[1][1].positions, vec![6.0]);
    assert_eq!(parts[0][0].time_from_start, 0.1);
    assert_eq!(parts[1][1].time_from_start, 0.2);
    let bad = vec![TrajectoryPoint::new(vec![1, 2, 3], 1), TrajectoryPoint::new(vec![1, 2], 2)];
    assert_eq!(
        container.partition_trajectory(&bad).err(),
        Some(Error::LengthMismatch { expected: 3, actual: 2 })
    );
    let empty = container.partition_trajectory(&Vec::<TrajectoryPoint<i64>>::new()).unwrap();
    assert_eq!(empty.len(), 2);
    assert!(empty[0].is_empty() && empty[1].is_empty());
}

#[test]
fn joined_outcome_is_the_first_failure() {
    assert_eq!(join_outcomes(vec![]), Ok(()));
    assert_eq!(join_outcomes(vec![Ok(()), Ok(())]), Ok(()));
    assert_eq!(
        join_outcomes(vec![Ok(()), Err(Error::Timeout), Err(Error::Busy { client: 2 }), Ok(())]),
        Err(Error::Timeout)
    );
    assert_eq!(
        join_outcomes(vec![Err(Error::Backend { reason: "down".to_owned() })]),
        Err(Error::Backend { reason: "down".to_owned() })
    );
}

#[test]
fn a_sub_client_takes_one_command_at_a_time() {
    let mut slots = CommandSlots::new(2);
    assert!(!slots.is_busy(0));
    assert_eq!(slots.begin(0), Ok(()));
    assert!(slots.is_busy(0));
    assert!(!slots.is_busy(1));
    assert_eq!(slots.begin(0), Err(Error::Busy { client: 0 }));
    assert_eq!(slots.begin(1), Ok(()));
    assert_eq!(slots.finish(0), Ok(()));
    assert_eq!(slots.finish(0), Err(Error::Idle { client: 0 }));
    assert_eq!(slots.begin(0), Ok(()));
    assert_eq!(slots.begin(2), Err(Error::NoClient { client: 2 }));
    assert_eq!(slots.finish(7), Err(Error::NoClient { client: 7 }));
    assert!(!slots.is_busy(2));
    assert_eq!(
        slots.log(),
        &vec![
            CommandEvent::Start { client: 0 },
            CommandEvent::Start { client: 1 },
            CommandEvent::End { client: 0 },
            CommandEvent::Start { client: 0 },
        ]
    );
}

/// Runs each sub-client through its commands, one after the other, and
/// returns the moments of all starts and ends in the order of time.
fn schedule(durations: &[Vec<u64>]) -> Vec<(u64, bool, usize)> {
    let mut moments = Vec::new();
    for (client, commands) in durations.iter().enumerate() {
        let mut now: u64 = 0;
        for duration in commands {
            moments.push((now, true, client));
            now += duration;
            moments.push((now, false, client));
        }
    }
    // At one moment an end comes before a start.
    moments.sort_by_key(|(at, is_start, client)| (*at, *is_start, *client));
    moments
}

#[test]
fn four_sub_clients_with_two_commands_each() {
    let durations = vec![vec![100, 300], vec![200, 400], vec![150, 300], vec![300, 200]];
    let mut slots = CommandSlots::new(4);
    for (_, is_start, client) in schedule(&durations) {
        if is_start {
            assert_eq!(slots.begin(client), Ok(()));
            assert_eq!(slots.begin(client), Err(Error::Busy { client }));
        } else {
            assert_eq!(slots.finish(client), Ok(()));
        }
    }
    let start = |client: usize| CommandEvent::Start { client };
    let end = |client: usize| CommandEvent::End { client };
    let log = slots.log();
    for first in &log[0..4] {
        assert!(vec![start(0), start(1), start(2), start(3)].contains(first));
    }
    let expected = vec![
        end(0),
        start(0),
        end(2),
        start(2),
        end(1),
        start(1),
        end(3),
        start(3),
        end(0),
        end(2),
        end(3),
        end(1),
    ];
    assert_eq!(log[4..].len(), expected.len());
    assert_eq!(&log[4..], &expected[..]);
    for client in 0..4 {
        let own: Vec<&CommandEvent> = log
            .iter()
            .filter(|event| match event {
                CommandEvent::Start { client: c } => *c == client,
                CommandEvent::End { client: c } => *c == client,
            })
            .collect();
        assert_eq!(own, vec![&start(client), &end(client), &start(client), &end(client)]);
        assert!(!slots.is_busy(client));
    }
}

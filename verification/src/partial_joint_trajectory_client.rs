use crate::error::Error;
use crate::joint_names::{all_distinct, copied, copy_joint_positions, find_joint, first_index, lemma_first_index, names_of};
use crate::trajectory::{copy_of, TrajectoryPoint};
use vstd::prelude::*;

verus! {

/// The joint at `i` of `names` is not a joint of `full`.
pub open spec fn missing_at(names: Seq<Seq<char>>, full: Seq<Seq<char>>, i: int) -> bool {
    first_index(full, names[i]) is None
}

/// The joint at `i` of `names` stands at an earlier place of `names` too.
pub open spec fn repeated_at(names: Seq<Seq<char>>, i: int) -> bool {
    exists|j: int| 0 <= j < i && names[j] == names[i]
}

/// The joint at `i` of `names` is a joint of `full` and stands at no
/// earlier place of `names`.
pub open spec fn sound_at(names: Seq<Seq<char>>, full: Seq<Seq<char>>, i: int) -> bool {
    !missing_at(names, full, i) && !repeated_at(names, i)
}

/// Each of the first `n` joints of `names` is a joint of `full` and stands
/// at no earlier place of `names`.
pub open spec fn sound_before(names: Seq<Seq<char>>, full: Seq<Seq<char>>, n: int) -> bool {
    forall|i: int| 0 <= i < n ==> #[trigger] sound_at(names, full, i)
}

/// The backend's vector for a command: each backend joint that the
/// adapter has takes its value from `positions`, every other backend
/// joint keeps the value of `full_current`.
pub open spec fn to_backend_spec<T>(
    names: Seq<Seq<char>>,
    full: Seq<Seq<char>>,
    positions: Seq<T>,
    full_current: Seq<T>,
) -> Seq<T> {
    copied(names, positions, full, full_current)
}

/// The adapter's vector for a reading of the backend: the value of each
/// adapter joint, in the adapter's order.
pub open spec fn from_backend_spec<T>(names: Seq<Seq<char>>, full: Seq<Seq<char>>, full_positions: Seq<T>) -> Seq<
    T,
> {
    Seq::new(names.len(), |i: int| full_positions[first_index(full, names[i]).unwrap()])
}

/// What the backend reads after a command comes back to the adapter's
/// caller as the positions that were commanded.
pub proof fn lemma_round_trip<T>(
    names: Seq<Seq<char>>,
    full: Seq<Seq<char>>,
    positions: Seq<T>,
    full_current: Seq<T>,
)
    requires
        sound_before(names, full, names.len() as int),
        positions.len() == names.len(),
        full_current.len() == full.len(),
    ensures
        from_backend_spec(names, full, to_backend_spec(names, full, positions, full_current)) == positions,
{
    let sent = to_backend_spec(names, full, positions, full_current);
    let back = from_backend_spec(names, full, sent);
    assert forall|i: int| 0 <= i < names.len() implies back[i] == positions[i] by {
        assert(sound_at(names, full, i));
        lemma_first_index(full, names[i]);
        let k = first_index(full, names[i]).unwrap();
        lemma_first_index(names, full[k]);
        match first_index(names, full[k]) {
            Some(l) => {
                if l < i {
                    assert(names[l] == names[i]);
                }
            },
            None => {},
        }
    }
    assert(back =~= positions);
}

/// Joints that are sound have different names.
pub proof fn lemma_sound_names_distinct(names: Seq<Seq<char>>, full: Seq<Seq<char>>)
    requires
        sound_before(names, full, names.len() as int),
    ensures
        all_distinct(names),
{
    assert forall|i: int, j: int| 0 <= i < j < names.len() implies names[i] != names[j] by {
        assert(sound_at(names, full, j));
    }
}

/// A command through the adapter leaves every backend joint that the
/// adapter does not have where the backend's reading has it.
pub proof fn lemma_other_joints_stay<T>(
    names: Seq<Seq<char>>,
    full: Seq<Seq<char>>,
    positions: Seq<T>,
    full_current: Seq<T>,
    j: int,
)
    requires
        0 <= j < full.len(),
        full_current.len() == full.len(),
        forall|i: int| 0 <= i < names.len() ==> names[i] != full[j],
    ensures
        to_backend_spec(names, full, positions, full_current)[j] == full_current[j],
{
    lemma_first_index(names, full[j]);
}

/// Presents some joints of a backend, in an order of its own, as a joint
/// set by itself.
#[derive(Debug)]
pub struct PartialJointTrajectoryClient {
    joint_names: Vec<String>,
    full_joint_names: Vec<String>,
}

impl PartialJointTrajectoryClient {
    /// The adapter's joints, in the adapter's order.
    pub closed spec fn names(&self) -> Seq<Seq<char>> {
        names_of(self.joint_names@)
    }

    /// The backend's joints, in the backend's order.
    pub closed spec fn full_names(&self) -> Seq<Seq<char>> {
        names_of(self.full_joint_names@)
    }

    /// Every joint of the adapter is a joint of the backend, and the
    /// adapter has no joint twice.
    pub open spec fn wf(&self) -> bool {
        sound_before(self.names(), self.full_names(), self.names().len() as int)
    }

    #[verifier::type_invariant]
    spec fn inv(&self) -> bool {
        self.wf()
    }

    /// An adapter that presents `joint_names` out of a backend with the
    /// joints `full_joint_names`. The first joint that the backend lacks,
    /// or that stands in `joint_names` for the second time, is reported.
    pub fn new(joint_names: Vec<String>, full_joint_names: Vec<String>) -> (made: Result<Self, Error>)
        ensures
            made_from(made, names_of(joint_names@), names_of(full_joint_names@)),
    {
        let ghost names = names_of(joint_names@);
        let ghost full = names_of(full_joint_names@);
        let mut i: usize = 0;
        while i < joint_names.len()
            invariant
                i <= joint_names.len(),
                names == names_of(joint_names@),
                full == names_of(full_joint_names@),
                sound_before(names, full, i as int),
            decreases joint_names.len() - i,
        {
            if find_joint(&full_joint_names, &joint_names[i]).is_none() {
                return Err(Error::NoJoint { name: joint_names[i].clone() });
            }
            proof {
                lemma_first_index(names, names[i as int]);
            }
            match find_joint(&joint_names, &joint_names[i]) {
                Some(k) => {
                    if k < i {
                        assert(names[k as int] == names[i as int]);
                        return Err(Error::DuplicateJoint { name: joint_names[i].clone() });
                    }
                },
                None => {},
            }
            assert(sound_at(names, full, i as int));
            i += 1;
        }
        Ok(PartialJointTrajectoryClient { joint_names, full_joint_names })
    }

    /// The adapter's joints, in the adapter's order.
    pub fn joint_names(&self) -> (names: &Vec<String>)
        ensures
            names_of(names@) == self.names(),
    {
        &self.joint_names
    }

    /// The backend's joints, in the backend's order.
    pub fn full_joint_names(&self) -> (names: &Vec<String>)
        ensures
            names_of(names@) == self.full_names(),
    {
        &self.full_joint_names
    }

    /// Turns a reading of the backend into the adapter's reading.
    pub fn from_backend<T: Copy>(&self, full_positions: &Vec<T>) -> (reading: Result<Vec<T>, Error>)
        ensures
            self.wf(),
            match reading {
                Ok(positions) => {
                    &&& full_positions.len() == self.full_names().len()
                    &&& positions@ == from_backend_spec(self.names(), self.full_names(), full_positions@)
                },
                Err(e) => {
                    &&& full_positions.len() != self.full_names().len()
                    &&& e == (Error::LengthMismatch {
                        expected: self.full_names().len() as usize,
                        actual: full_positions.len(),
                    })
                },
            },
    {
        proof {
            use_type_invariant(self);
        }
        if full_positions.len() != self.full_joint_names.len() {
            return Err(
                Error::LengthMismatch { expected: self.full_joint_names.len(), actual: full_positions.len() },
            );
        }
        let ghost names = self.names();
        let ghost full = self.full_names();
        let ghost goal = from_backend_spec(names, full, full_positions@);
        let mut positions: Vec<T> = Vec::new();
        let mut i: usize = 0;
        while i < self.joint_names.len()
            invariant
                i <= self.joint_names.len(),
                names == names_of(self.joint_names@),
                full == names_of(self.full_joint_names@),
                sound_before(names, full, names.len() as int),
                full_positions.len() == full.len(),
                goal == from_backend_spec(names, full, full_positions@),
                positions@ == goal.subrange(0, i as int),
            decreases self.joint_names.len() - i,
        {
            proof {
                assert(sound_at(names, full, i as int));
                lemma_first_index(full, names[i as int]);
            }
            match find_joint(&self.full_joint_names, &self.joint_names[i]) {
                Some(k) => {
                    positions.push(full_positions[k]);
                },
                None => {},
            }
            assert(positions@ =~= goal.subrange(0, i + 1));
            i += 1;
        }
        assert(goal.subrange(0, names.len() as int) =~= goal);
        Ok(positions)
    }

    /// Turns a command to the adapter into the command for the backend,
    /// which reads `full_current` when the command is given.
    pub fn to_backend<T: Copy>(&self, positions: &Vec<T>, full_current: &Vec<T>) -> (command: Result<
        Vec<T>,
        Error,
    >)
        ensures
            self.wf(),
            match command {
                Ok(full_positions) => {
                    &&& positions.len() == self.names().len()
                    &&& full_current.len() == self.full_names().len()
                    &&& full_positions@ == to_backend_spec(
                        self.names(),
                        self.full_names(),
                        positions@,
                        full_current@,
                    )
                },
                Err(e) => if positions.len() != self.names().len() {
                    e == (Error::LengthMismatch { expected: self.names().len() as usize, actual: positions.len() })
                } else {
                    &&& full_current.len() != self.full_names().len()
                    &&& e == (Error::LengthMismatch {
                        expected: self.full_names().len() as usize,
                        actual: full_current.len(),
                    })
                },
            },
    {
        proof {
            use_type_invariant(self);
        }
        if positions.len() != self.joint_names.len() {
            return Err(Error::LengthMismatch { expected: self.joint_names.len(), actual: positions.len() });
        }
        if full_current.len() != self.full_joint_names.len() {
            return Err(
                Error::LengthMismatch { expected: self.full_joint_names.len(), actual: full_current.len() },
            );
        }
        let mut full_positions: Vec<T> = copy_of(full_current);
        copy_joint_positions(&self.joint_names, positions, &self.full_joint_names, &mut full_positions);
        Ok(full_positions)
    }

    /// Turns a trajectory for the adapter into the trajectory for the
    /// backend, which reads `full_current` when the command is given:
    /// each point keeps its time, and its positions become the backend's
    /// vector for them. The first point with another number of positions
    /// than the adapter has joints is reported.
    pub fn trajectory_to_backend<T: Copy>(
        &self,
        trajectory: &Vec<TrajectoryPoint<T>>,
        full_current: &Vec<T>,
    ) -> (command: Result<Vec<TrajectoryPoint<T>>, Error>)
        ensures
            self.wf(),
            match command {
                Ok(full) => {
                    &&& full_current.len() == self.full_names().len()
                    &&& full.len() == trajectory.len()
                    &&& forall|k: int|
                        0 <= k < trajectory.len() ==> (#[trigger] trajectory[k]).positions.len()
                            == self.names().len()
                    &&& forall|k: int|
                        0 <= k < trajectory.len() ==> {
                            &&& (#[trigger] full[k]).positions@ == to_backend_spec(
                                self.names(),
                                self.full_names(),
                                trajectory[k].positions@,
                                full_current@,
                            )
                            &&& full[k].time_from_start == trajectory[k].time_from_start
                        }
                },
                Err(e) => if full_current.len() != self.full_names().len() {
                    e == (Error::LengthMismatch {
                        expected: self.full_names().len() as usize,
                        actual: full_current.len(),
                    })
                } else {
                    exists|k: int|
                        {
                            &&& 0 <= k < trajectory.len()
                            &&& forall|j: int|
                                0 <= j < k ==> (#[trigger] trajectory[j]).positions.len() == self.names().len()
                            &&& (#[trigger] trajectory[k]).positions.len() != self.names().len()
                            &&& e == (Error::LengthMismatch {
                                expected: self.names().len() as usize,
                                actual: trajectory[k].positions.len(),
                            })
                        }
                },
            },
    {
        proof {
            use_type_invariant(self);
        }
        if full_current.len() != self.full_joint_names.len() {
            return Err(
                Error::LengthMismatch { expected: self.full_joint_names.len(), actual: full_current.len() },
            );
        }
        let mut full: Vec<TrajectoryPoint<T>> = Vec::new();
        let mut k: usize = 0;
        while k < trajectory.len()
            invariant
                k <= trajectory.len(),
                self.wf(),
                full_current.len() == self.full_names().len(),
                full.len() == k,
                forall|j: int| 0 <= j < k ==> (#[trigger] trajectory[j]).positions.len() == self.names().len(),
                forall|j: int|
                    0 <= j < k ==> {
                        &&& (#[trigger] full[j]).positions@ == to_backend_spec(
                            self.names(),
                            self.full_names(),
                            trajectory[j].positions@,
                            full_current@,
                        )
                        &&& full[j].time_from_start == trajectory[j].time_from_start
                    },
            decreases trajectory.len() - k,
        {
            let point = &trajectory[k];
            match self.to_backend(&point.positions, full_current) {
                Ok(positions) => {
                    full.push(TrajectoryPoint { positions, time_from_start: point.time_from_start });
                },
                Err(e) => {
                    return Err(e);
                },
            }
            k += 1;
        }
        Ok(full)
    }
}

/// Whether `made` is what making an adapter for the joints `names` out of
/// a backend with the joints `full` gives: the adapter where all joints
/// are sound, else the first joint that is not, as missing where the
/// backend lacks it and as a duplicate otherwise.
pub open spec fn made_from(
    made: Result<PartialJointTrajectoryClient, Error>,
    names: Seq<Seq<char>>,
    full: Seq<Seq<char>>,
) -> bool {
    match made {
        Ok(adapter) => {
            &&& adapter.wf()
            &&& adapter.names() == names
            &&& adapter.full_names() == full
        },
        Err(Error::NoJoint { name }) => exists|i: int|
            {
                &&& 0 <= i < names.len()
                &&& sound_before(names, full, i)
                &&& missing_at(names, full, i)
                &&& name@ == #[trigger] names[i]
            },
        Err(Error::DuplicateJoint { name }) => exists|i: int|
            {
                &&& 0 <= i < names.len()
                &&& sound_before(names, full, i)
                &&& !missing_at(names, full, i)
                &&& repeated_at(names, i)
                &&& name@ == #[trigger] names[i]
            },
        Err(_) => false,
    }
}

} // verus!

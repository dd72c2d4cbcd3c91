use crate::error::Error;
use crate::joint_names::names_of;
use crate::trajectory::{copy_of, TrajectoryPoint};
use vstd::prelude::*;

verus! {

/// A backend that is where it was last told to be.
#[derive(Debug)]
pub struct DummyJointTrajectoryClient<T> {
    joint_names: Vec<String>,
    positions: Vec<T>,
}

impl<T> DummyJointTrajectoryClient<T> {
    /// The joints, in the backend's order.
    pub closed spec fn names(&self) -> Seq<Seq<char>> {
        names_of(self.joint_names@)
    }

    /// Where the joints are.
    pub closed spec fn positions(&self) -> Seq<T> {
        self.positions@
    }

    /// There is one position for each joint.
    pub open spec fn wf(&self) -> bool {
        self.positions().len() == self.names().len()
    }

    #[verifier::type_invariant]
    spec fn inv(&self) -> bool {
        self.wf()
    }
}

impl<T: Copy> DummyJointTrajectoryClient<T> {
    /// A backend with the joints `joint_names`, which are at `positions`.
    pub fn with_positions(joint_names: Vec<String>, positions: Vec<T>) -> (made: Result<Self, Error>)
        ensures
            match made {
                Ok(client) => {
                    &&& client.wf()
                    &&& client.names() == names_of(joint_names@)
                    &&& client.positions() == positions@
                },
                Err(e) => {
                    &&& positions.len() != joint_names.len()
                    &&& e == (Error::LengthMismatch { expected: joint_names.len(), actual: positions.len() })
                },
            },
    {
        if positions.len() != joint_names.len() {
            return Err(Error::LengthMismatch { expected: joint_names.len(), actual: positions.len() });
        }
        Ok(DummyJointTrajectoryClient { joint_names, positions })
    }

    /// The joints, in the backend's order.
    pub fn joint_names(&self) -> (names: &Vec<String>)
        ensures
            names_of(names@) == self.names(),
    {
        &self.joint_names
    }

    /// Where the joints are. Reading moves nothing.
    pub fn current_joint_positions(&self) -> (positions: Vec<T>)
        ensures
            positions@ == self.positions(),
            self.wf(),
    {
        proof {
            use_type_invariant(self);
        }
        copy_of(&self.positions)
    }

    /// Moves the joints to `positions`. A vector with another number of
    /// entries than the backend has joints moves nothing.
    pub fn send_joint_positions(&mut self, positions: Vec<T>) -> (sent: Result<(), Error>)
        ensures
            final(self).wf(),
            final(self).names() == old(self).names(),
            match sent {
                Ok(_) => {
                    &&& positions.len() == old(self).names().len()
                    &&& final(self).positions() == positions@
                },
                Err(e) => {
                    &&& positions.len() != old(self).names().len()
                    &&& final(self).positions() == old(self).positions()
                    &&& e == (Error::LengthMismatch {
                        expected: old(self).names().len() as usize,
                        actual: positions.len(),
                    })
                },
            },
    {
        proof {
            use_type_invariant(&*self);
        }
        if positions.len() != self.joint_names.len() {
            return Err(Error::LengthMismatch { expected: self.joint_names.len(), actual: positions.len() });
        }
        self.positions = positions;
        Ok(())
    }

    /// Moves the joints to the last point of `trajectory`. An empty
    /// trajectory moves nothing; a last point with another number of
    /// positions than the backend has joints moves nothing and fails.
    pub fn send_joint_trajectory(&mut self, trajectory: Vec<TrajectoryPoint<T>>) -> (sent: Result<(), Error>)
        ensures
            final(self).wf(),
            final(self).names() == old(self).names(),
            match sent {
                Ok(_) => if trajectory.len() == 0 {
                    final(self).positions() == old(self).positions()
                } else {
                    &&& trajectory@.last().positions.len() == old(self).names().len()
                    &&& final(self).positions() == trajectory@.last().positions@
                },
                Err(e) => {
                    &&& trajectory.len() > 0
                    &&& trajectory@.last().positions.len() != old(self).names().len()
                    &&& final(self).positions() == old(self).positions()
                    &&& e == (Error::LengthMismatch {
                        expected: old(self).names().len() as usize,
                        actual: trajectory@.last().positions.len(),
                    })
                },
            },
    {
        proof {
            use_type_invariant(&*self);
        }
        let mut points = trajectory;
        match points.pop() {
            Some(point) => self.send_joint_positions(point.positions),
            None => Ok(()),
        }
    }
}

impl DummyJointTrajectoryClient<i64> {
    /// A backend with the joints `joint_names`, all of them at zero.
    pub fn new(joint_names: Vec<String>) -> (client: Self)
        ensures
            client.wf(),
            client.names() == names_of(joint_names@),
            client.positions() == Seq::new(joint_names.len() as nat, |i: int| 0i64),
    {
        let mut positions: Vec<i64> = Vec::new();
        let mut i: usize = 0;
        while i < joint_names.len()
            invariant
                i <= joint_names.len(),
                positions@ == Seq::new(i as nat, |j: int| 0i64),
            decreases joint_names.len() - i,
        {
            positions.push(0);
            assert(positions@ =~= Seq::new((i + 1) as nat, |j: int| 0i64));
            i += 1;
        }
        DummyJointTrajectoryClient { joint_names, positions }
    }
}

} // verus!

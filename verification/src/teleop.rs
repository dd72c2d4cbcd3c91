use crate::error::Error;
use crate::joint_names::{find_joint, first_index, names_of};
use std::path::PathBuf;
use vstd::prelude::*;

verus! {

#[verifier::external_type_specification]
#[verifier::external_body]
pub struct ExPathBuf(PathBuf);

/// The arguments of the teleoperation tool.
#[derive(Debug)]
pub struct RobotTeleopArgs {
    pub config_path: PathBuf,
}

/// The control node that teleoperation begins with: the first node where
/// no mode is asked for, else the first node that has the mode asked for.
pub open spec fn initial_node_spec(modes: Seq<Seq<char>>, initial_mode: Seq<char>) -> Option<int> {
    if initial_mode.len() == 0 {
        Some(0)
    } else {
        first_index(modes, initial_mode)
    }
}

/// Chooses the control node that teleoperation begins with among nodes
/// with the modes `modes`.
pub fn initial_node_index(modes: &Vec<String>, initial_mode: &String) -> (chosen: Result<usize, Error>)
    ensures
        match chosen {
            Ok(index) => {
                &&& modes.len() > 0
                &&& initial_node_spec(names_of(modes@), initial_mode@) == Some(index as int)
            },
            Err(Error::NoValidNodes) => modes.len() == 0,
            Err(Error::NoSpecifiedNode { mode }) => {
                &&& modes.len() > 0
                &&& initial_node_spec(names_of(modes@), initial_mode@).is_none()
                &&& mode@ == initial_mode@
            },
            Err(_) => false,
        },
{
    if modes.len() == 0 {
        return Err(Error::NoValidNodes);
    }
    if initial_mode.as_str().is_empty() {
        return Ok(0);
    }
    match find_joint(modes, initial_mode) {
        Some(index) => Ok(index),
        None => Err(Error::NoSpecifiedNode { mode: initial_mode.clone() }),
    }
}

} // verus!

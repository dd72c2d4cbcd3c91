use crate::error::Error;
use crate::joint_names::names_of;
use crate::joint_velocity_limiter::JointVelocityLimiter;
use crate::partial_joint_trajectory_client::{made_from, PartialJointTrajectoryClient};
use url::{ParseError, Url};
use vstd::prelude::*;

verus! {

#[verifier::external_type_specification]
#[verifier::external_body]
pub struct ExParseError(ParseError);

/// The joints of the simulator and where they are.
#[derive(Debug, Clone)]
pub struct JointState<T> {
    pub names: Vec<String>,
    pub positions: Vec<T>,
}

/// What the configuration says of one client of the simulator: its name,
/// the joints that it presents, and whether and how far their velocities
/// are limited. The limits may be written in any number type.
#[derive(Debug, Clone)]
pub struct UrdfVizWebClientConfig<T> {
    pub name: String,
    pub joint_names: Vec<String>,
    pub wrap_with_joint_velocity_limiter: bool,
    pub joint_velocity_limits: Vec<T>,
}

fn copy_names(names: &Vec<String>) -> (copy: Vec<String>)
    ensures
        names_of(copy@) == names_of(names@),
{
    let mut copy: Vec<String> = Vec::new();
    let mut i: usize = 0;
    while i < names.len()
        invariant
            i <= names.len(),
            names_of(copy@) == names_of(names@).subrange(0, i as int),
        decreases names.len() - i,
    {
        let ghost before = names_of(copy@);
        copy.push(names[i].clone());
        assert(names_of(copy@) =~= before.push(names[i as int]@));
        assert(names_of(copy@) =~= names_of(names@).subrange(0, i + 1));
        i += 1;
    }
    assert(names_of(names@).subrange(0, names.len() as int) =~= names_of(names@));
    copy
}

impl<T> UrdfVizWebClientConfig<T> {
    /// The adapter that presents the client's joints out of a simulator
    /// with the joints `full_joint_names`.
    pub fn adapter(&self, full_joint_names: &Vec<String>) -> (made: Result<PartialJointTrajectoryClient, Error>)
        ensures
            made_from(made, names_of(self.joint_names@), names_of(full_joint_names@)),
    {
        PartialJointTrajectoryClient::new(copy_names(&self.joint_names), copy_names(full_joint_names))
    }
}

impl UrdfVizWebClientConfig<i64> {
    /// The limiter that the client is wrapped with: none where the
    /// configuration asks for none, else one with the configured limits,
    /// which must be one positive limit for each joint.
    pub fn limiter(&self) -> (made: Result<Option<JointVelocityLimiter>, Error>)
        ensures
            match made {
                Ok(None) => !self.wrap_with_joint_velocity_limiter,
                Ok(Some(limiter)) => {
                    &&& self.wrap_with_joint_velocity_limiter
                    &&& limiter.wf()
                    &&& limiter.limits() == self.joint_velocity_limits@
                    &&& self.joint_velocity_limits.len() == self.joint_names.len()
                },
                Err(Error::LengthMismatch { expected, actual }) => {
                    &&& self.wrap_with_joint_velocity_limiter
                    &&& self.joint_velocity_limits.len() != self.joint_names.len()
                    &&& expected == self.joint_names.len()
                    &&& actual == self.joint_velocity_limits.len()
                },
                Err(Error::InvalidLimit { index }) => {
                    &&& self.wrap_with_joint_velocity_limiter
                    &&& self.joint_velocity_limits.len() == self.joint_names.len()
                    &&& index < self.joint_velocity_limits.len()
                    &&& self.joint_velocity_limits[index as int] <= 0
                    &&& forall|j: int| 0 <= j < index ==> self.joint_velocity_limits[j] > 0
                },
                Err(_) => false,
            },
    {
        if !self.wrap_with_joint_velocity_limiter {
            return Ok(None);
        }
        let mut limits: Vec<i64> = Vec::new();
        let mut i: usize = 0;
        while i < self.joint_velocity_limits.len()
            invariant
                i <= self.joint_velocity_limits.len(),
                limits@ == self.joint_velocity_limits@.subrange(0, i as int),
            decreases self.joint_velocity_limits.len() - i,
        {
            limits.push(self.joint_velocity_limits[i]);
            assert(limits@ =~= self.joint_velocity_limits@.subrange(0, i + 1));
            i += 1;
        }
        assert(limits@ =~= self.joint_velocity_limits@);
        match JointVelocityLimiter::new(self.joint_names.len(), limits) {
            Ok(limiter) => Ok(Some(limiter)),
            Err(e) => Err(e),
        }
    }
}

/// What the simulator answers to a command.
#[derive(Debug, Clone)]
pub struct RpcResult {
    pub is_ok: bool,
    pub reason: String,
}

impl RpcResult {
    /// The outcome of the command: the simulator's reason is the failure
    /// where it did not accept the command.
    pub fn into_result(self) -> (outcome: Result<(), Error>)
        ensures
            outcome == (if self.is_ok {
                Ok::<(), Error>(())
            } else {
                Err::<(), Error>(Error::Backend { reason: self.reason })
            }),
    {
        if self.is_ok {
            Ok(())
        } else {
            Err(Error::Backend { reason: self.reason })
        }
    }
}

/// The four requests that the simulator serves.
#[derive(Debug, Clone, Copy, PartialEq, Eq, Structural)]
pub enum Endpoint {
    GetJointPositions,
    SetJointPositions,
    GetRobotOrigin,
    SetRobotOrigin,
}

impl Endpoint {
    /// The path of the request below the simulator's base address.
    pub open spec fn path_spec(self) -> Seq<char> {
        match self {
            Endpoint::GetJointPositions => "get_joint_positions"@,
            Endpoint::SetJointPositions => "set_joint_positions"@,
            Endpoint::GetRobotOrigin => "get_robot_origin"@,
            Endpoint::SetRobotOrigin => "set_robot_origin"@,
        }
    }

    /// The path of the request below the simulator's base address.
    pub fn path(self) -> (path: &'static str)
        ensures
            path@ == self.path_spec(),
    {
        match self {
            Endpoint::GetJointPositions => "get_joint_positions",
            Endpoint::SetJointPositions => "set_joint_positions",
            Endpoint::GetRobotOrigin => "get_robot_origin",
            Endpoint::SetRobotOrigin => "set_robot_origin",
        }
    }

    /// Whether the request carries a new state to the simulator.
    pub fn is_command(self) -> (sends: bool)
        ensures
            sends == (self == Endpoint::SetJointPositions || self == Endpoint::SetRobotOrigin),
    {
        match self {
            Endpoint::SetJointPositions => true,
            Endpoint::SetRobotOrigin => true,
            _ => false,
        }
    }
}

/// The text of the address that the crate `url` makes of `input` below the
/// base address `base`: what `Url::parse` reads from `base`, joined with
/// `input` by `Url::join`, written out as text. There is none where `base`
/// is no address, or where nothing can be joined to it.
pub uninterp spec fn joined_url(base: Seq<char>, input: Seq<char>) -> Option<Seq<char>>;

/// `Url::parse` on `base_url` and `Url::join` with `input`, both of the
/// crate `url`, and the joined address as text. The contract only gives
/// the outcome a name: it depends on the two texts alone.
#[verifier::external_body]
fn join(base_url: &str, input: &str) -> (joined: Result<String, ParseError>)
    ensures
        joined is Ok <==> joined_url(base_url@, input@) is Some,
        joined is Ok ==> joined_url(base_url@, input@) == Some(joined.unwrap()@),
{
    Ok(String::from(Url::parse(base_url)?.join(input)?))
}

/// The address of a request, from what joining its path to the base
/// address gave: the joined address, or the failure that no address can
/// be made.
pub fn located(joined: Result<String, ParseError>) -> (address: Result<String, Error>)
    ensures
        address == (match joined {
            Ok(text) => Ok::<String, Error>(text),
            Err(_) => Err::<String, Error>(Error::InvalidUrl),
        }),
{
    match joined {
        Ok(text) => Ok(text),
        Err(_) => Err(Error::InvalidUrl),
    }
}

/// The address of `endpoint` below the base address `base_url`: the path
/// of the endpoint, joined to the base address. Where the base is no
/// address, or nothing can be joined to it, the failure is `InvalidUrl`.
pub fn endpoint_url(base_url: &str, endpoint: Endpoint) -> (address: Result<String, Error>)
    ensures
        match joined_url(base_url@, endpoint.path_spec()) {
            Some(text) => address is Ok && address.unwrap()@ == text,
            None => address == Err::<String, Error>(Error::InvalidUrl),
        },
{
    located(join(base_url, endpoint.path()))
}

} // verus!

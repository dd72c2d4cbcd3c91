//! Coordination rules for joint-actuator clients: re-indexing of joint
//! vectors between joint orderings, partition of one command over several
//! backends, velocity-limited durations and completion conditions.
//!
//! Numbers that the rules calculate with are decimal fixed-point values
//! held in `i64`, with six fractional digits: `1_000_000` stands for one
//! radian, one second or one radian per second. Rules that only move
//! values around are generic over the value type.

pub mod dispatch;
pub mod dummy_trajectory_client;
pub mod error;
pub mod fixed;
pub mod joint_names;
pub mod joint_trajectory_clients_container;
pub mod joint_velocity_limiter;
pub mod partial_joint_trajectory_client;
pub mod speak_cmd;
pub mod teleop;
pub mod trajectory;
pub mod urdf_viz;
pub mod waits;

pub use dispatch::{CommandEvent, CommandSlots};
pub use dummy_trajectory_client::DummyJointTrajectoryClient;
pub use error::Error;
pub use joint_names::{all_distinct, copy_joint_positions, find_joint, names_of};
pub use joint_trajectory_clients_container::{join_outcomes, JointTrajectoryClientsContainer};
pub use joint_velocity_limiter::JointVelocityLimiter;
pub use partial_joint_trajectory_client::PartialJointTrajectoryClient;
pub use speak_cmd::{CommandLine, LocalCommand, Platform};
pub use teleop::{initial_node_index, RobotTeleopArgs};
pub use trajectory::TrajectoryPoint;
pub use urdf_viz::{endpoint_url, located, Endpoint, JointState, RpcResult, UrdfVizWebClientConfig};
pub use waits::{poll, CompleteCondition, EachJointDiffCondition, TotalJointDiffCondition, WaitStep, POLL_INTERVAL};

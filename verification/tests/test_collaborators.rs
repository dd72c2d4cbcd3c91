use arci::{
    endpoint_url, initial_node_index, located, CommandLine, Endpoint, Error, JointState, LocalCommand,
    Platform, RobotTeleopArgs, RpcResult,
};
use std::path::PathBuf;
use url::Url;

fn names(names: &[&str]) -> Vec<String> {
    names.iter().map(|n| n.to_string()).collect()
}

#[test]
fn local_command_line_by_platform() {
    let speaker = LocalCommand::new();
    assert_eq!(
        speaker.command(Platform::Other, "hello world"),
        CommandLine { program: "espeak".to_owned(), args: vec!["hello world".to_owned()] }
    );
    assert_eq!(
        speaker.command(Platform::MacOs, "hi"),
        CommandLine { program: "say".to_owned(), args: vec!["hi".to_owned()] }
    );
    let windows = LocalCommand::default().command(Platform::Windows, "hi");
    assert_eq!(windows.program, "powershell");
    assert_eq!(
        windows.args,
        vec![
            "PowerShell -Command \"Add-Type –AssemblyName System.Speech; (New-Object System.Speech.Synthesis.SpeechSynthesizer).Speak('hi');\""
                .to_owned()
        ]
    );
}

#[test]
fn local_command_reports_a_failed_run() {
    let speaker = LocalCommand::new();
    assert_eq!(speaker.try_speak(Platform::Other, "hello", true), Ok(()));
    assert_eq!(
        speaker.try_speak(Platform::Other, "hello", false),
        Err("failed to run `espeak` with message \"hello\"".to_owned())
    );
    assert_eq!(
        speaker.try_speak(Platform::MacOs, "a \"b\"\n", false),
        Err("failed to run `say` with message \"a \\\"b\\\"\\n\"".to_owned())
    );
    assert_eq!(
        speaker.try_speak(Platform::Windows, "", false),
        Err("failed to run `powershell` with message \"\"".to_owned())
    );
    assert_eq!(format!("{:?}", speaker), "LocalCommand");
}

#[test]
fn endpoints_lie_below_the_base_address() {
    let base = "http://127.0.0.1:7777";
    assert_eq!(
        endpoint_url(base, Endpoint::GetJointPositions),
        Ok("http://127.0.0.1:7777/get_joint_positions".to_owned())
    );
    assert_eq!(
        endpoint_url(base, Endpoint::SetJointPositions),
        Ok("http://127.0.0.1:7777/set_joint_positions".to_owned())
    );
    assert_eq!(
        endpoint_url(base, Endpoint::GetRobotOrigin),
        Ok("http://127.0.0.1:7777/get_robot_origin".to_owned())
    );
    assert_eq!(
        endpoint_url(base, Endpoint::SetRobotOrigin),
        Ok("http://127.0.0.1:7777/set_robot_origin".to_owned())
    );
    assert_eq!(
        endpoint_url("http://example.net/sim/", Endpoint::GetRobotOrigin),
        Ok("http://example.net/sim/get_robot_origin".to_owned())
    );
    assert_eq!(
        endpoint_url("http://example.net/sim/state", Endpoint::GetRobotOrigin),
        Ok("http://example.net/sim/get_robot_origin".to_owned())
    );
    assert_eq!(
        endpoint_url(Url::parse(base).unwrap().as_str(), Endpoint::GetJointPositions),
        Ok(Url::parse(base).unwrap().join("get_joint_positions").unwrap().to_string())
    );
    assert_eq!(Endpoint::SetRobotOrigin.path(), "set_robot_origin");
    assert!(Endpoint::SetRobotOrigin.is_command());
    assert!(Endpoint::SetJointPositions.is_command());
    assert!(!Endpoint::GetJointPositions.is_command());
    assert!(!Endpoint::GetRobotOrigin.is_command());
}

#[test]
fn an_address_that_is_no_base_gives_no_endpoint() {
    assert_eq!(
        endpoint_url("mailto:robot@example.net", Endpoint::GetJointPositions),
        Err(Error::InvalidUrl)
    );
    assert_eq!(endpoint_url("no address", Endpoint::GetJointPositions), Err(Error::InvalidUrl));
    assert_eq!(endpoint_url("", Endpoint::SetRobotOrigin), Err(Error::InvalidUrl));
    let base = Url::parse("mailto:robot@example.net").unwrap();
    assert_eq!(
        located(base.join("get_joint_positions").map(String::from)),
        Err(Error::InvalidUrl)
    );
    assert_eq!(located(Err(url::ParseError::EmptyHost)), Err(Error::InvalidUrl));
    assert_eq!(
        located(Ok("http://example.net/".to_owned())),
        Ok("http://example.net/".to_owned())
    );
}

#[test]
fn simulator_answers_become_outcomes() {
    let accepted = RpcResult { is_ok: true, reason: "".to_owned() };
    assert_eq!(accepted.into_result(), Ok(()));
    let refused = RpcResult { is_ok: false, reason: "no such joint".to_owned() };
    assert_eq!(
        refused.clone().into_result(),
        Err(Error::Backend { reason: "no such joint".to_owned() })
    );
    assert_eq!(refused.reason, "no such joint");
    let state = JointState { names: names(&["j1", "j2"]), positions: vec![1.0, -1.0] };
    let copy = state.clone();
    assert_eq!(copy.names, names(&["j1", "j2"]));
    assert_eq!(copy.positions, vec![1.0, -1.0]);
}

#[test]
fn teleoperation_begins_with_the_node_asked_for() {
    let modes = names(&["arm", "base", "arm"]);
    assert_eq!(initial_node_index(&modes, &"".to_owned()), Ok(0));
    assert_eq!(initial_node_index(&modes, &"arm".to_owned()), Ok(0));
    assert_eq!(initial_node_index(&modes, &"base".to_owned()), Ok(1));
    assert_eq!(
        initial_node_index(&modes, &"gripper".to_owned()),
        Err(Error::NoSpecifiedNode { mode: "gripper".to_owned() })
    );
    assert_eq!(initial_node_index(&vec![], &"".to_owned()), Err(Error::NoValidNodes));
    assert_eq!(initial_node_index(&vec![], &"arm".to_owned()), Err(Error::NoValidNodes));
    let args = RobotTeleopArgs { config_path: PathBuf::from("teleop.toml") };
    assert_eq!(args.config_path, PathBuf::from("teleop.toml"));
}

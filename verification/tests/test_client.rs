use arci::{Error, UrdfVizWebClientConfig};

fn approx(a: f64, b: f64) {
    assert!((a - b).abs() < 1.0e-6, "{} is not {}", a, b);
}

#[test]
fn test_urdf_viz_web_client_config_accessor() {
    let mut config = UrdfVizWebClientConfig {
        name: "test".to_owned(),
        joint_names: vec!["j1".to_owned(), "j2".to_owned()],
        wrap_with_joint_velocity_limiter: true,
        joint_velocity_limits: vec![1.0, 2.0],
    };
    assert_eq!(config.name, "test");
    assert_eq!(config.joint_names[0], "j1");
    assert_eq!(config.joint_names[1], "j2");
    assert_eq!(config.wrap_with_joint_velocity_limiter, true);
    approx(config.joint_velocity_limits[0], 1.0);
    approx(config.joint_velocity_limits[1], 2.0);
    config.name = "arm".to_owned();
    config.joint_names = vec!["shoulder_pan_joint".to_owned(), "elbow_joint".to_owned()];
    config.wrap_with_joint_velocity_limiter = false;
    config.joint_velocity_limits = vec![0.0, 0.0];
    assert_eq!(config.name, "arm");
    assert_eq!(config.joint_names[0], "shoulder_pan_joint");
    assert_eq!(config.joint_names[1], "elbow_joint");
    assert_eq!(config.wrap_with_joint_velocity_limiter, false);
    approx(config.joint_velocity_limits[0], 0.0);
    approx(config.joint_velocity_limits[1], 0.0);
}

#[test]
fn test_urdf_viz_web_client_config_debug() {
    let config = UrdfVizWebClientConfig {
        name: "test".to_owned(),
        joint_names: vec!["j1".to_owned(), "j2".to_owned()],
        wrap_with_joint_velocity_limiter: true,
        joint_velocity_limits: vec![1.0, 2.0],
    };
    assert_eq!(
        format!("{:?}", config),
        "UrdfVizWebClientConfig { name: \"test\", joint_names: [\"j1\", \"j2\"], wrap_with_joint_velocity_limiter: true, joint_velocity_limits: [1.0, 2.0] }"
    )
}

#[test]
fn test_urdf_viz_web_client_config_clone() {
    let config1 = UrdfVizWebClientConfig {
        name: "test".to_owned(),
        joint_names: vec!["j1".to_owned(), "j2".to_owned()],
        wrap_with_joint_velocity_limiter: true,
        joint_velocity_limits: vec![1.0, 2.0],
    };
    let config2 = config1.clone();
    assert_eq!(config2.name, "test");
    assert_eq!(config2.joint_names[0], "j1");
    assert_eq!(config2.joint_names[1], "j2");
    assert_eq!(config2.wrap_with_joint_velocity_limiter, true);
    approx(config2.joint_velocity_limits[0], 1.0);
    approx(config2.joint_velocity_limits[1], 2.0);
}

fn config(wrap: bool, limits: Vec<i64>) -> UrdfVizWebClientConfig<i64> {
    UrdfVizWebClientConfig {
        name: "c1".to_owned(),
        joint_names: vec!["j2".to_owned(), "j1".to_owned()],
        wrap_with_joint_velocity_limiter: wrap,
        joint_velocity_limits: limits,
    }
}

#[test]
fn configured_client_is_limited_only_where_asked() {
    assert!(config(false, vec![]).limiter().unwrap().is_none());
    assert!(config(false, vec![0, -1, 5]).limiter().unwrap().is_none());
    let limiter = config(true, vec![1_000_000, 2_000_000]).limiter().unwrap().unwrap();
    assert_eq!(limiter.velocity_limits(), &vec![1_000_000, 2_000_000]);
    assert_eq!(
        config(true, vec![1_000_000]).limiter().err(),
        Some(Error::LengthMismatch { expected: 2, actual: 1 })
    );
    assert_eq!(
        config(true, vec![1_000_000, 0]).limiter().err(),
        Some(Error::InvalidLimit { index: 1 })
    );
}

#[test]
fn configured_client_presents_its_joints() {
    let full = vec!["j1".to_owned(), "j2".to_owned(), "j3".to_owned()];
    let adapter = config(false, vec![]).adapter(&full).unwrap();
    assert_eq!(adapter.joint_names(), &vec!["j2".to_owned(), "j1".to_owned()]);
    assert_eq!(adapter.full_joint_names(), &full);
    assert_eq!(adapter.from_backend(&vec![1.0, 2.0, 3.0]), Ok(vec![2.0, 1.0]));
    assert_eq!(
        config(false, vec![]).adapter(&vec!["j1".to_owned()]).err(),
        Some(Error::NoJoint { name: "j2".to_owned() })
    );
}

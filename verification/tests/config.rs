use sim_foundation::config::{join_path, ConfigRoots, ProbeMode};

#[test]
fn probe_mode_defaults_to_modeled() {
    assert_eq!(ProbeMode::default(), ProbeMode::Modeled);
}

#[test]
fn roots_use_config_home_before_xdg_and_home() {
    let roots = ConfigRoots::from_env_values(
        "/work".to_string(),
        Some("/sim-config".to_string()),
        Some("/xdg".to_string()),
        Some("/user-home/alice".to_string()),
    );

    assert_eq!(roots.home, Some("/sim-config".to_string()));
    assert_eq!(roots.work, "/work/.sim/config");
}

#[test]
fn roots_fall_back_to_xdg_then_home() {
    let roots = ConfigRoots::from_env_values(
        "/work/".to_string(),
        None,
        Some("/xdg".to_string()),
        Some("/user-home/alice".to_string()),
    );
    assert_eq!(roots.home, Some("/xdg/sim".to_string()));
    assert_eq!(roots.work, "/work/.sim/config");

    let roots = ConfigRoots::from_env_values(
        "w".to_string(),
        None,
        None,
        Some("/user-home/alice".to_string()),
    );
    assert_eq!(roots.home, Some("/user-home/alice/.config/sim".to_string()));
    assert_eq!(roots.work, "w/.sim/config");

    let roots = ConfigRoots::from_env_values("w".to_string(), None, None, None);
    assert_eq!(roots.home, None);
}

#[test]
fn absolute_parts_replace_the_base() {
    assert_eq!(join_path("/a", "/b"), "/b");
    assert_eq!(join_path("", "b"), "b");
    assert_eq!(join_path("/a/", "b"), "/a/b");
}

#[test]
fn explicit_roots_are_kept() {
    let roots = ConfigRoots::new(None, "/w".to_string());
    assert_eq!(roots.home, None);
    assert_eq!(roots.work, "/w");
}

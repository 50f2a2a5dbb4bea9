use ltp_dashboard::config::{Config, ConfigSource, PatchworkInstance};

#[test]
fn defaults_are_sane() {
    let cfg = Config::default();
    assert_eq!(cfg.port, 3030);
    assert_eq!(cfg.max_patches, 500);
    assert!(!cfg.checks);
    assert_eq!(cfg.instances.len(), 1);
    assert_eq!(cfg.instances[0].project, "ltp");
}

#[test]
fn default_instance_points_at_kernel_patchwork() {
    let i = PatchworkInstance::default();
    assert_eq!(i.url, "https://patchwork.kernel.org/api");
    assert_eq!(i.alias, None);
    assert_eq!(i.max_connections, 8);
    assert_eq!(i.max_connections_per_host, 4);
    assert_eq!(i.timeout_secs, 60);
}

#[test]
fn no_files_returns_defaults() {
    assert_eq!(Config::choose_source(Some(false), false), ConfigSource::Defaults);
    let cfg = Config::default();
    assert_eq!(cfg.port, 3030);
    assert_eq!(cfg.max_patches, 500);
}

#[test]
fn home_config_takes_priority_over_local() {
    assert_eq!(Config::choose_source(Some(true), true), ConfigSource::Home);
    assert_eq!(Config::choose_source(Some(true), false), ConfigSource::Home);
}

#[test]
fn local_config_used_when_home_absent() {
    assert_eq!(Config::choose_source(Some(false), true), ConfigSource::Local);
    assert_eq!(Config::choose_source(None, true), ConfigSource::Local);
}

#[test]
fn defaults_when_home_is_none() {
    assert_eq!(Config::choose_source(None, false), ConfigSource::Defaults);
}

#[test]
fn home_config_path_is_under_dot_config() {
    assert_eq!(
        ltp_dashboard::config::home_config_path("/home/me"),
        "/home/me/.config/ltp-dashboard/config.toml"
    );
}

#[test]
fn display_name_prefers_alias() {
    let mut i = PatchworkInstance::default();
    assert_eq!(i.display_name(), "ltp");
    i.alias = Some("LTP upstream".to_string());
    assert_eq!(i.display_name(), "LTP upstream");
}

#[test]
fn command_line_overrides_only_non_default_values() {
    let mut cfg = Config::default();
    cfg.port = 8080;
    cfg.max_patches = 100;
    cfg.checks = true;
    assert_eq!(ltp_dashboard::config::effective_settings(3030, 500, false, &cfg), (8080, 100, true));
    assert_eq!(ltp_dashboard::config::effective_settings(9000, 50, false, &cfg), (9000, 50, true));
    cfg.checks = false;
    assert_eq!(ltp_dashboard::config::effective_settings(3030, 500, true, &cfg), (8080, 100, true));
    assert_eq!(ltp_dashboard::config::effective_settings(3030, 500, false, &cfg), (8080, 100, false));
}

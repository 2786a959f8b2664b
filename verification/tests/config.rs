use airc::config::{
    config_dir, default_channel, default_connection_timeout, default_dcc_timeout,
    default_download_path, default_server, serialize_error, Config,
};

#[test]
fn test_default_config() {
    let config = Config::default();
    assert_eq!(config.server, "irc.undernet.org");
    assert_eq!(config.channel, "#bookz");
    assert_eq!(config.username, None);
    assert_eq!(config.download_path, "./downloads/");
    assert_eq!(config.connection_timeout_secs, 30);
    assert_eq!(config.dcc_timeout_secs, 300);
}

#[test]
fn test_merge_with_args_server() {
    let config = Config::default();
    let merged = config.merge_with_args(Some("irc.example.com".to_string()), None, None, None);
    assert_eq!(merged.server, "irc.example.com");
    assert_eq!(merged.channel, "#bookz");
}

#[test]
fn test_merge_with_args_all() {
    let config = Config::default();
    let merged = config.merge_with_args(
        Some("irc.test.org".to_string()),
        Some("#test".to_string()),
        Some("testuser".to_string()),
        Some("/tmp/downloads".to_string()),
    );
    assert_eq!(merged.server, "irc.test.org");
    assert_eq!(merged.channel, "#test");
    assert_eq!(merged.username, Some("testuser".to_string()));
    assert_eq!(merged.download_path, "/tmp/downloads");
}

#[test]
fn test_merge_with_args_partial() {
    let config = Config::default();
    let merged = config.merge_with_args(None, Some("#custom".to_string()), None, None);
    assert_eq!(merged.server, "irc.undernet.org");
    assert_eq!(merged.channel, "#custom");
    assert_eq!(merged.username, None);
}

#[test]
fn merging_twice_is_merging_once() {
    let once = Config::default().merge_with_args(None, None, Some("u".to_string()), None);
    let twice = once.clone().merge_with_args(None, None, Some("u".to_string()), None);
    assert_eq!(once.username, twice.username);
    assert_eq!(once.server, twice.server);
    assert_eq!(once.channel, twice.channel);
    assert_eq!(once.download_path, twice.download_path);
}

#[test]
fn merging_nothing_changes_nothing() {
    let merged = Config::default().merge_with_args(None, None, None, None);
    assert_eq!(merged.server, default_server());
    assert_eq!(merged.channel, default_channel());
    assert_eq!(merged.download_path, default_download_path());
    assert_eq!(merged.connection_timeout_secs, default_connection_timeout());
    assert_eq!(merged.dcc_timeout_secs, default_dcc_timeout());
    assert!(!merged.tls);
    assert_eq!(merged.port, None);
}

#[test]
fn the_port_follows_the_encryption() {
    assert_eq!(Config::default().resolved_port(), 6667);
    let tls = Config::default().merge_with_connection_args(true, None);
    assert_eq!(tls.resolved_port(), 6697);
    let chosen = tls.merge_with_connection_args(false, Some(7000));
    assert!(chosen.tls);
    assert_eq!(chosen.resolved_port(), 7000);
    let kept = chosen.merge_with_connection_args(false, None);
    assert_eq!(kept.resolved_port(), 7000);
}

#[test]
fn a_missing_directory_is_a_configuration_error() {
    assert_eq!(config_dir(Some("/etc/airc".to_string())).unwrap(), "/etc/airc");
    assert_eq!(
        config_dir(None).unwrap_err().message(),
        "Configuration error: Could not determine config directory"
    );
    assert_eq!(
        serialize_error("bad value").message(),
        "Configuration error: Failed to serialize config: bad value"
    );
}

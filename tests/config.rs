use sentrylogmon::config::{
    default_environment, default_pattern, determine_detector_format, Args, Config, ConfigError,
    FileConfig, MonitorConfig, SentryConfig,
};

fn base_args() -> Args {
    Args {
        config: None,
        dsn: None,
        dmesg: false,
        file: None,
        journalctl: None,
        command: None,
        syslog: None,
        format: None,
        pattern: "Error".to_string(),
        exclude: None,
        environment: "production".to_string(),
        release: None,
        verbose: false,
        oneshot: false,
        status: false,
        update: false,
    }
}

fn monitor(name: &str, monitor_type: &str, pattern: &str, format: &str) -> MonitorConfig {
    MonitorConfig {
        name: name.to_string(),
        monitor_type: monitor_type.to_string(),
        path: String::new(),
        args: String::new(),
        pattern: pattern.to_string(),
        format: format.to_string(),
        exclude_pattern: String::new(),
        rate_limit_burst: None,
        rate_limit_window: None,
    }
}

#[test]
fn test_config_from_args_with_format() {
    let mut args = base_args();
    args.file = Some("/tmp/test.log".to_string());
    args.format = Some("nginx".to_string());
    args.dsn = Some("https://example.com".to_string());

    let config = Config::from_args(args, None).ok().unwrap();
    assert_eq!(config.monitors.len(), 1);
    assert_eq!(config.monitors[0].format, "nginx");
}

#[test]
fn test_config_from_args_without_format() {
    let mut args = base_args();
    args.file = Some("/tmp/test.log".to_string());
    args.dsn = Some("https://example.com".to_string());

    let config = Config::from_args(args, None).ok().unwrap();
    assert_eq!(config.monitors.len(), 1);
    assert_eq!(config.monitors[0].format, "");
}

#[test]
fn test_config_from_args_dmesg_default_format() {
    let mut args = base_args();
    args.dmesg = true;
    args.dsn = Some("https://example.com".to_string());

    let config = Config::from_args(args, None).ok().unwrap();
    assert_eq!(config.monitors.len(), 1);
    assert_eq!(config.monitors[0].format, "dmesg");
}

#[test]
fn test_config_from_args_dmesg_override_format() {
    let mut args = base_args();
    args.dmesg = true;
    args.format = Some("custom".to_string());
    args.dsn = Some("https://example.com".to_string());

    let config = Config::from_args(args, None).ok().unwrap();
    assert_eq!(config.monitors.len(), 1);
    assert_eq!(config.monitors[0].format, "custom");
}

#[test]
fn file_monitor_from_args_keeps_path_and_exclude() {
    let mut args = base_args();
    args.file = Some("/var/log/app.log".to_string());
    args.exclude = Some("noise".to_string());
    args.dsn = Some("d".to_string());
    let config = Config::from_args(args, None).ok().unwrap();
    let m = &config.monitors[0];
    assert_eq!(m.name, "file");
    assert_eq!(m.monitor_type, "file");
    assert_eq!(m.path, "/var/log/app.log");
    assert_eq!(m.pattern, "Error");
    assert_eq!(m.exclude_pattern, "noise");
    assert_eq!(config.sentry.dsn, "d");
    assert_eq!(config.sentry.environment, "production");
}

#[test]
fn dmesg_takes_precedence_over_file() {
    let mut args = base_args();
    args.dmesg = true;
    args.file = Some("/tmp/x".to_string());
    args.dsn = Some("d".to_string());
    let config = Config::from_args(args, None).ok().unwrap();
    assert_eq!(config.monitors.len(), 1);
    assert_eq!(config.monitors[0].monitor_type, "dmesg");
}

#[test]
fn syslog_monitor_from_args_uses_path() {
    let mut args = base_args();
    args.syslog = Some("tcp:0.0.0.0:514".to_string());
    args.dsn = Some("d".to_string());
    let config = Config::from_args(args, None).ok().unwrap();
    assert_eq!(config.monitors[0].monitor_type, "syslog");
    assert_eq!(config.monitors[0].path, "tcp:0.0.0.0:514");
    assert_eq!(config.monitors[0].args, "");
}

#[test]
fn missing_dsn_is_refused() {
    let mut args = base_args();
    args.file = Some("/tmp/x".to_string());
    assert!(matches!(Config::from_args(args, None), Err(ConfigError::MissingDsn)));
}

#[test]
fn no_monitor_is_refused() {
    let mut args = base_args();
    args.dsn = Some("d".to_string());
    assert!(matches!(Config::from_args(args, None), Err(ConfigError::NoMonitors)));
}

#[test]
fn status_request_needs_nothing_more() {
    let mut args = base_args();
    args.status = true;
    let config = Config::from_args(args, None).ok().unwrap();
    assert!(config.status);
    assert!(config.monitors.is_empty());
}

#[test]
fn file_settings_yield_to_command_line() {
    let file = FileConfig {
        sentry: SentryConfig {
            dsn: "file-dsn".to_string(),
            environment: "staging".to_string(),
            release: "1.0".to_string(),
        },
        monitors: vec![monitor("web", "file", "Error", "nginx")],
    };
    let mut args = base_args();
    args.config = Some("/etc/app.yaml".to_string());
    args.release = Some("2.0".to_string());
    let config = Config::from_args(args, Some(file.clone())).ok().unwrap();
    assert_eq!(config.sentry.dsn, "file-dsn");
    assert_eq!(config.sentry.environment, "staging");
    assert_eq!(config.sentry.release, "2.0");
    assert_eq!(config.monitors.len(), 1);
    assert_eq!(config.monitors[0].name, "web");

    let mut args = base_args();
    args.dsn = Some("cli-dsn".to_string());
    args.environment = "dev".to_string();
    let config = Config::from_args(args, Some(file)).ok().unwrap();
    assert_eq!(config.sentry.dsn, "cli-dsn");
    assert_eq!(config.sentry.environment, "dev");
    assert_eq!(config.sentry.release, "1.0");
}

#[test]
fn defaults() {
    assert_eq!(default_environment(), "production");
    assert_eq!(default_pattern(), "Error");
}

#[test]
fn detector_format_choice() {
    assert_eq!(determine_detector_format(&monitor("a", "file", "Error", "nginx")), "nginx");
    assert_eq!(determine_detector_format(&monitor("a", "dmesg", "Error", "")), "custom");
    assert_eq!(determine_detector_format(&monitor("a", "dmesg", "", "")), "dmesg");
    assert_eq!(determine_detector_format(&monitor("a", "file", "", "")), "custom");
}

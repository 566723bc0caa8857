use sentrylogmon::status::{decimal_string, format_duration, response_body, route_request, Route};

#[test]
fn routes() {
    assert_eq!(route_request("GET /status HTTP/1.1\r\n\r\n"), Route::Status);
    assert_eq!(route_request("POST /update HTTP/1.1\r\n\r\n"), Route::Update);
    assert_eq!(route_request("GET /update HTTP/1.1"), Route::NotFound);
    assert_eq!(route_request(""), Route::NotFound);
    assert_eq!(route_request("GET"), Route::NotFound);
}

#[test]
fn bodies() {
    assert_eq!(
        response_body("HTTP/1.1 200 OK\r\nA: b\r\n\r\n{\"pid\":1}"),
        Some("{\"pid\":1}".to_string())
    );
    assert_eq!(response_body("HTTP/1.1 200 OK\r\n\r\n"), Some(String::new()));
    assert_eq!(response_body("no head end"), None);
    assert_eq!(response_body("\r\n"), None);
}

#[test]
fn durations() {
    assert_eq!(format_duration(0), "0s");
    assert_eq!(format_duration(65), "1m 5s");
    assert_eq!(format_duration(3600), "1h 0m 0s");
    assert_eq!(format_duration(3 * 86400 + 4 * 3600 + 5 * 60 + 6), "3d 4h 5m");
    assert_eq!(decimal_string(1234567890), "1234567890");
    assert_eq!(decimal_string(u64::MAX), "18446744073709551615");
}

use sentrylogmon::config::{Config, MonitorConfig, SentryConfig};
use sentrylogmon::status::{format_details, instance_row, render_instance_table, StatusResponse};

fn sample_config(names: &[(&str, &str)]) -> Config {
    Config {
        sentry: SentryConfig {
            dsn: String::new(),
            environment: "production".to_string(),
            release: String::new(),
        },
        monitors: names
            .iter()
            .map(|(name, t)| MonitorConfig {
                name: name.to_string(),
                monitor_type: t.to_string(),
                path: String::new(),
                args: String::new(),
                pattern: "Error".to_string(),
                format: String::new(),
                exclude_pattern: String::new(),
                rate_limit_burst: None,
                rate_limit_window: None,
            })
            .collect(),
        verbose: false,
        oneshot: false,
        status: false,
        update: false,
        metrics_port: 0,
    }
}

#[test]
fn details_list_monitors() {
    assert_eq!(format_details(None), "-");
    assert_eq!(format_details(Some(&sample_config(&[]))), "-");
    assert_eq!(
        format_details(Some(&sample_config(&[("alpha", "file"), ("k", "dmesg")]))),
        "alpha(file), k(dmesg)"
    );
}

#[test]
fn details_cut_long_lists() {
    let long = "x".repeat(70);
    let shown = format_details(Some(&sample_config(&[(long.as_str(), "file")])));
    assert_eq!(shown, format!("{}...", "x".repeat(57)));
    let shown = format_details(Some(&sample_config(&[(long.as_str(), "file"), ("b", "file")])));
    assert_eq!(shown, format!("{}..., b(file)", "x".repeat(45)));
    let many: Vec<(String, &str)> = (0..10).map(|i| (format!("mon{}", i), "file")).collect();
    let refs: Vec<(&str, &str)> = many.iter().map(|(n, t)| (n.as_str(), *t)).collect();
    let shown = format_details(Some(&sample_config(&refs)));
    assert_eq!(
        shown,
        "mon0(file), mon1(file), mon2(file), mon3(file) (+6 more)"
    );
}

#[test]
fn render_instance_table_aligns_monitors_column() {
    let instances = vec![
        StatusResponse {
            pid: 9,
            start_time: 1_000,
            version: "0.1.0".to_string(),
            config: Some(sample_config(&[("alpha", "file")])),
            memory_alloc: 1024 * 1024,
        },
        StatusResponse {
            pid: 1010,
            start_time: 1_000,
            version: String::new(),
            config: Some(sample_config(&[("beta", "file")])),
            memory_alloc: 2048 * 1024,
        },
    ];
    let rows: Vec<_> = instances
        .iter()
        .map(|inst| instance_row(inst, 1_065, "1970-01-01 00:16:40".to_string(), "1.0 MiB".to_string()))
        .collect();
    assert_eq!(rows[0].uptime, "1m 5s");
    assert_eq!(rows[1].version, "-");
    assert_eq!(rows[1].pid, "1010");
    let output = render_instance_table(&rows);
    let lines: Vec<&str> = output.lines().collect();
    assert_eq!(lines.len(), 3);
    let header_idx = lines[0].find("MONITORS").unwrap();
    assert_eq!(lines[1].find("alpha(file)").unwrap(), header_idx);
    assert_eq!(lines[2].find("beta(file)").unwrap(), header_idx);
    assert!(lines[0].starts_with("PID  STARTED"));
}

use sentrylogmon::status::{directory_check, profile_seconds, socket_file_name, DirProblem};

#[test]
fn socket_names() {
    assert_eq!(socket_file_name(4242), "sentrylogmon.4242.sock");
    assert_eq!(socket_file_name(0), "sentrylogmon.0.sock");
}

#[test]
fn control_directory_checks() {
    assert_eq!(directory_check(false, false, 0o700, 1, 1), (false, Err(DirProblem::NotADirectory)));
    assert_eq!(directory_check(true, true, 0o700, 1, 1), (false, Err(DirProblem::Symlink)));
    assert_eq!(directory_check(true, false, 0o40700, 1, 1), (false, Ok(())));
    assert_eq!(directory_check(true, false, 0o40755, 1, 1), (true, Ok(())));
    assert_eq!(directory_check(true, false, 0o700, 2, 1), (false, Err(DirProblem::WrongOwner(2))));
}

#[test]
fn profile_lengths() {
    assert_eq!(profile_seconds(None), 30);
    assert_eq!(profile_seconds(Some(0)), 1);
    assert_eq!(profile_seconds(Some(61)), 60);
    assert_eq!(profile_seconds(Some(15)), 15);
}

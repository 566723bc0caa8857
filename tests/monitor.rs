use sentrylogmon::detectors::{get_detector, DetectorError};
use sentrylogmon::monitor::{
    extract_log_timestamp, parse_u64, parse_window_ms, Flush, LineOutcome, Monitor, NextStep,
    MAX_BUFFER_SIZE,
};
use sentrylogmon::rate_limit::RateLimiter;

fn monitor(
    pattern: &str,
    exclude: Option<&str>,
    burst: Option<u32>,
    window: Option<&str>,
    stop_on_eof: bool,
) -> Monitor {
    let detector = get_detector("custom", pattern).ok().unwrap();
    Monitor::new(
        "src".to_string(),
        detector,
        false,
        stop_on_eof,
        exclude.map(|s| s.to_string()),
        burst,
        window.map(|s| s.to_string()),
        0,
    )
    .ok()
    .unwrap()
}

fn sent(f: Flush) -> Option<String> {
    match f {
        Flush::Send(e) => Some(e.message),
        _ => None,
    }
}

#[test]
fn rate_limiter_caps_each_window() {
    let mut l = RateLimiter::new(2, 1000, 0);
    assert!(l.allow(0));
    assert!(l.allow(500));
    assert!(!l.allow(999));
    assert!(!l.allow(1000));
    assert!(l.allow(1001));
    assert!(l.allow(1500));
    assert!(!l.allow(2001));
}

#[test]
fn rate_limiter_zero_burst_allows_all() {
    let mut l = RateLimiter::new(0, 1000, 0);
    for t in 0..50u64 {
        assert!(l.allow(t));
    }
}

#[test]
fn rate_limiter_zero_window_never_resets() {
    let mut l = RateLimiter::new(2, 0, 0);
    assert!(l.allow(0));
    assert!(l.allow(10_000));
    assert!(!l.allow(1_000_000));
}

#[test]
fn window_settings() {
    assert_eq!(parse_window_ms("30s"), 30_000);
    assert_eq!(parse_window_ms("5m"), 300_000);
    assert_eq!(parse_window_ms("+2s"), 2_000);
    assert_eq!(parse_window_ms("5ms"), 0);
    assert_eq!(parse_window_ms("s"), 0);
    assert_eq!(parse_window_ms("10"), 0);
    assert_eq!(parse_window_ms(""), 0);
    assert_eq!(parse_window_ms("18446744073709551615m"), 18446744073709551615u128 * 60_000);
    assert_eq!(parse_window_ms("18446744073709551616s"), 0);
}

#[test]
fn unsigned_parse() {
    assert_eq!(parse_u64("0"), Some(0));
    assert_eq!(parse_u64("+7"), Some(7));
    assert_eq!(parse_u64("18446744073709551615"), Some(u64::MAX));
    assert_eq!(parse_u64("18446744073709551616"), None);
    assert_eq!(parse_u64("-1"), None);
    assert_eq!(parse_u64("+"), None);
    assert_eq!(parse_u64("1a"), None);
}

#[test]
fn log_timestamp_extraction() {
    assert_eq!(extract_log_timestamp("[ 12.5] x"), Some("12.5".to_string()));
    assert_eq!(extract_log_timestamp("[1.2.3]"), Some("1.2.3".to_string()));
    assert_eq!(extract_log_timestamp("[] x"), None);
    assert_eq!(extract_log_timestamp("x [1.0]"), None);
    assert_eq!(extract_log_timestamp("[1.0 x"), None);
}

#[test]
fn scenario_single_error_line_flushes_once() {
    let mut m = monitor("Error", None, None, None, true);
    let mut flushes = Vec::new();
    for (t, line) in ["ok", "Error: disk full", "ok"].iter().enumerate() {
        match m.process_line(line.to_string(), t as u64) {
            LineOutcome::Flushed(f) => flushes.push(f),
            _ => {}
        }
    }
    let (f, next) = m.end_of_stream(10);
    flushes.push(f);
    assert!(matches!(next, NextStep::Stop));
    let messages: Vec<String> = flushes.into_iter().filter_map(sent).collect();
    assert_eq!(messages, vec!["Error: disk full".to_string()]);
}

#[test]
fn scenario_excluded_line_never_flushes() {
    let mut m = monitor("Error", Some("disk full"), None, None, false);
    let mut sends = 0;
    for (t, line) in ["ok", "Error: disk full", "ok"].iter().enumerate() {
        let out = m.process_line(line.to_string(), t as u64);
        if let LineOutcome::Flushed(Flush::Send(_)) = out {
            sends += 1;
        }
    }
    let (f, next) = m.end_of_stream(10);
    assert!(matches!(f, Flush::Nothing));
    assert!(matches!(next, NextStep::Restart));
    assert_eq!(sends, 0);
}

#[test]
fn scenario_kernel_incident() {
    let detector = get_detector("dmesg", "").ok().unwrap();
    let mut m = Monitor::new("dmesg".to_string(), detector, false, true, None, None, None, 0)
        .ok()
        .unwrap();
    assert!(matches!(m.process_line("[10.0] ata1: exception Emask".to_string(), 1), LineOutcome::Buffered));
    assert!(matches!(m.process_line("[10.2] ata1: more detail".to_string(), 2), LineOutcome::Buffered));
    assert!(matches!(m.process_line("[20.0] eth0: link down".to_string(), 3), LineOutcome::Ignored));
    let (f, _) = m.end_of_stream(4);
    match f {
        Flush::Send(e) => {
            assert_eq!(e.message, "[10.0] ata1: exception Emask\n[10.2] ata1: more detail");
            assert_eq!(e.log_timestamp, Some("10.0".to_string()));
            assert_eq!(e.source, "dmesg");
        }
        _ => panic!("expected a delivery"),
    }
}

#[test]
fn full_buffer_flushes_once_in_order() {
    let mut m = monitor("Error", None, None, None, false);
    let mut expected = Vec::new();
    let mut flushes = Vec::new();
    for i in 0..MAX_BUFFER_SIZE {
        let line = format!("Error {}", i);
        expected.push(line.clone());
        match m.process_line(line, i as u64) {
            LineOutcome::Buffered => assert!(i + 1 < MAX_BUFFER_SIZE),
            LineOutcome::Flushed(f) => flushes.push(f),
            _ => panic!("line not taken"),
        }
    }
    assert_eq!(flushes.len(), 1);
    assert_eq!(m.pending(), 0);
    let msg = sent(flushes.pop().unwrap()).unwrap();
    assert_eq!(msg, expected.join("\n"));
    assert!(matches!(m.end_of_stream(5000).0, Flush::Nothing));
}

#[test]
fn idle_tick_flushes_once_after_quiet_period() {
    let mut m = monitor("Error", None, None, None, false);
    m.process_line("Error a".to_string(), 1000);
    m.process_line("Error b".to_string(), 2000);
    assert!(matches!(m.idle_tick(5000), Flush::Nothing));
    assert!(matches!(m.idle_tick(6999), Flush::Nothing));
    assert_eq!(sent(m.idle_tick(7000)), Some("Error a\nError b".to_string()));
    assert!(matches!(m.idle_tick(20000), Flush::Nothing));
    assert_eq!(m.pending(), 0);
}

#[test]
fn rate_limited_flush_is_dropped() {
    let mut m = monitor("Error", None, Some(1), Some("60s"), false);
    m.process_line("Error 1".to_string(), 0);
    assert!(sent(m.end_of_stream(1).0).is_some());
    m.process_line("Error 2".to_string(), 2);
    assert!(matches!(m.end_of_stream(3).0, Flush::Dropped));
    assert_eq!(m.pending(), 0);
    m.process_line("Error 3".to_string(), 70_000);
    assert_eq!(sent(m.end_of_stream(70_001).0), Some("Error 3".to_string()));
}

#[test]
fn invalid_exclude_pattern_refuses_the_monitor() {
    let detector = get_detector("custom", "Error").ok().unwrap();
    let r = Monitor::new("m".to_string(), detector, false, false, Some("((".to_string()), None, None, 0);
    match r {
        Err(DetectorError::InvalidPattern(p)) => assert_eq!(p, "(("),
        Ok(_) => panic!("monitor set up with a broken exclude pattern"),
    }
    let mut m = monitor("Error", Some(""), None, None, false);
    assert!(matches!(m.process_line("Error".to_string(), 0), LineOutcome::Buffered));
}

#[test]
fn failed_open_is_retried_even_when_stopping_at_end() {
    let m = monitor("Error", None, None, None, true);
    assert!(matches!(m.open_failed(), NextStep::Restart));
}

#[test]
fn rate_limiter_allows_burst_then_refuses_within_window() {
    for n in 1..6u32 {
        let mut l = RateLimiter::new(n, 10_000, 100);
        for k in 0..n {
            assert!(l.allow(100 + k as u64));
        }
        assert!(!l.allow(9_000));
        assert!(l.allow(10_101));
    }
}

use sentrylogmon::detectors::{
    are_headers_related, get_detector, Detector, DetectorError, DmesgDetector, GenericDetector,
    LogDetector, NginxDetector,
};
use sentrylogmon::record::read_record_head;

#[test]
fn generic_detector_matches_case_insensitive_pattern() {
    let mut d = GenericDetector::new("(?i)error").ok().unwrap();
    assert!(d.detect(b"An ERROR happened"));
    assert!(d.detect(b"error"));
    assert!(!d.detect(b"all good"));
    assert!(!d.detect(b""));
}

#[test]
fn generic_detector_never_matches_invalid_utf8() {
    let mut d = GenericDetector::new("(?i)e").ok().unwrap();
    assert!(!d.detect(&[0x65, 0xff, 0xfe]));
    let mut any = GenericDetector::new("").ok().unwrap();
    assert!(any.detect(b"x"));
    assert!(!any.detect(&[0xc3]));
}

#[test]
fn invalid_pattern_is_refused() {
    match GenericDetector::new("(unclosed") {
        Err(DetectorError::InvalidPattern(p)) => assert_eq!(p, "(unclosed"),
        Ok(_) => panic!("pattern accepted"),
    }
    assert!(matches!(get_detector("custom", "(("), Err(DetectorError::InvalidPattern(_))));
}

#[test]
fn nginx_detector_severity_words() {
    let mut d = NginxDetector::new().ok().unwrap();
    assert!(d.detect(b"2024/01/01 [crit] upstream down"));
    assert!(d.detect(b"EMERG"));
    assert!(!d.detect(b"GET /index.html 200"));
}

#[test]
fn factory_prefers_explicit_pattern() {
    let mut d = get_detector("nginx", "disk").ok().unwrap();
    assert!(matches!(d, LogDetector::Generic(_)));
    assert!(d.detect(b"disk full"));
    assert!(!d.detect(b"[crit] x"));
}

#[test]
fn factory_picks_by_format() {
    assert!(matches!(get_detector("nginx", "").ok().unwrap(), LogDetector::Nginx(_)));
    assert!(matches!(get_detector("dmesg", "").ok().unwrap(), LogDetector::Dmesg(_)));
    let mut d = get_detector("other", "").ok().unwrap();
    assert!(matches!(d, LogDetector::Generic(_)));
    assert!(d.detect(b"some Error"));
    assert!(!d.detect(b"some warning"));
}

#[test]
fn correlator_reports_related_lines_within_window() {
    let mut d = DmesgDetector::new().ok().unwrap();
    assert!(d.detect(b"[10.0] ata1: exception Emask"));
    assert!(d.detect(b"[10.2] ata1: more detail"));
    assert!(!d.detect(b"[20.0] eth0: link down"));
}

#[test]
fn correlator_rejects_unrelated_header_in_window() {
    let mut d = DmesgDetector::new().ok().unwrap();
    assert!(d.detect(b"[10.0] ata1: exception Emask"));
    assert!(!d.detect(b"[10.5] eth0: link down"));
}

#[test]
fn correlator_accepts_prefix_related_header() {
    let mut d = DmesgDetector::new().ok().unwrap();
    assert!(d.detect(b"[100.000000] ata1.00: failed command: READ"));
    assert!(d.detect(b"[100.100000] ata1: status"));
    assert!(d.detect(b"[105.000000] ata1.00: res 40"));
    assert!(!d.detect(b"[105.000001] ata1.00: too late"));
}

#[test]
fn correlator_reports_continuation_lines() {
    let mut d = DmesgDetector::new().ok().unwrap();
    assert!(!d.detect(b"plain text before anything"));
    assert!(d.detect(b"[5.5] usb 1-1: device descriptor read error"));
    assert!(d.detect(b"    continuation of the dump"));
    assert!(!d.detect(&[0xff, 0x00]));
}

#[test]
fn correlator_needs_a_header_before_following() {
    let mut d = DmesgDetector::new().ok().unwrap();
    assert!(d.detect(b"Oops without a record head"));
    assert!(!d.detect(b"  continuation"));
}

#[test]
fn headers_relation() {
    assert!(are_headers_related(" ata1 ", "ata1"));
    assert!(are_headers_related("ata1.00", "ata1"));
    assert!(are_headers_related("ata1", "ata1.00"));
    assert!(!are_headers_related("ata1", "eth0"));
    assert!(!are_headers_related("  ", "ata1"));
}

#[test]
fn record_head_parts() {
    let h = read_record_head("[ 787739.009553] ata1.00: exception Emask");
    assert!(h.opens_record);
    assert_eq!(h.time, 787_739_009_553_000);
    assert_eq!(h.header, "ata1.00");

    let h = read_record_head("[1.5]: x");
    assert!(h.opens_record);
    assert_eq!(h.time, 0);
    assert_eq!(h.header, "");

    let h = read_record_head("[1.5]  : x");
    assert_eq!(h.header, " ");
    assert_eq!(h.time, 1_500_000_000);

    let h = read_record_head("[12] no fraction: x");
    assert!(!h.opens_record);

    let h = read_record_head("[3.25] no colon");
    assert!(h.opens_record);
    assert_eq!(h.time, 0);
    assert_eq!(h.header, "");

    let h = read_record_head("[99999999999999999999.0] big: x");
    assert_eq!(h.time, u64::MAX);
}

//! Detectors: predicates that decide whether a log line reports an issue.
//!
//! A pattern detector reports the UTF-8 lines that its pattern matches. The
//! kernel-log correlator also reports the lines that follow a reported line
//! and belong to the same incident.
use vstd::prelude::*;
use vstd::utf8::{decode_utf8, valid_utf8};
use crate::pattern::{regex_compiles, regex_finds, regex_source};
use crate::record::{header_or_empty, opens_record, read_record_head, time_of};
use crate::text::{
    chars_of, owned, seq_eq, starts_with, str_eq, trim_chars, trimmed, utf8_text,
    vec_starts_with,
};

verus! {

/// Severity words of a web server's error log, matched without regard to case.
pub const NGINX_PATTERN: &'static str = "(?i)(error|critical|crit|alert|emerg)";

/// Trouble words of the kernel log, matched without regard to case.
pub const KERNEL_PATTERN: &'static str = "(?i)(error|fail|panic|oops|exception)";

/// The pattern used when neither a pattern nor a known format is given.
pub const FALLBACK_PATTERN: &'static str = "(?i)error";

/// How close in time (nanoseconds) a record must follow the last reported one
/// to be counted as part of it.
pub const CORRELATION_WINDOW_NANOS: u64 = 5_000_000_000;

/// Why a detector could not be built.
pub enum DetectorError {
    /// The pattern (given here) was refused by the regex compiler.
    InvalidPattern(String),
}

/// Whether `pattern` reports `line`: the line is UTF-8 and the pattern has a
/// match in its text.
pub open spec fn pattern_reports(pattern: Seq<char>, line: Seq<u8>) -> bool {
    valid_utf8(line) && regex_finds(pattern, decode_utf8(line))
}

/// A predicate on log lines, possibly with memory of earlier lines.
pub trait Detector: View + Sized {
    /// What the detector remembers after `line`, and whether it reports `line`.
    spec fn spec_detect(v: Self::V, line: Seq<u8>) -> (Self::V, bool);

    /// Returns true if the line reports an issue.
    fn detect(&mut self, line: &[u8]) -> (r: bool)
        ensures
            (final(self)@, r) == Self::spec_detect(old(self)@, line@),
    ;
}

/// Reports the lines that a regular expression matches.
pub struct GenericDetector {
    pattern: regex::Regex,
}

impl View for GenericDetector {
    /// The pattern text.
    type V = Seq<char>;

    closed spec fn view(&self) -> Seq<char> {
        regex_source(self.pattern)
    }
}

fn compile(pattern: &str) -> (r: Result<regex::Regex, DetectorError>)
    ensures
        r is Ok <==> regex_compiles(pattern@),
        r matches Ok(re) ==> regex_source(re) == pattern@,
        r matches Err(DetectorError::InvalidPattern(p)) ==> p@ == pattern@,
{
    match regex::Regex::new(pattern) {
        Ok(re) => Ok(re),
        Err(_) => Err(DetectorError::InvalidPattern(owned(pattern))),
    }
}

impl GenericDetector {
    pub fn new(pattern: &str) -> (r: Result<Self, DetectorError>)
        ensures
            r is Ok <==> regex_compiles(pattern@),
            r matches Ok(d) ==> d@ == pattern@,
            r matches Err(DetectorError::InvalidPattern(p)) ==> p@ == pattern@,
    {
        match compile(pattern) {
            Ok(re) => Ok(GenericDetector { pattern: re }),
            Err(e) => Err(e),
        }
    }

    /// Whether the pattern reports the line; lines that are not UTF-8 never match.
    pub fn matches(&self, line: &[u8]) -> (r: bool)
        ensures
            r == pattern_reports(self@, line@),
    {
        match utf8_text(line) {
            Some(text) => self.pattern.is_match(text),
            None => false,
        }
    }
}

impl Detector for GenericDetector {
    open spec fn spec_detect(v: Seq<char>, line: Seq<u8>) -> (Seq<char>, bool) {
        (v, pattern_reports(v, line))
    }

    fn detect(&mut self, line: &[u8]) -> (r: bool) {
        self.matches(line)
    }
}

/// Reports the lines of a web server's error log that carry a severity word.
pub struct NginxDetector {
    detector: GenericDetector,
}

impl View for NginxDetector {
    type V = Seq<char>;

    closed spec fn view(&self) -> Seq<char> {
        self.detector@
    }
}

impl NginxDetector {
    pub fn new() -> (r: Result<Self, DetectorError>)
        ensures
            r is Ok <==> regex_compiles(NGINX_PATTERN@),
            r matches Ok(d) ==> d@ == NGINX_PATTERN@,
    {
        match GenericDetector::new(NGINX_PATTERN) {
            Ok(detector) => Ok(NginxDetector { detector }),
            Err(e) => Err(e),
        }
    }
}

impl Detector for NginxDetector {
    open spec fn spec_detect(v: Seq<char>, line: Seq<u8>) -> (Seq<char>, bool) {
        (v, pattern_reports(v, line))
    }

    fn detect(&mut self, line: &[u8]) -> (r: bool) {
        self.detector.matches(line)
    }
}

/// What the kernel-log correlator holds: its trouble pattern and the
/// timestamp and header of the last line it reported.
pub struct CorrelatorView {
    pub pattern: Seq<char>,
    pub time: u64,
    pub header: Seq<char>,
}

/// Whether two headers name the same device or subsystem: after trimming,
/// both are non-empty and one is a prefix of the other.
pub open spec fn headers_related(h1: Seq<char>, h2: Seq<char>) -> bool {
    let a = trimmed(h1);
    let b = trimmed(h2);
    a.len() > 0 && b.len() > 0 && (a == b || starts_with(a, b) || starts_with(b, a))
}

/// One step of the kernel-log correlator.
/// - A line that the trouble pattern matches is reported; its timestamp and
///   header, where present, become the last match.
/// - Otherwise, with no header remembered, the line is not reported.
/// - A line that opens a new record is reported only if it has a header and a
///   timestamp, lies at most five seconds after the last match, and its header
///   is related to the remembered one.
/// - Any other line continues the last reported record and is reported.
pub open spec fn correlate(v: CorrelatorView, line: Seq<u8>) -> (CorrelatorView, bool) {
    if !valid_utf8(line) {
        (v, false)
    } else {
        let t = decode_utf8(line);
        let time = time_of(t);
        let header = header_or_empty(t);
        if regex_finds(v.pattern, t) {
            (
                CorrelatorView {
                    pattern: v.pattern,
                    time: if time > 0 {
                        time
                    } else {
                        v.time
                    },
                    header: if header.len() > 0 {
                        header
                    } else {
                        v.header
                    },
                },
                true,
            )
        } else if v.header.len() == 0 {
            (v, false)
        } else if opens_record(t) {
            (
                v,
                header.len() > 0 && time > 0 && time <= v.time + CORRELATION_WINDOW_NANOS
                    && headers_related(v.header, header),
            )
        } else {
            (v, true)
        }
    }
}

/// After a reported line that has a header and a timestamp, the correlator
/// reports a following record that lies within the window and has a related
/// header; it does not report a following record with an unrelated header
/// (unless that record carries a trouble word itself); and it reports a
/// following continuation line, one that opens no record.
pub proof fn lemma_correlator_follows_incident(
    v: CorrelatorView,
    first: Seq<u8>,
    second: Seq<u8>,
)
    requires
        valid_utf8(first),
        regex_finds(v.pattern, decode_utf8(first)),
        header_or_empty(decode_utf8(first)).len() > 0,
        time_of(decode_utf8(first)) > 0,
        valid_utf8(second),
    ensures
        ({
            let t1 = decode_utf8(first);
            let t2 = decode_utf8(second);
            let (v1, r1) = correlate(v, first);
            let (_, r2) = correlate(v1, second);
            &&& r1
            &&& v1.header == header_or_empty(t1)
            &&& v1.time == time_of(t1)
            &&& opens_record(t2) && header_or_empty(t2).len() > 0 && time_of(t2) > 0
                && time_of(t2) <= time_of(t1) + CORRELATION_WINDOW_NANOS && headers_related(
                header_or_empty(t1),
                header_or_empty(t2),
            ) ==> r2
            &&& opens_record(t2) && !regex_finds(v.pattern, t2) && !headers_related(
                header_or_empty(t1),
                header_or_empty(t2),
            ) ==> !r2
            &&& !opens_record(t2) ==> r2
        }),
{
}

/// Reports kernel-log lines that carry a trouble word, together with the
/// lines of the same incident that follow them.
pub struct DmesgDetector {
    detector: GenericDetector,
    last_match_time: u64,
    last_match_header: String,
}

impl View for DmesgDetector {
    type V = CorrelatorView;

    closed spec fn view(&self) -> CorrelatorView {
        CorrelatorView {
            pattern: self.detector@,
            time: self.last_match_time,
            header: self.last_match_header@,
        }
    }
}

impl DmesgDetector {
    pub fn new() -> (r: Result<Self, DetectorError>)
        ensures
            r is Ok <==> regex_compiles(KERNEL_PATTERN@),
            r matches Ok(d) ==> d@ == (CorrelatorView {
                pattern: KERNEL_PATTERN@,
                time: 0,
                header: Seq::empty(),
            }),
    {
        match GenericDetector::new(KERNEL_PATTERN) {
            Ok(detector) => Ok(
                DmesgDetector { detector, last_match_time: 0, last_match_header: String::new() },
            ),
            Err(e) => Err(e),
        }
    }
}

impl Detector for DmesgDetector {
    open spec fn spec_detect(v: CorrelatorView, line: Seq<u8>) -> (CorrelatorView, bool) {
        correlate(v, line)
    }

    fn detect(&mut self, line: &[u8]) -> (r: bool) {
        let text = match utf8_text(line) {
            Some(t) => t,
            None => return false,
        };
        let is_error = self.detector.matches(line);
        let head = read_record_head(text);
        if is_error {
            if head.time > 0 {
                self.last_match_time = head.time;
            }
            if !head.header.as_str().is_empty() {
                self.last_match_header = head.header;
            }
            return true;
        }
        if self.last_match_header.as_str().is_empty() {
            return false;
        }
        if head.opens_record {
            if !head.header.as_str().is_empty() && head.time > 0 {
                if (head.time as u128) <= (self.last_match_time as u128)
                    + CORRELATION_WINDOW_NANOS as u128 {
                    if are_headers_related(self.last_match_header.as_str(), head.header.as_str()) {
                        return true;
                    }
                }
            }
            return false;
        }
        true
    }
}

/// Whether two record headers belong together (see `headers_related`).
pub fn are_headers_related(h1: &str, h2: &str) -> (r: bool)
    ensures
        r == headers_related(h1@, h2@),
{
    let a = trim_chars(&chars_of(h1));
    let b = trim_chars(&chars_of(h2));
    if a.len() == 0 || b.len() == 0 {
        return false;
    }
    if seq_eq(&a, &b) {
        return true;
    }
    vec_starts_with(&a, &b) || vec_starts_with(&b, &a)
}

/// The model of any detector: a pattern detector by its pattern, the
/// correlator by its state.
pub enum DetectorView {
    Generic(Seq<char>),
    Nginx(Seq<char>),
    Dmesg(CorrelatorView),
}

/// One of the detectors, chosen when a monitor is set up.
pub enum LogDetector {
    Generic(GenericDetector),
    Nginx(NginxDetector),
    Dmesg(DmesgDetector),
}

impl View for LogDetector {
    type V = DetectorView;

    open spec fn view(&self) -> DetectorView {
        match self {
            LogDetector::Generic(d) => DetectorView::Generic(d@),
            LogDetector::Nginx(d) => DetectorView::Nginx(d@),
            LogDetector::Dmesg(d) => DetectorView::Dmesg(d@),
        }
    }
}

pub open spec fn detector_step(v: DetectorView, line: Seq<u8>) -> (DetectorView, bool) {
    match v {
        DetectorView::Generic(p) => (v, pattern_reports(p, line)),
        DetectorView::Nginx(p) => (v, pattern_reports(p, line)),
        DetectorView::Dmesg(c) => {
            let (c2, r) = correlate(c, line);
            (DetectorView::Dmesg(c2), r)
        },
    }
}

impl Detector for LogDetector {
    open spec fn spec_detect(v: DetectorView, line: Seq<u8>) -> (DetectorView, bool) {
        detector_step(v, line)
    }

    fn detect(&mut self, line: &[u8]) -> (r: bool) {
        match self {
            LogDetector::Generic(d) => d.detect(line),
            LogDetector::Nginx(d) => d.detect(line),
            LogDetector::Dmesg(d) => d.detect(line),
        }
    }
}

/// The detector that a format and a pattern select: a non-empty pattern
/// always wins; else the format picks a specialised detector; else a
/// case-insensitive "error" pattern.
pub open spec fn chosen_detector(format: Seq<char>, pattern: Seq<char>) -> DetectorView {
    if pattern.len() > 0 {
        DetectorView::Generic(pattern)
    } else if format == "nginx"@ {
        DetectorView::Nginx(NGINX_PATTERN@)
    } else if format == "dmesg"@ {
        DetectorView::Dmesg(CorrelatorView { pattern: KERNEL_PATTERN@, time: 0, header: Seq::empty() })
    } else {
        DetectorView::Generic(FALLBACK_PATTERN@)
    }
}

/// The pattern that a detector matches with.
pub open spec fn pattern_of(v: DetectorView) -> Seq<char> {
    match v {
        DetectorView::Generic(p) => p,
        DetectorView::Nginx(p) => p,
        DetectorView::Dmesg(c) => c.pattern,
    }
}

/// Builds the detector that `format` and `pattern` select; fails exactly when
/// the selected pattern does not compile.
pub fn get_detector(format: &str, pattern: &str) -> (r: Result<LogDetector, DetectorError>)
    ensures
        r is Ok <==> regex_compiles(pattern_of(chosen_detector(format@, pattern@))),
        r matches Ok(d) ==> d@ == chosen_detector(format@, pattern@),
        r matches Err(DetectorError::InvalidPattern(p)) ==> p@ == pattern_of(
            chosen_detector(format@, pattern@),
        ),
{
    if !pattern.is_empty() {
        return match GenericDetector::new(pattern) {
            Ok(d) => Ok(LogDetector::Generic(d)),
            Err(e) => Err(e),
        };
    }
    if str_eq(format, "nginx") {
        match NginxDetector::new() {
            Ok(d) => Ok(LogDetector::Nginx(d)),
            Err(_) => Err(DetectorError::InvalidPattern(owned(NGINX_PATTERN))),
        }
    } else if str_eq(format, "dmesg") {
        match DmesgDetector::new() {
            Ok(d) => Ok(LogDetector::Dmesg(d)),
            Err(_) => Err(DetectorError::InvalidPattern(owned(KERNEL_PATTERN))),
        }
    } else {
        match GenericDetector::new(FALLBACK_PATTERN) {
            Ok(d) => Ok(LogDetector::Generic(d)),
            Err(e) => Err(e),
        }
    }
}

} // verus!

//! The per-source monitor: detection, buffering, flushing and rate limiting.
//!
//! The monitor is a state machine. The caller reads the source and hands each
//! line in, ticks the idle timer, and reports the end of each stream; the
//! monitor answers with what to deliver to the sink and whether to reconnect.
//! Times are milliseconds on a monotonic clock chosen by the caller.
use vstd::prelude::*;
use vstd::utf8::encode_utf8;
use crate::config::opt_view;
use crate::detectors::{
    detector_step, get_detector, Detector, DetectorError, DetectorView, LogDetector,
};
use crate::pattern::regex_compiles;
use crate::rate_limit::{allow_step, elapsed, LimiterState, RateLimiter};
use crate::record::digits_value;
use crate::text::{chars_of, ends_with, is_digit, join_with, joined, leading_spaces, owned, span_spaces, views};

verus! {

/// Most lines held before a flush is forced.
pub const MAX_BUFFER_SIZE: usize = 1000;

/// How often the idle timer wakes (milliseconds).
pub const FLUSH_INTERVAL_MS: u64 = 5000;

/// Pause before reopening a source (milliseconds).
pub const RESTART_BACKOFF_MS: u64 = 1000;

/// The digits of `s` after an optional `+`, as `u64::from_str` reads them.
pub open spec fn unsigned_digits(s: Seq<char>) -> Seq<char> {
    if s.len() > 0 && s[0] == '+' {
        s.drop_first()
    } else {
        s
    }
}

/// `u64::from_str`: an optional `+` and at least one ASCII digit, with a value
/// that fits.
pub open spec fn parse_u64_spec(s: Seq<char>) -> Option<u64> {
    let d = unsigned_digits(s);
    if d.len() > 0 && (forall|i: int| 0 <= i < d.len() ==> is_digit(#[trigger] d[i]))
        && digits_value(d) <= u64::MAX {
        Some(digits_value(d) as u64)
    } else {
        None
    }
}

/// The rate-limit window that a setting such as `30s` or `5m` names, in
/// milliseconds; anything else names a zero window.
pub open spec fn window_ms_of(w: Seq<char>) -> u128 {
    if ends_with(w, seq!['s']) {
        match parse_u64_spec(w.drop_last()) {
            Some(n) => (n * 1000) as u128,
            None => 0,
        }
    } else if ends_with(w, seq!['m']) {
        match parse_u64_spec(w.drop_last()) {
            Some(n) => (n * 60000) as u128,
            None => 0,
        }
    } else {
        0
    }
}

/// Reads a decimal `u64` as `u64::from_str` does.
pub fn parse_u64(s: &str) -> (r: Option<u64>)
    ensures
        r == parse_u64_spec(s@),
{
    let v = chars_of(s);
    let from: usize = if v.len() > 0 && v[0] == '+' {
        1
    } else {
        0
    };
    let ghost d = unsigned_digits(s@);
    assert(d =~= v@.subrange(from as int, v@.len() as int));
    if from == v.len() {
        return None;
    }
    let mut acc: u64 = 0;
    let mut i = from;
    while i < v.len()
        invariant
            from <= i <= v@.len(),
            v@ == s@,
            d == unsigned_digits(s@),
            d == v@.subrange(from as int, v@.len() as int),
            forall|j: int| from <= j < i ==> is_digit(#[trigger] v@[j]),
            acc == digits_value(v@.subrange(from as int, i as int)),
        decreases v.len() - i,
    {
        let c = v[i];
        if !('0' <= c && c <= '9') {
            assert(d[i - from] == c);
            assert(!is_digit(d[i - from]));
            return None;
        }
        let dig = (c as u32 - '0' as u32) as u64;
        let ghost before = v@.subrange(from as int, i as int);
        let ghost after = v@.subrange(from as int, i + 1);
        assert(after.drop_last() =~= before);
        if acc > (u64::MAX - dig) / 10 {
            proof {
                assert(acc * 10 + dig > u64::MAX) by (nonlinear_arith)
                    requires
                        acc > (u64::MAX - dig) / 10,
                        dig <= 9,
                ;
                assert(d.subrange(0, (i + 1 - from) as int) =~= after);
                assert forall|j: int| 0 <= j < after.len() implies is_digit(#[trigger] after[j]) by {
                    assert(after[j] == v@[from + j]);
                }
                lemma_digits_value_nonneg(before);
                if forall|j: int| 0 <= j < d.len() ==> is_digit(#[trigger] d[j]) {
                    lemma_digits_value_grows(d, (i + 1 - from) as int);
                }
            }
            return None;
        }
        assert(acc * 10 + dig <= u64::MAX) by (nonlinear_arith)
            requires
                acc <= (u64::MAX - dig) / 10,
                dig <= 9,
        ;
        acc = acc * 10 + dig;
        i = i + 1;
    }
    assert forall|j: int| 0 <= j < d.len() implies is_digit(#[trigger] d[j]) by {
        assert(d[j] == v@[from + j]);
    }
    Some(acc)
}

/// A prefix never spells more than the whole run of digits.
proof fn lemma_digits_value_grows(d: Seq<char>, k: int)
    requires
        0 <= k <= d.len(),
        forall|i: int| 0 <= i < d.len() ==> is_digit(#[trigger] d[i]),
    ensures
        digits_value(d.subrange(0, k)) <= digits_value(d),
    decreases d.len(),
{
    if k < d.len() {
        let e = d.drop_last();
        assert forall|i: int| 0 <= i < e.len() implies is_digit(#[trigger] e[i]) by {
            assert(e[i] == d[i]);
        }
        lemma_digits_value_grows(e, k);
        assert(e.subrange(0, k) =~= d.subrange(0, k));
        lemma_digits_value_nonneg(e);
        assert(is_digit(d.last()));
    } else {
        assert(d.subrange(0, k) =~= d);
    }
}

proof fn lemma_digits_value_nonneg(s: Seq<char>)
    requires
        forall|i: int| 0 <= i < s.len() ==> is_digit(#[trigger] s[i]),
    ensures
        digits_value(s) >= 0,
    decreases s.len(),
{
    if s.len() > 0 {
        let e = s.drop_last();
        assert forall|i: int| 0 <= i < e.len() implies is_digit(#[trigger] e[i]) by {
            assert(e[i] == s[i]);
        }
        lemma_digits_value_nonneg(e);
        assert(is_digit(s[s.len() - 1]));
    }
}

/// Reads a rate-limit window setting (see `window_ms_of`).
pub fn parse_window_ms(w: &str) -> (r: u128)
    ensures
        r == window_ms_of(w@),
{
    let v = chars_of(w);
    let n = v.len();
    if n == 0 {
        return 0;
    }
    let last = v[n - 1];
    proof {
        let tail = w@.subrange(w@.len() - 1, w@.len() as int);
        assert(tail =~= seq![last]);
        assert(seq!['s'][0] == 's');
        assert(seq!['m'][0] == 'm');
        assert(ends_with(w@, seq!['s']) <==> last == 's');
        assert(ends_with(w@, seq!['m']) <==> last == 'm');
    }
    if last != 's' && last != 'm' {
        return 0;
    }
    let body = w.substring_char(0, n - 1);
    assert(body@ =~= w@.drop_last());
    match parse_u64(body) {
        Some(k) => if last == 's' {
            k as u128 * 1000
        } else {
            k as u128 * 60000
        },
        None => 0,
    }
}

/// Whether `c` may stand in a log timestamp: a digit or a dot.
pub open spec fn is_stamp_char(c: char) -> bool {
    is_digit(c) || c == '.'
}

pub open spec fn stamp_run(s: Seq<char>) -> nat
    decreases s.len(),
{
    if s.len() > 0 && is_stamp_char(s[0]) {
        1 + stamp_run(s.drop_first())
    } else {
        0
    }
}

/// The leading bracketed timestamp of a message: `[`, blanks, then digits and
/// dots up to `]`.
pub open spec fn log_timestamp_of(m: Seq<char>) -> Option<Seq<char>> {
    if m.len() == 0 || m[0] != '[' {
        None
    } else {
        let a: int = 1 + leading_spaces(m.subrange(1, m.len() as int)) as int;
        let b: int = a + stamp_run(m.subrange(a, m.len() as int));
        if b > a && b < m.len() && m[b] == ']' {
            Some(m.subrange(a, b))
        } else {
            None
        }
    }
}

/// Finds the leading bracketed timestamp of a message, for tagging.
pub fn extract_log_timestamp(message: &str) -> (r: Option<String>)
    ensures
        r matches Some(t) ==> log_timestamp_of(message@) == Some(t@),
        r is None ==> log_timestamp_of(message@) is None,
{
    let v = chars_of(message);
    if v.len() == 0 || v[0] != '[' {
        return None;
    }
    let a = span_spaces(&v, 1);
    let mut b = a;
    while b < v.len() && (('0' <= v[b] && v[b] <= '9') || v[b] == '.')
        invariant
            a <= b <= v@.len(),
            stamp_run(v@.subrange(a as int, v@.len() as int)) == (b - a) + stamp_run(
                v@.subrange(b as int, v@.len() as int),
            ),
        decreases v.len() - b,
    {
        assert(v@.subrange(b as int, v@.len() as int).drop_first() =~= v@.subrange(
            b + 1,
            v@.len() as int,
        ));
        b = b + 1;
    }
    if b < v.len() {
        assert(v@.subrange(b as int, v@.len() as int)[0] == v@[b as int]);
    }
    if b > a && b < v.len() && v[b] == ']' {
        Some(owned(message.substring_char(a, b)))
    } else {
        None
    }
}

/// One delivery to the sink.
pub struct Event {
    /// The monitor's source name, for tagging.
    pub source: String,
    /// The buffered lines, joined with newlines.
    pub message: String,
    /// The leading bracketed timestamp of the message, if it has one.
    pub log_timestamp: Option<String>,
}

pub struct EventView {
    pub source: Seq<char>,
    pub message: Seq<char>,
    pub log_timestamp: Option<Seq<char>>,
}

impl View for Event {
    type V = EventView;

    open spec fn view(&self) -> EventView {
        EventView {
            source: self.source@,
            message: self.message@,
            log_timestamp: match self.log_timestamp {
                Some(t) => Some(t@),
                None => None,
            },
        }
    }
}

/// What a flush gives the sink.
pub enum Flush {
    /// The buffer was empty: nothing to send.
    Nothing,
    /// Send this event.
    Send(Event),
    /// The rate limiter refused; the lines are dropped.
    Dropped,
}

pub enum FlushView {
    Nothing,
    Send(EventView),
    Dropped,
}

impl View for Flush {
    type V = FlushView;

    open spec fn view(&self) -> FlushView {
        match self {
            Flush::Nothing => FlushView::Nothing,
            Flush::Send(e) => FlushView::Send(e@),
            Flush::Dropped => FlushView::Dropped,
        }
    }
}

/// What became of one line.
pub enum LineOutcome {
    /// The detector did not report it.
    Ignored,
    /// The detector reported it and the exclusion detector dropped it.
    Excluded,
    /// It was added to the buffer.
    Buffered,
    /// It was added to the buffer, which filled up and was flushed.
    Flushed(Flush),
}

pub enum LineView {
    Ignored,
    Excluded,
    Buffered,
    Flushed(FlushView),
}

impl View for LineOutcome {
    type V = LineView;

    open spec fn view(&self) -> LineView {
        match self {
            LineOutcome::Ignored => LineView::Ignored,
            LineOutcome::Excluded => LineView::Excluded,
            LineOutcome::Buffered => LineView::Buffered,
            LineOutcome::Flushed(f) => LineView::Flushed(f@),
        }
    }
}

/// What to do once a stream has ended and its lines have been flushed.
pub enum NextStep {
    /// Stop for good.
    Stop,
    /// Wait `RESTART_BACKOFF_MS` and open the source again.
    Restart,
}

/// The monitor's state.
pub struct MonitorView {
    pub source: Seq<char>,
    pub detector: DetectorView,
    pub exclusion: Option<DetectorView>,
    pub verbose: bool,
    pub stop_on_eof: bool,
    pub buffer: Seq<Seq<char>>,
    pub last_activity: u64,
    pub limiter: LimiterState,
}

/// Adding one accepted line to the buffer: the new buffer, and the batch that
/// a full buffer hands to a flush.
pub open spec fn buffer_step(buffer: Seq<Seq<char>>, line: Seq<char>) -> (
    Seq<Seq<char>>,
    Option<Seq<Seq<char>>>,
) {
    let b = buffer.push(line);
    if b.len() >= MAX_BUFFER_SIZE {
        (Seq::empty(), Some(b))
    } else {
        (b, None)
    }
}

/// Adding accepted lines one by one: the final buffer and the batches flushed
/// on the way, in order.
pub open spec fn buffer_run(buffer: Seq<Seq<char>>, lines: Seq<Seq<char>>) -> (
    Seq<Seq<char>>,
    Seq<Seq<Seq<char>>>,
)
    decreases lines.len(),
{
    if lines.len() == 0 {
        (buffer, Seq::empty())
    } else {
        let (b1, out) = buffer_step(buffer, lines[0]);
        let (b2, rest) = buffer_run(b1, lines.drop_first());
        (
            b2,
            match out {
                Some(batch) => seq![batch] + rest,
                None => rest,
            },
        )
    }
}

/// The line that brings the buffer to its maximum flushes everything
/// buffered, in order, and empties the buffer.
pub proof fn lemma_buffer_fills_up(buffer: Seq<Seq<char>>, lines: Seq<Seq<char>>)
    requires
        lines.len() > 0,
        buffer.len() + lines.len() == MAX_BUFFER_SIZE,
    ensures
        buffer_run(buffer, lines) == (Seq::<Seq<char>>::empty(), seq![buffer + lines]),
    decreases lines.len(),
{
    if lines.len() == 1 {
        assert(buffer.push(lines[0]) =~= buffer + lines);
        assert(lines.drop_first().len() == 0);
        assert(buffer_run(Seq::empty(), lines.drop_first()) == (
            Seq::<Seq<char>>::empty(),
            Seq::<Seq<Seq<char>>>::empty(),
        ));
        assert(seq![buffer + lines] + Seq::<Seq<Seq<char>>>::empty() =~= seq![buffer + lines]);
    } else {
        lemma_buffer_fills_up(buffer.push(lines[0]), lines.drop_first());
        assert(buffer.push(lines[0]) + lines.drop_first() =~= buffer + lines);
    }
}

/// Appending exactly `MAX_BUFFER_SIZE` accepted lines to an empty buffer,
/// with no other flush in between, flushes exactly once, with all of the
/// lines in order, and leaves the buffer empty.
pub proof fn lemma_full_buffer_flushes_once(lines: Seq<Seq<char>>)
    requires
        lines.len() == MAX_BUFFER_SIZE,
    ensures
        buffer_run(Seq::empty(), lines) == (Seq::<Seq<char>>::empty(), seq![lines]),
{
    lemma_buffer_fills_up(Seq::empty(), lines);
    assert(Seq::<Seq<char>>::empty() + lines =~= lines);
}

/// Delivering a non-empty batch at `now`: the event if the rate limiter lets
/// it go, else a drop.
pub open spec fn deliver(m: MonitorView, batch: Seq<Seq<char>>, now: u64) -> (
    LimiterState,
    FlushView,
) {
    let message = joined(batch, seq!['\n']);
    let (l, ok) = allow_step(m.limiter, now);
    (
        l,
        if ok {
            FlushView::Send(
                EventView {
                    source: m.source,
                    message,
                    log_timestamp: log_timestamp_of(message),
                },
            )
        } else {
            FlushView::Dropped
        },
    )
}

/// Flushing whatever is buffered at `now`.
pub open spec fn flush_spec(m: MonitorView, now: u64) -> (MonitorView, FlushView) {
    if m.buffer.len() == 0 {
        (m, FlushView::Nothing)
    } else {
        let (l, f) = deliver(m, m.buffer, now);
        (MonitorView { buffer: Seq::empty(), limiter: l, ..m }, f)
    }
}

/// Taking in an accepted line at `now`.
pub open spec fn accept_spec(m: MonitorView, line: Seq<char>, now: u64) -> (MonitorView, LineView) {
    let (b, out) = buffer_step(m.buffer, line);
    let m1 = MonitorView { buffer: b, last_activity: now, ..m };
    match out {
        None => (m1, LineView::Buffered),
        Some(batch) => {
            let (l, f) = deliver(m1, batch, now);
            (MonitorView { limiter: l, ..m1 }, LineView::Flushed(f))
        },
    }
}

/// Taking in accepted lines one by one, the `i`-th at `times[i]`: the final
/// state and what became of each line.
pub open spec fn accept_run(m: MonitorView, lines: Seq<Seq<char>>, times: Seq<u64>) -> (
    MonitorView,
    Seq<LineView>,
)
    decreases lines.len(),
{
    if lines.len() == 0 || times.len() == 0 {
        (m, Seq::empty())
    } else {
        let (m1, o) = accept_spec(m, lines[0], times[0]);
        let (m2, os) = accept_run(m1, lines.drop_first(), times.drop_first());
        (m2, seq![o] + os)
    }
}

/// Accepted lines that bring the buffer exactly to `MAX_BUFFER_SIZE` are
/// buffered one by one, and the last of them flushes everything buffered, in
/// order, through one rate-limiter check; the buffer is then empty.
pub proof fn lemma_accepts_fill_then_flush(m: MonitorView, lines: Seq<Seq<char>>, times: Seq<u64>)
    requires
        lines.len() == times.len(),
        lines.len() > 0,
        m.buffer.len() + lines.len() == MAX_BUFFER_SIZE,
    ensures
        ({
            let (mf, outs) = accept_run(m, lines, times);
            let (l, f) = deliver(m, m.buffer + lines, times.last());
            &&& mf == MonitorView {
                buffer: Seq::empty(),
                last_activity: times.last(),
                limiter: l,
                ..m
            }
            &&& outs.len() == lines.len()
            &&& forall|i: int| 0 <= i < outs.len() - 1 ==> outs[i] == LineView::Buffered
            &&& outs.last() == LineView::Flushed(f)
        }),
    decreases lines.len(),
{
    let (m1, o) = accept_spec(m, lines[0], times[0]);
    if lines.len() == 1 {
        assert(m.buffer.push(lines[0]) =~= m.buffer + lines);
        assert(lines.drop_first().len() == 0);
        let (mf, outs) = accept_run(m, lines, times);
        assert(outs =~= seq![o]);
    } else {
        lemma_accepts_fill_then_flush(m1, lines.drop_first(), times.drop_first());
        assert(m1.buffer + lines.drop_first() =~= m.buffer + lines);
        assert(times.drop_first().last() == times.last());
        let (m2, os) = accept_run(m1, lines.drop_first(), times.drop_first());
        let (mf, outs) = accept_run(m, lines, times);
        assert(outs =~= seq![o] + os);
        assert forall|i: int| 0 <= i < outs.len() - 1 implies outs[i] == LineView::Buffered by {
            if i > 0 {
                assert(outs[i] == os[i - 1]);
            }
        }
    }
}

/// Appending exactly `MAX_BUFFER_SIZE` accepted lines to a monitor with an
/// empty buffer, with no other flush in between, flushes exactly once, on the
/// last line, with all of the lines in order, and leaves the buffer empty.
pub proof fn lemma_monitor_flushes_full_buffer_once(
    m: MonitorView,
    lines: Seq<Seq<char>>,
    times: Seq<u64>,
)
    requires
        m.buffer.len() == 0,
        lines.len() == MAX_BUFFER_SIZE,
        times.len() == MAX_BUFFER_SIZE,
    ensures
        ({
            let (mf, outs) = accept_run(m, lines, times);
            &&& mf.buffer.len() == 0
            &&& forall|i: int| 0 <= i < MAX_BUFFER_SIZE - 1 ==> outs[i] == LineView::Buffered
            &&& outs[MAX_BUFFER_SIZE - 1] == LineView::Flushed(
                deliver(m, lines, times[MAX_BUFFER_SIZE - 1]).1,
            )
        }),
{
    lemma_accepts_fill_then_flush(m, lines, times);
    assert(m.buffer + lines =~= lines);
}

/// Taking in one line read from the source at `now`.
pub open spec fn line_spec(m: MonitorView, line: Seq<char>, now: u64) -> (MonitorView, LineView) {
    let bytes = encode_utf8(line);
    let (d, hit) = detector_step(m.detector, bytes);
    let m1 = MonitorView { detector: d, ..m };
    if !hit {
        (m1, LineView::Ignored)
    } else {
        match m.exclusion {
            Some(e) => {
                let (e2, excluded) = detector_step(e, bytes);
                let m2 = MonitorView { exclusion: Some(e2), ..m1 };
                if excluded {
                    (m2, LineView::Excluded)
                } else {
                    accept_spec(m2, line, now)
                }
            },
            None => accept_spec(m1, line, now),
        }
    }
}

/// The idle timer at `now`: flush if no line was accepted for at least the
/// flush interval.
pub open spec fn idle_spec(m: MonitorView, now: u64) -> (MonitorView, FlushView) {
    if elapsed(m.last_activity, now) < FLUSH_INTERVAL_MS {
        (m, FlushView::Nothing)
    } else {
        flush_spec(m, now)
    }
}

/// With fewer than `MAX_BUFFER_SIZE` lines buffered and no line accepted for
/// the flush interval, the idle timer flushes exactly once: one delivery
/// attempt carrying the buffered lines, in order; the buffer is then empty and
/// a later tick finds nothing to flush.
pub proof fn lemma_idle_flush_once(m: MonitorView, now: u64, later: u64)
    requires
        0 < m.buffer.len() < MAX_BUFFER_SIZE,
        elapsed(m.last_activity, now) >= FLUSH_INTERVAL_MS,
    ensures
        ({
            let (m1, f) = idle_spec(m, now);
            &&& m1.buffer.len() == 0
            &&& f == deliver(m, m.buffer, now).1
            &&& f != FlushView::Nothing
            &&& f matches FlushView::Send(e) ==> e.message == joined(m.buffer, seq!['\n'])
            &&& idle_spec(m1, later).1 == FlushView::Nothing
        }),
{
}

/// The exclusion detector that a setting asks for: a non-empty pattern gives
/// a pattern detector; an empty or absent one, none.
pub open spec fn exclusion_of(exclude: Option<Seq<char>>) -> Option<DetectorView> {
    match exclude {
        Some(p) => if p.len() > 0 {
            Some(DetectorView::Generic(p))
        } else {
            None
        },
        None => None,
    }
}

/// Whether an exclude setting names a pattern that does not compile.
pub open spec fn exclusion_refused(exclude: Option<Seq<char>>) -> bool {
    match exclude {
        Some(p) => p.len() > 0 && !regex_compiles(p),
        None => false,
    }
}

/// Watches one source: its detector, an optional exclusion detector, the
/// buffer of accepted lines, and the rate limiter in front of the sink.
pub struct Monitor {
    source_name: String,
    detector: LogDetector,
    exclusion_detector: Option<LogDetector>,
    verbose: bool,
    stop_on_eof: bool,
    buffer: Vec<String>,
    last_activity: u64,
    rate_limiter: RateLimiter,
}

impl View for Monitor {
    type V = MonitorView;

    closed spec fn view(&self) -> MonitorView {
        MonitorView {
            source: self.source_name@,
            detector: self.detector@,
            exclusion: match self.exclusion_detector {
                Some(d) => Some(d@),
                None => None,
            },
            verbose: self.verbose,
            stop_on_eof: self.stop_on_eof,
            buffer: views(self.buffer@),
            last_activity: self.last_activity,
            limiter: self.rate_limiter@,
        }
    }
}

impl Monitor {
    /// The buffer stays below its maximum between calls, and the limiter's
    /// count within its limit.
    pub closed spec fn wf(&self) -> bool {
        &&& self.buffer@.len() < MAX_BUFFER_SIZE
        &&& self.rate_limiter.wf()
    }

    /// A monitor for the source `source_name`, set up at `now`. An empty
    /// exclude pattern sets up no exclusion; one that does not compile is
    /// refused, and no monitor is set up.
    pub fn new(
        source_name: String,
        detector: LogDetector,
        verbose: bool,
        stop_on_eof: bool,
        exclude_pattern: Option<String>,
        rate_limit_burst: Option<u32>,
        rate_limit_window: Option<String>,
        now: u64,
    ) -> (r: Result<Self, DetectorError>)
        ensures
            r is Err <==> exclusion_refused(opt_view(exclude_pattern)),
            r matches Err(DetectorError::InvalidPattern(p)) ==> Some(p@) == opt_view(
                exclude_pattern,
            ),
            r matches Ok(m) ==> m.wf() && m@ == (MonitorView {
                source: source_name@,
                detector: detector@,
                exclusion: exclusion_of(opt_view(exclude_pattern)),
                verbose,
                stop_on_eof,
                buffer: Seq::empty(),
                last_activity: now,
                limiter: LimiterState {
                    limit: match rate_limit_burst {
                        Some(b) => b,
                        None => 0,
                    },
                    window_ms: match rate_limit_window {
                        Some(w) => window_ms_of(w@),
                        None => 0,
                    },
                    count: 0,
                    window_start: now,
                },
            }),
    {
        let exclusion_detector = match exclude_pattern {
            Some(p) => if !p.as_str().is_empty() {
                match get_detector("custom", p.as_str()) {
                    Ok(d) => Some(d),
                    Err(e) => {
                        return Err(e);
                    },
                }
            } else {
                None
            },
            None => None,
        };
        let burst = match rate_limit_burst {
            Some(b) => b,
            None => 0,
        };
        let window = match rate_limit_window {
            Some(w) => parse_window_ms(w.as_str()),
            None => 0,
        };
        let m = Monitor {
            source_name,
            detector,
            exclusion_detector,
            verbose,
            stop_on_eof,
            buffer: Vec::new(),
            last_activity: now,
            rate_limiter: RateLimiter::new(burst, window, now),
        };
        assert(views(m.buffer@) =~= Seq::<Seq<char>>::empty());
        Ok(m)
    }

    /// The source could not be opened: try again after `RESTART_BACKOFF_MS`.
    /// A failed open is no exhausted stream, so this holds whether or not the
    /// monitor stops at the end of its input.
    pub fn open_failed(&self) -> (r: NextStep)
        ensures
            r == NextStep::Restart,
    {
        NextStep::Restart
    }

    pub fn source_name(&self) -> (r: &str)
        ensures
            r@ == self@.source,
    {
        self.source_name.as_str()
    }

    pub fn verbose(&self) -> (r: bool)
        ensures
            r == self@.verbose,
    {
        self.verbose
    }

    /// The lines waiting for the next flush.
    pub fn pending(&self) -> (r: usize)
        ensures
            r == self@.buffer.len(),
    {
        self.buffer.len()
    }

    /// Sends the buffered lines, if any, through the rate limiter.
    fn flush(&mut self, now: u64) -> (r: Flush)
        requires
            old(self).rate_limiter.wf(),
            old(self).buffer@.len() <= MAX_BUFFER_SIZE,
        ensures
            (final(self)@, r@) == flush_spec(old(self)@, now),
            final(self).wf(),
    {
        if self.buffer.len() == 0 {
            return Flush::Nothing;
        }
        let message = join_with(&self.buffer, "\n");
        self.buffer.clear();
        assert(views(self.buffer@) =~= Seq::<Seq<char>>::empty());
        proof {
            reveal_strlit("\n");
            assert("\n"@ =~= seq!['\n']);
        }
        if self.rate_limiter.allow(now) {
            let log_timestamp = extract_log_timestamp(message.as_str());
            Flush::Send(Event { source: self.source_name.clone(), message, log_timestamp })
        } else {
            Flush::Dropped
        }
    }

    fn accept(&mut self, line: String, now: u64) -> (r: LineOutcome)
        requires
            old(self).wf(),
        ensures
            (final(self)@, r@) == accept_spec(old(self)@, line@, now),
            final(self).wf(),
    {
        self.last_activity = now;
        self.buffer.push(line);
        assert(views(self.buffer@) =~= views(old(self).buffer@).push(line@));
        if self.buffer.len() >= MAX_BUFFER_SIZE {
            LineOutcome::Flushed(self.flush(now))
        } else {
            LineOutcome::Buffered
        }
    }

    /// Takes in one line read from the source at `now`.
    pub fn process_line(&mut self, line: String, now: u64) -> (r: LineOutcome)
        requires
            old(self).wf(),
        ensures
            (final(self)@, r@) == line_spec(old(self)@, line@, now),
            final(self).wf(),
    {
        let hit = self.detector.detect(line.as_str().as_bytes());
        if !hit {
            return LineOutcome::Ignored;
        }
        let excluded = match &mut self.exclusion_detector {
            Some(ed) => ed.detect(line.as_str().as_bytes()),
            None => false,
        };
        if excluded {
            return LineOutcome::Excluded;
        }
        self.accept(line, now)
    }

    /// The idle timer fired at `now`.
    pub fn idle_tick(&mut self, now: u64) -> (r: Flush)
        requires
            old(self).wf(),
        ensures
            (final(self)@, r@) == idle_spec(old(self)@, now),
            final(self).wf(),
    {
        let idle = if now >= self.last_activity {
            now - self.last_activity
        } else {
            0
        };
        if idle < FLUSH_INTERVAL_MS {
            return Flush::Nothing;
        }
        self.flush(now)
    }

    /// The stream ended (or failed) at `now`: flush what is left, then stop or
    /// reconnect.
    pub fn end_of_stream(&mut self, now: u64) -> (r: (Flush, NextStep))
        requires
            old(self).wf(),
        ensures
            (final(self)@, r.0@) == flush_spec(old(self)@, now),
            r.1 == (if old(self)@.stop_on_eof {
                NextStep::Stop
            } else {
                NextStep::Restart
            }),
            final(self).wf(),
    {
        let f = self.flush(now);
        let next = if self.stop_on_eof {
            NextStep::Stop
        } else {
            NextStep::Restart
        };
        (f, next)
    }
}

} // verus!

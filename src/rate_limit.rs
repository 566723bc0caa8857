//! A fixed-window counter that guards the reporting sink from floods.
//!
//! Times are milliseconds on a monotonic clock chosen by the caller. A burst
//! limit of zero disables limiting. A window of zero never elapses: with a
//! non-zero burst, at most that many events pass over the limiter's whole life.
use vstd::prelude::*;

verus! {

/// The limiter's state.
pub struct LimiterState {
    /// Deliveries allowed per window; 0 allows everything.
    pub limit: u32,
    /// Length of a window in milliseconds; 0 is a window that never elapses.
    pub window_ms: u128,
    /// Deliveries allowed in the current window.
    pub count: u32,
    /// When the current window began.
    pub window_start: u64,
}

/// Milliseconds from `start` to `now`; 0 where the clock reads earlier.
pub open spec fn elapsed(start: u64, now: u64) -> int {
    if now >= start {
        now - start
    } else {
        0
    }
}

/// Whether the window that began at `s.window_start` has elapsed at `now`.
pub open spec fn window_elapsed(s: LimiterState, now: u64) -> bool {
    s.window_ms > 0 && elapsed(s.window_start, now) > s.window_ms
}

/// One `allow` at time `now`: the new state, and whether the delivery may go.
pub open spec fn allow_step(s: LimiterState, now: u64) -> (LimiterState, bool) {
    if s.limit == 0 {
        (s, true)
    } else {
        let s1 = if window_elapsed(s, now) {
            LimiterState { count: 0, window_start: now, ..s }
        } else {
            s
        };
        if s1.count < s1.limit {
            (LimiterState { count: (s1.count + 1) as u32, ..s1 }, true)
        } else {
            (s1, false)
        }
    }
}

/// `allow` at each of `times` in turn: the final state and how many were allowed.
pub open spec fn run_allows(s: LimiterState, times: Seq<u64>) -> (LimiterState, nat)
    decreases times.len(),
{
    if times.len() == 0 {
        (s, 0)
    } else {
        let (s1, r) = allow_step(s, times[0]);
        let (s2, n) = run_allows(s1, times.drop_first());
        (
            s2,
            n + if r {
                1nat
            } else {
                0nat
            },
        )
    }
}

/// Counts deliveries per fixed window (see `allow_step`).
pub struct RateLimiter {
    limit: u32,
    window_ms: u128,
    count: u32,
    window_start: u64,
}

impl View for RateLimiter {
    type V = LimiterState;

    closed spec fn view(&self) -> LimiterState {
        LimiterState {
            limit: self.limit,
            window_ms: self.window_ms,
            count: self.count,
            window_start: self.window_start,
        }
    }
}

impl RateLimiter {
    /// The count never passes the limit.
    pub closed spec fn wf(&self) -> bool {
        self.count <= self.limit
    }

    /// A limiter whose first window begins at `now`.
    pub fn new(limit: u32, window_ms: u128, now: u64) -> (r: Self)
        ensures
            r@ == (LimiterState { limit, window_ms, count: 0, window_start: now }),
            r.wf(),
    {
        RateLimiter { limit, window_ms, count: 0, window_start: now }
    }

    /// Whether one more delivery may go at time `now`; counts it if so.
    pub fn allow(&mut self, now: u64) -> (r: bool)
        requires
            old(self).wf(),
        ensures
            (final(self)@, r) == allow_step(old(self)@, now),
            final(self).wf(),
    {
        if self.limit == 0 {
            return true;
        }
        let elapsed = if now >= self.window_start {
            now - self.window_start
        } else {
            0
        };
        if self.window_ms > 0 && elapsed as u128 > self.window_ms {
            self.window_start = now;
            self.count = 0;
        }
        if self.count < self.limit {
            self.count = self.count + 1;
            true
        } else {
            false
        }
    }
}

/// Within one window, measured from its start, no more calls are allowed than
/// the limit leaves, and the window does not move.
pub proof fn lemma_at_most_limit_per_window(s: LimiterState, times: Seq<u64>)
    requires
        s.limit > 0,
        s.count <= s.limit,
        forall|i: int| 0 <= i < times.len() ==> elapsed(s.window_start, #[trigger] times[i]) <= s.window_ms,
    ensures
        run_allows(s, times).1 <= s.limit - s.count,
        run_allows(s, times).0.window_start == s.window_start,
    decreases times.len(),
{
    if times.len() > 0 {
        let (s1, r) = allow_step(s, times[0]);
        assert forall|i: int| 0 <= i < times.drop_first().len() implies elapsed(
            s1.window_start,
            #[trigger] times.drop_first()[i],
        ) <= s1.window_ms by {
            assert(times.drop_first()[i] == times[i + 1]);
        }
        lemma_at_most_limit_per_window(s1, times.drop_first());
    }
}

/// Calls that keep within the window and within what the limit leaves are
/// all allowed.
pub proof fn lemma_allowed_under_limit(s: LimiterState, times: Seq<u64>)
    requires
        s.limit > 0,
        s.count + times.len() <= s.limit,
        forall|i: int| 0 <= i < times.len() ==> elapsed(s.window_start, #[trigger] times[i]) <= s.window_ms,
    ensures
        run_allows(s, times).1 == times.len(),
    decreases times.len(),
{
    if times.len() > 0 {
        let (s1, r) = allow_step(s, times[0]);
        assert forall|i: int| 0 <= i < times.drop_first().len() implies elapsed(
            s1.window_start,
            #[trigger] times.drop_first()[i],
        ) <= s1.window_ms by {
            assert(times.drop_first()[i] == times[i + 1]);
        }
        lemma_allowed_under_limit(s1, times.drop_first());
    }
}

/// Once the window has elapsed, the count starts over: up to `limit` calls
/// within the new window, which begins at the first of them, are all allowed.
pub proof fn lemma_window_resets(s: LimiterState, times: Seq<u64>)
    requires
        s.limit > 0,
        0 < times.len() <= s.limit,
        window_elapsed(s, times[0]),
        forall|i: int| 0 <= i < times.len() ==> elapsed(times[0], #[trigger] times[i]) <= s.window_ms,
    ensures
        run_allows(s, times).1 == times.len(),
        run_allows(s, times).0.window_start == times[0],
{
    let (s1, r) = allow_step(s, times[0]);
    assert(s1.window_start == times[0] && s1.count == 1 && r);
    assert forall|i: int| 0 <= i < times.drop_first().len() implies elapsed(
        s1.window_start,
        #[trigger] times.drop_first()[i],
    ) <= s1.window_ms by {
        assert(times.drop_first()[i] == times[i + 1]);
    }
    lemma_allowed_under_limit(s1, times.drop_first());
    lemma_at_most_limit_per_window(s1, times.drop_first());
}

} // verus!

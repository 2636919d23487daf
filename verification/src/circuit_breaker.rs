//! Circuit breaking: a service that fails or answers slowly is left alone for a while,
//! then tried with a few requests.

use crate::binary64::{
    half_is_exact, ratio_at_least, ratio_grows_with_count, ratio_of_all_is_one, ratio_reaches,
    HALF_MAG, HIDDEN_TWICE,
};
use crate::config::CircuitBreakerConfig;
use crate::time::{age_of, is_age, is_present, present, Duration, NANOS_PER_MILLI};
use std::time::Instant;
use vstd::prelude::*;

verus! {

/// Whether requests pass.
#[derive(Debug, Clone, Copy, PartialEq, Eq, Structural)]
pub enum CircuitState {
    Closed,
    Open,
    HalfOpen,
}

impl CircuitState {
    /// The name of the state.
    pub open spec fn name(self) -> Seq<char> {
        match self {
            CircuitState::Closed => "Closed"@,
            CircuitState::Open => "Open"@,
            CircuitState::HalfOpen => "HalfOpen"@,
        }
    }

    pub fn to_string(&self) -> (r: String)
        ensures
            r@ == self.name(),
    {
        match self {
            CircuitState::Closed => "Closed".to_string(),
            CircuitState::Open => "Open".to_string(),
            CircuitState::HalfOpen => "HalfOpen".to_string(),
        }
    }
}

/// How many requests a half-open circuit lets through.
pub const PROBE_LIMIT: u64 = 5;

/// How many of them must succeed for the circuit to close.
pub const PROBE_SUCCESSES: u64 = 4;

/// One more on a counter, which starts again from zero after its last value.
pub open spec fn bump(n: u64) -> u64 {
    if n == u64::MAX {
        0
    } else {
        (n + 1) as u64
    }
}

fn bumped(n: u64) -> (r: u64)
    ensures
        r == bump(n),
{
    n.wrapping_add(1)
}

/// Counts of the calls since the window began.
#[derive(Debug, Clone, Copy)]
pub struct Metrics {
    pub total: u64,
    pub errors: u64,
    pub slow_calls: u64,
}

impl Metrics {
    pub open spec fn zero() -> Metrics {
        Metrics { total: 0, errors: 0, slow_calls: 0 }
    }

    /// One more call.
    pub open spec fn counted(self, is_error: bool, is_slow: bool) -> Metrics {
        Metrics {
            total: bump(self.total),
            errors: if is_error {
                bump(self.errors)
            } else {
                self.errors
            },
            slow_calls: if is_slow {
                bump(self.slow_calls)
            } else {
                self.slow_calls
            },
        }
    }

    /// No more calls failed, or were slow, than were made.
    pub open spec fn wf(self) -> bool {
        self.errors <= self.total && self.slow_calls <= self.total
    }

    /// There were enough calls, and the share of failed or of slow ones is too high.
    pub open spec fn trips(self, config: CircuitBreakerConfig) -> bool {
        &&& self.total >= config.request_volume_threshold
        &&& ratio_reaches(self.errors, self.total, config.error_threshold) || ratio_reaches(
            self.slow_calls,
            self.total,
            config.slow_call_ratio_threshold,
        )
    }

    pub fn new() -> (r: Self)
        ensures
            r == Metrics::zero(),
    {
        Metrics { total: 0, errors: 0, slow_calls: 0 }
    }

    pub fn reset(&mut self)
        ensures
            *final(self) == Metrics::zero(),
    {
        self.total = 0;
        self.errors = 0;
        self.slow_calls = 0;
    }

    pub fn record_success(&mut self, _duration: Duration)
        ensures
            *final(self) == old(self).counted(false, false),
    {
        self.total = bumped(self.total);
    }

    pub fn record_error(&mut self, _duration: Duration)
        ensures
            *final(self) == old(self).counted(true, false),
    {
        self.total = bumped(self.total);
        self.errors = bumped(self.errors);
    }

    pub fn record_slow_call(&mut self, is_error: bool)
        ensures
            *final(self) == old(self).counted(is_error, true),
    {
        self.total = bumped(self.total);
        self.slow_calls = bumped(self.slow_calls);
        if is_error {
            self.errors = bumped(self.errors);
        }
    }

    pub fn total(&self) -> (r: u64)
        ensures
            r == self.total,
    {
        self.total
    }

    pub fn error_count(&self) -> (r: u64)
        ensures
            r == self.errors,
    {
        self.errors
    }

    pub fn slow_call_count(&self) -> (r: u64)
        ensures
            r == self.slow_calls,
    {
        self.slow_calls
    }
}

/// The calls that count towards opening the circuit.
#[derive(Debug, Clone, Copy)]
pub struct Window {
    pub metrics: Metrics,
}

impl Window {
    pub open spec fn empty() -> Window {
        Window { metrics: Metrics::zero() }
    }

    pub fn new() -> (r: Self)
        ensures
            r == Window::empty(),
    {
        Window { metrics: Metrics::new() }
    }

    pub fn reset(&mut self)
        ensures
            *final(self) == Window::empty(),
    {
        self.metrics.reset();
    }
}

/// The circuit breaker of one service.
#[derive(Debug, Clone, Copy)]
pub struct CircuitBreaker {
    pub config: CircuitBreakerConfig,
    pub state: CircuitState,
    pub window: Window,
    pub open_time: Option<Instant>,
    pub half_open_attempts: u64,
    pub half_open_success: u64,
}

impl CircuitBreaker {
    /// A closed breaker that has counted nothing.
    pub open spec fn fresh(config: CircuitBreakerConfig) -> CircuitBreaker {
        CircuitBreaker {
            config,
            state: CircuitState::Closed,
            window: Window::empty(),
            open_time: None,
            half_open_attempts: 0,
            half_open_success: 0,
        }
    }

    /// The breaker as it is once its state is brought up to date: `elapsed` is the time
    /// since it opened, where it is open, and `now` the reading of the clock that it
    /// notes where it opens.
    pub open spec fn refreshed(self, elapsed: Duration, now: Instant) -> CircuitBreaker {
        match self.state {
            CircuitState::Closed => if self.window.metrics.trips(self.config) {
                CircuitBreaker { state: CircuitState::Open, open_time: Some(now), ..self }
            } else {
                self
            },
            CircuitState::Open => if self.open_time is Some && elapsed.nanos
                >= self.config.sleep_window_ms * NANOS_PER_MILLI {
                CircuitBreaker {
                    state: CircuitState::HalfOpen,
                    half_open_attempts: 0,
                    half_open_success: 0,
                    window: Window::empty(),
                    ..self
                }
            } else {
                self
            },
            CircuitState::HalfOpen => if self.half_open_attempts < PROBE_LIMIT {
                self
            } else if self.half_open_success >= PROBE_SUCCESSES {
                CircuitBreaker {
                    state: CircuitState::Closed,
                    open_time: None,
                    window: Window::empty(),
                    ..self
                }
            } else {
                CircuitBreaker { state: CircuitState::Open, open_time: Some(now), ..self }
            },
        }
    }

    /// The breaker after a request was asked for in its present state.
    pub open spec fn asked(self) -> CircuitBreaker {
        if self.state == CircuitState::HalfOpen {
            CircuitBreaker { half_open_attempts: bump(self.half_open_attempts), ..self }
        } else {
            self
        }
    }

    /// Whether a request passes in the present state.
    pub open spec fn admits(self) -> bool {
        match self.state {
            CircuitState::Closed => true,
            CircuitState::Open => false,
            CircuitState::HalfOpen => self.half_open_attempts < PROBE_LIMIT,
        }
    }

    /// A call took long enough to count as slow.
    pub open spec fn is_slow(self, duration: Duration) -> bool {
        duration.nanos >= self.config.slow_call_threshold_ms * NANOS_PER_MILLI
    }

    /// The breaker after a call ended. Only a closed circuit counts calls; a half-open
    /// one counts successes.
    pub open spec fn after_call(self, is_error: bool, duration: Duration) -> CircuitBreaker {
        match self.state {
            CircuitState::Closed => CircuitBreaker {
                window: Window {
                    metrics: self.window.metrics.counted(is_error, self.is_slow(duration)),
                },
                ..self
            },
            CircuitState::HalfOpen => if is_error {
                self
            } else {
                CircuitBreaker { half_open_success: bump(self.half_open_success), ..self }
            },
            CircuitState::Open => self,
        }
    }

    /// What every operation keeps: the moment of opening is known unless the circuit is
    /// closed, and no more calls failed or were slow than were counted.
    pub open spec fn wf(self) -> bool {
        &&& self.open_time is Some <==> self.state != CircuitState::Closed
        &&& self.window.metrics.wf()
    }

    /// The breaker after it was asked for `n` requests in its present state.
    pub open spec fn asked_times(self, n: nat) -> CircuitBreaker
        decreases n,
    {
        if n == 0 {
            self
        } else {
            self.asked_times((n - 1) as nat).asked()
        }
    }

    /// What the clock says to this breaker: `elapsed` since the moment of opening, or no
    /// time where there is none, and `now` as the present moment.
    pub open spec fn is_reading(self, elapsed: Duration, now: Instant) -> bool {
        &&& is_present(now)
        &&& match self.open_time {
            Some(opened_at) => is_age(opened_at, elapsed),
            None => elapsed == (Duration { nanos: 0 }),
        }
    }

    /// `after` is this breaker with its state brought up to date by the clock.
    pub open spec fn refreshes_to(self, after: CircuitBreaker) -> bool {
        exists|elapsed: Duration, now: Instant| #[trigger]
            self.is_reading(elapsed, now) && after == self.refreshed(elapsed, now)
    }

    /// `after` is this breaker after it was asked for a request, brought up to date by
    /// the clock, and `admitted` is the answer.
    pub open spec fn answers(self, after: CircuitBreaker, admitted: bool) -> bool {
        exists|elapsed: Duration, now: Instant| #[trigger]
            self.is_reading(elapsed, now) && after == self.refreshed(elapsed, now).asked()
                && admitted == self.refreshed(elapsed, now).admits()
    }

    pub fn new(config: CircuitBreakerConfig) -> (r: CircuitBreaker)
        ensures
            r == CircuitBreaker::fresh(config),
    {
        CircuitBreaker {
            config,
            state: CircuitState::Closed,
            window: Window::new(),
            open_time: None,
            half_open_attempts: 0,
            half_open_success: 0,
        }
    }

    /// Changes the settings and nothing else.
    pub fn update_config(&mut self, new_config: CircuitBreakerConfig)
        ensures
            *final(self) == (CircuitBreaker { config: new_config, ..*old(self) }),
    {
        self.config = new_config;
    }

    /// The state, brought up to date.
    pub fn state(&mut self) -> (r: CircuitState)
        ensures
            old(self).refreshes_to(*final(self)),
            r == final(self).state,
    {
        self.try_transition_state();
        self.state
    }

    /// Asks whether a request may pass.
    pub fn allow_request(&mut self) -> (r: bool)
        ensures
            old(self).answers(*final(self), r),
    {
        let (elapsed, now) = self.read_clock();
        self.allow_request_at(elapsed, now)
    }

    /// Asks whether a request may pass, with the clock already read.
    pub fn allow_request_at(&mut self, elapsed: Duration, now: Instant) -> (r: bool)
        ensures
            *final(self) == old(self).refreshed(elapsed, now).asked(),
            r == old(self).refreshed(elapsed, now).admits(),
    {
        self.transition_at(elapsed, now);
        match self.state {
            CircuitState::Closed => true,
            CircuitState::Open => false,
            CircuitState::HalfOpen => {
                let attempts: u64 = self.half_open_attempts;
                self.half_open_attempts = bumped(attempts);
                attempts < PROBE_LIMIT
            },
        }
    }

    /// Asks the clock for the time since the circuit opened and for the present moment.
    pub(crate) fn read_clock(&self) -> (r: (Duration, Instant))
        ensures
            self.is_reading(r.0, r.1),
    {
        let elapsed = match &self.open_time {
            Some(opened_at) => age_of(opened_at),
            None => Duration { nanos: 0 },
        };
        (elapsed, present())
    }

    /// Brings the state up to date.
    pub fn try_transition_state(&mut self)
        ensures
            old(self).refreshes_to(*final(self)),
    {
        let (elapsed, now) = self.read_clock();
        self.transition_at(elapsed, now);
    }

    /// Brings the state up to date, with the clock already read.
    pub fn transition_at(&mut self, elapsed: Duration, now: Instant)
        ensures
            *final(self) == old(self).refreshed(elapsed, now),
    {
        match self.state {
            CircuitState::Closed => {
                let config = self.config;
                if self.should_open(&config) {
                    self.state = CircuitState::Open;
                    self.open_time = Some(now);
                }
            },
            CircuitState::Open => {
                if self.open_time.is_some() && elapsed.at_least(self.config.sleep_window()) {
                    self.state = CircuitState::HalfOpen;
                    self.half_open_attempts = 0;
                    self.half_open_success = 0;
                    self.window.reset();
                }
            },
            CircuitState::HalfOpen => {
                if self.half_open_attempts >= PROBE_LIMIT {
                    if self.half_open_success >= PROBE_SUCCESSES {
                        self.state = CircuitState::Closed;
                        self.open_time = None;
                        self.window.reset();
                    } else {
                        self.state = CircuitState::Open;
                        self.open_time = Some(now);
                    }
                }
            },
        }
    }

    /// Whether the calls counted so far are reason to open the circuit.
    pub fn should_open(&self, config: &CircuitBreakerConfig) -> (r: bool)
        ensures
            r == self.window.metrics.trips(*config),
    {
        let total = self.window.metrics.total();
        if total < config.request_volume_threshold {
            return false;
        }
        let error_count = self.window.metrics.error_count();
        if ratio_at_least(error_count, total, config.error_threshold) {
            return true;
        }
        let slow_count = self.window.metrics.slow_call_count();
        ratio_at_least(slow_count, total, config.slow_call_ratio_threshold)
    }

    /// Counts a call that succeeded.
    pub fn record_success(&mut self, duration: Duration)
        ensures
            *final(self) == old(self).after_call(false, duration),
    {
        match self.state {
            CircuitState::Closed => {
                if duration.at_least(self.config.slow_call_threshold()) {
                    self.window.metrics.record_slow_call(false);
                } else {
                    self.window.metrics.record_success(duration);
                }
            },
            CircuitState::HalfOpen => {
                self.half_open_success = bumped(self.half_open_success);
            },
            CircuitState::Open => {},
        }
    }

    /// Counts a call that failed.
    pub fn record_error(&mut self, duration: Duration)
        ensures
            *final(self) == old(self).after_call(true, duration),
    {
        match self.state {
            CircuitState::Closed => {
                if duration.at_least(self.config.slow_call_threshold()) {
                    self.window.metrics.record_slow_call(true);
                } else {
                    self.window.metrics.record_error(duration);
                }
            },
            CircuitState::HalfOpen => {},
            CircuitState::Open => {},
        }
    }

    /// The calls counted, those that failed and those that were slow.
    pub fn metrics(&self) -> (r: (u64, u64, u64))
        ensures
            r == (
                self.window.metrics.total,
                self.window.metrics.errors,
                self.window.metrics.slow_calls,
            ),
    {
        (
            self.window.metrics.total(),
            self.window.metrics.error_count(),
            self.window.metrics.slow_call_count(),
        )
    }

    /// Closes the circuit and forgets all counts; the settings stay.
    pub fn reset(&mut self)
        ensures
            *final(self) == CircuitBreaker::fresh(old(self).config),
    {
        self.state = CircuitState::Closed;
        self.open_time = None;
        self.window.reset();
        self.half_open_attempts = 0;
        self.half_open_success = 0;
    }
}

/// Every operation keeps the breaker well formed, as long as the count of calls has
/// not run through all 64-bit numbers.
pub proof fn operations_keep_breaker_wf(
    cb: CircuitBreaker,
    elapsed: Duration,
    now: Instant,
    is_error: bool,
    duration: Duration,
    config: CircuitBreakerConfig,
)
    requires
        cb.wf(),
    ensures
        cb.refreshed(elapsed, now).wf(),
        cb.refreshed(elapsed, now).asked().wf(),
        cb.window.metrics.total < u64::MAX ==> cb.after_call(is_error, duration).wf(),
        CircuitBreaker::fresh(config).wf(),
        (CircuitBreaker { config, ..cb }).wf(),
{
}

/// An open circuit lets nothing through, and does not change, until its sleep window
/// has passed.
pub proof fn open_circuit_waits(cb: CircuitBreaker, elapsed: Duration, now: Instant)
    requires
        cb.state == CircuitState::Open,
        elapsed.nanos < cb.config.sleep_window_ms * NANOS_PER_MILLI,
    ensures
        cb.refreshed(elapsed, now) == cb,
        !cb.admits(),
        cb.asked() == cb,
{
}

/// Once the sleep window has passed, an open circuit is half open, with all counts at
/// zero, and lets the next request through.
pub proof fn open_circuit_is_tried_again(cb: CircuitBreaker, elapsed: Duration, now: Instant)
    requires
        cb.wf(),
        cb.state == CircuitState::Open,
        elapsed.nanos >= cb.config.sleep_window_ms * NANOS_PER_MILLI,
    ensures
        cb.refreshed(elapsed, now).state == CircuitState::HalfOpen,
        cb.refreshed(elapsed, now).half_open_attempts == 0,
        cb.refreshed(elapsed, now).half_open_success == 0,
        cb.refreshed(elapsed, now).window == Window::empty(),
        cb.refreshed(elapsed, now).admits(),
{
}

/// A half-open circuit lets exactly the first few requests through: as many as the
/// limit says, and no more after them.
pub proof fn half_open_circuit_is_limited(cb: CircuitBreaker, n: nat)
    requires
        cb.state == CircuitState::HalfOpen,
        cb.half_open_attempts == 0,
        n < u64::MAX,
    ensures
        cb.asked_times(n) == (CircuitBreaker { half_open_attempts: n as u64, ..cb }),
        cb.asked_times(n).admits() <==> n < PROBE_LIMIT,
    decreases n,
{
    if n > 0 {
        half_open_circuit_is_limited(cb, (n - 1) as nat);
    }
}

/// After the allowed requests a half-open circuit closes where enough of them
/// succeeded, with empty counts, and opens again where they did not.
pub proof fn half_open_circuit_decides(cb: CircuitBreaker, elapsed: Duration, now: Instant)
    requires
        cb.state == CircuitState::HalfOpen,
        cb.half_open_attempts >= PROBE_LIMIT,
    ensures
        cb.half_open_success >= PROBE_SUCCESSES <==> cb.refreshed(elapsed, now).state
            == CircuitState::Closed,
        cb.half_open_success < PROBE_SUCCESSES <==> cb.refreshed(elapsed, now).state
            == CircuitState::Open,
        cb.refreshed(elapsed, now).state == CircuitState::Closed ==> cb.refreshed(
            elapsed,
            now,
        ).window == Window::empty(),
        cb.refreshed(elapsed, now).state == CircuitState::Open ==> cb.refreshed(
            elapsed,
            now,
        ).open_time == Some(now),
{
}

/// A closed circuit stays closed, and lets requests through, while it has seen too few
/// calls, whatever became of them.
pub proof fn few_calls_keep_circuit_closed(cb: CircuitBreaker, elapsed: Duration, now: Instant)
    requires
        cb.state == CircuitState::Closed,
        cb.window.metrics.total < cb.config.request_volume_threshold,
    ensures
        cb.refreshed(elapsed, now) == cb,
        cb.admits(),
{
}

/// A new breaker, and one that was reset, stays closed until a call is counted,
/// whatever its settings are.
pub proof fn fresh_circuit_stays_closed(
    config: CircuitBreakerConfig,
    elapsed: Duration,
    now: Instant,
)
    ensures
        CircuitBreaker::fresh(config).refreshed(elapsed, now) == CircuitBreaker::fresh(config),
        CircuitBreaker::fresh(config).admits(),
{
}

/// A closed circuit of which enough calls were made, all of them failed or all of them
/// slow, opens, unless the threshold in question is above one or not a number.
pub proof fn all_bad_calls_open_circuit(cb: CircuitBreaker, elapsed: Duration, now: Instant)
    requires
        cb.state == CircuitState::Closed,
        cb.window.metrics.total > 0,
        cb.window.metrics.total >= cb.config.request_volume_threshold,
        (cb.window.metrics.errors == cb.window.metrics.total
            && cb.config.error_threshold.at_most_one()) || (cb.window.metrics.slow_calls
            == cb.window.metrics.total && cb.config.slow_call_ratio_threshold.at_most_one()),
    ensures
        cb.refreshed(elapsed, now).state == CircuitState::Open,
        cb.refreshed(elapsed, now).open_time == Some(now),
        !cb.refreshed(elapsed, now).admits(),
{
    ratio_of_all_is_one(cb.window.metrics.total);
}

/// With the error threshold at one half and no slow calls that matter, a closed circuit
/// opens when enough calls were made and at least every second one failed.
pub proof fn half_of_calls_failing_opens_circuit(
    cb: CircuitBreaker,
    elapsed: Duration,
    now: Instant,
)
    requires
        cb.wf(),
        cb.state == CircuitState::Closed,
        0 < cb.window.metrics.total < HIDDEN_TWICE,
        cb.config.error_threshold.bits == HALF_MAG,
        !ratio_reaches(
            cb.window.metrics.slow_calls,
            cb.window.metrics.total,
            cb.config.slow_call_ratio_threshold,
        ),
    ensures
        cb.refreshed(elapsed, now).state == CircuitState::Open <==> (cb.window.metrics.total
            >= cb.config.request_volume_threshold && 2 * cb.window.metrics.errors
            >= cb.window.metrics.total),
{
    half_is_exact(cb.window.metrics.errors, cb.window.metrics.total);
}

/// Calls that end while the circuit is open leave no trace, and failures of a half-open
/// circuit are not counted.
pub proof fn only_closed_circuit_counts_failures(cb: CircuitBreaker, duration: Duration)
    ensures
        cb.state == CircuitState::Open ==> cb.after_call(true, duration) == cb
            && cb.after_call(false, duration) == cb,
        cb.state == CircuitState::HalfOpen ==> cb.after_call(true, duration) == cb,
        cb.state != CircuitState::Closed ==> cb.after_call(false, duration).window == cb.window,
{
}

/// What happens to a breaker: it is asked for a request, with the clock read as given, or it
/// is told how a call ended and how long it took.
pub enum Step {
    Asked(Duration, Instant),
    Ended(bool, Duration),
}

/// The breaker after several steps.
pub open spec fn stepped(cb: CircuitBreaker, steps: Seq<Step>) -> CircuitBreaker
    decreases steps.len(),
{
    if steps.len() == 0 {
        cb
    } else {
        let before = stepped(cb, steps.drop_last());
        match steps.last() {
            Step::Asked(elapsed, now) => before.refreshed(elapsed, now).asked(),
            Step::Ended(is_error, duration) => before.after_call(is_error, duration),
        }
    }
}

/// How often a breaker was asked for a request.
pub open spec fn times_asked(steps: Seq<Step>) -> nat
    decreases steps.len(),
{
    if steps.len() == 0 {
        0
    } else {
        times_asked(steps.drop_last()) + if steps.last() is Asked {
            1nat
        } else {
            0
        }
    }
}

/// How many calls ended well, and how many badly.
pub open spec fn calls_ended(steps: Seq<Step>, badly: bool) -> nat
    decreases steps.len(),
{
    if steps.len() == 0 {
        0
    } else {
        calls_ended(steps.drop_last(), badly) + if steps.last() matches Step::Ended(is_error, _)
            && is_error == badly {
            1nat
        } else {
            0
        }
    }
}

/// How many calls took at least so many milliseconds.
pub open spec fn calls_as_long_as(steps: Seq<Step>, ms: u64) -> nat
    decreases steps.len(),
{
    if steps.len() == 0 {
        0
    } else {
        calls_as_long_as(steps.drop_last(), ms) + if steps.last() matches Step::Ended(_, duration)
            && duration.nanos >= ms * 1_000_000 {
            1nat
        } else {
            0
        }
    }
}

/// In a half-open circuit every call that succeeds raises the number of successes by one,
/// whatever its duration, and a call that fails leaves it.
pub proof fn every_success_of_half_open_circuit_counts(cb: CircuitBreaker, duration: Duration)
    requires
        cb.state == CircuitState::HalfOpen,
        cb.half_open_success < u64::MAX,
    ensures
        cb.after_call(false, duration).half_open_success == cb.half_open_success + 1,
        cb.after_call(true, duration).half_open_success == cb.half_open_success,
        cb.after_call(false, duration).half_open_attempts == cb.half_open_attempts,
        cb.after_call(true, duration).half_open_attempts == cb.half_open_attempts,
        cb.after_call(false, duration).state == CircuitState::HalfOpen,
        cb.after_call(true, duration).state == CircuitState::HalfOpen,
{
}

/// A circuit that has just become half open and lets no more than its five requests in
/// counts them and those that succeeded, in whatever order it is asked and told, and
/// however long the calls take.
pub proof fn half_open_circuit_counts_probes(cb: CircuitBreaker, steps: Seq<Step>)
    requires
        cb.state == CircuitState::HalfOpen,
        cb.half_open_attempts == 0,
        cb.half_open_success == 0,
        times_asked(steps) <= 5,
        steps.len() < u64::MAX,
    ensures
        stepped(cb, steps).state == CircuitState::HalfOpen,
        stepped(cb, steps).half_open_attempts == times_asked(steps),
        stepped(cb, steps).half_open_success == calls_ended(steps, false),
        calls_ended(steps, false) <= steps.len(),
    decreases steps.len(),
{
    if steps.len() > 0 {
        half_open_circuit_counts_probes(cb, steps.drop_last());
    }
}

/// A circuit that has just become half open, was asked for five requests and told of any
/// calls, of any durations and in any order, is closed when it is next looked at if at
/// least four calls succeeded, and is open again if fewer did.
pub proof fn four_successes_of_five_close_circuit(
    cb: CircuitBreaker,
    steps: Seq<Step>,
    elapsed: Duration,
    now: Instant,
)
    requires
        cb.state == CircuitState::HalfOpen,
        cb.half_open_attempts == 0,
        cb.half_open_success == 0,
        times_asked(steps) == 5,
        steps.len() < u64::MAX,
    ensures
        calls_ended(steps, false) >= 4 <==> stepped(cb, steps).refreshed(elapsed, now).state
            == CircuitState::Closed,
        calls_ended(steps, false) < 4 <==> stepped(cb, steps).refreshed(elapsed, now).state
            == CircuitState::Open,
        calls_ended(steps, false) >= 4 <==> stepped(cb, steps).refreshed(elapsed, now).admits(),
{
    half_open_circuit_counts_probes(cb, steps);
}

/// A new breaker that is only told of calls counts all of them, those that failed, and
/// those that took at least as long as its settings call slow; it stays closed meanwhile.
pub proof fn counts_are_those_of_the_calls(config: CircuitBreakerConfig, steps: Seq<Step>)
    requires
        times_asked(steps) == 0,
        steps.len() < u64::MAX,
    ensures
        stepped(CircuitBreaker::fresh(config), steps).state == CircuitState::Closed,
        stepped(CircuitBreaker::fresh(config), steps).config == config,
        stepped(CircuitBreaker::fresh(config), steps).window.metrics.total == steps.len(),
        stepped(CircuitBreaker::fresh(config), steps).window.metrics.errors == calls_ended(
            steps,
            true,
        ),
        stepped(CircuitBreaker::fresh(config), steps).window.metrics.slow_calls == calls_as_long_as(
            steps,
            config.slow_call_threshold_ms,
        ),
        calls_ended(steps, true) + calls_ended(steps, false) == steps.len(),
        calls_as_long_as(steps, config.slow_call_threshold_ms) <= steps.len(),
    decreases steps.len(),
{
    if steps.len() > 0 {
        counts_are_those_of_the_calls(config, steps.drop_last());
    }
}

/// A closed circuit opens exactly when enough calls were counted and the share of failed
/// ones, or that of slow ones, reaches its threshold; otherwise it does not change at all.
pub proof fn closed_circuit_opens_exactly_when_too_much_goes_wrong(
    cb: CircuitBreaker,
    elapsed: Duration,
    now: Instant,
)
    requires
        cb.state == CircuitState::Closed,
    ensures
        ({
            let m = cb.window.metrics;
            let wrong = m.total >= cb.config.request_volume_threshold && (ratio_reaches(
                m.errors,
                m.total,
                cb.config.error_threshold,
            ) || ratio_reaches(m.slow_calls, m.total, cb.config.slow_call_ratio_threshold));
            &&& wrong <==> cb.refreshed(elapsed, now).state == CircuitState::Open
            &&& wrong ==> cb.refreshed(elapsed, now).open_time == Some(now)
            &&& !wrong ==> cb.refreshed(elapsed, now) == cb
            &&& cb.refreshed(elapsed, now).window == cb.window
        }),
{
}

/// More failed calls, or more slow ones, among as many calls never keep a circuit closed
/// that fewer would open.
pub proof fn worse_calls_open_circuit_no_later(
    cb: CircuitBreaker,
    worse: CircuitBreaker,
    elapsed: Duration,
    now: Instant,
)
    requires
        cb.state == CircuitState::Closed,
        worse.state == CircuitState::Closed,
        worse.config == cb.config,
        worse.window.metrics.total == cb.window.metrics.total,
        worse.window.metrics.errors >= cb.window.metrics.errors,
        worse.window.metrics.slow_calls >= cb.window.metrics.slow_calls,
        cb.refreshed(elapsed, now).state == CircuitState::Open,
    ensures
        worse.refreshed(elapsed, now).state == CircuitState::Open,
{
    let m = cb.window.metrics;
    let w = worse.window.metrics;
    if ratio_reaches(m.errors, m.total, cb.config.error_threshold) {
        ratio_grows_with_count(m.errors, w.errors, m.total, cb.config.error_threshold);
    } else {
        ratio_grows_with_count(
            m.slow_calls,
            w.slow_calls,
            m.total,
            cb.config.slow_call_ratio_threshold,
        );
    }
}

/// An open circuit becomes half open exactly when as many milliseconds have passed as its
/// sleep window has, and never closes at once.
pub proof fn sleep_window_is_kept_exactly(cb: CircuitBreaker, elapsed: Duration, now: Instant)
    requires
        cb.wf(),
        cb.state == CircuitState::Open,
    ensures
        elapsed.nanos >= cb.config.sleep_window_ms * 1_000_000 <==> cb.refreshed(
            elapsed,
            now,
        ).state == CircuitState::HalfOpen,
        elapsed.nanos < cb.config.sleep_window_ms * 1_000_000 <==> cb.refreshed(elapsed, now) == cb,
        cb.refreshed(elapsed, now).open_time == cb.open_time,
        cb.refreshed(elapsed, now).config == cb.config,
{
}

/// Nothing but a change of settings changes the settings.
pub proof fn steps_keep_settings(cb: CircuitBreaker, steps: Seq<Step>)
    ensures
        stepped(cb, steps).config == cb.config,
    decreases steps.len(),
{
    if steps.len() > 0 {
        steps_keep_settings(cb, steps.drop_last());
    }
}

/// A circuit that opens, or closes after its probes, keeps its counts of probes, and one
/// that opens keeps its counts of calls.
pub proof fn opening_keeps_counts(cb: CircuitBreaker, elapsed: Duration, now: Instant)
    requires
        cb.state != CircuitState::Open,
    ensures
        cb.refreshed(elapsed, now).half_open_attempts == cb.half_open_attempts,
        cb.refreshed(elapsed, now).half_open_success == cb.half_open_success,
        cb.refreshed(elapsed, now).config == cb.config,
        cb.refreshed(elapsed, now).state == CircuitState::Open ==> cb.refreshed(
            elapsed,
            now,
        ).window == cb.window,
        cb.refreshed(elapsed, now).state == CircuitState::Closed && cb.state
            == CircuitState::HalfOpen ==> cb.refreshed(elapsed, now).window.metrics.total == 0
            && cb.refreshed(elapsed, now).window.metrics.errors == 0 && cb.refreshed(
            elapsed,
            now,
        ).window.metrics.slow_calls == 0 && cb.refreshed(elapsed, now).open_time is None,
{
}

} // verus!

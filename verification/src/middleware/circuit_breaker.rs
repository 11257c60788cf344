//! A circuit breaker: it lets requests through while the upstream behaves,
//! opens (refuses every request) after too many failures, and after a cool-down
//! lets a limited number of probe requests through to decide whether to close
//! again.
//!
//! Time is a number of nanoseconds on the monotonic clock since the breaker
//! was made; the failure-rate threshold is a fraction `numerator / denominator`.
use vstd::prelude::*;

use crate::clock::{instant_now, nanos_since, MAX_CLOCK_NANOS};
use crate::headers::HeaderList;
use crate::middleware::check::{is_success_status, CheckResult, Denial};
use crate::text::{concat, decimal, u64_to_decimal};

verus! {

/// A failure rate given as a fraction.
#[derive(Debug, Clone, Copy, PartialEq, Eq)]
pub struct FailureRate {
    pub numerator: u64,
    pub denominator: u64,
}

/// Where the breaker stands.
#[derive(Debug, Clone, Copy, PartialEq, Eq)]
pub enum BreakerState {
    /// Requests go through; the counters measure how the upstream behaves.
    Closed { failures: u64, total_requests: u64, consecutive_failures: u32 },
    /// Requests are refused until the clock reaches `opens_at`.
    Open { opens_at: u128 },
    /// A limited number of probe requests go through.
    HalfOpen { success_probes: u32, total_probes: u32 },
}

/// The breaker's settings and its current state.
#[derive(Debug, Clone, Copy, PartialEq, Eq)]
pub struct CircuitBreaker {
    /// The failure rate at or above which a closed breaker opens.
    pub failure_rate_threshold: FailureRate,
    /// The number of failures in a row at which a closed breaker opens.
    pub consecutive_failure_threshold: u32,
    /// How long the breaker stays open, in nanoseconds.
    pub open_duration_nanos: u64,
    /// How many probe requests a half-open breaker lets through.
    pub half_open_max_requests: u32,
    /// How many requests a closed breaker must have seen before the failure rate counts.
    pub min_requests_for_rate_calculation: u64,
    pub state: BreakerState,
    /// The instant the breaker was made: its times count from it.
    pub started: std::time::Instant,
}

/// The closed state with every counter at zero.
pub open spec fn fresh_closed() -> BreakerState {
    BreakerState::Closed { failures: 0, total_requests: 0, consecutive_failures: 0 }
}

/// `failures / total` reaches the threshold `rate` (for a positive total).
pub open spec fn rate_reached(failures: nat, total: nat, rate: FailureRate) -> bool {
    failures * rate.denominator >= rate.numerator * total
}

/// No counter of the state is at its largest value, so one more event can be counted.
pub open spec fn can_count(s: BreakerState) -> bool {
    match s {
        BreakerState::Closed { failures, total_requests, consecutive_failures } => failures
            < u64::MAX && total_requests < u64::MAX && consecutive_failures < u32::MAX,
        BreakerState::HalfOpen { success_probes, total_probes } => success_probes < u32::MAX
            && total_probes < u32::MAX,
        BreakerState::Open { .. } => true,
    }
}

/// In a closed state, consecutive failures never exceed failures, which never exceed requests.
pub open spec fn counts_consistent(s: BreakerState) -> bool {
    match s {
        BreakerState::Closed { failures, total_requests, consecutive_failures } =>
            consecutive_failures <= failures && failures <= total_requests,
        _ => true,
    }
}

impl CircuitBreaker {
    /// The state the breaker opens into at time `now`.
    pub open spec fn opened_at(self, now: u128) -> BreakerState {
        BreakerState::Open { opens_at: (now + self.open_duration_nanos) as u128 }
    }

    /// Whether a call is allowed at time `now`.
    pub open spec fn spec_allowed(self, now: u128) -> bool {
        match self.state {
            BreakerState::Closed { .. } => true,
            BreakerState::Open { opens_at } => now >= opens_at,
            BreakerState::HalfOpen { total_probes, .. } => total_probes
                < self.half_open_max_requests,
        }
    }

    /// The state after asking whether a call is allowed at time `now`.
    pub open spec fn state_after_check(self, now: u128) -> BreakerState {
        match self.state {
            BreakerState::Open { opens_at } => if now >= opens_at {
                BreakerState::HalfOpen { success_probes: 0, total_probes: 0 }
            } else {
                self.state
            },
            _ => self.state,
        }
    }

    /// The state after a successful call.
    pub open spec fn state_after_success(self) -> BreakerState {
        match self.state {
            BreakerState::Closed { failures, total_requests, .. } => BreakerState::Closed {
                failures,
                total_requests: (total_requests + 1) as u64,
                consecutive_failures: 0,
            },
            BreakerState::HalfOpen { .. } => fresh_closed(),
            BreakerState::Open { .. } => self.state,
        }
    }

    /// The state after a failed call at time `now`.
    pub open spec fn state_after_failure(self, now: u128) -> BreakerState {
        match self.state {
            BreakerState::Closed { failures, total_requests, consecutive_failures } => {
                let f = failures + 1;
                let t = total_requests + 1;
                let c = consecutive_failures + 1;
                if c >= self.consecutive_failure_threshold {
                    self.opened_at(now)
                } else if t >= self.min_requests_for_rate_calculation && rate_reached(
                    f as nat,
                    t as nat,
                    self.failure_rate_threshold,
                ) {
                    self.opened_at(now)
                } else {
                    BreakerState::Closed {
                        failures: f as u64,
                        total_requests: t as u64,
                        consecutive_failures: c as u32,
                    }
                }
            },
            BreakerState::HalfOpen { .. } => self.opened_at(now),
            BreakerState::Open { .. } => self.state,
        }
    }

    /// The settings are kept; only the state may change.
    pub open spec fn same_settings(self, other: CircuitBreaker) -> bool {
        &&& self.failure_rate_threshold == other.failure_rate_threshold
        &&& self.consecutive_failure_threshold == other.consecutive_failure_threshold
        &&& self.open_duration_nanos == other.open_duration_nanos
        &&& self.half_open_max_requests == other.half_open_max_requests
        &&& self.min_requests_for_rate_calculation == other.min_requests_for_rate_calculation
    }

    /// A closed breaker with every counter at zero.
    pub fn new(
        failure_rate_threshold: FailureRate,
        consecutive_failure_threshold: u32,
        open_duration_nanos: u64,
        half_open_max_requests: u32,
        min_requests_for_rate_calculation: u64,
    ) -> (r: CircuitBreaker)
        ensures
            r.failure_rate_threshold == failure_rate_threshold,
            r.consecutive_failure_threshold == consecutive_failure_threshold,
            r.open_duration_nanos == open_duration_nanos,
            r.half_open_max_requests == half_open_max_requests,
            r.min_requests_for_rate_calculation == min_requests_for_rate_calculation,
            r.state == fresh_closed(),
    {
        CircuitBreaker {
            failure_rate_threshold,
            consecutive_failure_threshold,
            open_duration_nanos,
            half_open_max_requests,
            min_requests_for_rate_calculation,
            state: BreakerState::Closed { failures: 0, total_requests: 0, consecutive_failures: 0 },
            started: instant_now(),
        }
    }

    /// Whether a call is allowed at time `now`; an open breaker whose cool-down
    /// is over turns half-open and allows it.
    pub fn is_call_allowed_at(&mut self, now: u128) -> (r: bool)
        ensures
            r == old(self).spec_allowed(now),
            final(self).state == old(self).state_after_check(now),
            final(self).same_settings(*old(self)),
    {
        match self.state {
            BreakerState::Closed { .. } => true,
            BreakerState::Open { opens_at } => {
                if now >= opens_at {
                    self.state = BreakerState::HalfOpen { success_probes: 0, total_probes: 0 };
                    true
                } else {
                    false
                }
            },
            BreakerState::HalfOpen { total_probes, .. } => total_probes < self.half_open_max_requests,
        }
    }

    /// Whether a call is allowed now, by the monotonic clock.
    pub fn is_call_allowed(&mut self) -> (r: bool)
        ensures
            exists|now: u128|
                r == old(self).spec_allowed(now) && final(self).state == old(
                    self,
                ).state_after_check(now),
            final(self).same_settings(*old(self)),
    {
        let now = nanos_since(&self.started);
        self.is_call_allowed_at(now)
    }

    /// Whether one more outcome can be counted: no counter is at its largest value.
    pub fn can_record(&self) -> (r: bool)
        ensures
            r == can_count(self.state),
    {
        match self.state {
            BreakerState::Closed { failures, total_requests, consecutive_failures } => failures
                < u64::MAX && total_requests < u64::MAX && consecutive_failures < u32::MAX,
            BreakerState::HalfOpen { success_probes, total_probes } => success_probes < u32::MAX
                && total_probes < u32::MAX,
            BreakerState::Open { .. } => true,
        }
    }

    /// Counts a successful call. A half-open breaker closes again.
    pub fn record_success(&mut self)
        requires
            can_count(old(self).state),
        ensures
            final(self).state == old(self).state_after_success(),
            final(self).same_settings(*old(self)),
    {
        match self.state {
            BreakerState::Closed { failures, total_requests, .. } => {
                self.state = BreakerState::Closed {
                    failures,
                    total_requests: total_requests + 1,
                    consecutive_failures: 0,
                };
            },
            BreakerState::HalfOpen { .. } => {
                self.reset_to_closed();
            },
            BreakerState::Open { .. } => {},
        }
    }

    /// Counts a failed call at time `now`. A closed breaker opens when the
    /// failures in a row, or the failure rate over enough requests, reach their
    /// thresholds; a half-open breaker opens again.
    pub fn record_failure_at(&mut self, now: u128)
        requires
            can_count(old(self).state),
            now <= MAX_CLOCK_NANOS,
        ensures
            final(self).state == old(self).state_after_failure(now),
            final(self).same_settings(*old(self)),
    {
        match self.state {
            BreakerState::Closed { failures, total_requests, consecutive_failures } => {
                let f = failures + 1;
                let t = total_requests + 1;
                let c = consecutive_failures + 1;
                if c >= self.consecutive_failure_threshold {
                    self.trip(now);
                    return ;
                }
                if t >= self.min_requests_for_rate_calculation {
                    let fd: u128 = f as u128;
                    let dd: u128 = self.failure_rate_threshold.denominator as u128;
                    let nd: u128 = self.failure_rate_threshold.numerator as u128;
                    let td: u128 = t as u128;
                    proof {
                        lemma_product_fits(fd, dd);
                        lemma_product_fits(nd, td);
                    }
                    let lhs: u128 = fd * dd;
                    let rhs: u128 = nd * td;
                    if lhs >= rhs {
                        self.trip(now);
                        return ;
                    }
                }
                self.state = BreakerState::Closed {
                    failures: f,
                    total_requests: t,
                    consecutive_failures: c,
                };
            },
            BreakerState::HalfOpen { .. } => {
                self.trip(now);
            },
            BreakerState::Open { .. } => {},
        }
    }

    /// Counts a failed call now, by the monotonic clock.
    pub fn record_failure(&mut self)
        requires
            can_count(old(self).state),
        ensures
            exists|now: u128| final(self).state == old(self).state_after_failure(now),
            final(self).same_settings(*old(self)),
    {
        let now = nanos_since(&self.started);
        self.record_failure_at(now)
    }

    /// Opens the breaker at time `now` for the cool-down duration.
    pub fn trip(&mut self, now: u128)
        requires
            now <= MAX_CLOCK_NANOS,
        ensures
            final(self).state == old(self).opened_at(now),
            final(self).same_settings(*old(self)),
    {
        self.state = BreakerState::Open { opens_at: now + self.open_duration_nanos as u128 };
    }

    /// Closes the breaker with every counter at zero.
    pub fn reset_to_closed(&mut self)
        ensures
            final(self).state == fresh_closed(),
            final(self).same_settings(*old(self)),
    {
        self.state = BreakerState::Closed { failures: 0, total_requests: 0, consecutive_failures: 0 };
    }

    /// The verdict on a request at time `now`: refused with status 503 and
    /// `Retry-After: 30` while calls are not allowed.
    pub fn check_request_at(&mut self, now: u128) -> (r: CheckResult)
        ensures
            final(self).state == old(self).state_after_check(now),
            final(self).same_settings(*old(self)),
            match r {
                CheckResult::Allowed => old(self).spec_allowed(now),
                CheckResult::Denied(d) => !old(self).spec_allowed(now) && d.status == 503
                    && d.body@ == "Service unavailable"@ && d.headers@ == seq![
                    ("retry-after"@, "30"@.map_values(|c: char| c as u8)),
                ],
            },
    {
        if self.is_call_allowed_at(now) {
            CheckResult::Allowed
        } else {
            let mut headers = HeaderList::new();
            let value: Vec<u8> = vec![51u8, 48u8];
            headers.append("retry-after", value.as_slice());
            proof {
                reveal_strlit("retry-after");
                reveal_strlit("30");
                reveal_strlit("Service unavailable");
                assert(crate::text::lower_text("retry-after"@) =~= "retry-after"@);
                assert(value@ =~= "30"@.map_values(|c: char| c as u8));
            }
            assert(headers@ =~= seq![("retry-after"@, "30"@.map_values(|c: char| c as u8))]);
            CheckResult::Denied(
                Denial { status: 503, headers, body: "Service unavailable".to_owned() },
            )
        }
    }

    /// Counts the outcome of a call at time `now`: a response with a success
    /// status is a success; an error or any other status is a failure.
    pub fn record_outcome_at(&mut self, status: Option<u16>, now: u128)
        requires
            can_count(old(self).state),
            now <= MAX_CLOCK_NANOS,
        ensures
            final(self).state == match status {
                Some(s) => if is_success_status(s) {
                    old(self).state_after_success()
                } else {
                    old(self).state_after_failure(now)
                },
                None => old(self).state_after_failure(now),
            },
            final(self).same_settings(*old(self)),
    {
        match status {
            Some(s) if 200 <= s && s <= 299 => self.record_success(),
            _ => self.record_failure_at(now),
        }
    }

    /// The verdict on a request now, by the monotonic clock.
    pub fn check_request(&mut self) -> (r: CheckResult)
        ensures
            exists|now: u128|
                final(self).state == old(self).state_after_check(now) && match r {
                    CheckResult::Allowed => old(self).spec_allowed(now),
                    CheckResult::Denied(d) => !old(self).spec_allowed(now) && d.status == 503
                        && d.body@ == "Service unavailable"@ && d.headers@ == seq![
                        ("retry-after"@, "30"@.map_values(|c: char| c as u8)),
                    ],
                },
            final(self).same_settings(*old(self)),
    {
        let now = nanos_since(&self.started);
        self.check_request_at(now)
    }

    /// Counts the outcome of a call now, by the monotonic clock.
    pub fn record_outcome(&mut self, status: Option<u16>)
        requires
            can_count(old(self).state),
        ensures
            exists|now: u128|
                final(self).state == match status {
                    Some(s) => if is_success_status(s) {
                        old(self).state_after_success()
                    } else {
                        old(self).state_after_failure(now)
                    },
                    None => old(self).state_after_failure(now),
                },
            final(self).same_settings(*old(self)),
    {
        let now = nanos_since(&self.started);
        self.record_outcome_at(status, now)
    }

    /// A readable description of the current state.
    pub fn state_info(&self) -> (r: String)
        ensures
            r@ == state_text(self.state),
    {
        match self.state {
            BreakerState::Closed { failures, total_requests, consecutive_failures } => {
                let a = concat("Closed { failures: ", u64_to_decimal(failures).as_str());
                let b = concat(a.as_str(), ", total_requests: ");
                let c = concat(b.as_str(), u64_to_decimal(total_requests).as_str());
                let d = concat(c.as_str(), ", consecutive_failures: ");
                let e = concat(d.as_str(), u64_to_decimal(consecutive_failures as u64).as_str());
                concat(e.as_str(), " }")
            },
            BreakerState::Open { opens_at } => {
                let a = concat("Open { opens_at: ", u128_to_decimal(opens_at).as_str());
                concat(a.as_str(), " }")
            },
            BreakerState::HalfOpen { success_probes, total_probes } => {
                let a = concat("HalfOpen { success_probes: ", u64_to_decimal(success_probes as u64).as_str());
                let b = concat(a.as_str(), ", total_probes: ");
                let c = concat(b.as_str(), u64_to_decimal(total_probes as u64).as_str());
                concat(c.as_str(), " }")
            },
        }
    }
}

/// The description of a state.
pub open spec fn state_text(s: BreakerState) -> Seq<char> {
    match s {
        BreakerState::Closed { failures, total_requests, consecutive_failures } =>
            "Closed { failures: "@ + decimal(failures as nat) + ", total_requests: "@ + decimal(
                total_requests as nat,
            ) + ", consecutive_failures: "@ + decimal(consecutive_failures as nat) + " }"@,
        BreakerState::Open { opens_at } => "Open { opens_at: "@ + decimal(opens_at as nat) + " }"@,
        BreakerState::HalfOpen { success_probes, total_probes } => "HalfOpen { success_probes: "@
            + decimal(success_probes as nat) + ", total_probes: "@ + decimal(total_probes as nat)
            + " }"@,
    }
}

/// The product of two numbers below 2^64 fits in 128 bits.
proof fn lemma_product_fits(a: u128, b: u128)
    requires
        a <= u64::MAX,
        b <= u64::MAX,
    ensures
        a * b <= u128::MAX,
{
    assert(a * b <= (u64::MAX as int) * (u64::MAX as int)) by (nonlinear_arith)
        requires
            a <= u64::MAX,
            b <= u64::MAX,
    ;
}

/// Decimal rendering of a 128-bit number.
fn u128_to_decimal(n: u128) -> (r: String)
    ensures
        r@ == decimal(n as nat),
    decreases n,
{
    if n < 10 {
        u64_to_decimal(n as u64)
    } else {
        let head = u128_to_decimal(n / 10);
        let last = u64_to_decimal((n % 10) as u64);
        proof {
            assert(decimal((n % 10) as nat) == seq![crate::text::digit_char((n % 10) as nat)]);
        }
        let r = concat(head.as_str(), last.as_str());
        assert(r@ =~= decimal((n / 10) as nat).push(crate::text::digit_char((n % 10) as nat)));
        r
    }
}

/// Counting keeps a closed breaker's counters consistent: consecutive
/// failures never exceed failures, which never exceed requests.
pub proof fn lemma_counts_stay_consistent(cb: CircuitBreaker, now: u128)
    requires
        counts_consistent(cb.state),
        can_count(cb.state),
    ensures
        counts_consistent(cb.state_after_success()),
        counts_consistent(cb.state_after_failure(now)),
        counts_consistent(cb.state_after_check(now)),
{
}

/// A failure while half-open, or the failure that completes a run of
/// `consecutive_failure_threshold` failures while closed, opens the breaker:
/// calls are refused until the cool-down has passed, and the first call after it
/// is allowed and turns the breaker half-open.
pub proof fn lemma_open_until_cooldown(cb: CircuitBreaker, failed_at: u128, now: u128)
    requires
        failed_at <= MAX_CLOCK_NANOS,
        match cb.state {
            BreakerState::HalfOpen { .. } => true,
            BreakerState::Closed { consecutive_failures, .. } => consecutive_failures + 1
                >= cb.consecutive_failure_threshold,
            BreakerState::Open { .. } => false,
        },
    ensures
        ({
            let opened = CircuitBreaker { state: cb.state_after_failure(failed_at), ..cb };
            &&& opened.state is Open
            &&& (now < failed_at + cb.open_duration_nanos ==> !opened.spec_allowed(now)
                && opened.state_after_check(now) == opened.state)
            &&& (now >= failed_at + cb.open_duration_nanos ==> opened.spec_allowed(now)
                && opened.state_after_check(now) == (BreakerState::HalfOpen {
                success_probes: 0,
                total_probes: 0,
            }))
        }),
{
}

/// A successful probe closes a half-open breaker with every counter at zero.
pub proof fn lemma_probe_success_closes(cb: CircuitBreaker)
    requires
        cb.state is HalfOpen,
    ensures
        cb.state_after_success() == fresh_closed(),
        (CircuitBreaker { state: cb.state_after_success(), ..cb }).spec_allowed(0),
{
}

/// A half-open breaker refuses calls once `half_open_max_requests` probes have been counted.
pub proof fn lemma_probe_limit(cb: CircuitBreaker, now: u128)
    requires
        cb.state matches BreakerState::HalfOpen { total_probes, .. } && total_probes
            >= cb.half_open_max_requests,
    ensures
        !cb.spec_allowed(now),
        cb.state_after_check(now) == cb.state,
{
}

/// A closed breaker allows every call and asking does not change it.
pub proof fn lemma_closed_allows(cb: CircuitBreaker, now: u128)
    requires
        cb.state is Closed,
    ensures
        cb.spec_allowed(now),
        cb.state_after_check(now) == cb.state,
{
}

/// A success while closed clears the run of failures and never opens the breaker.
pub proof fn lemma_success_clears_run(cb: CircuitBreaker)
    requires
        cb.state is Closed,
        can_count(cb.state),
    ensures
        cb.state_after_success() matches BreakerState::Closed { consecutive_failures, .. }
            && consecutive_failures == 0,
{
}

/// Whether a failure counted by a closed breaker opens it: it completes a run
/// of `consecutive_failure_threshold` failures, or, over at least
/// `min_requests_for_rate_calculation` requests, the failure rate reaches the threshold.
pub open spec fn failure_opens(cb: CircuitBreaker) -> bool {
    match cb.state {
        BreakerState::Closed { failures, total_requests, consecutive_failures } =>
            consecutive_failures + 1 >= cb.consecutive_failure_threshold || (total_requests + 1
                >= cb.min_requests_for_rate_calculation && rate_reached(
                (failures + 1) as nat,
                (total_requests + 1) as nat,
                cb.failure_rate_threshold,
            )),
        _ => false,
    }
}

/// A closed breaker opens on a failure exactly when that failure completes a
/// run of failures or brings the failure rate to the threshold; otherwise it
/// stays closed and counts the failure.
pub proof fn lemma_closed_failure_opens_iff(cb: CircuitBreaker, now: u128)
    requires
        cb.state is Closed,
        can_count(cb.state),
    ensures
        (cb.state_after_failure(now) is Open) == failure_opens(cb),
        !failure_opens(cb) ==> (cb.state_after_failure(now) matches BreakerState::Closed {
            failures,
            total_requests,
            consecutive_failures,
        } && failures == cb.state->failures + 1 && total_requests == cb.state->total_requests + 1
            && consecutive_failures == cb.state->consecutive_failures + 1),
{
}

} // verus!

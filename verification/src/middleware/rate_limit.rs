//! Rate limiting: a token bucket and a fixed-window counter, each applied to
//! the requests that its scope selects (one peer address, one header value, or
//! an IPv4 network).
//!
//! Time is a number of nanoseconds since the Unix epoch.
use vstd::prelude::*;

use crate::clock::{system_time_nanos, MAX_CLOCK_NANOS};
use crate::error::{app_error, AppError};
use crate::headers::{ascii_bytes, text_bytes, value_text, value_to_text, HeaderList};
use crate::middleware::check::{CheckResult, Denial};
use crate::net::{
    in_network, ip_text, ipv4_net_parse, ipv4_range_contains, ipv4_to_u32, ipv4_value,
    parse_ipv4_net, peer_ip_text, PeerAddr, PeerIp,
};
use crate::text::{
    lemma_decimal_injective,
    chars_equal, chars_of, concat, decimal, has_substring, i64_to_decimal, signed_decimal,
    str_contains, u64_to_decimal,
};

verus! {

/// How many (scope, window) counters a fixed-window limiter keeps.
pub const DEFAULT_FIXEDWINDOW_MAP_SIZE: usize = 3;

/// The latest time, in nanoseconds since the epoch, that the limiters handle:
/// the last millisecond whose window, a day at most, still ends within the
/// range of a `u64` count of milliseconds.
pub const MAX_TIME_NANOS: u128 = 18446744073623151615999999u128;

/// A scope that selects the requests of one peer address.
#[derive(Debug, Clone, PartialEq, Eq)]
pub struct IPBasedRatelimit {
    pub value: String,
}

/// A scope that selects the requests carrying one header value.
#[derive(Debug, Clone, PartialEq, Eq)]
pub struct HeaderBasedRatelimit {
    pub key: String,
    pub value: String,
}

/// A scope that selects the requests from an IPv4 network in CIDR notation.
#[derive(Debug, Clone, PartialEq, Eq)]
pub struct IpRangeBasedRatelimit {
    pub value: String,
}

/// The requests a limiter applies to.
#[derive(Debug, Clone, PartialEq, Eq)]
pub enum LimitLocation {
    IP(IPBasedRatelimit),
    Header(HeaderBasedRatelimit),
    Iprange(IpRangeBasedRatelimit),
}

/// The unit of a limiter's rate.
#[derive(Debug, Clone, Copy, PartialEq, Eq)]
pub enum TimeUnit {
    MillionSecond,
    Second,
    Minute,
    Hour,
    Day,
}

/// A token bucket: each selected request takes a token; tokens come back at
/// `rate_per_unit` per `unit`, up to `capacity`.
#[derive(Debug, Clone, PartialEq, Eq)]
pub struct TokenBucketRateLimit {
    pub rate_per_unit: i32,
    pub unit: TimeUnit,
    pub capacity: i32,
    pub scope: LimitLocation,
    pub current_count: i32,
    /// When tokens were last added, in nanoseconds since the epoch.
    pub last_update_time: u128,
}

/// A fixed-window counter: at most `rate_per_unit` selected requests per window of one `unit`.
#[derive(Debug, Clone, PartialEq, Eq)]
pub struct FixedWindowRateLimit {
    pub rate_per_unit: i32,
    pub unit: TimeUnit,
    pub scope: LimitLocation,
    /// Request counts by "scope key:window key".
    pub count_map: Vec<(String, i32)>,
}

/// A rate limiter of either kind.
#[derive(Debug, Clone, PartialEq, Eq)]
pub enum Ratelimit {
    TokenBucket(TokenBucketRateLimit),
    FixedWindow(FixedWindowRateLimit),
}

impl Default for LimitLocation {
    fn default() -> (r: Self)
        ensures
            r matches LimitLocation::IP(ip) && ip.value@ == Seq::<char>::empty(),
    {
        LimitLocation::IP(IPBasedRatelimit { value: String::new() })
    }
}

impl Default for TimeUnit {
    fn default() -> (r: Self)
        ensures
            r == TimeUnit::MillionSecond,
    {
        TimeUnit::MillionSecond
    }
}

/// The refill time taken from a clock reading: the reading itself, or the
/// epoch when there is none (a time before the epoch) or it lies beyond the
/// limiters' range.
pub open spec fn time_or_epoch(reading: Option<u128>) -> u128 {
    match reading {
        Some(n) => if n <= MAX_TIME_NANOS {
            n
        } else {
            0
        },
        None => 0,
    }
}

/// The time a token bucket counts its refills from when none is given: the
/// system clock now, or the epoch when the clock reads a time before it or
/// beyond the limiters' range.
pub fn default_time() -> (r: u128)
    ensures
        r <= MAX_TIME_NANOS,
        exists|reading: Option<u128>|
            (reading matches Some(n) ==> n <= MAX_CLOCK_NANOS) && r == #[trigger] time_or_epoch(
                reading,
            ),
{
    let reading = system_time_nanos();
    let r = match reading {
        Some(n) => if n <= MAX_TIME_NANOS {
            n
        } else {
            0
        },
        None => 0,
    };
    assert(r == time_or_epoch(reading));
    r
}

impl Default for TokenBucketRateLimit {
    fn default() -> (r: Self)
        ensures
            r.rate_per_unit == 0,
            r.unit == TimeUnit::MillionSecond,
            r.capacity == 0,
            r.scope matches LimitLocation::IP(ip) && ip.value@ == Seq::<char>::empty(),
            r.current_count == 0,
            r.last_update_time <= MAX_TIME_NANOS,
    {
        TokenBucketRateLimit {
            last_update_time: default_time(),
            rate_per_unit: 0,
            unit: TimeUnit::default(),
            capacity: 0,
            scope: LimitLocation::default(),
            current_count: 0,
        }
    }
}

/// The length of a unit in milliseconds.
pub open spec fn unit_millis(u: TimeUnit) -> nat {
    match u {
        TimeUnit::MillionSecond => 1,
        TimeUnit::Second => 1000,
        TimeUnit::Minute => 60000,
        TimeUnit::Hour => 3600000,
        TimeUnit::Day => 86400000,
    }
}

impl TimeUnit {
    /// The length of the unit in milliseconds.
    pub fn get_million_second(&self) -> (r: u128)
        ensures
            r == unit_millis(*self),
    {
        match self {
            TimeUnit::MillionSecond => 1,
            TimeUnit::Second => 1000,
            TimeUnit::Minute => 60000,
            TimeUnit::Hour => 3600000,
            TimeUnit::Day => 86400000,
        }
    }
}

/// The scope key of a header scope: `key:value`.
pub open spec fn header_scope_key(h: HeaderBasedRatelimit) -> Seq<char> {
    h.key@ + ":"@ + h.value@
}

/// The key under which a scope is counted.
pub open spec fn scope_key(l: LimitLocation) -> Seq<char> {
    match l {
        LimitLocation::Header(h) => header_scope_key(h),
        LimitLocation::IP(ip) => ip.value@,
        LimitLocation::Iprange(r) => r.value@,
    }
}

impl HeaderBasedRatelimit {
    /// `key:value`.
    pub fn get_key(&self) -> (r: String)
        ensures
            r@ == header_scope_key(*self),
    {
        let a = concat(self.key.as_str(), ":");
        concat(a.as_str(), self.value.as_str())
    }
}

impl LimitLocation {
    /// The key under which the scope is counted.
    pub fn get_key(&self) -> (r: String)
        ensures
            r@ == scope_key(*self),
    {
        match self {
            LimitLocation::Header(headers) => headers.get_key(),
            LimitLocation::IP(ip) => ip.value.clone(),
            LimitLocation::Iprange(ip_range) => ip_range.value.clone(),
        }
    }
}

/// The length of a window of one unit, in milliseconds.
pub fn get_window_size_ms(time_unit: TimeUnit) -> (r: u64)
    ensures
        r == unit_millis(time_unit),
{
    match time_unit {
        TimeUnit::MillionSecond => 1,
        TimeUnit::Second => 1000,
        TimeUnit::Minute => 60000,
        TimeUnit::Hour => 3600000,
        TimeUnit::Day => 86400000,
    }
}

/// A time in whole milliseconds since the epoch.
pub open spec fn millis_of(now: u128) -> nat {
    (now / 1000000) as nat
}

/// The start, in milliseconds since the epoch, of the window that holds `now`.
pub open spec fn window_start(u: TimeUnit, now: u128) -> nat {
    (millis_of(now) / unit_millis(u)) * unit_millis(u)
}

/// The key of the window that holds `now`: its start for millisecond windows,
/// its number otherwise.
pub open spec fn time_key(u: TimeUnit, now: u128) -> nat {
    match u {
        TimeUnit::MillionSecond => window_start(u, now),
        _ => window_start(u, now) / unit_millis(u),
    }
}

proof fn lemma_window_start_bounds(u: TimeUnit, now: u128)
    requires
        now <= MAX_TIME_NANOS,
    ensures
        window_start(u, now) <= millis_of(now),
        millis_of(now) <= 18446744073623151615,
{
    let m = millis_of(now);
    let w = unit_millis(u);
    assert((m / w) * w <= m) by (nonlinear_arith)
        requires
            w > 0,
    ;
}

/// The start of the window that holds `now`, in milliseconds since the epoch.
pub fn get_window_start_ms(time_unit: TimeUnit, now: u128) -> (r: u64)
    requires
        now <= MAX_TIME_NANOS,
    ensures
        r == window_start(time_unit, now),
{
    proof {
        lemma_window_start_bounds(time_unit, now);
    }
    let now_ms: u64 = (now / 1000000) as u64;
    let window_size = get_window_size_ms(time_unit);
    (now_ms / window_size) * window_size
}

/// The key of the window that holds `now`, in decimal.
pub fn get_time_key(time_unit: TimeUnit, now: u128) -> (r: String)
    requires
        now <= MAX_TIME_NANOS,
    ensures
        r@ == decimal(time_key(time_unit, now)),
{
    let start = get_window_start_ms(time_unit, now);
    let n = match time_unit {
        TimeUnit::MillionSecond => start,
        _ => start / get_window_size_ms(time_unit),
    };
    u64_to_decimal(n)
}

/// The message of a header value that is not visible ASCII.
pub open spec fn to_str_error() -> Seq<char> {
    "failed to convert header to a str"@
}

/// Whether a request from `peer` with `headers` falls in the scope, or the
/// message of the error that stops the check.
pub open spec fn spec_matched(scope: LimitLocation, headers: HeaderList, peer: PeerAddr) -> Result<
    bool,
    Seq<char>,
> {
    match scope {
        LimitLocation::IP(v) => Ok(v.value@ == ip_text(peer.ip)),
        LimitLocation::Header(h) => match headers.spec_get(h.key@) {
            None => Ok(false),
            Some(bytes) => match value_text(bytes) {
                None => Err(to_str_error()),
                Some(t) => Ok(t == h.value@),
            },
        },
        LimitLocation::Iprange(r) => if !has_substring(r.value@, "/"@) {
            Err("The Ip Range should contain '/'."@)
        } else {
            match ipv4_net_parse(r.value@) {
                None => Err("invalid IP address syntax"@),
                Some(net) => match peer.ip {
                    PeerIp::V4(a, b, c, d) => Ok(in_network(net.0, net.1, ipv4_value(a, b, c, d))),
                    PeerIp::V6(_) => Err("invalid IPv4 address syntax"@),
                },
            }
        },
    }
}

/// The result of a check as seen by a contract: the verdict, or the error message.
pub open spec fn result_view<T>(r: Result<T, AppError>) -> Result<T, Seq<char>> {
    match r {
        Ok(v) => Ok(v),
        Err(e) => Err(e.0@),
    }
}

/// Whether a request from `peer` with `headers` falls in the scope.
pub fn matched(limit_location: &LimitLocation, headers: &HeaderList, peer_addr: &PeerAddr) -> (r:
    Result<bool, AppError>)
    ensures
        result_view(r) == spec_matched(*limit_location, *headers, *peer_addr),
{
    match limit_location {
        LimitLocation::IP(ip_based_ratelimit) => {
            let remote_ip = peer_ip_text(&peer_addr.ip);
            let a = chars_of(ip_based_ratelimit.value.as_str());
            let b = chars_of(remote_ip.as_str());
            Ok(chars_equal(a.as_slice(), b.as_slice()))
        },
        LimitLocation::Header(header_based_ratelimit) => {
            match headers.get(header_based_ratelimit.key.as_str()) {
                None => Ok(false),
                Some(v) => match value_to_text(v.as_slice()) {
                    None => Err(app_error("failed to convert header to a str")),
                    Some(t) => {
                        let a = chars_of(t.as_str());
                        let b = chars_of(header_based_ratelimit.value.as_str());
                        Ok(chars_equal(a.as_slice(), b.as_slice()))
                    },
                },
            }
        },
        LimitLocation::Iprange(ip_range_based_ratelimit) => {
            if !str_contains(ip_range_based_ratelimit.value.as_str(), "/") {
                return Err(app_error("The Ip Range should contain '/'."));
            }
            match parse_ipv4_net(ip_range_based_ratelimit.value.as_str()) {
                None => Err(app_error("invalid IP address syntax")),
                Some(net) => match &peer_addr.ip {
                    PeerIp::V4(a, b, c, d) => {
                        let ip = ipv4_to_u32(*a, *b, *c, *d);
                        Ok(ipv4_range_contains(net.0, net.1, ip))
                    },
                    PeerIp::V6(_) => Err(app_error("invalid IPv4 address syntax")),
                },
            }
        },
    }
}

/// The four headers of a refusal: the limit, no remaining request, the reset
/// time and the seconds to wait, each in decimal.
pub open spec fn limit_headers(limit: Seq<char>, reset: nat, retry_after: nat) -> Seq<
    (Seq<char>, Seq<u8>),
> {
    seq![
        ("x-ratelimit-limit"@, ascii_bytes(limit)),
        ("x-ratelimit-remaining"@, ascii_bytes("0"@)),
        ("x-ratelimit-reset"@, ascii_bytes(decimal(reset))),
        ("retry-after"@, ascii_bytes(decimal(retry_after))),
    ]
}

/// Builds the four headers of a refusal.
fn build_limit_headers(limit: &str, reset: u64, retry_after: u64) -> (r: HeaderList)
    ensures
        r@ == limit_headers(limit@, reset as nat, retry_after as nat),
{
    let mut h = HeaderList::new();
    let l = text_bytes(limit);
    h.append("x-ratelimit-limit", l.as_slice());
    let z = text_bytes("0");
    h.append("x-ratelimit-remaining", z.as_slice());
    let rs = u64_to_decimal(reset);
    let rsb = text_bytes(rs.as_str());
    h.append("x-ratelimit-reset", rsb.as_slice());
    let ra = u64_to_decimal(retry_after);
    let rab = text_bytes(ra.as_str());
    h.append("retry-after", rab.as_slice());
    proof {
        reveal_strlit("x-ratelimit-limit");
        reveal_strlit("x-ratelimit-remaining");
        reveal_strlit("x-ratelimit-reset");
        reveal_strlit("retry-after");
        assert(crate::text::lower_text("x-ratelimit-limit"@) =~= "x-ratelimit-limit"@);
        assert(crate::text::lower_text("x-ratelimit-remaining"@) =~= "x-ratelimit-remaining"@);
        assert(crate::text::lower_text("x-ratelimit-reset"@) =~= "x-ratelimit-reset"@);
        assert(crate::text::lower_text("retry-after"@) =~= "retry-after"@);
    }
    assert(h@ =~= limit_headers(limit@, reset as nat, retry_after as nat));
    h
}

/// The message of a clock reading earlier than the last refill.
pub open spec fn clock_error() -> Seq<char> {
    "second time provided was later than self"@
}

impl TokenBucketRateLimit {
    /// The bucket can answer a request: its rate is positive, or the rate is
    /// zero and a token is left (a refusal states the time one token takes,
    /// which a zero rate does not have).
    pub open spec fn can_answer(self) -> bool {
        self.rate_per_unit > 0 || (self.rate_per_unit == 0 && self.current_count > 0)
    }

    /// The settings and scope are kept; only the count and refill time may change.
    pub open spec fn same_settings(self, other: TokenBucketRateLimit) -> bool {
        &&& self.rate_per_unit == other.rate_per_unit
        &&& self.unit == other.unit
        &&& self.capacity == other.capacity
        &&& self.scope == other.scope
    }

    /// The tokens earned between the last refill and `now`.
    pub open spec fn earned(self, now: u128) -> nat {
        (millis_of((now - self.last_update_time) as u128) * self.rate_per_unit as nat / unit_millis(
            self.unit,
        )) as nat
    }

    /// The count after adding the tokens earned by `now`, capped at the capacity.
    pub open spec fn refilled_count(self, now: u128) -> int {
        let t = self.earned(now);
        if t > 0 {
            if self.current_count + t <= self.capacity {
                self.current_count + t
            } else {
                self.capacity as int
            }
        } else {
            self.current_count as int
        }
    }

    /// The refill time after adding the tokens earned by `now`.
    pub open spec fn refilled_time(self, now: u128) -> u128 {
        if self.earned(now) > 0 {
            now
        } else {
            self.last_update_time
        }
    }

    /// The milliseconds it takes to earn one token.
    pub open spec fn millis_per_token(self) -> nat {
        unit_millis(self.unit) / (self.rate_per_unit as nat)
    }

    /// The headers of a refusal at `now`.
    pub open spec fn refusal_headers(self, now: u128) -> Seq<(Seq<char>, Seq<u8>)> {
        let m = self.millis_per_token();
        limit_headers(
            signed_decimal(self.capacity as int),
            ((self.refilled_time(now) + m * 1000000) / 1000000000) as nat,
            ((m + 999) / 1000) as nat,
        )
    }

    /// Whether a request from `peer` with `headers` is over the limit at `now`.
    /// A selected request takes a token when one is left; otherwise it is refused
    /// with the limit headers.
    pub fn should_limit_at(&mut self, headers: &HeaderList, peer_addr: &PeerAddr, now: u128) -> (r:
        Result<Option<HeaderList>, AppError>)
        requires
            old(self).can_answer(),
            now <= MAX_TIME_NANOS,
            old(self).last_update_time <= MAX_TIME_NANOS,
        ensures
            final(self).same_settings(*old(self)),
            final(self).last_update_time <= MAX_TIME_NANOS,
            match spec_matched(old(self).scope, *headers, *peer_addr) {
                Err(msg) => result_view(r) == Err::<Option<HeaderList>, Seq<char>>(msg)
                    && *final(self) == *old(self),
                Ok(false) => r matches Ok(None) && *final(self) == *old(self),
                Ok(true) => if now < old(self).last_update_time {
                    result_view(r) == Err::<Option<HeaderList>, Seq<char>>(clock_error())
                        && *final(self) == *old(self)
                } else {
                    &&& final(self).last_update_time == old(self).refilled_time(now)
                    &&& if old(self).refilled_count(now) > 0 {
                        r matches Ok(None) && final(self).current_count == old(self).refilled_count(now) - 1
                    } else {
                        r matches Ok(Some(h)) && h@ == old(self).refusal_headers(now)
                            && final(self).current_count == old(self).refilled_count(now)
                    }
                },
            },
    {
        let m = matched(&self.scope, headers, peer_addr);
        match m {
            Err(e) => {
                return Err(e);
            },
            Ok(false) => {
                return Ok(None);
            },
            Ok(true) => {},
        }
        if now < self.last_update_time {
            return Err(app_error("second time provided was later than self"));
        }
        let elapsed_millis: u128 = (now - self.last_update_time) / 1000000;
        let rate: u128 = self.rate_per_unit as u128;
        let unit_ms = self.unit.get_million_second();
        proof {
            assert(elapsed_millis * rate <= 18446744073623151615u128 * 2147483647u128) by (nonlinear_arith)
                requires
                    elapsed_millis <= 18446744073623151615u128,
                    rate <= 2147483647u128,
            ;
        }
        let tokens_to_add: u128 = (elapsed_millis * rate) / unit_ms;
        if tokens_to_add > 0 {
            let cap: i64 = self.capacity as i64;
            let room: i64 = cap - self.current_count as i64;
            if (tokens_to_add as i128) <= room as i128 {
                self.current_count = (self.current_count as i64 + tokens_to_add as i64) as i32;
            } else {
                self.current_count = self.capacity;
            }
            self.last_update_time = now;
        }
        if self.current_count > 0 {
            self.current_count = self.current_count - 1;
            Ok(None)
        } else {
            let millis_for_one_token: u128 = unit_ms / rate;
            let retry_after_seconds: u64 = ((millis_for_one_token + 999) / 1000) as u64;
            let reset_timestamp: u64 = ((self.last_update_time + millis_for_one_token * 1000000)
                / 1000000000) as u64;
            let limit = i64_to_decimal(self.capacity as i64);
            let h = build_limit_headers(limit.as_str(), reset_timestamp, retry_after_seconds);
            Ok(Some(h))
        }
    }
}

/// The count stored under `key`, or zero.
pub open spec fn count_of(m: Seq<(Seq<char>, i32)>, key: Seq<char>) -> int {
    if exists|i: int| 0 <= i < m.len() && #[trigger] m[i].0 == key {
        m[choose|i: int| 0 <= i < m.len() && #[trigger] m[i].0 == key].1 as int
    } else {
        0
    }
}

/// The counts after one more request under `key`.
pub open spec fn bump(m: Seq<(Seq<char>, i32)>, key: Seq<char>) -> Seq<(Seq<char>, i32)> {
    if exists|i: int| 0 <= i < m.len() && #[trigger] m[i].0 == key {
        let i = choose|i: int| 0 <= i < m.len() && #[trigger] m[i].0 == key;
        m.update(i, (key, (m[i].1 + 1) as i32))
    } else {
        m.push((key, 1i32))
    }
}

/// No key occurs twice, and every count is positive.
pub open spec fn counts_wf(m: Seq<(Seq<char>, i32)>) -> bool {
    &&& forall|i: int, j: int| 0 <= i < j < m.len() ==> #[trigger] m[i].0 != #[trigger] m[j].0
    &&& forall|i: int| 0 <= i < m.len() ==> 0 < #[trigger] m[i].1
}

/// The counts left to make room before counting: at the capacity, the first entry goes.
pub open spec fn make_room(m: Seq<(Seq<char>, i32)>) -> Seq<(Seq<char>, i32)> {
    if m.len() >= DEFAULT_FIXEDWINDOW_MAP_SIZE {
        m.drop_first()
    } else {
        m
    }
}

impl FixedWindowRateLimit {
    /// The counts as text keys.
    pub open spec fn counts(self) -> Seq<(Seq<char>, i32)> {
        self.count_map@.map_values(|e: (String, i32)| (e.0@, e.1))
    }

    /// The key counted for a request at `now`: "scope key:window key".
    pub open spec fn key_at(self, now: u128) -> Seq<char> {
        scope_key(self.scope) + ":"@ + decimal(time_key(self.unit, now))
    }

    /// The counter that a request at `now` increases is below its largest value.
    pub open spec fn can_count_at(self, now: u128) -> bool {
        count_of(make_room(self.counts()), self.key_at(now)) < i32::MAX
    }

    /// The headers of a refusal at `now`.
    pub open spec fn refusal_headers(self, now: u128) -> Seq<(Seq<char>, Seq<u8>)> {
        let reset = (window_start(self.unit, now) + unit_millis(self.unit)) / 1000;
        let now_secs = now / 1000000000;
        let wait = if reset > now_secs {
            (reset - now_secs) as nat
        } else {
            0
        };
        limit_headers(
            decimal((self.rate_per_unit as u64) as nat),
            reset as nat,
            if wait > 1 {
                wait
            } else {
                1
            },
        )
    }

    /// Whether a request from `peer` with `headers` is over the limit at `now`.
    /// A selected request is counted in its window; once the count passes the
    /// rate it is refused with the limit headers.
    pub fn should_limit_at(&mut self, headers: &HeaderList, peer_addr: &PeerAddr, now: u128) -> (r:
        Result<Option<HeaderList>, AppError>)
        requires
            now <= MAX_TIME_NANOS,
            counts_wf(old(self).counts()),
            old(self).can_count_at(now),
        ensures
            final(self).rate_per_unit == old(self).rate_per_unit,
            final(self).unit == old(self).unit,
            final(self).scope == old(self).scope,
            counts_wf(final(self).counts()),
            match spec_matched(old(self).scope, *headers, *peer_addr) {
                Err(msg) => result_view(r) == Err::<Option<HeaderList>, Seq<char>>(msg)
                    && final(self).counts() == old(self).counts(),
                Ok(false) => r matches Ok(None) && final(self).counts() == old(self).counts(),
                Ok(true) => {
                    let key = old(self).key_at(now);
                    let room = make_room(old(self).counts());
                    &&& final(self).counts() == bump(room, key)
                    &&& if count_of(room, key) + 1 <= old(self).rate_per_unit {
                        r matches Ok(None)
                    } else {
                        r matches Ok(Some(h)) && h@ == old(self).refusal_headers(now)
                    }
                },
            },
    {
        let m = matched(&self.scope, headers, peer_addr);
        match m {
            Err(e) => {
                return Err(e);
            },
            Ok(false) => {
                return Ok(None);
            },
            Ok(true) => {},
        }
        let time_key = get_time_key(self.unit, now);
        let location_key = self.scope.get_key();
        let k1 = concat(location_key.as_str(), ":");
        let key = concat(k1.as_str(), time_key.as_str());
        let ghost before = self.counts();
        if self.count_map.len() >= DEFAULT_FIXEDWINDOW_MAP_SIZE {
            self.count_map.remove(0);
            assert(self.counts() =~= before.drop_first());
        }
        let ghost room = self.counts();
        assert(room == make_room(before));
        let count = self.bump_key(&key);
        if count <= self.rate_per_unit {
            Ok(None)
        } else {
            proof {
                lemma_window_start_bounds(self.unit, now);
            }
            let window_start_ms = get_window_start_ms(self.unit, now);
            let window_size_ms = get_window_size_ms(self.unit);
            let reset_timestamp_ms = window_start_ms + window_size_ms;
            let reset_timestamp_secs = reset_timestamp_ms / 1000;
            let now_secs: u64 = (now / 1000000000) as u64;
            let diff = if reset_timestamp_secs > now_secs {
                reset_timestamp_secs - now_secs
            } else {
                0
            };
            let retry_after_seconds = if diff > 1 {
                diff
            } else {
                1
            };
            let limit = u64_to_decimal(self.rate_per_unit as u64);
            let h = build_limit_headers(limit.as_str(), reset_timestamp_secs, retry_after_seconds);
            Ok(Some(h))
        }
    }

    /// Counts one more request under `key` and returns the new count.
    fn bump_key(&mut self, key: &String) -> (r: i32)
        requires
            counts_wf(old(self).counts()),
            count_of(old(self).counts(), key@) < i32::MAX,
        ensures
            final(self).rate_per_unit == old(self).rate_per_unit,
            final(self).unit == old(self).unit,
            final(self).scope == old(self).scope,
            final(self).counts() == bump(old(self).counts(), key@),
            r == count_of(old(self).counts(), key@) + 1,
            counts_wf(final(self).counts()),
    {
        let ghost m = self.counts();
        let kc = chars_of(key.as_str());
        let mut i: usize = 0;
        while i < self.count_map.len()
            invariant
                i <= self.count_map@.len(),
                m == self.counts(),
                m == old(self).counts(),
                counts_wf(m),
                count_of(m, key@) < i32::MAX,
                self.rate_per_unit == old(self).rate_per_unit,
                self.unit == old(self).unit,
                self.scope == old(self).scope,
                m.len() == self.count_map@.len(),
                kc@ == key@,
                forall|j: int| 0 <= j < i ==> m[j].0 != key@,
            decreases self.count_map@.len() - i,
        {
            let nc = chars_of(self.count_map[i].0.as_str());
            assert(m[i as int].0 == self.count_map@[i as int].0@);
            if chars_equal(nc.as_slice(), kc.as_slice()) {
                let c = self.count_map[i].1;
                assert(c == m[i as int].1);
                proof {
                    assert forall|j: int| 0 <= j < m.len() && m[j].0 == key@ implies j == i by {
                        if j != i {
                            if j < i {
                            } else {
                                assert(m[i as int].0 != m[j].0);
                            }
                        }
                    }
                    let w = choose|j: int| 0 <= j < m.len() && #[trigger] m[j].0 == key@;
                    assert(w == i);
                }
                assert(0 < c < i32::MAX);
                let name = self.count_map[i].0.clone();
                self.count_map.set(i, (name, c + 1));
                assert(self.counts() =~= m.update(i as int, (key@, (c + 1) as i32)));
                proof {
                    assert(m[i as int].0 == key@);
                    assert forall|a: int, b: int| 0 <= a < b < self.counts().len() implies #[trigger] self.counts()[a].0
                        != #[trigger] self.counts()[b].0 by {
                        assert(m[a].0 != m[b].0);
                    }
                }
                return c + 1;
            }
            i = i + 1;
        }
        let name = key.clone();
        self.count_map.push((name, 1));
        assert(self.counts() =~= m.push((key@, 1i32)));
        proof {
            assert(!(exists|j: int| 0 <= j < m.len() && #[trigger] m[j].0 == key@));
        }
        1
    }
}

/// What a limiter answers, as seen by a contract: the refusal headers (if any), or the error message.
pub open spec fn limit_view(r: Result<Option<HeaderList>, AppError>) -> Result<
    Option<Seq<(Seq<char>, Seq<u8>)>>,
    Seq<char>,
> {
    match r {
        Ok(None) => Ok(None),
        Ok(Some(h)) => Ok(Some(h@)),
        Err(e) => Err(e.0@),
    }
}

impl Ratelimit {
    /// The answer to a request from `peer` with `headers` at `now`.
    pub open spec fn outcome(self, headers: HeaderList, peer: PeerAddr, now: u128) -> Result<
        Option<Seq<(Seq<char>, Seq<u8>)>>,
        Seq<char>,
    > {
        match self {
            Ratelimit::TokenBucket(tb) => match spec_matched(tb.scope, headers, peer) {
                Err(msg) => Err(msg),
                Ok(false) => Ok(None),
                Ok(true) => if now < tb.last_update_time {
                    Err(clock_error())
                } else if tb.refilled_count(now) > 0 {
                    Ok(None)
                } else {
                    Ok(Some(tb.refusal_headers(now)))
                },
            },
            Ratelimit::FixedWindow(fw) => match spec_matched(fw.scope, headers, peer) {
                Err(msg) => Err(msg),
                Ok(false) => Ok(None),
                Ok(true) => if count_of(make_room(fw.counts()), fw.key_at(now)) + 1
                    <= fw.rate_per_unit {
                    Ok(None)
                } else {
                    Ok(Some(fw.refusal_headers(now)))
                },
            },
        }
    }
}

impl Ratelimit {
    /// Whether a request from `peer` with `headers` is over the limit at `now`:
    /// `None` lets it through, `Some` holds the headers of the refusal.
    pub fn should_limit_at(&mut self, headers: &HeaderList, peer_addr: &PeerAddr, now: u128) -> (r:
        Result<Option<HeaderList>, AppError>)
        requires
            now <= MAX_TIME_NANOS,
            match *old(self) {
                Ratelimit::TokenBucket(tb) => tb.can_answer() && tb.last_update_time
                    <= MAX_TIME_NANOS,
                Ratelimit::FixedWindow(fw) => counts_wf(fw.counts()) && fw.can_count_at(now),
            },
        ensures
            limit_view(r) == old(self).outcome(*headers, *peer_addr, now),
            match (*old(self), *final(self)) {
                (Ratelimit::TokenBucket(a), Ratelimit::TokenBucket(b)) => b.same_settings(a)
                    && b.last_update_time <= MAX_TIME_NANOS,
                (Ratelimit::FixedWindow(a), Ratelimit::FixedWindow(b)) => b.rate_per_unit
                    == a.rate_per_unit && b.unit == a.unit && b.scope == a.scope && counts_wf(
                    b.counts(),
                ),
                _ => false,
            },
    {
        match self {
            Ratelimit::TokenBucket(tb) => tb.should_limit_at(headers, peer_addr, now),
            Ratelimit::FixedWindow(fw) => fw.should_limit_at(headers, peer_addr, now),
        }
    }
}

/// Every count is below its largest value.
pub open spec fn all_below_max(m: Seq<(Seq<char>, i32)>) -> bool {
    forall|i: int| 0 <= i < m.len() ==> #[trigger] m[i].1 < i32::MAX
}

proof fn lemma_below_max_can_count(fw: FixedWindowRateLimit, now: u128)
    requires
        all_below_max(fw.counts()),
    ensures
        fw.can_count_at(now),
{
    let m = fw.counts();
    let r = make_room(m);
    let k = fw.key_at(now);
    if exists|i: int| 0 <= i < r.len() && #[trigger] r[i].0 == k {
        let i = choose|i: int| 0 <= i < r.len() && #[trigger] r[i].0 == k;
        if m.len() >= DEFAULT_FIXEDWINDOW_MAP_SIZE {
            assert(r[i] == m[i + 1]);
        } else {
            assert(r[i] == m[i]);
        }
    }
}

/// The message of a clock reading beyond the limiters' range.
pub open spec fn clock_range_error() -> Seq<char> {
    "system clock out of range"@
}

/// What a limiter reads from a clock reading: the time, or the error of a
/// reading before the epoch or beyond the limiters' range.
pub open spec fn limiter_time_of(reading: Option<u128>) -> Result<u128, Seq<char>> {
    match reading {
        None => Err(clock_error()),
        Some(n) => if n > MAX_TIME_NANOS {
            Err(clock_range_error())
        } else {
            Ok(n)
        },
    }
}

/// The time a limiter reads from a clock reading (`None` for a time before the
/// epoch), or the error that stops it.
pub fn limiter_time(reading: Option<u128>) -> (r: Result<u128, AppError>)
    ensures
        result_view(r) == limiter_time_of(reading),
{
    match reading {
        None => Err(app_error("second time provided was later than self")),
        Some(n) => if n > MAX_TIME_NANOS {
            Err(app_error("system clock out of range"))
        } else {
            Ok(n)
        },
    }
}

/// The time on the system clock, or the error that stops a limiter.
fn limiter_now() -> (r: Result<u128, AppError>)
    ensures
        exists|reading: Option<u128>|
            (reading matches Some(n) ==> n <= MAX_CLOCK_NANOS) && result_view(r)
                == #[trigger] limiter_time_of(reading),
        r matches Ok(n) ==> n <= MAX_TIME_NANOS,
        r matches Err(e) ==> e.0@ == clock_error() || e.0@ == clock_range_error(),
{
    let reading = system_time_nanos();
    limiter_time(reading)
}

/// Whether no key occurs twice and every count is positive and below its largest value.
fn counts_ready(map: &Vec<(String, i32)>) -> (r: bool)
    ensures
        r == (counts_wf(map@.map_values(|e: (String, i32)| (e.0@, e.1))) && all_below_max(
            map@.map_values(|e: (String, i32)| (e.0@, e.1)),
        )),
{
    let ghost m = map@.map_values(|e: (String, i32)| (e.0@, e.1));
    let mut i: usize = 0;
    while i < map.len()
        invariant
            i <= map@.len(),
            m.len() == map@.len(),
            m == map@.map_values(|e: (String, i32)| (e.0@, e.1)),
            forall|a: int| 0 <= a < i ==> 0 < #[trigger] m[a].1 < i32::MAX,
            forall|a: int, b: int| 0 <= a < b < m.len() && a < i ==> #[trigger] m[a].0 != #[trigger] m[b].0,
        decreases map@.len() - i,
    {
        let c = map[i].1;
        assert(m[i as int].1 == c);
        if c <= 0 || c == i32::MAX {
            return false;
        }
        let ki = chars_of(map[i].0.as_str());
        let mut j: usize = i + 1;
        while j < map.len()
            invariant
                i < j <= map@.len(),
                m.len() == map@.len(),
                m == map@.map_values(|e: (String, i32)| (e.0@, e.1)),
                ki@ == m[i as int].0,
                forall|b: int| i < b < j ==> m[i as int].0 != #[trigger] m[b].0,
            decreases map@.len() - j,
        {
            let kj = chars_of(map[j].0.as_str());
            assert(m[j as int].0 == map@[j as int].0@);
            if chars_equal(ki.as_slice(), kj.as_slice()) {
                return false;
            }
            j = j + 1;
        }
        i = i + 1;
    }
    true
}

impl Ratelimit {
    /// The limiter may take one more request at any time.
    pub open spec fn ready(self) -> bool {
        match self {
            Ratelimit::TokenBucket(tb) => tb.can_answer() && tb.last_update_time <= MAX_TIME_NANOS,
            Ratelimit::FixedWindow(fw) => counts_wf(fw.counts()) && all_below_max(fw.counts()),
        }
    }

    /// Whether the limiter may take one more request at any time.
    pub fn is_ready(&self) -> (r: bool)
        ensures
            r == self.ready(),
    {
        match self {
            Ratelimit::TokenBucket(tb) => (tb.rate_per_unit > 0 || (tb.rate_per_unit == 0
                && tb.current_count > 0)) && tb.last_update_time <= MAX_TIME_NANOS,
            Ratelimit::FixedWindow(fw) => counts_ready(&fw.count_map),
        }
    }

    /// The scope of the requests that the limiter counts.
    pub open spec fn limit_scope(self) -> LimitLocation {
        match self {
            Ratelimit::TokenBucket(tb) => tb.scope,
            Ratelimit::FixedWindow(fw) => fw.scope,
        }
    }

    /// The scope of the requests that the limiter counts.
    pub fn scope(&self) -> (r: &LimitLocation)
        ensures
            *r == self.limit_scope(),
    {
        match self {
            Ratelimit::TokenBucket(tb) => &tb.scope,
            Ratelimit::FixedWindow(fw) => &fw.scope,
        }
    }

    /// Whether a request from `peer` with `headers` is over the limit now, by the
    /// system clock. The scope is matched first: a request outside it, or one
    /// whose scope cannot be read, is answered before the clock is read.
    pub fn should_limit(&mut self, headers: &HeaderList, peer_addr: &PeerAddr) -> (r: Result<
        Option<HeaderList>,
        AppError,
    >)
        requires
            old(self).ready(),
        ensures
            match spec_matched(old(self).limit_scope(), *headers, *peer_addr) {
                Err(msg) => limit_view(r) == Err::<Option<Seq<(Seq<char>, Seq<u8>)>>, Seq<char>>(
                    msg,
                ) && *final(self) == *old(self),
                Ok(false) => r matches Ok(None) && *final(self) == *old(self),
                Ok(true) => true,
            },
            (r matches Err(e) && (e.0@ == clock_error() || e.0@ == clock_range_error())
                && *final(self) == *old(self)) || exists|now: u128|
                now <= MAX_TIME_NANOS && limit_view(r) == #[trigger] old(self).outcome(
                    *headers,
                    *peer_addr,
                    now,
                ),
            match (*old(self), *final(self)) {
                (Ratelimit::TokenBucket(a), Ratelimit::TokenBucket(b)) => b.same_settings(a)
                    && b.last_update_time <= MAX_TIME_NANOS,
                (Ratelimit::FixedWindow(a), Ratelimit::FixedWindow(b)) => b.rate_per_unit
                    == a.rate_per_unit && b.unit == a.unit && b.scope == a.scope && counts_wf(
                    b.counts(),
                ),
                _ => false,
            },
    {
        match matched(self.scope(), headers, peer_addr) {
            Err(e) => {
                assert(limit_view(Err(e)) == self.outcome(*headers, *peer_addr, 0));
                return Err(e);
            },
            Ok(false) => {
                assert(limit_view(Ok(None)) == self.outcome(*headers, *peer_addr, 0));
                return Ok(None);
            },
            Ok(true) => {},
        }
        let now = match limiter_now() {
            Ok(n) => n,
            Err(e) => {
                return Err(e);
            },
        };
        let ghost cur = *self;
        proof {
            match cur {
                Ratelimit::FixedWindow(fw) => lemma_below_max_can_count(fw, now),
                _ => {},
            }
        }
        self.should_limit_at(headers, peer_addr, now)
    }

    /// The verdict on a request now, by the system clock: refused with status
    /// 429, the limit headers and "API rate limit exceeded" when it is over the
    /// limit. Without headers the request is let through unchecked; a request
    /// outside the scope, or one whose scope cannot be read, is answered before
    /// the clock is read.
    pub fn check_request(&mut self, peer_addr: &PeerAddr, headers_option: Option<&HeaderList>) -> (r:
        Result<CheckResult, AppError>)
        requires
            old(self).ready(),
        ensures
            headers_option matches Some(h) ==> match spec_matched(
                old(self).limit_scope(),
                *h,
                *peer_addr,
            ) {
                Err(msg) => r matches Err(e) && e.0@ == msg && *final(self) == *old(self),
                Ok(false) => r matches Ok(CheckResult::Allowed) && *final(self) == *old(self),
                Ok(true) => true,
            },
            match headers_option {
                None => (r matches Ok(CheckResult::Allowed)) && *final(self) == *old(self),
                Some(h) => (r matches Err(e) && (e.0@ == clock_error() || e.0@
                    == clock_range_error())) || exists|now: u128|
                    now <= MAX_TIME_NANOS && match #[trigger] old(self).outcome(*h, *peer_addr, now) {
                        Err(msg) => r matches Err(e) && e.0@ == msg,
                        Ok(None) => r matches Ok(CheckResult::Allowed),
                        Ok(Some(hs)) => r matches Ok(CheckResult::Denied(d)) && d.status == 429
                            && d.headers@ == hs && d.body@ == "API rate limit exceeded"@,
                    },
            },
    {
        match headers_option {
            None => Ok(CheckResult::Allowed),
            Some(header_map) => {
                match matched(self.scope(), header_map, peer_addr) {
                    Err(e) => {
                        assert(self.outcome(*header_map, *peer_addr, 0) == Err::<
                            Option<Seq<(Seq<char>, Seq<u8>)>>,
                            Seq<char>,
                        >(e.0@));
                        return Err(e);
                    },
                    Ok(false) => {
                        assert(self.outcome(*header_map, *peer_addr, 0) == Ok::<
                            Option<Seq<(Seq<char>, Seq<u8>)>>,
                            Seq<char>,
                        >(None));
                        return Ok(CheckResult::Allowed);
                    },
                    Ok(true) => {},
                }
                let now = match limiter_now() {
                    Ok(n) => n,
                    Err(e) => {
                        return Err(e);
                    },
                };
                let ghost cur = *self;
                proof {
                    match cur {
                        Ratelimit::FixedWindow(fw) => lemma_below_max_can_count(fw, now),
                        _ => {},
                    }
                }
                self.check_request_at(peer_addr, headers_option, now)
            },
        }
    }

    /// The verdict on a request at `now`: refused with status 429, the limit
    /// headers and "API rate limit exceeded" when it is over the limit.
    /// Without headers the request is let through unchecked.
    pub fn check_request_at(
        &mut self,
        peer_addr: &PeerAddr,
        headers_option: Option<&HeaderList>,
        now: u128,
    ) -> (r: Result<CheckResult, AppError>)
        requires
            now <= MAX_TIME_NANOS,
            match *old(self) {
                Ratelimit::TokenBucket(tb) => tb.can_answer() && tb.last_update_time
                    <= MAX_TIME_NANOS,
                Ratelimit::FixedWindow(fw) => counts_wf(fw.counts()) && fw.can_count_at(now),
            },
        ensures
            match headers_option {
                None => (r matches Ok(CheckResult::Allowed)) && *final(self) == *old(self),
                Some(h) => match old(self).outcome(*h, *peer_addr, now) {
                    Err(msg) => r matches Err(e) && e.0@ == msg,
                    Ok(None) => r matches Ok(CheckResult::Allowed),
                    Ok(Some(hs)) => r matches Ok(CheckResult::Denied(d)) && d.status == 429
                        && d.headers@ == hs && d.body@ == "API rate limit exceeded"@,
                },
            },
    {
        match headers_option {
            None => Ok(CheckResult::Allowed),
            Some(header_map) => {
                let limit_res = self.should_limit_at(header_map, peer_addr, now);
                match limit_res {
                    Err(e) => Err(e),
                    Ok(None) => Ok(CheckResult::Allowed),
                    Ok(Some(rate_limit_headers)) => Ok(
                        CheckResult::Denied(
                            Denial {
                                status: 429,
                                headers: rate_limit_headers,
                                body: "API rate limit exceeded".to_owned(),
                            },
                        ),
                    ),
                }
            },
        }
    }
}

/// The window of a moment starts at a multiple of the window's length, at or
/// before the moment, and the moment lies before the window ends.
pub proof fn lemma_window_holds_now(u: TimeUnit, now: u128)
    ensures
        window_start(u, now) % unit_millis(u) == 0,
        window_start(u, now) <= millis_of(now) < window_start(u, now) + unit_millis(u),
{
    let m = millis_of(now);
    let w = unit_millis(u);
    assert(((m / w) * w) % w == 0 && (m / w) * w <= m < (m / w) * w + w) by (nonlinear_arith)
        requires
            w > 0,
    ;
}

/// A token bucket never holds more tokens than its capacity, and refills at
/// its rate: a request at `now` first adds the tokens earned since the last
/// refill (the elapsed milliseconds times the rate, over the unit's
/// milliseconds), capped at the capacity, and moves the refill time to `now`
/// exactly when it earned any; the count it then keeps (one less when a token
/// is taken) stays between zero and the capacity.
pub proof fn lemma_bucket_within_capacity(tb: TokenBucketRateLimit, now: u128)
    requires
        0 <= tb.current_count <= tb.capacity,
        now >= tb.last_update_time,
    ensures
        tb.earned(now) == millis_of((now - tb.last_update_time) as u128) * (tb.rate_per_unit as nat)
            / unit_millis(tb.unit),
        tb.refilled_count(now) == if tb.current_count + tb.earned(now) <= tb.capacity {
            tb.current_count + tb.earned(now)
        } else {
            tb.capacity as int
        },
        tb.current_count <= tb.refilled_count(now) <= tb.capacity,
        tb.refilled_count(now) > 0 ==> 0 <= tb.refilled_count(now) - 1 < tb.capacity,
        tb.earned(now) > 0 ==> tb.refilled_time(now) == now,
        tb.earned(now) == 0 ==> tb.refilled_time(now) == tb.last_update_time,
{
}

/// A fixed-window limiter lets a request through exactly when its window's
/// count, this request included, is at most the rate; once a window's count
/// reaches the rate, every later request counted in that window is refused.
pub proof fn lemma_window_refuses_after_rate(fw: FixedWindowRateLimit, now: u128)
    requires
        counts_wf(make_room(fw.counts())),
        count_of(make_room(fw.counts()), fw.key_at(now)) >= fw.rate_per_unit,
    ensures
        !(count_of(make_room(fw.counts()), fw.key_at(now)) + 1 <= fw.rate_per_unit),
{
}

/// No counter but the last one is kept under `key`.
pub open spec fn only_last(m: Seq<(Seq<char>, i32)>, key: Seq<char>) -> bool {
    forall|i: int| 0 <= i < m.len() - 1 ==> #[trigger] m[i].0 != key
}

/// The count under a key that occurs, in counts without repeated keys.
proof fn lemma_count_of_at(m: Seq<(Seq<char>, i32)>, key: Seq<char>, i: int)
    requires
        counts_wf(m),
        0 <= i < m.len(),
        m[i].0 == key,
    ensures
        count_of(m, key) == m[i].1,
{
    let j = choose|j: int| 0 <= j < m.len() && #[trigger] m[j].0 == key;
    if j != i {
        if j < i {
            assert(m[j].0 != m[i].0);
        } else {
            assert(m[i].0 != m[j].0);
        }
    }
}

/// Each request of the scope in the current window adds one to that window's
/// counter, as long as that counter, if kept at all, is the last one kept
/// (which holds while the time does not go back): the eviction that makes room
/// never resets it, and it stays the last one. So within one window the n-th
/// request is let through exactly when n is at most `rate_per_unit`.
pub proof fn lemma_window_counts_each_request(fw: FixedWindowRateLimit, now: u128)
    requires
        counts_wf(fw.counts()),
        fw.counts().len() <= DEFAULT_FIXEDWINDOW_MAP_SIZE,
        only_last(fw.counts(), fw.key_at(now)),
        fw.can_count_at(now),
    ensures
        ({
            let key = fw.key_at(now);
            let after = bump(make_room(fw.counts()), key);
            &&& count_of(after, key) == count_of(fw.counts(), key) + 1
            &&& only_last(after, key)
            &&& after.len() <= DEFAULT_FIXEDWINDOW_MAP_SIZE
        }),
{
    let m = fw.counts();
    let key = fw.key_at(now);
    let r = make_room(m);
    assert(counts_wf(r)) by {
        if m.len() >= DEFAULT_FIXEDWINDOW_MAP_SIZE {
            assert forall|i: int, j: int| 0 <= i < j < r.len() implies #[trigger] r[i].0 != #[trigger] r[j].0 by {
                assert(r[i] == m[i + 1] && r[j] == m[j + 1]);
            }
            assert forall|i: int| 0 <= i < r.len() implies 0 < #[trigger] r[i].1 by {
                assert(r[i] == m[i + 1]);
            }
        }
    }
    assert(only_last(r, key)) by {
        if m.len() >= DEFAULT_FIXEDWINDOW_MAP_SIZE {
            assert forall|i: int| 0 <= i < r.len() - 1 implies #[trigger] r[i].0 != key by {
                assert(r[i] == m[i + 1]);
            }
        }
    }
    assert(count_of(r, key) == count_of(m, key)) by {
        if exists|i: int| 0 <= i < m.len() && #[trigger] m[i].0 == key {
            let i = choose|i: int| 0 <= i < m.len() && #[trigger] m[i].0 == key;
            assert(i == m.len() - 1);
            lemma_count_of_at(m, key, i);
            if m.len() >= DEFAULT_FIXEDWINDOW_MAP_SIZE {
                assert(r[i - 1] == m[i]);
                lemma_count_of_at(r, key, i - 1);
            } else {
                lemma_count_of_at(r, key, i);
            }
        } else {
            if m.len() >= DEFAULT_FIXEDWINDOW_MAP_SIZE {
                assert forall|i: int| 0 <= i < r.len() implies #[trigger] r[i].0 != key by {
                    assert(r[i] == m[i + 1]);
                }
            }
        }
    }
    let after = bump(r, key);
    if exists|i: int| 0 <= i < r.len() && #[trigger] r[i].0 == key {
        let i = choose|i: int| 0 <= i < r.len() && #[trigger] r[i].0 == key;
        assert(i == r.len() - 1);
        lemma_count_of_at(r, key, i);
        assert(after == r.update(i, (key, (r[i].1 + 1) as i32)));
        assert(r[i].1 < i32::MAX);
        assert(counts_wf(after)) by {
            assert forall|a: int, b: int| 0 <= a < b < after.len() implies #[trigger] after[a].0 != #[trigger] after[b].0 by {
                assert(r[a].0 != r[b].0);
            }
            assert forall|a: int| 0 <= a < after.len() implies 0 < #[trigger] after[a].1 by {
                if a != i {
                    assert(after[a] == r[a]);
                }
            }
        }
        lemma_count_of_at(after, key, i);
        assert(only_last(after, key)) by {
            assert forall|j: int| 0 <= j < after.len() - 1 implies #[trigger] after[j].0 != key by {
                assert(after[j] == r[j]);
            }
        }
    } else {
        assert(after == r.push((key, 1i32)));
        assert(counts_wf(after)) by {
            assert forall|a: int, b: int| 0 <= a < b < after.len() implies #[trigger] after[a].0 != #[trigger] after[b].0 by {
                if b < r.len() {
                    assert(r[a].0 != r[b].0);
                } else {
                    assert(after[a] == r[a]);
                }
            }
        }
        lemma_count_of_at(after, key, r.len() as int);
        assert(count_of(r, key) == 0);
        assert(count_of(after, key) == count_of(m, key) + 1);
        assert(only_last(after, key)) by {
            assert forall|j: int| 0 <= j < after.len() - 1 implies #[trigger] after[j].0 != key by {
                assert(after[j] == r[j]);
            }
        }
    }
}

/// Making room keeps the counts well formed, and keeps the count of every key
/// but the evicted first one.
proof fn lemma_make_room(m: Seq<(Seq<char>, i32)>, key: Seq<char>)
    requires
        counts_wf(m),
    ensures
        counts_wf(make_room(m)),
        count_of(make_room(m), key) == if m.len() >= DEFAULT_FIXEDWINDOW_MAP_SIZE && m[0].0 == key {
            0
        } else {
            count_of(m, key)
        },
{
    if m.len() >= DEFAULT_FIXEDWINDOW_MAP_SIZE {
        let r = make_room(m);
        assert forall|i: int, j: int| 0 <= i < j < r.len() implies #[trigger] r[i].0 != #[trigger] r[j].0 by {
            assert(r[i] == m[i + 1] && r[j] == m[j + 1]);
        }
        assert forall|i: int| 0 <= i < r.len() implies 0 < #[trigger] r[i].1 by {
            assert(r[i] == m[i + 1]);
        }
        if exists|i: int| 0 <= i < m.len() && #[trigger] m[i].0 == key {
            let i = choose|i: int| 0 <= i < m.len() && #[trigger] m[i].0 == key;
            lemma_count_of_at(m, key, i);
            if i == 0 {
                assert forall|j: int| 0 <= j < r.len() implies #[trigger] r[j].0 != key by {
                    assert(r[j] == m[j + 1]);
                    assert(m[0].0 != m[j + 1].0);
                }
            } else {
                assert(r[i - 1] == m[i]);
                lemma_count_of_at(r, key, i - 1);
            }
        } else {
            assert forall|j: int| 0 <= j < r.len() implies #[trigger] r[j].0 != key by {
                assert(r[j] == m[j + 1]);
            }
        }
    }
}

/// Counting one more request under `key` keeps the counts well formed, adds
/// one to that key's count, and adds at most one entry.
proof fn lemma_bump(r: Seq<(Seq<char>, i32)>, key: Seq<char>)
    requires
        counts_wf(r),
        count_of(r, key) < i32::MAX,
    ensures
        counts_wf(bump(r, key)),
        count_of(bump(r, key), key) == count_of(r, key) + 1,
        bump(r, key).len() <= r.len() + 1,
{
    let after = bump(r, key);
    if exists|i: int| 0 <= i < r.len() && #[trigger] r[i].0 == key {
        let i = choose|i: int| 0 <= i < r.len() && #[trigger] r[i].0 == key;
        lemma_count_of_at(r, key, i);
        assert(after == r.update(i, (key, (r[i].1 + 1) as i32)));
        assert forall|a: int, b: int| 0 <= a < b < after.len() implies #[trigger] after[a].0
            != #[trigger] after[b].0 by {
            assert(r[a].0 != r[b].0);
        }
        assert forall|a: int| 0 <= a < after.len() implies 0 < #[trigger] after[a].1 by {
            if a != i {
                assert(after[a] == r[a]);
            }
        }
        lemma_count_of_at(after, key, i);
    } else {
        assert(after == r.push((key, 1i32)));
        assert forall|a: int, b: int| 0 <= a < b < after.len() implies #[trigger] after[a].0
            != #[trigger] after[b].0 by {
            if b < r.len() {
                assert(r[a].0 != r[b].0);
            } else {
                assert(after[a] == r[a]);
            }
        }
        lemma_count_of_at(after, key, r.len() as int);
    }
}

/// A fixed-window limiter keeps at most its fixed number of counters, and a
/// request of its scope at `now` adds one to the count of its window's key:
/// the key's new count is its old count plus one, or one when the key held
/// the oldest counter and was evicted to make room.
pub proof fn lemma_window_step(fw: FixedWindowRateLimit, now: u128)
    requires
        counts_wf(fw.counts()),
        fw.counts().len() <= DEFAULT_FIXEDWINDOW_MAP_SIZE,
        fw.can_count_at(now),
    ensures
        ({
            let m = fw.counts();
            let key = fw.key_at(now);
            let after = bump(make_room(m), key);
            &&& counts_wf(after)
            &&& after.len() <= DEFAULT_FIXEDWINDOW_MAP_SIZE
            &&& count_of(after, key) == if m.len() >= DEFAULT_FIXEDWINDOW_MAP_SIZE && m[0].0 == key {
                1
            } else {
                count_of(m, key) + 1
            }
        }),
{
    let m = fw.counts();
    let key = fw.key_at(now);
    lemma_make_room(m, key);
    lemma_bump(make_room(m), key);
}

/// A token bucket with room for a token always has one again once a whole unit
/// of time has passed since the last refill: a request is then let through.
pub proof fn lemma_bucket_refills_after_a_unit(tb: TokenBucketRateLimit, now: u128)
    requires
        tb.rate_per_unit > 0,
        tb.capacity > 0,
        tb.current_count >= 0,
        now >= tb.last_update_time + unit_millis(tb.unit) * 1000000,
    ensures
        tb.refilled_count(now) > 0,
{
    let elapsed = millis_of((now - tb.last_update_time) as u128);
    let unit = unit_millis(tb.unit);
    let rate = tb.rate_per_unit as nat;
    assert(elapsed >= unit) by {
        assert((now - tb.last_update_time) as u128 >= unit * 1000000);
        assert(((now - tb.last_update_time) as u128) / 1000000 >= unit) by (nonlinear_arith)
            requires
                ((now - tb.last_update_time) as u128) >= unit * 1000000,
        ;
    }
    assert(elapsed * rate / unit >= 1) by (nonlinear_arith)
        requires
            elapsed >= unit,
            unit > 0,
            rate >= 1,
    {
        assert(elapsed * rate >= unit * 1);
    }
}

/// The key of the window that holds a moment is the number of whole windows
/// before it: for millisecond windows the milliseconds since the epoch, for
/// longer ones the window's start over its length.
proof fn lemma_time_key_is_window_number(u: TimeUnit, now: u128)
    ensures
        time_key(u, now) == millis_of(now) / unit_millis(u),
{
    let m = millis_of(now) as int;
    let w = unit_millis(u) as int;
    vstd::arithmetic::div_mod::lemma_div_multiples_vanish(m / w, w);
    assert((m / w) * w == w * (m / w)) by (nonlinear_arith);
}

/// Two moments are counted under the same fixed-window key exactly when they
/// fall in the same window of the limiter's unit (the same number of whole
/// windows since the epoch): all requests of one window share one counter,
/// and requests of different windows never do.
pub proof fn lemma_same_window_same_key(fw: FixedWindowRateLimit, now1: u128, now2: u128)
    ensures
        (fw.key_at(now1) == fw.key_at(now2)) <==> (millis_of(now1) / unit_millis(fw.unit)
            == millis_of(now2) / unit_millis(fw.unit)),
{
    lemma_time_key_is_window_number(fw.unit, now1);
    lemma_time_key_is_window_number(fw.unit, now2);
    let p = scope_key(fw.scope) + ":"@;
    let d1 = decimal(time_key(fw.unit, now1));
    let d2 = decimal(time_key(fw.unit, now2));
    assert(fw.key_at(now1) =~= p + d1);
    assert(fw.key_at(now2) =~= p + d2);
    if fw.key_at(now1) == fw.key_at(now2) {
        assert((p + d1).skip(p.len() as int) =~= d1);
        assert((p + d2).skip(p.len() as int) =~= d2);
    }
    lemma_decimal_injective(time_key(fw.unit, now1), time_key(fw.unit, now2));
}

/// A header scope looks only at the header it names: a request without it is
/// not selected, and one whose value reads as the text `t` is selected exactly
/// when `t` equals the scope's value, whoever sends it.
pub proof fn lemma_header_scope_selects_by_value(
    h: HeaderBasedRatelimit,
    headers: HeaderList,
    peer: PeerAddr,
    other_peer: PeerAddr,
    t: Seq<char>,
)
    ensures
        headers.spec_get(h.key@) is None ==> spec_matched(LimitLocation::Header(h), headers, peer)
            == Ok::<bool, Seq<char>>(false),
        headers.spec_get(h.key@) matches Some(b) && value_text(b) == Some(t) ==> spec_matched(
            LimitLocation::Header(h),
            headers,
            peer,
        ) == Ok::<bool, Seq<char>>(t == h.value@),
        spec_matched(LimitLocation::Header(h), headers, peer) == spec_matched(
            LimitLocation::Header(h),
            headers,
            other_peer,
        ),
{
}

/// A request whose scoped header carries another value than the scope's is
/// never limited, at any time, by either kind of limiter.
pub proof fn lemma_other_header_value_never_limited(
    rl: Ratelimit,
    h: HeaderBasedRatelimit,
    headers: HeaderList,
    peer: PeerAddr,
    now: u128,
    t: Seq<char>,
)
    requires
        rl.limit_scope() == LimitLocation::Header(h),
        headers.spec_get(h.key@) matches Some(b) && value_text(b) == Some(t),
        t != h.value@,
    ensures
        rl.outcome(headers, peer, now) == Ok::<Option<Seq<(Seq<char>, Seq<u8>)>>, Seq<char>>(None),
{
}

} // verus!

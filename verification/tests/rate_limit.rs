use spire::headers::HeaderList;
use spire::middleware::check::CheckResult;
use spire::middleware::rate_limit::{
    get_time_key, get_window_size_ms, limiter_time, get_window_start_ms, matched, FixedWindowRateLimit,
    HeaderBasedRatelimit, IPBasedRatelimit, IpRangeBasedRatelimit, LimitLocation, Ratelimit,
    TimeUnit, TokenBucketRateLimit,
};
use spire::net::{PeerAddr, PeerIp};

const NOW: u128 = 1_700_000_000_123_000_000;
const SECOND: u128 = 1_000_000_000;

fn peer(a: u8, b: u8, c: u8, d: u8) -> PeerAddr {
    PeerAddr { ip: PeerIp::V4(a, b, c, d), port: 8080 }
}

#[test]
fn test_token_bucket_rate_limit() {
    let mut headers = HeaderList::new();
    headers.insert("test-header", b"test-value");

    let socket_addr = peer(127, 0, 0, 1);

    let mut rate_limit = TokenBucketRateLimit {
        rate_per_unit: 10,
        unit: TimeUnit::Second,
        capacity: 10,
        scope: LimitLocation::IP(IPBasedRatelimit {
            value: "127.0.0.1".to_string(),
        }),
        current_count: 5,
        last_update_time: NOW,
    };

    assert!(matches!(rate_limit.should_limit_at(&headers, &socket_addr, NOW), Ok(None)));

    rate_limit.current_count = 0;
    assert!(matches!(rate_limit.should_limit_at(&headers, &socket_addr, NOW), Ok(Some(_))));
}

#[test]
fn test_fixed_window_rate_limit() {
    let mut headers = HeaderList::new();
    headers.insert("test-header", b"test-value");

    let socket_addr = peer(127, 0, 0, 1);

    let mut rate_limit = FixedWindowRateLimit {
        rate_per_unit: 2,
        unit: TimeUnit::Second,
        scope: LimitLocation::IP(IPBasedRatelimit {
            value: "127.0.0.1".to_string(),
        }),
        count_map: Vec::new(),
    };

    assert!(matches!(rate_limit.should_limit_at(&headers, &socket_addr, NOW), Ok(None)));
    assert!(matches!(rate_limit.should_limit_at(&headers, &socket_addr, NOW), Ok(None)));
    assert!(matches!(rate_limit.should_limit_at(&headers, &socket_addr, NOW), Ok(Some(_))));
}

#[test]
fn test_ip_range_rate_limit() {
    let headers = HeaderList::new();
    let socket_addr = peer(192, 168, 1, 1);

    let mut rate_limit = TokenBucketRateLimit {
        rate_per_unit: 10,
        unit: TimeUnit::Second,
        capacity: 10,
        scope: LimitLocation::Iprange(IpRangeBasedRatelimit {
            value: "192.168.1.0/24".to_string(),
        }),
        current_count: 5,
        last_update_time: NOW,
    };

    assert!(matches!(rate_limit.should_limit_at(&headers, &socket_addr, NOW), Ok(None)));
    let _socket_addr_outside = peer(192, 168, 2, 1);
    assert!(matches!(rate_limit.should_limit_at(&headers, &socket_addr, NOW), Ok(None)));
}

#[test]
fn test_header_based_rate_limit() {
    let mut headers = HeaderList::new();
    headers.insert("X-API-Key", b"test-key");

    let socket_addr = peer(127, 0, 0, 1);

    let mut rate_limit = TokenBucketRateLimit {
        rate_per_unit: 10,
        unit: TimeUnit::Second,
        capacity: 10,
        scope: LimitLocation::Header(HeaderBasedRatelimit {
            key: "X-API-Key".to_string(),
            value: "test-key".to_string(),
        }),
        current_count: 5,
        last_update_time: NOW,
    };

    assert!(matches!(rate_limit.should_limit_at(&headers, &socket_addr, NOW), Ok(None)));

    headers.insert("X-API-Key", b"wrong-key");
    assert!(matches!(rate_limit.should_limit_at(&headers, &socket_addr, NOW), Ok(None)));
}

#[test]
fn window_arithmetic() {
    assert_eq!(get_window_size_ms(TimeUnit::MillionSecond), 1);
    assert_eq!(get_window_size_ms(TimeUnit::Second), 1000);
    assert_eq!(get_window_size_ms(TimeUnit::Minute), 60_000);
    assert_eq!(get_window_size_ms(TimeUnit::Hour), 3_600_000);
    assert_eq!(get_window_size_ms(TimeUnit::Day), 86_400_000);
    assert_eq!(TimeUnit::Hour.get_million_second(), 3_600_000);
    assert_eq!(get_window_start_ms(TimeUnit::Second, NOW), 1_700_000_000_000);
    assert_eq!(get_window_start_ms(TimeUnit::Minute, NOW), 1_699_999_980_000);
    assert_eq!(
        get_window_start_ms(TimeUnit::Day, 18_446_744_073_623_151_615_999_999),
        18_446_744_073_571_200_000
    );
    assert_eq!(get_time_key(TimeUnit::Second, NOW), "1700000000");
    assert_eq!(get_time_key(TimeUnit::MillionSecond, NOW), "1700000000123");
    assert_eq!(TimeUnit::default(), TimeUnit::MillionSecond);
}

#[test]
fn scope_keys() {
    let h = LimitLocation::Header(HeaderBasedRatelimit { key: "k".to_string(), value: "v".to_string() });
    assert_eq!(h.get_key(), "k:v");
    let ip = LimitLocation::IP(IPBasedRatelimit { value: "1.2.3.4".to_string() });
    assert_eq!(ip.get_key(), "1.2.3.4");
    assert_eq!(LimitLocation::default(), LimitLocation::IP(IPBasedRatelimit { value: String::new() }));
}

#[test]
fn ip_range_scope_errors_and_membership() {
    let headers = HeaderList::new();
    let no_slash = LimitLocation::Iprange(IpRangeBasedRatelimit { value: "10.0.0.0".to_string() });
    assert_eq!(
        matched(&no_slash, &headers, &peer(10, 0, 0, 1)).unwrap_err().0,
        "The Ip Range should contain '/'."
    );
    let bad = LimitLocation::Iprange(IpRangeBasedRatelimit { value: "10.0.0/8".to_string() });
    assert_eq!(matched(&bad, &headers, &peer(10, 0, 0, 1)).unwrap_err().0, "invalid IP address syntax");
    let range = LimitLocation::Iprange(IpRangeBasedRatelimit { value: "10.0.0.0/8".to_string() });
    assert_eq!(matched(&range, &headers, &peer(10, 200, 3, 4)), Ok(true));
    assert_eq!(matched(&range, &headers, &peer(11, 0, 0, 1)), Ok(false));
    let v6 = PeerAddr { ip: PeerIp::V6("::1".to_string()), port: 1 };
    assert_eq!(matched(&range, &headers, &v6).unwrap_err().0, "invalid IPv4 address syntax");
    let everything = LimitLocation::Iprange(IpRangeBasedRatelimit { value: "0.0.0.0/0".to_string() });
    assert_eq!(matched(&everything, &headers, &peer(1, 2, 3, 4)), Ok(true));
    let host = LimitLocation::Iprange(IpRangeBasedRatelimit { value: "192.168.1.7/32".to_string() });
    assert_eq!(matched(&host, &headers, &peer(192, 168, 1, 7)), Ok(true));
    assert_eq!(matched(&host, &headers, &peer(192, 168, 1, 8)), Ok(false));
}

#[test]
fn outside_the_scope_is_never_limited() {
    let headers = HeaderList::new();
    let mut tb = TokenBucketRateLimit {
        rate_per_unit: 1,
        unit: TimeUnit::Second,
        capacity: 1,
        scope: LimitLocation::IP(IPBasedRatelimit { value: "127.0.0.1".to_string() }),
        current_count: 0,
        last_update_time: NOW,
    };
    let before = tb.clone();
    assert!(matches!(tb.should_limit_at(&headers, &peer(10, 0, 0, 1), NOW), Ok(None)));
    assert_eq!(tb, before);
}

#[test]
fn token_bucket_refills_up_to_capacity() {
    let headers = HeaderList::new();
    let p = peer(127, 0, 0, 1);
    let mut tb = TokenBucketRateLimit {
        rate_per_unit: 2,
        unit: TimeUnit::Second,
        capacity: 3,
        scope: LimitLocation::IP(IPBasedRatelimit { value: "127.0.0.1".to_string() }),
        current_count: 0,
        last_update_time: NOW,
    };
    assert!(matches!(tb.should_limit_at(&headers, &p, NOW + SECOND), Ok(None)));
    assert_eq!(tb.current_count, 1);
    assert_eq!(tb.last_update_time, NOW + SECOND);
    assert!(matches!(tb.should_limit_at(&headers, &p, NOW + 100 * SECOND), Ok(None)));
    assert_eq!(tb.current_count, 2);
}

#[test]
fn token_bucket_refusal_headers() {
    let headers = HeaderList::new();
    let p = peer(127, 0, 0, 1);
    let mut tb = TokenBucketRateLimit {
        rate_per_unit: 1,
        unit: TimeUnit::Minute,
        capacity: 7,
        scope: LimitLocation::IP(IPBasedRatelimit { value: "127.0.0.1".to_string() }),
        current_count: 0,
        last_update_time: NOW,
    };
    let h = tb.should_limit_at(&headers, &p, NOW).unwrap().unwrap();
    assert_eq!(h.get("X-RateLimit-Limit"), Some(&b"7".to_vec()));
    assert_eq!(h.get("X-RateLimit-Remaining"), Some(&b"0".to_vec()));
    assert_eq!(h.get("X-RateLimit-Reset"), Some(&b"1700000060".to_vec()));
    assert_eq!(h.get("Retry-After"), Some(&b"60".to_vec()));
}

#[test]
fn token_bucket_clock_before_last_refill_is_an_error() {
    let headers = HeaderList::new();
    let p = peer(127, 0, 0, 1);
    let mut tb = TokenBucketRateLimit {
        rate_per_unit: 1,
        unit: TimeUnit::Second,
        capacity: 1,
        scope: LimitLocation::IP(IPBasedRatelimit { value: "127.0.0.1".to_string() }),
        current_count: 1,
        last_update_time: NOW,
    };
    assert_eq!(
        tb.should_limit_at(&headers, &p, NOW - 1).unwrap_err().0,
        "second time provided was later than self"
    );
}

#[test]
fn fixed_window_new_window_starts_fresh_and_headers() {
    let headers = HeaderList::new();
    let p = peer(127, 0, 0, 1);
    let mut fw = FixedWindowRateLimit {
        rate_per_unit: 1,
        unit: TimeUnit::Second,
        scope: LimitLocation::IP(IPBasedRatelimit { value: "127.0.0.1".to_string() }),
        count_map: Vec::new(),
    };
    assert!(matches!(fw.should_limit_at(&headers, &p, NOW), Ok(None)));
    let refused = fw.should_limit_at(&headers, &p, NOW).unwrap().unwrap();
    assert_eq!(refused.get("x-ratelimit-limit"), Some(&b"1".to_vec()));
    assert_eq!(refused.get("x-ratelimit-reset"), Some(&b"1700000001".to_vec()));
    assert_eq!(refused.get("retry-after"), Some(&b"1".to_vec()));
    assert_eq!(fw.count_map, vec![("127.0.0.1:1700000000".to_string(), 2)]);
    assert!(matches!(fw.should_limit_at(&headers, &p, NOW + SECOND), Ok(None)));
    assert_eq!(fw.count_map.len(), 2);
}

#[test]
fn fixed_window_keeps_at_most_three_counters() {
    let headers = HeaderList::new();
    let p = peer(127, 0, 0, 1);
    let mut fw = FixedWindowRateLimit {
        rate_per_unit: 5,
        unit: TimeUnit::Second,
        scope: LimitLocation::IP(IPBasedRatelimit { value: "127.0.0.1".to_string() }),
        count_map: Vec::new(),
    };
    for i in 0..5u128 {
        assert!(matches!(fw.should_limit_at(&headers, &p, NOW + i * SECOND), Ok(None)));
    }
    assert_eq!(fw.count_map.len(), 3);
    assert_eq!(fw.count_map[2].0, "127.0.0.1:1700000004");
}

#[test]
fn ratelimit_check_request_verdicts() {
    let headers = HeaderList::new();
    let p = peer(127, 0, 0, 1);
    let mut rl = Ratelimit::TokenBucket(TokenBucketRateLimit {
        rate_per_unit: 1,
        unit: TimeUnit::Second,
        capacity: 1,
        scope: LimitLocation::IP(IPBasedRatelimit { value: "127.0.0.1".to_string() }),
        current_count: 1,
        last_update_time: NOW,
    });
    assert!(matches!(rl.check_request_at(&p, None, NOW), Ok(CheckResult::Allowed)));
    assert!(matches!(rl.check_request_at(&p, Some(&headers), NOW), Ok(CheckResult::Allowed)));
    match rl.check_request_at(&p, Some(&headers), NOW) {
        Ok(CheckResult::Denied(d)) => {
            assert_eq!(d.status, 429);
            assert_eq!(d.body, "API rate limit exceeded");
            assert_eq!(d.headers.len(), 4);
        }
        other => panic!("expected a refusal, got {other:?}"),
    }
}

#[test]
fn ratelimit_by_the_system_clock() {
    let headers = HeaderList::new();
    let p = peer(127, 0, 0, 1);
    let mut rl = Ratelimit::FixedWindow(FixedWindowRateLimit {
        rate_per_unit: 1,
        unit: TimeUnit::Day,
        scope: LimitLocation::IP(IPBasedRatelimit { value: "127.0.0.1".to_string() }),
        count_map: Vec::new(),
    });
    assert!(matches!(rl.should_limit(&headers, &p), Ok(None)));
}

#[test]
fn zero_rate_bucket_answers_while_tokens_last() {
    let headers = HeaderList::new();
    let p = peer(127, 0, 0, 1);
    let mut rl = Ratelimit::TokenBucket(TokenBucketRateLimit {
        rate_per_unit: 0,
        unit: TimeUnit::Second,
        capacity: 1,
        scope: LimitLocation::IP(IPBasedRatelimit { value: "127.0.0.1".to_string() }),
        current_count: 1,
        last_update_time: NOW,
    });
    assert!(rl.is_ready());
    assert!(matches!(rl.should_limit_at(&headers, &p, NOW + 10 * SECOND), Ok(None)));
    assert!(!rl.is_ready());
}

#[test]
fn fixed_window_readiness_needs_distinct_positive_counts() {
    let scope = LimitLocation::IP(IPBasedRatelimit { value: "127.0.0.1".to_string() });
    let fw = |m: Vec<(String, i32)>| {
        Ratelimit::FixedWindow(FixedWindowRateLimit {
            rate_per_unit: 1,
            unit: TimeUnit::Second,
            scope: scope.clone(),
            count_map: m,
        })
    };
    assert!(fw(vec![]).is_ready());
    assert!(fw(vec![("a".to_string(), 1), ("b".to_string(), 2)]).is_ready());
    assert!(!fw(vec![("a".to_string(), 1), ("a".to_string(), 2)]).is_ready());
    assert!(!fw(vec![("a".to_string(), 0)]).is_ready());
    assert!(!fw(vec![("a".to_string(), i32::MAX)]).is_ready());
}

#[test]
fn bucket_refills_after_a_whole_unit() {
    let headers = HeaderList::new();
    let p = peer(127, 0, 0, 1);
    let mut tb = TokenBucketRateLimit {
        rate_per_unit: 1,
        unit: TimeUnit::Second,
        capacity: 1,
        scope: LimitLocation::IP(IPBasedRatelimit { value: "127.0.0.1".to_string() }),
        current_count: 0,
        last_update_time: NOW,
    };
    assert!(matches!(tb.should_limit_at(&headers, &p, NOW + SECOND - 1), Ok(Some(_))));
    assert!(matches!(tb.should_limit_at(&headers, &p, NOW + SECOND), Ok(None)));
}

#[test]
fn ratelimit_check_request_by_the_system_clock() {
    let headers = HeaderList::new();
    let p = peer(127, 0, 0, 1);
    let mut rl = Ratelimit::FixedWindow(FixedWindowRateLimit {
        rate_per_unit: 1,
        unit: TimeUnit::Day,
        scope: LimitLocation::IP(IPBasedRatelimit { value: "10.0.0.1".to_string() }),
        count_map: Vec::new(),
    });
    assert!(matches!(rl.check_request(&p, None), Ok(CheckResult::Allowed)));
    assert!(matches!(rl.check_request(&p, Some(&headers)), Ok(CheckResult::Allowed)));
}

#[test]
fn limiter_time_from_clock_readings() {
    assert_eq!(limiter_time(Some(NOW)), Ok(NOW));
    assert_eq!(limiter_time(None).unwrap_err().0, "second time provided was later than self");
    assert_eq!(limiter_time(Some(9_000_000_000_000_000_000_000_001)), Ok(9_000_000_000_000_000_000_000_001));
    assert_eq!(limiter_time(Some(18_446_744_073_623_151_615_999_999)), Ok(18_446_744_073_623_151_615_999_999));
    assert_eq!(
        limiter_time(Some(18_446_744_073_623_151_616_000_000)).unwrap_err().0,
        "system clock out of range"
    );
}

#[test]
fn window_holds_the_moment() {
    let units = [TimeUnit::MillionSecond, TimeUnit::Second, TimeUnit::Minute, TimeUnit::Hour, TimeUnit::Day];
    for unit in units {
        let size = get_window_size_ms(unit);
        let start = get_window_start_ms(unit, NOW);
        let now_ms = (NOW / 1_000_000) as u64;
        assert_eq!(start % size, 0);
        assert!(start <= now_ms && now_ms < start + size);
    }
}

#[test]
fn scope_is_matched_before_the_clock_is_read() {
    // The last refill lies far in the future, so reading the clock now would fail.
    let bucket = TokenBucketRateLimit {
        rate_per_unit: 1,
        unit: TimeUnit::Second,
        capacity: 1,
        scope: LimitLocation::IP(IPBasedRatelimit { value: "10.0.0.1".to_string() }),
        current_count: 1,
        last_update_time: 18_000_000_000_000_000_000_000_000,
    };
    let mut rl = Ratelimit::TokenBucket(bucket.clone());
    let headers = HeaderList::new();
    assert!(matches!(rl.should_limit(&headers, &peer(127, 0, 0, 1)), Ok(None)));
    assert!(matches!(rl.check_request(&peer(127, 0, 0, 1), Some(&headers)), Ok(CheckResult::Allowed)));
    assert_eq!(rl, Ratelimit::TokenBucket(bucket));
    assert_eq!(
        rl.should_limit(&headers, &peer(10, 0, 0, 1)).unwrap_err().0,
        "second time provided was later than self"
    );
}

#[test]
fn scope_error_comes_before_the_clock() {
    let mut rl = Ratelimit::TokenBucket(TokenBucketRateLimit {
        rate_per_unit: 1,
        unit: TimeUnit::Second,
        capacity: 1,
        scope: LimitLocation::Header(HeaderBasedRatelimit {
            key: "x-key".to_string(),
            value: "v".to_string(),
        }),
        current_count: 1,
        last_update_time: 18_000_000_000_000_000_000_000_000,
    });
    let mut headers = HeaderList::new();
    headers.insert("x-key", b"caf\xc3\xa9");
    assert_eq!(
        rl.should_limit(&headers, &peer(127, 0, 0, 1)).unwrap_err().0,
        "failed to convert header to a str"
    );
}

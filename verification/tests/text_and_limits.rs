use punchclock::clock::instant_from;
use punchclock::query::{param, query_param};
use punchclock::ratelimit::{host_of, Bucket, RateLimiter, IP_RATE_MAX, MSG_RATE_MAX};
use punchclock::text::{decimal_string, replace, str_le, trimmed};

const SEC: u64 = 1_000_000_000;

#[test]
fn query_param_finds_first_pair() {
    assert_eq!(query_param("a=1&from=bob&from=eve", "from"), Some("bob".to_string()));
    assert_eq!(query_param("from=x=y", "from"), Some("x=y".to_string()));
    assert_eq!(query_param("fromage=1&from", "from"), None);
    assert_eq!(query_param("", "from"), None);
    assert_eq!(query_param("from=", "from"), Some(String::new()));
    assert_eq!(query_param("a&from=1", "from"), Some("1".to_string()));
    assert_eq!(query_param("a=b", "a=b"), None);
    assert_eq!(param("x=1&y=2", "y"), Some("2".to_string()));
}

#[test]
fn bucket_limits_within_window() {
    let mut b = Bucket::new();
    assert!(b.check(0, 2, 60));
    assert!(b.check(SEC, 2, 60));
    assert!(!b.check(2 * SEC, 2, 60));
    // 60 s after the first stamp it is still within the window
    assert!(!b.check(60 * SEC, 2, 60));
    // once the first stamp is stale there is room again
    assert!(b.check(60 * SEC + 1, 2, 60));
    assert!(!b.check(60 * SEC + 2, 2, 60));
}

#[test]
fn limiter_keys_messages_by_sender() {
    let mut l = RateLimiter::new();
    for i in 0..MSG_RATE_MAX {
        assert_eq!(l.allow("/message/send", "to=x&from=alice", "1.2.3.4:5", i as u64), None);
    }
    assert_eq!(l.allow("/message/send", "to=x&from=alice", "1.2.3.4:5", 100), Some(60));
    // another sender from the same address is counted apart
    assert_eq!(l.allow("/message/broadcast", "from=bob", "1.2.3.4:5", 100), None);
    // other endpoints count per host
    for i in 0..IP_RATE_MAX {
        assert_eq!(l.allow("/team", "", "9.9.9.9:1", i as u64), None);
    }
    assert_eq!(l.allow("/team", "", "9.9.9.9:2", 1000), Some(60));
    assert_eq!(l.allow("/team", "", "8.8.8.8:2", 1000), None);
}

#[test]
fn host_of_strips_port() {
    assert_eq!(host_of("127.0.0.1:8080"), "127.0.0.1");
    assert_eq!(host_of("[::1]:80"), "[::1]");
    assert_eq!(host_of("noport"), "noport");
}

#[test]
fn text_helpers() {
    assert_eq!(trimmed("  a b \n"), "a b");
    assert_eq!(trimmed("\u{3000}x\u{a0}"), "x");
    assert_eq!(replace("aaa", "aa", "b"), "ba");
    assert_eq!(replace("{{x}} and {{x}}", "{{x}}", "1"), "1 and 1");
    assert_eq!(decimal_string(0), "0");
    assert_eq!(decimal_string(1207), "1207");
    assert!(str_le("2024-01-01", "2024-01-02"));
    assert!(str_le("abc", "abc"));
    assert!(str_le("ab", "abc"));
    assert!(!str_le("b", "abc"));
}

#[test]
fn clock_readings_become_instants() {
    assert_eq!(instant_from(Some(1_700_000_000_000_000_000)), 1_700_000_000_000_000_000);
    assert_eq!(instant_from(Some(0)), 0);
    assert_eq!(instant_from(None), i64::MAX);
}

use egrex::checker::{
    max_latency_nanos, sort_by_latency, AliveUpstream, AttemptOutcome, HealthCheck,
    CHECK_ATTEMPTS_PER_URL,
};

fn alive(host: &str, latency_nanos: u128) -> AliveUpstream {
    AliveUpstream { host: host.to_string(), latency_nanos }
}

fn hosts(v: &[AliveUpstream]) -> Vec<&str> {
    v.iter().map(|a| a.host.as_str()).collect()
}

#[test]
fn sort_by_latency_is_stable() {
    let v = vec![alive("a", 30), alive("b", 10), alive("c", 30), alive("d", 5), alive("e", 10)];
    let sorted = sort_by_latency(v.clone());
    assert_eq!(hosts(&sorted), vec!["d", "b", "e", "a", "c"]);
    let mut reference = v;
    reference.sort_by_key(|a| a.latency_nanos);
    assert_eq!(hosts(&sorted), hosts(&reference));
}

#[test]
fn sort_by_latency_of_empty() {
    assert!(sort_by_latency(Vec::new()).is_empty());
}

#[test]
fn latency_limit_in_nanoseconds() {
    assert_eq!(max_latency_nanos(5000), 5_000_000_000);
    assert_eq!(max_latency_nanos(u64::MAX), u64::MAX as u128 * 1_000_000);
}

fn urls(items: &[&str]) -> Vec<String> {
    items.iter().map(|s| s.to_string()).collect()
}

#[test]
fn health_check_passes_on_first_good_response() {
    let mut c = HealthCheck::new(&urls(&["https://a/", "https://b/"]), 1_000);
    assert_eq!(c.next_url(), Some("https://a/".to_string()));
    c.record(AttemptOutcome::Response { latency_nanos: 500, success: true });
    assert_eq!(c.result(), Some(500));
    assert_eq!(c.next_url(), None);
}

#[test]
fn health_check_skips_blank_urls_and_retries_each_url() {
    let mut c = HealthCheck::new(&urls(&["  ", "https://a/", "", "https://b/"]), 1_000);
    let mut requested = Vec::new();
    while let Some(u) = c.next_url() {
        requested.push(u);
        c.record(AttemptOutcome::Failed);
    }
    assert_eq!(requested.len(), 2 * CHECK_ATTEMPTS_PER_URL);
    assert_eq!(requested[..3], urls(&["https://a/", "https://a/", "https://a/"])[..]);
    assert_eq!(requested[3..], urls(&["https://b/", "https://b/", "https://b/"])[..]);
    assert_eq!(c.result(), None);
}

#[test]
fn health_check_rejects_slow_and_failed_responses() {
    let mut c = HealthCheck::new(&urls(&["https://a/", "https://b/"]), 1_000);
    c.record(AttemptOutcome::Response { latency_nanos: 1_001, success: true });
    c.record(AttemptOutcome::Response { latency_nanos: 10, success: false });
    c.record(AttemptOutcome::Failed);
    assert_eq!(c.next_url(), Some("https://b/".to_string()));
    c.record(AttemptOutcome::Response { latency_nanos: 1_000, success: true });
    assert_eq!(c.result(), Some(1_000));
}

#[test]
fn health_check_without_urls_fails() {
    let c = HealthCheck::new(&urls(&["", " "]), 1_000);
    assert_eq!(c.next_url(), None);
    assert_eq!(c.result(), None);
}

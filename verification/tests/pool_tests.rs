use egrex::config::AppConfig;
use egrex::pool::{
    check_urls, max_latency, Pick, PoolData, SelectStep, UpstreamSelection,
    CANDIDATE_LOW_WATERMARK, CHECK_CACHE_TTL_NANOS, ONLINE_TARGET,
};

fn strings(items: &[&str]) -> Vec<String> {
    items.iter().map(|s| s.to_string()).collect()
}

fn picked(p: Pick) -> (String, bool) {
    match p {
        Pick::Ready(h) => (h, false),
        Pick::Verify(h) => (h, true),
        Pick::Empty => panic!("empty pick"),
    }
}

#[test]
fn next_online_rotates_through_every_host() {
    let mut pool = PoolData::new(strings(&["a", "b", "c"]), Vec::new());
    let got: Vec<String> = (0..7).map(|_| pool.next_online().unwrap()).collect();
    assert_eq!(got, strings(&["a", "b", "c", "a", "b", "c", "a"]));
}

#[test]
fn next_online_of_empty_pool_is_none() {
    let mut pool = PoolData::new(Vec::new(), strings(&["x"]));
    assert_eq!(pool.next_online(), None);
    assert!(matches!(pool.pick_upstream(0), Pick::Empty));
}

#[test]
fn pick_upstream_uses_the_check_cache() {
    let mut pool = PoolData::new(strings(&["a", "b"]), Vec::new());
    assert_eq!(picked(pool.pick_upstream(5)), ("a".to_string(), true));
    pool.mark_checked("a".to_string(), 100);
    assert_eq!(picked(pool.pick_upstream(100)), ("b".to_string(), true));
    // Within the cache lifetime `a` is used without a check.
    assert_eq!(
        picked(pool.pick_upstream(100 + CHECK_CACHE_TTL_NANOS - 1)),
        ("a".to_string(), false)
    );
    pool.pick_upstream(0);
    // Once the lifetime has passed it is checked again.
    assert_eq!(
        picked(pool.pick_upstream(100 + CHECK_CACHE_TTL_NANOS)),
        ("a".to_string(), true)
    );
}

#[test]
fn a_clock_that_goes_back_counts_as_no_time() {
    let mut pool = PoolData::new(strings(&["a"]), Vec::new());
    pool.mark_checked("a".to_string(), 1_000);
    assert!(!pool.needs_check("a", 10));
    assert!(pool.needs_check("b", 10));
}

#[test]
fn remove_online_forgets_the_host() {
    let mut pool = PoolData::new(strings(&["a", "b", "c"]), strings(&["x"]));
    pool.mark_checked("b".to_string(), 7);
    pool.remove_online("b");
    assert_eq!(pool.online_hosts(), strings(&["a", "c"]));
    assert!(pool.needs_check("b", 7));
    assert_eq!(pool.candidate_hosts(), strings(&["x"]));
}

#[test]
fn expired_online_lists_hosts_due_for_a_check() {
    let mut pool = PoolData::new(strings(&["a", "b", "c"]), Vec::new());
    pool.mark_checked("b".to_string(), 50);
    assert_eq!(pool.expired_online(60), strings(&["a", "c"]));
    assert_eq!(pool.expired_online(50 + CHECK_CACHE_TTL_NANOS), strings(&["a", "b", "c"]));
}

#[test]
fn apply_health_keeps_passed_and_drops_failed() {
    let mut pool = PoolData::new(strings(&["a", "b", "c", "d"]), Vec::new());
    pool.mark_checked("d".to_string(), 3);
    pool.apply_health(&strings(&["a", "b", "c"]), &strings(&["c", "a"]), 9);
    assert_eq!(pool.online_hosts(), strings(&["a", "c", "d"]));
    assert!(!pool.needs_check("a", 9));
    assert!(!pool.needs_check("c", 9));
    assert!(pool.needs_check("b", 9));
    assert!(!pool.needs_check("d", 4));
}

#[test]
fn missing_and_needed_counts() {
    let pool = PoolData::new(strings(&["a", "b"]), strings(&["x"]));
    assert_eq!(pool.missing_online(), ONLINE_TARGET - 2);
    assert!(pool.needs_candidates());
    let full: Vec<String> = (0..ONLINE_TARGET + 5).map(|i| format!("h{i}:1")).collect();
    let many: Vec<String> = (0..CANDIDATE_LOW_WATERMARK).map(|i| format!("c{i}:1")).collect();
    let pool = PoolData::new(full, many);
    assert_eq!(pool.missing_online(), 0);
    assert!(!pool.needs_candidates());
}

#[test]
fn absorb_and_refill_candidates() {
    let mut pool = PoolData::new(strings(&["b:1"]), strings(&["c:1", "a:1"]));
    pool.absorb_fetched(strings(&["b:1", " ", "d:1"]));
    assert_eq!(pool.candidate_hosts(), strings(&["a:1", "b:1", "c:1", "d:1"]));
    let mut pool = PoolData::new(strings(&["b:1"]), strings(&["c:1", "a:1"]));
    pool.refill_candidates(strings(&["b:1", " ", "d:1"]));
    assert_eq!(pool.candidate_hosts(), strings(&["a:1", "c:1", "d:1"]));
    assert_eq!(pool.online_hosts(), strings(&["b:1"]));
}

#[test]
fn promotion_batch_takes_at_least_the_bootstrap_limit() {
    let candidates: Vec<String> = (0..150).map(|i| format!("c{i:03}:1")).collect();
    let pool = PoolData::new(Vec::new(), candidates.clone());
    assert_eq!(pool.promotion_batch(3), candidates[..100].to_vec());
    assert_eq!(pool.promotion_batch(120), candidates[..120].to_vec());
    assert_eq!(pool.promotion_batch(500), candidates);
}

#[test]
fn apply_promotion_admits_fastest_new_hosts() {
    let mut pool = PoolData::new(strings(&["b"]), strings(&["a", "b", "c", "d", "e"]));
    let tested = strings(&["a", "b", "c", "d"]);
    // Fastest first; `b` is online already.
    let alive = strings(&["c", "b", "a", "d"]);
    pool.apply_promotion(&tested, &alive, 3, 42);
    assert_eq!(pool.online_hosts(), strings(&["b", "c", "a"]));
    assert_eq!(pool.candidate_hosts(), strings(&["e"]));
    assert!(!pool.needs_check("c", 42));
    assert!(!pool.needs_check("a", 42));
    assert!(pool.needs_check("b", 42));
    assert!(pool.needs_check("d", 42));
}

#[test]
fn selection_uses_cached_host_at_once() {
    let mut pool = PoolData::new(strings(&["a", "b"]), Vec::new());
    pool.mark_checked("a".to_string(), 10);
    let mut sel = UpstreamSelection::begin(&pool);
    assert!(matches!(sel.next(&mut pool, 11), SelectStep::Use(h) if h == "a"));
}

#[test]
fn selection_drops_failed_hosts_and_gives_up_after_one_try_each() {
    let mut pool = PoolData::new(strings(&["a", "b"]), Vec::new());
    let mut sel = UpstreamSelection::begin(&pool);
    let first = match sel.next(&mut pool, 0) {
        SelectStep::Check(h) => h,
        _ => panic!("expected a check"),
    };
    assert_eq!(first, "a");
    sel.failed(&mut pool, &first);
    let second = match sel.next(&mut pool, 0) {
        SelectStep::Check(h) => h,
        _ => panic!("expected a check"),
    };
    assert_eq!(second, "b");
    sel.failed(&mut pool, &second);
    assert!(matches!(sel.next(&mut pool, 0), SelectStep::Exhausted));
    assert!(pool.online_hosts().is_empty());
}

#[test]
fn selection_passed_check_marks_and_uses() {
    let mut pool = PoolData::new(strings(&["a", "b"]), Vec::new());
    let mut sel = UpstreamSelection::begin(&pool);
    let h = match sel.next(&mut pool, 5) {
        SelectStep::Check(h) => h,
        _ => panic!("expected a check"),
    };
    assert!(matches!(sel.passed(&mut pool, h, 5), SelectStep::Use(u) if u == "a"));
    assert!(!pool.needs_check("a", 6));
}

#[test]
fn selection_of_empty_pool_is_exhausted() {
    let mut pool = PoolData::new(Vec::new(), Vec::new());
    let mut sel = UpstreamSelection::begin(&pool);
    assert!(matches!(sel.next(&mut pool, 0), SelectStep::Exhausted));
}

#[test]
fn check_urls_drop_blank_and_duplicate() {
    let mut config = AppConfig::default();
    assert_eq!(check_urls(&config), vec!["https://cloudflare.com/cdn-cgi/trace".to_string()]);
    config.check_fallback_url = "https://a.example/".to_string();
    assert_eq!(
        check_urls(&config),
        strings(&["https://a.example/", "https://cloudflare.com/cdn-cgi/trace"])
    );
    config.check_fallback_url = config.check_url.clone();
    assert_eq!(check_urls(&config).len(), 1);
    config.check_url = "  ".to_string();
    config.check_fallback_url = String::new();
    assert!(check_urls(&config).is_empty());
}

#[test]
fn max_latency_is_at_least_one() {
    let mut config = AppConfig::default();
    assert_eq!(max_latency(&config), 5000);
    config.max_latency = 0;
    assert_eq!(max_latency(&config), 1);
}

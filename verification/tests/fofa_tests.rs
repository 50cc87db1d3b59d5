use egrex::urls::{fits_pair, fits_path};
use egrex::config::AppConfig;
use egrex::fofa::{
    build_query, build_search_url, check_key, check_response, parse_hosts, query_after,
    query_base64, query_days, start_page, state_of, FofaError, FofaResponse, FofaResultRow,
    FofaState, HostFetch,
};

fn strings(items: &[&str]) -> Vec<String> {
    items.iter().map(|s| s.to_string()).collect()
}

#[test]
fn query_names_the_date() {
    assert_eq!(
        build_query("2024-05-01"),
        "protocol==\"socks5\" && \"Version:5 Method:No Authentication(0x00)\" && after=\"2024-05-01\" && country=\"CN\""
    );
}

#[test]
fn query_days_at_least_one() {
    assert_eq!(query_days(30), 30);
    assert_eq!(query_days(0), 1);
    assert_eq!(query_days(-5), 1);
}

#[test]
fn query_after_is_a_date() {
    let d = query_after(30);
    assert_eq!(d.len(), 10);
    let b = d.as_bytes();
    assert_eq!((b[4], b[7]), (b'-', b'-'));
    assert!(d.chars().enumerate().all(|(i, c)| i == 4 || i == 7 || c.is_ascii_digit()));
    assert!(query_after(1) > query_after(400));
}

#[test]
fn base64_of_queries() {
    assert_eq!(query_base64(""), "");
    assert_eq!(query_base64("a"), "YQ==");
    assert_eq!(query_base64("ab"), "YWI=");
    assert_eq!(query_base64("abc"), "YWJj");
    assert_eq!(query_base64("\u{ff}?>"), "w78/Pg==");
    assert_eq!(
        query_base64("protocol==\"socks5\""),
        "cHJvdG9jb2w9PSJzb2NrczUi"
    );
}

#[test]
fn search_url_extends_the_api_path() {
    let u = build_search_url("https://fofa.info/api/v1/", "k1", "YQ==", 1000, 3).unwrap();
    assert_eq!(
        u,
        "https://fofa.info/api/v1/search/all?key=k1&qbase64=YQ%3D%3D&size=1000&page=3&fields=host"
    );
    let u = build_search_url("https://x.example", "a b", "c+/", 10, 1).unwrap();
    assert_eq!(
        u,
        "https://x.example/search/all?key=a+b&qbase64=c%2B%2F&size=10&page=1&fields=host"
    );
}

#[test]
fn search_url_refuses_bad_api() {
    assert!(matches!(build_search_url("fofa.info", "k", "q", 1, 1), Err(FofaError::InvalidApi)));
}

#[test]
fn api_errors_are_reported() {
    let ok = FofaResponse { error: Some(false), errmsg: None, results: None };
    assert!(check_response(&ok).is_ok());
    let none = FofaResponse { error: None, errmsg: Some("x".to_string()), results: None };
    assert!(check_response(&none).is_ok());
    let bad = FofaResponse { error: Some(true), errmsg: Some("quota".to_string()), results: None };
    assert!(matches!(check_response(&bad), Err(FofaError::Api(m)) if m == "quota"));
    let bad = FofaResponse { error: Some(true), errmsg: None, results: None };
    assert!(matches!(check_response(&bad), Err(FofaError::Api(m)) if m == "unknown error"));
}

#[test]
fn hosts_of_a_response() {
    let response = FofaResponse {
        error: Some(false),
        errmsg: None,
        results: Some(vec![
            FofaResultRow::Host("b:1080".to_string()),
            FofaResultRow::Fields(strings(&["a:1080", "ignored"])),
            FofaResultRow::Fields(Vec::new()),
            FofaResultRow::Host(" ".to_string()),
            FofaResultRow::Host("a:1080".to_string()),
        ]),
    };
    assert_eq!(parse_hosts(response), strings(&["a:1080", "b:1080"]));
    let empty = FofaResponse { error: None, errmsg: None, results: None };
    assert!(parse_hosts(empty).is_empty());
}

#[test]
fn fetching_needs_a_key() {
    let mut c = AppConfig::default();
    assert!(matches!(check_key(&c), Err(FofaError::MissingKey)));
    c.fofa_key = "  ".to_string();
    assert!(matches!(check_key(&c), Err(FofaError::MissingKey)));
    c.fofa_key = "k".to_string();
    assert!(check_key(&c).is_ok());
}

#[test]
fn start_page_continues_where_the_last_fetch_stopped() {
    let st = Some(FofaState { query_after: "2024-01-01".to_string(), next_page: 4, exhausted: false });
    assert_eq!(start_page(&st, "2024-01-01"), 4);
    assert_eq!(start_page(&st, "2024-01-02"), 1);
    let done = Some(FofaState { query_after: "2024-01-01".to_string(), next_page: 4, exhausted: true });
    assert_eq!(start_page(&done, "2024-01-01"), 1);
    assert_eq!(start_page(&None, "2024-01-01"), 1);
}

#[test]
fn host_fetch_stops_at_the_limit() {
    let mut f = HostFetch::begin(0, 3);
    assert_eq!(f.next_page(), Some(1));
    f.absorb(&strings(&["b", "a"]));
    assert_eq!(f.next_page(), Some(2));
    f.absorb(&strings(&["a", "d", "c"]));
    assert_eq!(f.next_page(), None);
    let store = f.finish("q".to_string(), "2024-01-01".to_string());
    assert_eq!(store.hosts, strings(&["a", "b", "d"]));
    assert_eq!(store.next_page, 3);
    assert!(!store.exhausted);
    let st = state_of(&store);
    assert_eq!((st.query_after.as_str(), st.next_page, st.exhausted), ("2024-01-01", 3, false));
}

#[test]
fn host_fetch_stops_at_an_empty_page() {
    let mut f = HostFetch::begin(5, 100);
    assert_eq!(f.next_page(), Some(5));
    f.absorb(&strings(&["x"]));
    f.absorb(&Vec::new());
    assert_eq!(f.next_page(), None);
    let store = f.finish("q".to_string(), "d".to_string());
    assert_eq!(store.hosts, strings(&["x"]));
    assert_eq!(store.next_page, 6);
    assert!(store.exhausted);
}

#[test]
fn url_room_checks() {
    assert!(fits_path("https://fofa.info/api/v1/", "/api/v1/search/all"));
    assert!(fits_pair("https://fofa.info/api/v1/search/all", "key", "k"));
    assert!(fits_pair("", "", ""));
}

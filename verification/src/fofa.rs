//! Candidate discovery through the FOFA search API: the query, the search
//! URL, the reading of a response, and the paging loop that collects hosts
//! until it has enough or the results run out.

use base64::Engine;
use vstd::prelude::*;
use vstd::utf8::encode_utf8;

use crate::config::AppConfig;
use crate::hosts::{insert_host, is_sorted_set, non_blank, sorted_set_of, texts};
use crate::text::{decimal, decimal_string, digit, is_blank, is_blank_str, strip_back, strip_end, Strip};
use crate::urls::{
    fits_pair, fits_path, pair_fits, parse_url, path_fits, path_of, url_append_pair, url_parse, url_path, url_set_path, with_path,
    with_query_pair,
};

verus! {

/// The path of the search endpoint, below the API base.
pub const SEARCH_PATH: &'static str = "search/all";

pub const QUERY_HEAD: &'static str = "protocol==\"socks5\" && \"Version:5 Method:No Authentication(0x00)\" && after=\"";

pub const QUERY_TAIL: &'static str = "\" && country=\"CN\"";

/// Why a FOFA fetch failed.
#[derive(Debug)]
pub enum FofaError {
    /// No FOFA key is set.
    MissingKey,
    /// The configured API base is not a URL.
    InvalidApi,
    /// The API reported an error, with its message.
    Api(String),
    /// The search URL would be longer than the 4 GiB that `url::Url` can hold.
    TooLong,
}

/// The search query for SOCKS5 proxies without authentication seen after
/// the date `after` (`YYYY-MM-DD`), in China.
pub open spec fn fofa_query(after: Seq<char>) -> Seq<char> {
    QUERY_HEAD@ + after + QUERY_TAIL@
}

/// How many days back the query looks: at least one.
pub fn query_days(days: i64) -> (d: i64)
    ensures
        d == if days > 1 {
            days
        } else {
            1
        },
{
    if days > 1 {
        days
    } else {
        1
    }
}

/// Most days back a query may look: the date that many days before now lies
/// well inside the range of dates that `chrono` represents (about 262000
/// years either side of year 0), so the date arithmetic cannot overflow.
pub const MAX_QUERY_DAYS: i64 = 90_000_000;

/// Four decimal digits of `n < 10000`, with leading zeros.
pub open spec fn four_digits(n: nat) -> Seq<char> {
    seq![digit(n / 1000), digit((n / 100) % 10), digit((n / 10) % 10), digit(n % 10)]
}

/// Two decimal digits of `n < 100`, with a leading zero.
pub open spec fn two_digits(n: nat) -> Seq<char> {
    seq![digit(n / 10), digit(n % 10)]
}

/// A year as `%Y` writes it: four digits with leading zeros for years 0 to
/// 9999; otherwise a sign, then at least four digits.
pub open spec fn year_text(y: int) -> Seq<char> {
    if 0 <= y <= 9999 {
        four_digits(y as nat)
    } else if y > 9999 {
        seq!['+'] + decimal(y as nat)
    } else if -y <= 9999 {
        seq!['-'] + four_digits((-y) as nat)
    } else {
        seq!['-'] + decimal((-y) as nat)
    }
}

/// The date `y`-`m`-`d` as `%Y-%m-%d` writes it.
pub open spec fn date_text(y: int, m: nat, d: nat) -> Seq<char> {
    year_text(y) + seq!['-'] + two_digits(m) + seq!['-'] + two_digits(d)
}

/// A text that `%Y-%m-%d` writes for some date.
pub open spec fn is_date_text(s: Seq<char>) -> bool {
    exists|y: int, m: nat, d: nat|
        #![trigger date_text(y, m, d)]
        1 <= m <= 12 && 1 <= d <= 31 && s == date_text(y, m, d)
}

/// The number of days in month `m` of year `y` (proleptic Gregorian calendar).
pub open spec fn days_in_month(y: int, m: int) -> int {
    if m == 2 {
        if (y % 4 == 0 && y % 100 != 0) || y % 400 == 0 {
            29
        } else {
            28
        }
    } else if m == 4 || m == 6 || m == 9 || m == 11 {
        30
    } else {
        31
    }
}

/// `y`-`m`-`d` is a date of the proleptic Gregorian calendar.
pub open spec fn is_valid_date(y: int, m: int, d: int) -> bool {
    1 <= m <= 12 && 1 <= d <= days_in_month(y, m)
}

/// The day number of the date `y`-`m`-`d`: how many days it lies after
/// 1970-01-01 (proleptic Gregorian calendar, which repeats every 400 years,
/// that is every 146097 days).
pub open spec fn day_number(y: int, m: int, d: int) -> int {
    let y2 = if m <= 2 {
        y - 1
    } else {
        y
    };
    let era = y2 / 400;
    let yoe = y2 - era * 400;
    let mp = if m > 2 {
        m - 3
    } else {
        m + 9
    };
    let doy = (153 * mp + 2) / 5 + d - 1;
    let doe = yoe * 365 + yoe / 4 - yoe / 100 + doy;
    era * 146097 + doe - 719468
}

/// `s` is the `%Y-%m-%d` text of the date with day number `n`.
pub open spec fn is_text_of_day(s: Seq<char>, n: int) -> bool {
    exists|y: int, m: nat, d: nat|
        #![trigger date_text(y, m, d)]
        is_valid_date(y, m as int, d as int) && s == date_text(y, m, d) && day_number(
            y,
            m as int,
            d as int,
        ) == n
}

/// `s` is the `%Y-%m-%d` text of the date of the local time `local_secs`
/// seconds after 1970-01-01 00:00.
pub open spec fn is_date_at(s: Seq<char>, local_secs: int) -> bool {
    is_text_of_day(s, local_secs / 86400)
}

/// A valid date's text has the `%Y-%m-%d` form.
proof fn lemma_day_text_is_date_text(s: Seq<char>, n: int)
    requires
        is_text_of_day(s, n),
    ensures
        is_date_text(s),
{
    let (y, m, d) = choose|y: int, m: nat, d: nat|
        #![trigger date_text(y, m, d)]
        is_valid_date(y, m as int, d as int) && s == date_text(y, m, d) && day_number(
            y,
            m as int,
            d as int,
        ) == n;
    assert(1 <= m <= 12 && 1 <= d <= 31 && s == date_text(y, m, d));
}

/// The local date `days` days before now
/// (`chrono::Local::now() - chrono::Duration::days(days)`, formatted with
/// `%Y-%m-%d`), with the clock reading it was taken from: the time now in
/// whole seconds since 1970-01-01 00:00 UTC (`DateTime::timestamp`) and the
/// local offset from UTC, in seconds, at the instant `days` days before now
/// (`offset().local_minus_utc()`, which chrono keeps strictly within one
/// day). Chrono subtracts the days on the UTC time line and formats the local
/// date at that instant: the date of the local time `now - 86400 * days +
/// offset` seconds after the epoch, in chrono's proleptic Gregorian
/// calendar, written as `%Y-%m-%d` writes it.
#[verifier::external_body]
fn date_days_ago(days: i64) -> (r: (i64, i32, String))
    requires
        1 <= days <= MAX_QUERY_DAYS,
    ensures
        -86400 < r.1 < 86400,
        is_date_at(r.2@, r.0 - 86400 * days + r.1),
{
    let now = chrono::Local::now();
    let then = now - chrono::Duration::days(days);
    (now.timestamp(), then.offset().local_minus_utc(), then.format("%Y-%m-%d").to_string())
}

/// The date a query looks back to, with the clock reading it comes from.
pub struct DatedAfter {
    /// The time the date was taken at, in seconds since 1970-01-01 00:00 UTC.
    pub now_secs: i64,
    /// The local offset from UTC, in seconds, on the date.
    pub offset_secs: i32,
    /// The date, `%Y-%m-%d`.
    pub after: String,
}

/// The date from which a query looks for hosts, with the clock reading it
/// comes from: the local date `days` days (at least one) before
/// `now_secs`, at the local offset `offset_secs` in force then.
pub fn query_after_dated(days: i64) -> (r: DatedAfter)
    requires
        days <= MAX_QUERY_DAYS,
    ensures
        -86400 < r.offset_secs < 86400,
        is_date_at(
            r.after@,
            r.now_secs - 86400 * (if days > 1 {
                days
            } else {
                1
            }) + r.offset_secs,
        ),
{
    let (now_secs, offset_secs, after) = date_days_ago(query_days(days));
    DatedAfter { now_secs, offset_secs, after }
}

/// The query date is exactly `days` (at least one) calendar days before the
/// date that the clock reading has at the same offset from UTC: its day
/// number is that date's day number less `days`.
pub proof fn law_after_is_days_before(now_secs: int, offset_secs: int, days: int, after: Seq<char>)
    requires
        days >= 1,
        is_date_at(after, now_secs - 86400 * days + offset_secs),
    ensures
        is_text_of_day(after, (now_secs + offset_secs) / 86400 - days),
        is_date_text(after),
{
    assert((now_secs - 86400 * days + offset_secs) / 86400 == (now_secs + offset_secs) / 86400
        - days) by {
        vstd::arithmetic::div_mod::lemma_fundamental_div_mod(now_secs + offset_secs, 86400);
        vstd::arithmetic::div_mod::lemma_fundamental_div_mod_converse(
            now_secs - 86400 * days + offset_secs,
            86400,
            (now_secs + offset_secs) / 86400 - days,
            (now_secs + offset_secs) % 86400,
        );
    }
    lemma_day_text_is_date_text(after, (now_secs + offset_secs) / 86400 - days);
}

/// The date from which a query looks for hosts (`query_after`): `days`
/// days, at least one, before today, written `%Y-%m-%d`; the date with
/// the clock reading it comes from is `query_after_dated`.
pub fn query_after(days: i64) -> (after: String)
    requires
        days <= MAX_QUERY_DAYS,
    ensures
        is_date_text(after@),
{
    let d = query_after_dated(days);
    proof {
        law_after_is_days_before(
            d.now_secs as int,
            d.offset_secs as int,
            if days > 1 {
                days as int
            } else {
                1
            },
            d.after@,
        );
    }
    d.after
}

/// The search query for hosts seen after `after`.
pub fn build_query(after: &str) -> (q: String)
    ensures
        q@ == fofa_query(after@),
{
    let mut q = String::new();
    q.append(QUERY_HEAD);
    q.append(after);
    q.append(QUERY_TAIL);
    q
}

/// The symbol of a six-bit value in the standard base64 alphabet.
pub open spec fn base64_symbol(v: nat) -> char {
    if v < 26 {
        ((65 + v) as u32) as char
    } else if v < 52 {
        ((71 + v) as u32) as char
    } else if v < 62 {
        ((v - 4) as u32) as char
    } else if v == 62 {
        '+'
    } else {
        '/'
    }
}

/// Standard base64 with `=` padding (RFC 4648): each three bytes become four
/// symbols, a final one or two bytes become two or three symbols and padding.
pub open spec fn base64_text(b: Seq<u8>) -> Seq<char>
    decreases b.len(),
{
    if b.len() == 0 {
        Seq::empty()
    } else if b.len() == 1 {
        seq![base64_symbol(b[0] as nat / 4), base64_symbol((b[0] as nat % 4) * 16), '=', '=']
    } else if b.len() == 2 {
        seq![
            base64_symbol(b[0] as nat / 4),
            base64_symbol((b[0] as nat % 4) * 16 + b[1] as nat / 16),
            base64_symbol((b[1] as nat % 16) * 4),
            '=',
        ]
    } else {
        seq![
            base64_symbol(b[0] as nat / 4),
            base64_symbol((b[0] as nat % 4) * 16 + b[1] as nat / 16),
            base64_symbol((b[1] as nat % 16) * 4 + b[2] as nat / 64),
            base64_symbol(b[2] as nat % 64),
        ] + base64_text(b.subrange(3, b.len() as int))
    }
}

/// Encodes bytes in standard base64 with padding
/// (`base64::engine::general_purpose::STANDARD.encode`).
#[verifier::external_body]
fn encode_base64(bytes: &[u8]) -> (s: String)
    requires
        bytes@.len() <= usize::MAX / 2,
    ensures
        s@ == base64_text(bytes@),
{
    base64::engine::general_purpose::STANDARD.encode(bytes)
}

/// The query in base64, as the API takes it (`qbase64`).
pub fn query_base64(query: &str) -> (s: String)
    requires
        encode_utf8(query@).len() <= usize::MAX / 2,
    ensures
        s@ == base64_text(encode_utf8(query@)),
{
    encode_base64(query.as_bytes())
}

/// The path of the search endpoint below the API base path `path`.
pub open spec fn search_path(path: Seq<char>) -> Seq<char> {
    strip_back(path, Strip::Slash) + seq!['/'] + SEARCH_PATH@
}

/// The URL of one page of search results.
pub open spec fn search_url(
    api_base: Seq<char>,
    key: Seq<char>,
    qbase64: Seq<char>,
    size: u32,
    page: u32,
) -> Option<Seq<char>> {
    match url_parse(api_base) {
        None => None,
        Some(u) => {
            let u1 = url_set_path(u, search_path(url_path(u)));
            let u2 = url_append_pair(u1, "key"@, key);
            let u3 = url_append_pair(u2, "qbase64"@, qbase64);
            let u4 = url_append_pair(u3, "size"@, decimal(size as nat));
            let u5 = url_append_pair(u4, "page"@, decimal(page as nat));
            Some(url_append_pair(u5, "fields"@, "host"@))
        },
    }
}

/// Whether each step that builds the search URL has room within the 4 GiB
/// that `url::Url` can hold (`path_fits`, `pair_fits`); meaningful where
/// `api_base` parses.
pub open spec fn search_url_fits(
    api_base: Seq<char>,
    key: Seq<char>,
    qbase64: Seq<char>,
    size: u32,
    page: u32,
) -> bool {
    let u = url_parse(api_base)->Some_0;
    let p = search_path(url_path(u));
    let u1 = url_set_path(u, p);
    let u2 = url_append_pair(u1, "key"@, key);
    let u3 = url_append_pair(u2, "qbase64"@, qbase64);
    let u4 = url_append_pair(u3, "size"@, decimal(size as nat));
    let u5 = url_append_pair(u4, "page"@, decimal(page as nat));
    &&& path_fits(u, p)
    &&& pair_fits(u1, "key"@, key)
    &&& pair_fits(u2, "qbase64"@, qbase64)
    &&& pair_fits(u3, "size"@, decimal(size as nat))
    &&& pair_fits(u4, "page"@, decimal(page as nat))
    &&& pair_fits(u5, "fields"@, "host"@)
}

/// The URL of page `page` of `size` results for the base64 query `qbase64`;
/// an error when the API base is not a URL, or when the URL would not fit
/// the 4 GiB that `url::Url` can hold.
pub fn build_search_url(api_base: &str, key: &str, qbase64: &str, size: u32, page: u32) -> (r:
    Result<String, FofaError>)
    ensures
        match r {
            Ok(u) => search_url(api_base@, key@, qbase64@, size, page) == Some(u@)
                && search_url_fits(api_base@, key@, qbase64@, size, page),
            Err(e) => (search_url(api_base@, key@, qbase64@, size, page) is None && e is InvalidApi)
                || (search_url(api_base@, key@, qbase64@, size, page) is Some
                && !search_url_fits(api_base@, key@, qbase64@, size, page) && e is TooLong),
        },
{
    let base = match parse_url(api_base) {
        Some(u) => u,
        None => {
            return Err(FofaError::InvalidApi);
        },
    };
    let path = path_of(base.as_str());
    let mut new_path = strip_end(path.as_str(), &Strip::Slash);
    new_path.append("/");
    new_path.append(SEARCH_PATH);
    proof {
        assert("/"@ =~= seq!['/']) by {
            reveal_strlit("/");
        }
    }
    if !fits_path(base.as_str(), new_path.as_str()) {
        return Err(FofaError::TooLong);
    }
    let u1 = with_path(base.as_str(), new_path.as_str());
    if !fits_pair(u1.as_str(), "key", key) {
        return Err(FofaError::TooLong);
    }
    let u2 = with_query_pair(u1.as_str(), "key", key);
    if !fits_pair(u2.as_str(), "qbase64", qbase64) {
        return Err(FofaError::TooLong);
    }
    let u3 = with_query_pair(u2.as_str(), "qbase64", qbase64);
    let size_text = decimal_string(size as u64);
    if !fits_pair(u3.as_str(), "size", size_text.as_str()) {
        return Err(FofaError::TooLong);
    }
    let u4 = with_query_pair(u3.as_str(), "size", size_text.as_str());
    let page_text = decimal_string(page as u64);
    if !fits_pair(u4.as_str(), "page", page_text.as_str()) {
        return Err(FofaError::TooLong);
    }
    let u5 = with_query_pair(u4.as_str(), "page", page_text.as_str());
    if !fits_pair(u5.as_str(), "fields", "host") {
        return Err(FofaError::TooLong);
    }
    let u6 = with_query_pair(u5.as_str(), "fields", "host");
    Ok(u6)
}

/// One row of search results: the host alone, or the requested fields.
pub enum FofaResultRow {
    Host(String),
    Fields(Vec<String>),
}

/// A response of the search API.
pub struct FofaResponse {
    pub error: Option<bool>,
    pub errmsg: Option<String>,
    pub results: Option<Vec<FofaResultRow>>,
}

/// The host that a row names: the host, or the first field.
pub open spec fn row_host(r: FofaResultRow) -> Option<Seq<char>> {
    match r {
        FofaResultRow::Host(h) => Some(h@),
        FofaResultRow::Fields(f) => if f@.len() > 0 {
            Some(f@[0]@)
        } else {
            None
        },
    }
}

/// The rows of a response; none when it has no `results`.
pub open spec fn response_rows(r: FofaResponse) -> Seq<FofaResultRow> {
    match r.results {
        Some(v) => v@,
        None => Seq::empty(),
    }
}

/// The hosts that rows name.
pub open spec fn rows_hosts(rows: Seq<FofaResultRow>) -> Set<Seq<char>> {
    Set::new(|h: Seq<char>| exists|k: int| 0 <= k < rows.len() && row_host(#[trigger] rows[k]) == Some(h))
}

/// Whether the API reported an error; the message it gave, or "unknown error".
pub fn check_response(response: &FofaResponse) -> (r: Result<(), FofaError>)
    ensures
        r is Ok <==> response.error != Some(true),
        r matches Err(e) ==> e matches FofaError::Api(m) && m@ == match response.errmsg {
            Some(s) => s@,
            None => "unknown error"@,
        },
{
    match response.error {
        Some(true) => {
            let msg = match &response.errmsg {
                Some(s) => s.clone(),
                None => {
                    let mut m = String::new();
                    m.append("unknown error");
                    m
                },
            };
            Err(FofaError::Api(msg))
        },
        _ => Ok(()),
    }
}

/// The hosts of a response (`parse_hosts`): the host of each row, blank ones
/// left out, sorted, without duplicates.
pub fn parse_hosts(response: FofaResponse) -> (hosts: Vec<String>)
    ensures
        is_sorted_set(texts(hosts@)),
        texts(hosts@).to_set() == non_blank(rows_hosts(response_rows(response))),
{
    let ghost rows = response_rows(response);
    let rows_vec = match response.results {
        Some(v) => v,
        None => Vec::new(),
    };
    let mut firsts: Vec<String> = Vec::new();
    let mut i: usize = 0;
    while i < rows_vec.len()
        invariant
            rows == rows_vec@,
            i <= rows.len(),
            texts(firsts@).to_set() == rows_hosts(rows.take(i as int)),
        decreases rows.len() - i,
    {
        let ghost before = texts(firsts@).to_set();
        let ghost t = rows.take(i + 1);
        let ghost added = row_host(rows[i as int]);
        proof {
            assert(t.drop_last() =~= rows.take(i as int));
            assert(t[i as int] == rows[i as int]);
        }
        match &rows_vec[i] {
            FofaResultRow::Host(h) => {
                let ghost prev = firsts@;
                firsts.push(h.clone());
                proof {
                    assert(texts(firsts@) =~= texts(prev).push(h@));
                    texts(prev).lemma_push_to_set_commute(h@);
                }
            },
            FofaResultRow::Fields(f) => {
                if f.len() > 0 {
                    let ghost prev = firsts@;
                    firsts.push(f[0].clone());
                    proof {
                        assert(texts(firsts@) =~= texts(prev).push(f@[0]@));
                        texts(prev).lemma_push_to_set_commute(f@[0]@);
                    }
                }
            },
        }
        proof {
            assert(texts(firsts@).to_set() == match added {
                Some(x) => before.insert(x),
                None => before,
            });
            assert forall|h: Seq<char>| texts(firsts@).to_set().contains(h) <==> rows_hosts(
                t,
            ).contains(h) by {
                if rows_hosts(t).contains(h) {
                    let k = choose|k: int| 0 <= k < t.len() && row_host(#[trigger] t[k]) == Some(h);
                    if k < i {
                        assert(rows.take(i as int)[k] == t[k]);
                        assert(rows_hosts(rows.take(i as int)).contains(h));
                    }
                }
                if before.contains(h) {
                    let k = choose|k: int| 0 <= k < i && row_host(#[trigger] rows.take(i as int)[k]) == Some(h);
                    assert(t[k] == rows.take(i as int)[k]);
                }
                if added == Some(h) {
                    assert(row_host(t[i as int]) == Some(h));
                }
            }
            assert(texts(firsts@).to_set() =~= rows_hosts(t));
        }
        i = i + 1;
    }
    proof {
        assert(rows.take(i as int) =~= rows);
    }
    sorted_set_of(&firsts)
}

/// Whether a FOFA key is set: fetching needs one.
pub fn check_key(config: &AppConfig) -> (r: Result<(), FofaError>)
    ensures
        r is Ok <==> !is_blank(config.fofa_key@),
        r matches Err(e) ==> e is MissingKey,
{
    if is_blank_str(config.fofa_key.as_str()) {
        Err(FofaError::MissingKey)
    } else {
        Ok(())
    }
}

/// The hosts of one FOFA fetch, with where to go on next time.
pub struct UpstreamStore {
    pub query: String,
    pub after: String,
    pub hosts: Vec<String>,
    /// The page that a later fetch with the same `after` continues at.
    pub next_page: u32,
    /// Whether the results ran out.
    pub exhausted: bool,
}

/// Where fetching stands, as kept between runs in `fofa_state.toml`.
pub struct FofaState {
    pub query_after: String,
    pub next_page: u32,
    pub exhausted: bool,
}

/// The page a fetch for hosts seen after `after` starts at: where the last
/// fetch for the same date stopped, unless that one ran out of results, or
/// else the first page.
pub fn start_page(state: &Option<FofaState>, after: &str) -> (p: u32)
    ensures
        p == match state {
            Some(s) => if s.query_after@ == after@ && !s.exhausted {
                s.next_page
            } else {
                1
            },
            None => 1,
        },
{
    match state {
        Some(s) => {
            let same = match crate::order::compare_text(s.query_after.as_str(), after) {
                crate::order::TextOrder::Same => true,
                _ => false,
            };
            if same && !s.exhausted {
                s.next_page
            } else {
                1
            }
        },
        None => 1,
    }
}

/// The state to keep after a fetch.
pub fn state_of(store: &UpstreamStore) -> (s: FofaState)
    ensures
        s.query_after@ == store.after@,
        s.next_page == store.next_page,
        s.exhausted == store.exhausted,
{
    FofaState {
        query_after: store.after.clone(),
        next_page: store.next_page,
        exhausted: store.exhausted,
    }
}

/// The paging loop of a fetch: pages are requested from the start page on,
/// and their hosts gathered, until `limit` hosts are gathered or a page
/// comes back empty.
pub struct HostFetch {
    hosts: Vec<String>,
    page: u32,
    limit: usize,
    exhausted: bool,
}

impl HostFetch {
    /// The hosts gathered so far.
    pub closed spec fn hosts(&self) -> Seq<Seq<char>> {
        texts(self.hosts@)
    }

    /// The page to request next.
    pub closed spec fn page(&self) -> u32 {
        self.page
    }

    pub closed spec fn limit(&self) -> usize {
        self.limit
    }

    /// Whether a page came back empty.
    pub closed spec fn exhausted(&self) -> bool {
        self.exhausted
    }

    /// The hosts gathered so far are kept sorted and free of duplicates.
    #[verifier::type_invariant]
    spec fn hosts_sorted(self) -> bool {
        is_sorted_set(texts(self.hosts@))
    }

    /// A fetch of up to `limit` hosts from page `start_page` on (page 1 at the least).
    pub fn begin(start_page: u32, limit: usize) -> (f: HostFetch)
        ensures
            f.hosts() == Seq::<Seq<char>>::empty(),
            f.page() == if start_page > 1 {
                start_page
            } else {
                1
            },
            f.limit() == limit,
            !f.exhausted(),
    {
        let f = HostFetch {
            hosts: Vec::new(),
            page: if start_page > 1 {
                start_page
            } else {
                1
            },
            limit,
            exhausted: false,
        };
        proof {
            assert(f.hosts() =~= Seq::<Seq<char>>::empty());
        }
        f
    }

    /// The page to request next, if the fetch goes on.
    pub fn next_page(&self) -> (p: Option<u32>)
        ensures
            p == if !self.exhausted() && self.hosts().len() < self.limit() {
                Some(self.page())
            } else {
                None::<u32>
            },
    {
        if !self.exhausted && self.hosts.len() < self.limit {
            Some(self.page)
        } else {
            None
        }
    }

    /// Takes in the hosts of the page just requested: an empty page ends the
    /// fetch; otherwise its hosts are added in order until `limit` hosts
    /// are gathered, and the next page is the one after.
    pub fn absorb(&mut self, page_hosts: &Vec<String>)
        requires
            !old(self).exhausted(),
            old(self).hosts().len() < old(self).limit(),
            old(self).page() < u32::MAX,
        ensures
            is_sorted_set(final(self).hosts()),
            final(self).limit() == old(self).limit(),
            page_hosts@.len() == 0 ==> final(self).exhausted() && final(self).hosts() == old(
                self,
            ).hosts() && final(self).page() == old(self).page(),
            page_hosts@.len() > 0 ==> !final(self).exhausted() && final(self).page() == old(
                self,
            ).page() + 1 && final(self).hosts().len() <= final(self).limit() && exists|k: int|
                0 <= k <= page_hosts@.len() && final(self).hosts().to_set() == old(
                    self,
                ).hosts().to_set() + texts(page_hosts@).take(k).to_set() && (k
                    == page_hosts@.len() || final(self).hosts().len() == final(self).limit()),
    {
        proof {
            use_type_invariant(&*self);
        }
        if page_hosts.len() == 0 {
            self.exhausted = true;
            return ;
        }
        let ghost ph = texts(page_hosts@);
        let ghost h0 = self.hosts();
        let limit = self.limit;
        let mut hosts: Vec<String> = Vec::new();
        std::mem::swap(&mut hosts, &mut self.hosts);
        let mut i: usize = 0;
        proof {
            assert(ph.take(0).to_set() =~= Set::<Seq<char>>::empty());
            assert(h0.to_set() + ph.take(0).to_set() =~= h0.to_set());
        }
        while i < page_hosts.len() && hosts.len() < limit
            invariant
                ph == texts(page_hosts@),
                i <= ph.len(),
                is_sorted_set(texts(hosts@)),
                texts(hosts@).len() <= limit,
                texts(hosts@).to_set() == h0.to_set() + ph.take(i as int).to_set(),
            decreases ph.len() - i,
        {
            insert_host(&mut hosts, page_hosts[i].clone());
            proof {
                assert(ph.take(i + 1) == ph.take(i as int).push(ph[i as int]));
                ph.take(i as int).lemma_push_to_set_commute(ph[i as int]);
                assert(texts(hosts@).to_set() =~= h0.to_set() + ph.take(i + 1).to_set());
            }
            i = i + 1;
        }
        self.hosts = hosts;
        self.page = self.page + 1;
    }

    /// The result of the fetch, for the query `query` about hosts seen after `after`.
    pub fn finish(self, query: String, after: String) -> (s: UpstreamStore)
        ensures
            texts(s.hosts@) == self.hosts(),
            s.query == query,
            s.after == after,
            s.next_page == self.page(),
            s.exhausted == self.exhausted(),
    {
        UpstreamStore {
            query,
            after,
            hosts: self.hosts,
            next_page: self.page,
            exhausted: self.exhausted,
        }
    }
}

} // verus!

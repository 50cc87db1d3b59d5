use egrex::hosts::{
    contains_host, hosts_without, hosts_without_all, insert_host, merge_hosts, parse_upstreams,
    sorted_set_of, upstreams_text,
};
use egrex::order::{compare_text, TextOrder};
use egrex::text::{decimal_string, is_blank_str, strip_end, trim_to_string, Strip};

fn strings(items: &[&str]) -> Vec<String> {
    items.iter().map(|s| s.to_string()).collect()
}

#[test]
fn parse_upstreams_trims_sorts_and_skips_comments() {
    let content = "b.example:1080\n  a.example:1080  \n# a comment\n\n a.example:1080\r\n\t\n";
    assert_eq!(
        parse_upstreams(content),
        strings(&["a.example:1080", "b.example:1080"])
    );
}

#[test]
fn parse_upstreams_of_empty_text_is_empty() {
    assert!(parse_upstreams("").is_empty());
    assert!(parse_upstreams("\n\n   \n#only comments\n").is_empty());
}

#[test]
fn parse_upstreams_keeps_last_line_without_break() {
    assert_eq!(parse_upstreams("1.2.3.4:1080"), strings(&["1.2.3.4:1080"]));
}

#[test]
fn parse_upstreams_comment_only_after_trim() {
    // A `#` that is not the first non-blank character does not make a comment.
    assert_eq!(parse_upstreams("  #x\nh#1\n"), strings(&["h#1"]));
}

#[test]
fn upstreams_text_ends_each_host_with_a_line_break() {
    assert_eq!(upstreams_text(&strings(&["a:1", "b:2"])), "a:1\nb:2\n");
    assert_eq!(upstreams_text(&Vec::new()), "");
}

#[test]
fn reading_a_written_pool_gives_it_back() {
    let hosts = strings(&["1.1.1.1:1080", "10.0.0.2:9050", "example.org:1080"]);
    assert_eq!(parse_upstreams(&upstreams_text(&hosts)), hosts);
}

#[test]
fn reading_an_unsorted_written_pool_gives_its_sorted_set() {
    let hosts = strings(&["z:1", "a:1", "z:1"]);
    assert_eq!(parse_upstreams(&upstreams_text(&hosts)), strings(&["a:1", "z:1"]));
}

#[test]
fn merge_hosts_unites_sorts_and_drops_blanks() {
    let merged = merge_hosts(strings(&["b:1", "a:1"]), strings(&["c:1", "  ", "a:1", ""]));
    assert_eq!(merged, strings(&["a:1", "b:1", "c:1"]));
}

#[test]
fn merge_hosts_is_symmetric() {
    let a = strings(&["x:1", "m:2", "a:3"]);
    let b = strings(&["m:2", "q:4", " "]);
    assert_eq!(merge_hosts(a.clone(), b.clone()), merge_hosts(b, a));
}

#[test]
fn sorted_set_of_orders_by_bytes() {
    // Upper case letters come before lower case ones, non-ASCII after both.
    let r = sorted_set_of(&strings(&["é", "a", "B", "a", "\t"]));
    assert_eq!(r, strings(&["B", "a", "é"]));
}

#[test]
fn insert_host_places_and_reports() {
    let mut v = strings(&["a", "c"]);
    assert!(insert_host(&mut v, "b".to_string()));
    assert_eq!(v, strings(&["a", "b", "c"]));
    assert!(!insert_host(&mut v, "c".to_string()));
    assert_eq!(v, strings(&["a", "b", "c"]));
    assert!(insert_host(&mut v, "d".to_string()));
    assert_eq!(v, strings(&["a", "b", "c", "d"]));
}

#[test]
fn contains_and_removal() {
    let v = strings(&["a", "b", "a", "c"]);
    assert!(contains_host(&v, "b"));
    assert!(!contains_host(&v, "d"));
    assert_eq!(hosts_without(&v, "a"), strings(&["b", "c"]));
    assert_eq!(hosts_without(&v, "zz"), v);
    assert_eq!(hosts_without_all(&v, &strings(&["a", "c"])), strings(&["b"]));
    assert_eq!(hosts_without_all(&v, &Vec::new()), v);
}

#[test]
fn compare_text_matches_str_order() {
    let samples = ["", "a", "ab", "b", "B", "é", "z", "ä", "aa"];
    for x in samples {
        for y in samples {
            let expected = x.cmp(y);
            let got = compare_text(x, y);
            match (expected, got) {
                (std::cmp::Ordering::Less, TextOrder::Before) => {}
                (std::cmp::Ordering::Equal, TextOrder::Same) => {}
                (std::cmp::Ordering::Greater, TextOrder::After) => {}
                _ => panic!("wrong order for {x:?} and {y:?}"),
            }
        }
    }
}

#[test]
fn blank_texts_are_unicode_whitespace() {
    assert!(is_blank_str(""));
    assert!(is_blank_str(" \t\r\n\u{3000}\u{a0}"));
    assert!(!is_blank_str(" x "));
    for c in ['\u{85}', '\u{2028}', '\u{205f}', '\u{1680}', '\u{200a}'] {
        assert_eq!(is_blank_str(&c.to_string()), c.is_whitespace());
    }
    assert!(!is_blank_str("\u{200b}"));
}

#[test]
fn trimming_functions() {
    let chars: Vec<char> = "  host:1 \n".chars().collect();
    assert_eq!(trim_to_string(&chars), "host:1");
    assert_eq!(strip_end("/api/v1///", &Strip::Slash), "/api/v1");
    assert_eq!(strip_end("/", &Strip::Slash), "");
    assert_eq!(strip_end("[x]]", &Strip::Bracket), "[x");
}

#[test]
fn decimal_strings() {
    assert_eq!(decimal_string(0), "0");
    assert_eq!(decimal_string(1080), "1080");
    assert_eq!(decimal_string(u64::MAX), u64::MAX.to_string());
}

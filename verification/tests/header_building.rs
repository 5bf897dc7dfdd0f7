//! Direct tests of delivery ordering and header joining.

use surf_cookie_middleware::header::{build_cookie_header, sort_for_delivery};
use surf_cookie_middleware::CookieRecord;

fn record(name: &str, value: &str, path: &str) -> CookieRecord {
    CookieRecord {
        name: name.to_string(),
        value: value.to_string(),
        path: path.to_string(),
    }
}

#[test]
fn sort_orders_by_descending_path_length_then_name() {
    let records = vec![
        record("b", "2", "/"),
        record("a", "1", "/"),
        record("z", "3", "/deep/path"),
        record("m", "4", "/deep"),
    ];
    let sorted = sort_for_delivery(records);
    let names: Vec<&str> = sorted.iter().map(|r| r.name.as_str()).collect();
    assert_eq!(names, vec!["z", "m", "a", "b"]);
}

#[test]
fn join_builds_semicolon_separated_pairs() {
    let records = vec![record("a", "1", "/"), record("b", "2", "/")];
    assert_eq!(build_cookie_header(&records), "a=1; b=2");
    assert_eq!(build_cookie_header(&vec![record("only", "one", "/")]), "only=one");
    let none: Vec<CookieRecord> = vec![];
    assert_eq!(build_cookie_header(&none), "");
}

#[test]
fn sort_keeps_duplicate_records() {
    let records = vec![
        record("twin", "same", "/"),
        record("twin", "same", "/"),
    ];
    let sorted = sort_for_delivery(records);
    assert_eq!(sorted.len(), 2);
    assert_eq!(build_cookie_header(&sorted), "twin=same; twin=same");
}

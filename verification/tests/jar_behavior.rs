//! Exchange-level behavior of the jar: the curl cookie walkthroughs,
//! overwrite semantics, matching order, and rejected values.

use cookie_store::CookieStore;
use surf_cookie_middleware::CookieMiddleware;

#[test]
fn curl_cookie_example_1_it_works() {
    let mut mw = CookieMiddleware::new();
    let base = "http://example.com/";

    assert_eq!(mw.cookie_header(base), "");

    let rejected: usize = mw.store_cookies(
        &vec!["CUSTOMER=WILE_E_COYOTE; Path=/".to_string()],
        base,
    );
    assert_eq!(rejected, 0);
    assert_eq!(mw.cookie_header(base), "CUSTOMER=WILE_E_COYOTE");

    mw.store_cookies(
        &vec!["PART_NUMBER=ROCKET_LAUNCHER_0001; Path=/".to_string()],
        base,
    );
    assert_eq!(
        mw.cookie_header(base),
        "CUSTOMER=WILE_E_COYOTE; PART_NUMBER=ROCKET_LAUNCHER_0001"
    );

    mw.store_cookies(&vec!["SHIPPING=FEDEX; Path=/foo".to_string()], base);
    assert_eq!(
        mw.cookie_header(base),
        "CUSTOMER=WILE_E_COYOTE; PART_NUMBER=ROCKET_LAUNCHER_0001"
    );

    assert_eq!(
        mw.cookie_header("http://example.com/foo"),
        "SHIPPING=FEDEX; CUSTOMER=WILE_E_COYOTE; PART_NUMBER=ROCKET_LAUNCHER_0001"
    );
}

#[test]
fn curl_cookie_example_2_it_works() {
    let mut mw = CookieMiddleware::new();
    let base = "http://example.com/";

    mw.store_cookies(
        &vec!["PART_NUMBER=ROCKET_LAUNCHER_0001; Path=/".to_string()],
        base,
    );
    assert_eq!(mw.cookie_header(base), "PART_NUMBER=ROCKET_LAUNCHER_0001");

    mw.store_cookies(
        &vec!["PART_NUMBER=RIDING_ROCKET_0023; Path=/ammo".to_string()],
        base,
    );
    assert_eq!(
        mw.cookie_header("http://example.com/ammo"),
        "PART_NUMBER=RIDING_ROCKET_0023; PART_NUMBER=ROCKET_LAUNCHER_0001"
    );
}

#[test]
fn matching_order_prefers_longer_path() {
    let mut mw = CookieMiddleware::new();
    let base = "http://example.com/";

    mw.store_cookies(&vec!["N=root; Path=/".to_string()], base);
    mw.store_cookies(&vec!["N=deep; Path=/foo".to_string()], base);

    assert_eq!(mw.cookie_header("http://example.com/foo/bar"), "N=deep; N=root");
}

#[test]
fn overwrite_keeps_one_cookie_with_latest_value() {
    let mut mw = CookieMiddleware::new();
    let base = "http://example.com/";

    mw.store_cookies(&vec!["CUSTOMER=FIRST; Path=/".to_string()], base);
    mw.store_cookies(&vec!["CUSTOMER=SECOND; Path=/".to_string()], base);

    let matched = mw.matches(base);
    assert_eq!(matched.len(), 1);
    assert_eq!(matched[0].name, "CUSTOMER");
    assert_eq!(matched[0].value, "SECOND");
    assert_eq!(mw.cookie_header(base), "CUSTOMER=SECOND");
}

#[test]
fn one_malformed_value_does_not_block_the_others() {
    let mut mw = CookieMiddleware::new();
    let base = "http://example.com/";

    let rejected: usize = mw.store_cookies(
        &vec![
            "GOOD_ONE=1; Path=/".to_string(),
            "BAD=1; Domain=somewhere-else.org".to_string(),
            "GOOD_TWO=2; Path=/".to_string(),
        ],
        base,
    );
    assert_eq!(rejected, 1);
    assert_eq!(mw.cookie_header(base), "GOOD_ONE=1; GOOD_TWO=2");
}

#[test]
fn all_values_rejected_against_unparsable_url() {
    let mut mw = CookieMiddleware::new();

    let rejected: usize = mw.store_cookies(
        &vec!["A=1; Path=/".to_string(), "B=2; Path=/".to_string()],
        "not a url",
    );
    assert_eq!(rejected, 2);
    assert_eq!(mw.cookie_header("http://example.com/"), "");
    assert_eq!(mw.cookie_header("not a url"), "");
}

#[test]
fn with_cookie_store_adopts_the_given_jar() {
    let mut mw = CookieMiddleware::with_cookie_store(CookieStore::default());
    let base = "http://example.com/";

    assert_eq!(mw.cookie_header(base), "");
    mw.store_cookies(&vec!["A=1; Path=/".to_string()], base);
    assert_eq!(mw.cookie_header(base), "A=1");
}

#[test]
fn parse_accepts_and_rejects_single_values() {
    let mut mw = CookieMiddleware::new();
    let base = "http://example.com/";

    assert!(mw.parse("A=1; Path=/", base));
    assert!(!mw.parse("B=1; Domain=somewhere-else.org", base));
    assert!(!mw.parse("C=1; Path=/", "not a url"));
    assert_eq!(mw.cookie_header(base), "A=1");
}

#[test]
fn domain_attribute_reaches_subdomains_host_only_does_not() {
    let mut mw = CookieMiddleware::new();
    let base = "http://example.com/";

    mw.store_cookies(&vec!["HOSTONLY=1; Path=/".to_string()], base);
    mw.store_cookies(
        &vec!["SHARED=2; Path=/; Domain=example.com".to_string()],
        base,
    );

    assert_eq!(mw.cookie_header("http://www.example.com/"), "SHARED=2");
    assert_eq!(mw.cookie_header(base), "HOSTONLY=1; SHARED=2");
}

#[test]
fn cookies_do_not_leak_across_hosts() {
    let mut mw = CookieMiddleware::new();

    mw.store_cookies(&vec!["A=1; Path=/".to_string()], "http://example.com/");
    assert_eq!(mw.cookie_header("http://other.org/"), "");
    assert_eq!(mw.cookie_header("http://example.com/"), "A=1");
}

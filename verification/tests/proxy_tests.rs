use netlabs::blacklist::BlackList;
use netlabs::conn_limit::ConnectionLimit;
use netlabs::proxy::{
    cache_filename_of_digest, cache_lookup, expiry_in_range, expiry_time, get_cache_filename,
    is_fresh, route_request, should_store, split_uri, upstream_reply, CacheLookup, RequestRoute,
    UpstreamReply,
};

#[test]
fn cache_filename_is_hex_sha256() {
    assert_eq!(
        get_cache_filename("https://example.com/"),
        "0f115db062b7c0dd030b16878c99dea5c354b49dc37b38eb8846179c7783e9d7"
    );
    assert_eq!(
        get_cache_filename(""),
        "e3b0c44298fc1c149afbf4c8996fb92427ae41e4649b934ca495991b7852b855"
    );
    assert_eq!(get_cache_filename("anything at all").len(), 64);
}

#[test]
fn cache_filename_of_digest_is_lower_hex() {
    assert_eq!(cache_filename_of_digest(&[0xab, 0x01, 0xf0]), "ab01f0");
    assert_eq!(cache_filename_of_digest(&[]), "");
}

#[test]
fn split_absolute_uri() {
    let parts = split_uri(Some("example.com"), Some("/a/b?x=1"), "/a/b", Some("x=1"));
    assert_eq!(parts.host, "example.com");
    assert_eq!(parts.path, "/a/b?x=1");
    assert_eq!(parts.uri, "https://example.com/a/b?x=1");
    let parts = split_uri(Some("example.com"), None, "", None);
    assert_eq!(parts.path, "/");
}

#[test]
fn split_origin_form_uri() {
    let parts = split_uri(None, None, "//example.com/x/y", Some("q=1"));
    assert_eq!(parts.host, "example.com");
    assert_eq!(parts.path, "/x/y?q=1");
    assert_eq!(parts.uri, "https://example.com/x/y?q=1");
    let parts = split_uri(None, None, "/example.com", None);
    assert_eq!(parts.host, "example.com");
    assert_eq!(parts.path, "/");
    assert_eq!(parts.uri, "https://example.com/");
}

#[test]
fn freshness_and_storing() {
    assert!(is_fresh(10, 11));
    assert!(!is_fresh(11, 11));
    assert!(should_store(true, 60, 200));
    assert!(!should_store(false, 60, 200));
    assert!(!should_store(true, 0, 200));
    assert!(!should_store(true, 60, 404));
    assert_eq!(expiry_time(1_000_000_000, 60), 61_000_000_000);
    assert!(expiry_in_range(0, u64::MAX >> 1));
    assert!(!expiry_in_range(0, u64::MAX));
}

#[test]
fn request_decisions() {
    assert_eq!(route_request(true, true), RequestRoute::Blocked);
    assert_eq!(route_request(false, true), RequestRoute::Tunnel);
    assert_eq!(route_request(false, false), RequestRoute::Forward);
    assert_eq!(cache_lookup(true, Some(20), 10), CacheLookup::Hit);
    assert_eq!(cache_lookup(true, Some(20), 20), CacheLookup::Revalidate);
    assert_eq!(cache_lookup(false, Some(20), 10), CacheLookup::Miss);
    assert_eq!(cache_lookup(true, None, 10), CacheLookup::Miss);
    assert_eq!(upstream_reply(304, true, true, 0), UpstreamReply::ServeCached);
    assert_eq!(upstream_reply(304, false, true, 60), UpstreamReply::PassThrough);
    assert_eq!(upstream_reply(200, false, true, 60), UpstreamReply::Store);
    assert_eq!(upstream_reply(200, true, false, 60), UpstreamReply::PassThrough);
}

#[test]
fn blacklist_matches_suffixes() {
    let mut list = BlackList::new();
    assert!(!list.contains_address("example.com"));
    list.add_address("example.com");
    assert!(list.contains_address("example.com"));
    assert!(list.contains_address("www.example.com"));
    assert!(!list.contains_address("example.org"));
    assert!(!list.contains_address("com"));
}

#[test]
fn blacklist_from_text_skips_blank_lines() {
    let mut list = BlackList::new();
    list.add_from_text("  ads.net  \n\n\t\nbad.org\r\n");
    assert!(list.contains_address("cdn.ads.net"));
    assert!(list.contains_address("bad.org"));
    assert!(!list.contains_address("good.org "));
    assert!(!list.contains_address("example.com"));
}

#[test]
fn connection_limit_counts() {
    let mut limit = ConnectionLimit::new();
    assert!(limit.acquire(2));
    assert!(limit.acquire(2));
    assert!(!limit.acquire(2));
    assert_eq!(limit.active_connections(), 2);
    limit.release();
    assert_eq!(limit.active_connections(), 1);
    assert!(limit.acquire(2));
}

use hatrack::text::{is_before, same_text};
use hatrack::time::{Duration, Instant};
use hatrack::util::parse::normalize_addr;
use hatrack::util::upstream_target::{
    trim_trailing_slashes, UpstreamError, UpstreamTarget, UrlParts,
};

#[test]
fn addresses_without_a_host_listen_everywhere() {
    assert_eq!(normalize_addr(":8080"), "0.0.0.0:8080");
    assert_eq!(normalize_addr("127.0.0.1:8080"), "127.0.0.1:8080");
    assert_eq!(normalize_addr("[::1]:80"), "[::1]:80");
    assert_eq!(normalize_addr(""), "");
    assert_eq!(normalize_addr(&normalize_addr(":1")), "0.0.0.0:1");
}

#[test]
fn requests_are_mapped_below_the_upstream_path() {
    let target = UpstreamTarget::parse_url("http://thanos:8081/api/").unwrap();
    assert_eq!(
        target.target_uri(Some("/v1/receive?x=1")),
        "http://thanos:8081/api/v1/receive?x=1"
    );
    assert_eq!(
        target.map_request(Some("/v1/receive?x=1")).unwrap(),
        "http://thanos:8081/api/v1/receive?x=1"
    );
    assert_eq!(target.map_request(None).unwrap(), "http://thanos:8081/api/");
}

#[test]
fn slashes_at_the_end_of_the_upstream_do_not_count() {
    for url in ["http://localhost:9090", "http://localhost:9090/", "HTTP://localhost:9090//"] {
        let target = UpstreamTarget::parse_url(url).unwrap();
        assert_eq!(target.target_uri(Some("/a")), "http://localhost:9090/a");
        assert_eq!(target.target_uri(None), "http://localhost:9090/");
    }
}

#[test]
fn what_is_no_url_is_refused() {
    let error = UpstreamTarget::parse_url("localhost").unwrap_err();
    assert!(matches!(error, UpstreamError::InvalidUrl { .. }));
    assert_eq!(error.to_string(), "relative URL without a base");
    let error = UpstreamTarget::parse_url("http://").unwrap_err();
    assert_eq!(error.to_string(), "empty host");
}

#[test]
fn what_is_no_uri_is_refused() {
    let target = UpstreamTarget::parse_url("http://localhost:9090").unwrap();
    let error = target.map_request(Some("/a b")).unwrap_err();
    assert!(matches!(error, UpstreamError::InvalidUri { .. }));
    assert_eq!(error.to_string(), "invalid uri character");
    let error = target
        .map_request(Some(&"/".repeat(70_000)))
        .unwrap_err();
    assert_eq!(error.to_string(), "uri too long");
    // The parser drops a fragment.
    assert_eq!(
        target.map_request(Some("/a#b")).unwrap(),
        "http://localhost:9090/a"
    );
}

#[test]
fn targets_are_made_of_the_parts_of_a_url() {
    let target = UpstreamTarget::from_parts(&UrlParts {
        scheme: "http".to_string(),
        authority: "user:pw@host:1".to_string(),
        path: "/a//b///".to_string(),
    });
    assert_eq!(target.target_uri(Some("/c")), "http://user:pw@host:1/a//b/c");
}

#[test]
fn requests_keep_their_path_whatever_the_scheme() {
    for (url, mapped) in [
        ("http://thanos/api", "http://thanos/api/a?b=c"),
        ("HTTPS://thanos:8443", "https://thanos:8443/a?b=c"),
        ("ftp://files:2121/base/", "ftp://files:2121/base/a?b=c"),
        ("FOO://Host/p//", "foo://Host/p/a?b=c"),
        ("foo://Host?x#y", "foo://Host/a?b=c"),
        ("file://host/tmp/", "file://host/tmp/a?b=c"),
        // Without an authority of its own, the URL lends the start of its path.
        ("data:text/", "data://text/a?b=c"),
        ("mailto:me@host", "mailto://me@host/a?b=c"),
    ] {
        let target = UpstreamTarget::parse_url(url).unwrap();
        assert_eq!(target.target_uri(Some("/a?b=c")), mapped);
        assert_eq!(target.map_request(Some("/a?b=c")).unwrap(), mapped);
        assert_eq!(
            target.map_request(Some("/a?b=c")).unwrap(),
            target.map_request(Some("/a?b=c")).unwrap()
        );
    }
}

#[test]
fn targets_without_an_authority_map_to_no_uri() {
    for url in ["unix:/run/socket", "file:///tmp"] {
        let target = UpstreamTarget::parse_url(url).unwrap();
        let error = target.map_request(Some("/a")).unwrap_err();
        assert!(matches!(error, UpstreamError::InvalidUri { .. }));
        assert_eq!(error.to_string(), "invalid format");
    }
}

#[test]
fn only_a_scheme_of_http_is_read_in_lower_case() {
    for (scheme, mapped) in [
        ("HTTP", "http://host/a"),
        ("HttpS", "https://host/a"),
        ("FTP", "FTP://host/a"),
    ] {
        let target = UpstreamTarget::from_parts(&UrlParts {
            scheme: scheme.to_string(),
            authority: "host".to_string(),
            path: "/".to_string(),
        });
        assert_eq!(target.map_request(Some("/a")).unwrap(), mapped);
    }
}

#[test]
fn only_trailing_slashes_are_cut() {
    assert_eq!(trim_trailing_slashes(""), "");
    assert_eq!(trim_trailing_slashes("///"), "");
    assert_eq!(trim_trailing_slashes("/é//x/"), "/é//x");
    assert_eq!(trim_trailing_slashes("x"), "x");
}

#[test]
fn text_is_compared_by_its_bytes() {
    assert!(same_text("é", "é"));
    assert!(!same_text("é", "e"));
    assert!(!same_text("a", "ab"));
    assert!(is_before(b"", b"a"));
    assert!(is_before(b"a", b"ab"));
    assert!(is_before(b"ab", b"b"));
    assert!(!is_before(b"b", b"ab"));
    assert!(!is_before(b"a", b"a"));
}

#[test]
fn time_is_counted_in_nanoseconds() {
    assert_eq!(Duration::from_secs(2).nanos, 2_000_000_000);
    assert_eq!(Duration::from_millis(3).nanos, 3_000_000);
    assert_eq!(
        Duration::from_secs(u64::MAX).nanos,
        18_446_744_073_709_551_615_000_000_000
    );
    let early = Instant { nanos: 5 };
    let late = Instant { nanos: 8 };
    assert_eq!(late.duration_since(early), Duration { nanos: 3 });
    assert_eq!(early.duration_since(late), Duration { nanos: 0 });
}

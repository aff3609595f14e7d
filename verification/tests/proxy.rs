use axum::body::Body;
use axum::extract::Request;
use hatrack::http::{
    STATUS_ACCEPTED, STATUS_BAD_GATEWAY, STATUS_BAD_REQUEST, STATUS_FORBIDDEN,
    STATUS_INTERNAL_SERVER_ERROR,
};
use hatrack::metrics::{to_decimal, HttpRequestLabels};
use hatrack::profiles::{
    heap_dump_failed, require_profiling_activated, ProfileParams, ProfileStep,
};
use hatrack::proxy::{
    complete, decide, forward, refusal, Admission, Completion, ProxyAction, ProxyConfig, ProxyPlan,
    UpstreamAnswer,
};
use hatrack::replica_selector::{ReplicaSelector, SelectorError};
use hatrack::time::Instant;
use hatrack::util::upstream_target::{UpstreamError, UpstreamTarget};

fn create_test_config() -> ProxyConfig {
    ProxyConfig {
        upstream_url: UpstreamTarget::parse_url("http://localhost:9090").unwrap(),
        inactive_window_seconds: 30,
        ordinal_grouping_header: "cluster".to_string(),
        ordinal_header: "HATRACK-ORDINAL".to_string(),
        possible_ordinals: vec!["replica-0".to_string(), "replica-1".to_string()],
        allow_passthrough: false,
    }
}

fn create_test_selector(config: &ProxyConfig) -> ReplicaSelector {
    config.build_selector(None).unwrap()
}

fn id_at(selector: &ReplicaSelector, cluster: &str, rank: usize) -> String {
    selector.replicas()[selector.ranked_replica_indices(cluster)[rank]]
        .id
        .clone()
}

fn proxy(
    config: &ProxyConfig,
    selector: &mut ReplicaSelector,
    cluster: Option<&str>,
    ordinal: Option<&str>,
    uri: &str,
) -> ProxyPlan {
    let mut req = Request::builder().uri(uri);
    if let Some(cluster) = cluster {
        req = req.header(&config.ordinal_grouping_header, cluster);
    }
    if let Some(ordinal) = ordinal {
        req = req.header(&config.ordinal_header, ordinal);
    }
    let request = req.body(Body::empty()).unwrap();
    let path_and_query = request.uri().path_and_query().map(|pq| pq.as_str());
    config.plan_request(selector, request.headers(), path_and_query)
}

fn status(plan: &ProxyPlan) -> Option<u16> {
    match plan.action {
        ProxyAction::Respond { status } => Some(status),
        ProxyAction::Forward { .. } => None,
    }
}

fn target(plan: &ProxyPlan) -> Option<&str> {
    match &plan.action {
        ProxyAction::Respond { .. } => None,
        ProxyAction::Forward { uri } => Some(uri),
    }
}

struct ProxyTestCase {
    name: &'static str,
    cluster_header: Option<&'static str>,
    ordinal_header: Option<&'static str>,
    expected_status: u16,
    description: &'static str,
}

#[test]
fn test_proxy_missing_headers_table_driven() {
    let tests = vec![
        ProxyTestCase {
            name: "missing cluster header",
            cluster_header: None,
            ordinal_header: Some("replica-0"),
            expected_status: STATUS_BAD_REQUEST,
            description: "should return BAD_REQUEST when cluster header is missing",
        },
        ProxyTestCase {
            name: "missing ordinal header",
            cluster_header: Some("test-cluster"),
            ordinal_header: None,
            expected_status: STATUS_BAD_REQUEST,
            description: "should return BAD_REQUEST when ordinal header is missing",
        },
        ProxyTestCase {
            name: "missing both headers",
            cluster_header: None,
            ordinal_header: None,
            expected_status: STATUS_BAD_REQUEST,
            description: "should return BAD_REQUEST when both headers are missing",
        },
    ];

    let config = create_test_config();
    let mut selector = create_test_selector(&config);

    for test in tests {
        let plan = proxy(
            &config,
            &mut selector,
            test.cluster_header,
            test.ordinal_header,
            "/test",
        );
        assert_eq!(
            status(&plan),
            Some(test.expected_status),
            "test '{}' failed: {}",
            test.name,
            test.description
        );
        assert!(!plan.passthrough);
    }
    assert_eq!(selector.cluster_count(), 0);
}

#[test]
fn requests_without_headers_pass_through_where_allowed() {
    let mut config = create_test_config();
    config.allow_passthrough = true;
    let mut selector = create_test_selector(&config);

    let plan = proxy(&config, &mut selector, None, None, "/test");
    assert!(plan.passthrough);
    assert_eq!(target(&plan), Some("http://localhost:9090/test"));
    assert_eq!(selector.cluster_count(), 0);

    // One of the headers is not enough.
    let plan = proxy(&config, &mut selector, Some("c"), None, "/test");
    assert_eq!(status(&plan), Some(STATUS_BAD_REQUEST));
    assert!(!plan.passthrough);
    let plan = proxy(&config, &mut selector, None, Some("replica-0"), "/test");
    assert_eq!(status(&plan), Some(STATUS_BAD_REQUEST));
}

#[test]
fn test_proxy_inactive_replica_rejection() {
    let config = create_test_config();
    let mut selector = create_test_selector(&config);

    let cluster = "test-cluster";
    let primary_id = id_at(&selector, cluster, 0);
    let secondary_id = id_at(&selector, cluster, 1);

    // First request from primary should be accepted
    let plan1 = proxy(&config, &mut selector, Some(cluster), Some(&primary_id), "/test");
    assert_ne!(
        status(&plan1),
        Some(STATUS_ACCEPTED),
        "primary replica should not be rejected"
    );
    assert_eq!(target(&plan1), Some("http://localhost:9090/test"));

    // Second request from secondary should be rejected with ACCEPTED status
    let plan2 = proxy(&config, &mut selector, Some(cluster), Some(&secondary_id), "/test");
    assert_eq!(
        status(&plan2),
        Some(STATUS_ACCEPTED),
        "secondary replica should be rejected when primary is active"
    );
}

#[test]
fn test_proxy_multiple_clusters() {
    let config = create_test_config();
    let mut selector = create_test_selector(&config);

    let cluster1 = "cluster-1";
    let cluster2 = "cluster-2";
    let primary1 = id_at(&selector, cluster1, 0);
    let primary2 = id_at(&selector, cluster2, 0);

    let plan1 = proxy(&config, &mut selector, Some(cluster1), Some(&primary1), "/test");
    assert_ne!(
        status(&plan1),
        Some(STATUS_ACCEPTED),
        "cluster1 primary should not be rejected"
    );

    let plan2 = proxy(&config, &mut selector, Some(cluster2), Some(&primary2), "/test");
    assert_ne!(
        status(&plan2),
        Some(STATUS_ACCEPTED),
        "cluster2 primary should not be rejected"
    );

    // Verify both clusters are tracked
    assert_eq!(selector.cluster_count(), 2);
}

#[test]
fn test_proxy_http_methods() {
    let config = create_test_config();
    let mut selector = create_test_selector(&config);

    let cluster = "test-cluster";
    let primary_id = id_at(&selector, cluster, 0);

    for method in ["GET", "POST", "PUT", "DELETE", "PATCH"] {
        let request = Request::builder()
            .method(method)
            .uri("/test")
            .header(&config.ordinal_grouping_header, cluster)
            .header(&config.ordinal_header, primary_id.as_str())
            .body(Body::empty())
            .unwrap();
        let path_and_query = request.uri().path_and_query().map(|pq| pq.as_str());
        let plan = config.plan_request(&mut selector, request.headers(), path_and_query);
        assert_ne!(
            status(&plan),
            Some(STATUS_ACCEPTED),
            "{} request should not be rejected by replica selector",
            method
        );
    }
}

#[test]
fn test_proxy_preserves_request_path() {
    let config = create_test_config();
    let mut selector = create_test_selector(&config);

    let cluster = "test-cluster";
    let primary_id = id_at(&selector, cluster, 0);

    struct PathTestCase {
        name: &'static str,
        path: &'static str,
    }

    let tests = vec![
        PathTestCase {
            name: "simple path",
            path: "/api/v1/metrics",
        },
        PathTestCase {
            name: "path with query",
            path: "/api/v1/query?query=up",
        },
        PathTestCase {
            name: "root path",
            path: "/",
        },
        PathTestCase {
            name: "path with multiple segments",
            path: "/api/v1/targets/metadata",
        },
    ];

    for test in tests {
        let plan = proxy(&config, &mut selector, Some(cluster), Some(&primary_id), test.path);
        let expected = format!("http://localhost:9090{}", test.path);
        assert_eq!(
            target(&plan),
            Some(expected.as_str()),
            "test '{}' failed: upstream path should be preserved",
            test.name
        );
    }
}

#[test]
fn requests_that_map_to_no_uri_are_a_bad_gateway() {
    let mut config = create_test_config();
    config.allow_passthrough = true;
    let mut selector = create_test_selector(&config);
    let request = Request::builder().uri("/").body(Body::empty()).unwrap();
    let plan = config.plan_request_at(
        &mut selector,
        request.headers(),
        Some("/a b"),
        Instant { nanos: 0 },
    );
    assert_eq!(status(&plan), Some(STATUS_BAD_GATEWAY));
    assert!(plan.passthrough);
}

#[test]
fn the_inactive_window_lets_the_next_replica_in() {
    let config = create_test_config();
    let mut selector = create_test_selector(&config);
    let primary = id_at(&selector, "c", 0);
    let secondary = id_at(&selector, "c", 1);
    let secs = |s: u128| Instant {
        nanos: s * 1_000_000_000,
    };
    let c = Some("c");
    assert_eq!(
        decide(&mut selector, false, c, Some(&primary), secs(0)),
        Admission::Active
    );
    assert_eq!(
        decide(&mut selector, false, c, Some(&secondary), secs(30)),
        Admission::Inactive
    );
    assert_eq!(
        decide(&mut selector, false, c, Some(&secondary), secs(31)),
        Admission::Active
    );
    assert_eq!(
        decide(&mut selector, true, None, None, secs(31)),
        Admission::Passthrough
    );
    assert_eq!(
        decide(&mut selector, false, None, None, secs(31)),
        Admission::MissingHeaders
    );
    selector.evict_idle_clusters_at(secs(61));
    assert_eq!(selector.cluster_count(), 1);
    selector.evict_idle_clusters_at(secs(62));
    assert_eq!(selector.cluster_count(), 0);
}

#[test]
fn no_ordinals_make_no_selector() {
    let mut config = create_test_config();
    config.possible_ordinals.clear();
    assert_eq!(
        config.build_selector(None).unwrap_err(),
        SelectorError::NoReplicas
    );
    assert_eq!(create_test_config().replicas().len(), 2);
    assert_eq!(create_test_config().replicas()[1].id, "replica-1");
}

#[test]
fn refusals_have_their_status() {
    assert_eq!(refusal(Admission::Active), None);
    assert_eq!(refusal(Admission::Passthrough), None);
    assert_eq!(refusal(Admission::Inactive), Some(202));
    assert_eq!(refusal(Admission::MissingHeaders), Some(400));
}

#[test]
fn forwarding_needs_a_uri() {
    assert!(matches!(
        forward(Ok("http://h/".to_string())),
        ProxyAction::Forward { uri } if uri == "http://h/"
    ));
    assert!(matches!(
        forward(Err(UpstreamError::InvalidUri {
            message: "invalid uri character".to_string()
        })),
        ProxyAction::Respond { status: 502 }
    ));
}

#[test]
fn upstream_answers_are_relayed_and_counted() {
    assert_eq!(
        complete(Some(404)),
        Completion {
            counted_code: 404,
            answer: UpstreamAnswer::Relay
        }
    );
    assert_eq!(
        complete(None),
        Completion {
            counted_code: 0,
            answer: UpstreamAnswer::Respond { status: 502 }
        }
    );
}

#[test]
fn request_labels_hold_method_and_code() {
    let labels = HttpRequestLabels::for_answer("GET", 200);
    assert_eq!(labels.method, "GET");
    assert_eq!(labels.code, "200");
    let labels = HttpRequestLabels::for_answer("POST", complete(None).counted_code);
    assert_eq!(labels.method, "POST");
    assert_eq!(labels.code, "0");
    assert_eq!(to_decimal(7), "7");
    assert_eq!(to_decimal(10), "10");
    assert_eq!(to_decimal(65535), "65535");
}

#[test]
fn profiles_run_for_ten_seconds_by_default() {
    assert_eq!(ProfileParams { seconds: None }.seconds(), 10);
    assert_eq!(ProfileParams { seconds: Some(0) }.seconds(), 0);
    assert_eq!(ProfileParams { seconds: Some(33) }.seconds(), 33);
}

#[test]
fn profile_failures_say_where_they_happened() {
    assert_eq!(
        ProfileStep::Start.failed("boom"),
        (
            STATUS_INTERNAL_SERVER_ERROR,
            "Profiler init failed: boom".to_string()
        )
    );
    assert_eq!(
        ProfileStep::Report.failed("boom").1,
        "Profile report build failed: boom"
    );
    assert_eq!(
        ProfileStep::Convert.failed("boom").1,
        "pprof generation failed: boom"
    );
    assert_eq!(
        ProfileStep::Encode.failed("boom").1,
        "Profile encoding failed: boom"
    );
    assert_eq!(heap_dump_failed("boom"), (500, "boom".to_string()));
}

#[test]
fn heap_profiles_need_activation() {
    assert_eq!(require_profiling_activated(true), Ok(()));
    assert_eq!(
        require_profiling_activated(false),
        Err((STATUS_FORBIDDEN, "heap profiling not activated".to_string()))
    );
}

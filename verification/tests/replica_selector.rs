use hatrack::metrics::ReplicaSelectorMetrics;
use hatrack::ranking::{hrw_weight, hrw_weights, rank_by_weight};
use hatrack::replica_selector::{ClusterState, Replica, ReplicaSelector, SelectorError};
use hatrack::time::{Duration, Instant};

fn replica(id: &str) -> Replica {
    Replica { id: id.to_string() }
}

fn create_test_replicas() -> Vec<Replica> {
    vec![
        replica("replica-0"),
        replica("replica-1"),
        replica("replica-2"),
    ]
}

fn id_at(selector: &ReplicaSelector, cluster: &str, rank: usize) -> String {
    selector.replicas()[selector.ranked_replica_indices(cluster)[rank]]
        .id
        .clone()
}

fn millis(ms: u64) -> Instant {
    Instant {
        nanos: ms as u128 * 1_000_000,
    }
}

#[test]
fn test_new_requires_at_least_one_replica() {
    let result = ReplicaSelector::new(
        vec![],
        Duration::from_secs(30),
        Duration::from_secs(60),
        None,
    );
    assert!(result.is_err());
    let error = result.unwrap_err();
    assert_eq!(error, SelectorError::NoReplicas);
    assert_eq!(error.to_string(), "at least one replica ordinal is required");
}

#[test]
fn test_new_with_valid_replicas() {
    let replicas = create_test_replicas();
    let result = ReplicaSelector::new(
        replicas,
        Duration::from_secs(30),
        Duration::from_secs(60),
        None,
    );
    assert!(result.is_ok());
    assert_eq!(result.unwrap().cluster_count(), 0);
}

#[test]
fn test_should_accept_initial_primary_replica() {
    let replicas = create_test_replicas();
    let mut selector = ReplicaSelector::new(
        replicas,
        Duration::from_secs(30),
        Duration::from_secs(60),
        None,
    )
    .unwrap();

    let cluster = "test-cluster";
    let primary_id = selector
        .ranked_replica_indices(cluster)
        .first()
        .map(|&idx| selector.replicas()[idx].id.clone())
        .unwrap();

    assert!(selector.should_accept(cluster, &primary_id));
}

#[test]
fn test_should_reject_non_primary_when_primary_active() {
    let replicas = create_test_replicas();
    let mut selector = ReplicaSelector::new(
        replicas,
        Duration::from_secs(30),
        Duration::from_secs(60),
        None,
    )
    .unwrap();

    let cluster = "test-cluster";
    let primary_id = id_at(&selector, cluster, 0);
    let secondary_id = id_at(&selector, cluster, 1);

    // Accept primary first
    assert!(selector.should_accept(cluster, &primary_id));

    // Reject secondary while primary is active
    assert!(!selector.should_accept(cluster, &secondary_id));
}

#[test]
fn test_failover_to_secondary_after_timeout() {
    let silence_timeout = Duration::from_millis(100);
    let mut selector = ReplicaSelector::new(
        create_test_replicas(),
        silence_timeout,
        Duration::from_secs(60),
        None,
    )
    .unwrap();

    let cluster = "test-cluster";
    let primary_id = id_at(&selector, cluster, 0);
    let secondary_id = id_at(&selector, cluster, 1);

    // Accept primary
    assert!(selector.should_accept_at(cluster, &primary_id, millis(0)));

    // Exactly at the timeout the primary is still active
    assert!(!selector.should_accept_at(cluster, &secondary_id, millis(100)));

    // Secondary should now be accepted after primary silence
    assert!(selector.should_accept_at(cluster, &secondary_id, millis(150)));
}

#[test]
fn test_failback_to_primary_after_probation() {
    let silence_timeout = Duration::from_millis(100);
    let mut selector = ReplicaSelector::new(
        create_test_replicas(),
        silence_timeout,
        Duration::from_secs(60),
        None,
    )
    .unwrap();

    let cluster = "test-cluster";
    let primary_id = id_at(&selector, cluster, 0);
    let secondary_id = id_at(&selector, cluster, 1);

    // Accept primary initially
    assert!(selector.should_accept_at(cluster, &primary_id, millis(0)));

    // Timeout and failover to secondary
    assert!(selector.should_accept_at(cluster, &secondary_id, millis(150)));

    // Primary comes back should be accepted during probation
    assert!(selector.should_accept_at(cluster, &primary_id, millis(150)));

    // Secondary should still be accepted during probation
    assert!(selector.should_accept_at(cluster, &secondary_id, millis(150)));

    // Primary should continue being accepted after the probation period
    assert!(selector.should_accept_at(cluster, &primary_id, millis(300)));

    // Secondary should now be rejected
    assert!(!selector.should_accept_at(cluster, &secondary_id, millis(300)));
}

#[test]
fn failback_completes_while_both_talk() {
    let mut selector = ReplicaSelector::new(
        create_test_replicas(),
        Duration::from_millis(100),
        Duration::from_secs(60),
        Some(ReplicaSelectorMetrics::new()),
    )
    .unwrap();

    let cluster = "test-cluster";
    let primary_id = id_at(&selector, cluster, 0);
    let secondary_id = id_at(&selector, cluster, 1);

    assert!(selector.should_accept_at(cluster, &primary_id, millis(0)));
    assert!(selector.should_accept_at(cluster, &secondary_id, millis(150)));
    assert_eq!(selector.metrics().unwrap().failovers, 1);

    // The probation starts, and both replicas are let through.
    assert!(selector.should_accept_at(cluster, &primary_id, millis(151)));
    assert!(selector.should_accept_at(cluster, &secondary_id, millis(200)));
    assert!(selector.should_accept_at(cluster, &primary_id, millis(250)));
    assert!(selector.should_accept_at(cluster, &secondary_id, millis(250)));
    assert_eq!(selector.metrics().unwrap().failbacks, 0);

    // It is over exactly the timeout after it started.
    assert!(selector.should_accept_at(cluster, &primary_id, millis(251)));
    assert!(!selector.should_accept_at(cluster, &secondary_id, millis(252)));
    assert_eq!(selector.metrics().unwrap().failbacks, 1);
    assert_eq!(selector.metrics().unwrap().failovers, 1);
}

#[test]
fn failback_waits_while_both_were_quiet() {
    // Both replicas fall silent together during the probation. The last secondary
    // stays active and the probation starts over.
    let mut selector = ReplicaSelector::new(
        vec![replica("replica-0"), replica("replica-1")],
        Duration::from_millis(100),
        Duration::from_secs(60),
        None,
    )
    .unwrap();
    let primary_id = id_at(&selector, "c", 0);
    let secondary_id = id_at(&selector, "c", 1);
    assert!(selector.should_accept_at("c", &primary_id, millis(0)));
    assert!(selector.should_accept_at("c", &secondary_id, millis(150)));
    assert!(selector.should_accept_at("c", &primary_id, millis(151)));
    assert!(selector.should_accept_at("c", &primary_id, millis(300)));
    assert!(selector.should_accept_at("c", &secondary_id, millis(301)));
    assert!(selector.should_accept_at("c", &primary_id, millis(400)));
    assert!(!selector.should_accept_at("c", &secondary_id, millis(401)));
}

#[test]
fn test_multiple_independent_clusters() {
    let replicas = create_test_replicas();
    let mut selector = ReplicaSelector::new(
        replicas,
        Duration::from_secs(30),
        Duration::from_secs(60),
        None,
    )
    .unwrap();

    let cluster1 = "cluster-1";
    let cluster2 = "cluster-2";

    let primary1 = id_at(&selector, cluster1, 0);
    let primary2 = id_at(&selector, cluster2, 0);

    // Accept primaries for both clusters
    assert!(selector.should_accept(cluster1, &primary1));
    assert!(selector.should_accept(cluster2, &primary2));

    // Verify cluster count
    assert_eq!(selector.cluster_count(), 2);
}

#[test]
fn test_evict_idle_clusters() {
    let idle_ttl = Duration::from_millis(100);
    let mut selector = ReplicaSelector::new(
        create_test_replicas(),
        Duration::from_secs(30),
        idle_ttl,
        Some(ReplicaSelectorMetrics::new()),
    )
    .unwrap();

    let cluster = "test-cluster";
    let primary_id = id_at(&selector, cluster, 0);

    // Create cluster state
    assert!(selector.should_accept_at(cluster, &primary_id, millis(0)));
    assert_eq!(selector.cluster_count(), 1);

    // Touched exactly the idle TTL ago: kept
    selector.evict_idle_clusters_at(millis(100));
    assert_eq!(selector.cluster_count(), 1);
    assert_eq!(selector.metrics().unwrap().idle_evictions, 0);

    // Evict idle clusters
    selector.evict_idle_clusters_at(millis(150));
    assert_eq!(selector.cluster_count(), 0);
    assert_eq!(selector.metrics().unwrap().idle_evictions, 1);
}

#[test]
fn eviction_keeps_the_clusters_that_were_touched() {
    let mut selector = ReplicaSelector::new(
        create_test_replicas(),
        Duration::from_millis(50),
        Duration::from_millis(100),
        None,
    )
    .unwrap();
    let b0 = id_at(&selector, "b", 0);
    let b1 = id_at(&selector, "b", 1);
    assert!(!selector.should_accept_at("a", "nobody", millis(0)));
    assert!(selector.should_accept_at("b", &b0, millis(0)));
    assert!(selector.should_accept_at("b", &b1, millis(80)));
    assert!(!selector.should_accept_at("c", "nobody", millis(90)));
    selector.evict_idle_clusters_at(millis(150));
    assert_eq!(selector.cluster_count(), 2);
    // The cluster that was kept has not forgotten its failover.
    assert!(selector.should_accept_at("b", &b1, millis(120)));
    // The one that was dropped starts with its primary.
    selector.evict_idle_clusters_at(millis(1000));
    assert_eq!(selector.cluster_count(), 0);
    assert!(!selector.should_accept_at("b", &b1, millis(1001)));
}

#[test]
fn eviction_reports_a_change_of_the_count() {
    let mut selector = ReplicaSelector::new(
        create_test_replicas(),
        Duration::from_secs(30),
        Duration::from_secs(3600),
        None,
    )
    .unwrap();
    assert_eq!(selector.evict_and_report(), None);
    selector.should_accept("a", "replica-0");
    assert_eq!(selector.evict_and_report(), None);
    selector.evict_idle_clusters();
    assert_eq!(selector.cluster_count(), 1);

    let mut eager = ReplicaSelector::new(
        create_test_replicas(),
        Duration::from_secs(30),
        Duration::from_secs(0),
        None,
    )
    .unwrap();
    eager.should_accept("a", "replica-0");
    let mut change = None;
    while change.is_none() {
        change = eager.evict_and_report();
    }
    assert_eq!(change, Some((1, 0)));
}

#[test]
fn the_clock_moves_on() {
    // With a timeout of zero the next replica takes over as soon as the clock has
    // moved at all.
    let mut selector = ReplicaSelector::new(
        vec![replica("replica-0"), replica("replica-1")],
        Duration::from_secs(0),
        Duration::from_secs(60),
        None,
    )
    .unwrap();
    let secondary = id_at(&selector, "c", 1);
    let mut accepted = selector.should_accept("c", &secondary);
    while !accepted {
        accepted = selector.should_accept("c", &secondary);
    }
    assert_eq!(selector.cluster_count(), 1);
}

#[test]
fn test_hrw_weight_consistency() {
    let replicas = create_test_replicas();
    let selector = ReplicaSelector::new(
        replicas,
        Duration::from_secs(30),
        Duration::from_secs(60),
        None,
    )
    .unwrap();

    let cluster = "test-cluster";

    // Same cluster should always get same ranking
    let ranked1 = selector.ranked_replica_indices(cluster);
    let ranked2 = selector.ranked_replica_indices(cluster);

    assert_eq!(ranked1, ranked2);
}

#[test]
fn test_hrw_weight_distribution() {
    let replicas = create_test_replicas();
    let selector = ReplicaSelector::new(
        replicas,
        Duration::from_secs(30),
        Duration::from_secs(60),
        None,
    )
    .unwrap();

    // Different clusters should potentially have different primaries
    let mut primary_distribution = std::collections::HashMap::new();

    for i in 0..100 {
        let cluster = format!("cluster-{}", i);
        let ranked = selector.ranked_replica_indices(&cluster);
        let primary_idx = ranked[0];

        *primary_distribution.entry(primary_idx).or_insert(0) += 1;
    }

    // All replicas should get at least some clusters as primary
    assert!(
        primary_distribution.len() >= 2,
        "Expected at least 2 different primaries across 100 clusters"
    );
}

#[test]
fn test_should_accept() {
    let replicas = vec![
        Replica {
            id: "replica-0".to_string(),
        },
        Replica {
            id: "replica-1".to_string(),
        },
    ];

    let mut selector = ReplicaSelector::new(
        replicas,
        Duration::from_secs(30),
        Duration::from_secs(60),
        None,
    )
    .unwrap();

    // Determine primary for cluster-a
    let primary_a = id_at(&selector, "cluster-a", 0);
    let secondary_a = id_at(&selector, "cluster-a", 1);

    struct TestCase {
        name: &'static str,
        cluster: &'static str,
        replica_id: String,
        expected: bool,
    }

    let tests = vec![
        TestCase {
            name: "accept primary replica for cluster-a",
            cluster: "cluster-a",
            replica_id: primary_a.clone(),
            expected: true,
        },
        TestCase {
            name: "reject secondary replica for cluster-a when primary active",
            cluster: "cluster-a",
            replica_id: secondary_a.clone(),
            expected: false,
        },
        TestCase {
            name: "reject unknown replica",
            cluster: "cluster-a",
            replica_id: "unknown-replica".to_string(),
            expected: false,
        },
    ];

    for test in tests {
        let result = selector.should_accept(test.cluster, &test.replica_id);
        assert_eq!(
            result, test.expected,
            "test '{}' failed: expected {}, got {}",
            test.name, test.expected, result
        );
    }
}

#[test]
fn weights_are_hashes_combined() {
    // The XXH3 hashes of no bytes and of the letter a.
    assert_eq!(hrw_weight("", ""), 0);
    assert_eq!(
        hrw_weight("a", ""),
        0xE6C6_32B6_1E96_4E1F ^ 0x2D06_8005_38D3_94C2
    );
    assert_eq!(hrw_weight("a", ""), hrw_weight("", "a"));
    assert_eq!(
        hrw_weights(&[replica("a"), replica("")], "a"),
        vec![0, hrw_weight("a", "")]
    );
}

#[test]
fn ranking_is_by_weight_then_id_then_place() {
    let ids = [
        replica("m"),
        replica("z"),
        replica("a"),
        replica("m"),
        replica("ab"),
    ];
    assert_eq!(rank_by_weight(&ids, &[1, 2, 3, 4, 5]), vec![4, 3, 2, 1, 0]);
    assert_eq!(rank_by_weight(&ids, &[7, 7, 7, 7, 7]), vec![2, 4, 0, 3, 1]);
    assert_eq!(rank_by_weight(&ids, &[7, 9, 7, 9, 7]), vec![3, 1, 2, 4, 0]);
    assert_eq!(rank_by_weight(&[], &[]), Vec::<usize>::new());
    assert_eq!(rank_by_weight(&ids[..1], &[0]), vec![0]);
}

#[test]
fn first_of_a_pair_needs_the_larger_weight() {
    let pair = [replica("a"), replica("b")];
    assert_eq!(rank_by_weight(&pair, &[2, 1]), vec![0, 1]);
    assert_eq!(rank_by_weight(&pair, &[1, 2]), vec![1, 0]);
    assert_eq!(rank_by_weight(&pair, &[1, 1]), vec![1, 0]);
}

#[test]
fn order_does_not_depend_on_the_others() {
    let three = ReplicaSelector::new(
        create_test_replicas(),
        Duration::from_secs(30),
        Duration::from_secs(60),
        None,
    )
    .unwrap();
    let two = ReplicaSelector::new(
        vec![replica("replica-2"), replica("replica-0")],
        Duration::from_secs(30),
        Duration::from_secs(60),
        None,
    )
    .unwrap();
    for i in 0..50 {
        let cluster = format!("cluster-{}", i);
        let of_three: Vec<String> = three
            .ranked_replica_indices(&cluster)
            .into_iter()
            .map(|i| three.replicas()[i].id.clone())
            .filter(|id| id != "replica-1")
            .collect();
        let of_two: Vec<String> = two
            .ranked_replica_indices(&cluster)
            .into_iter()
            .map(|i| two.replicas()[i].id.clone())
            .collect();
        assert_eq!(of_three, of_two);
    }
}

#[test]
fn cluster_walks_down_the_ranking_and_stays_at_the_end() {
    let replicas = create_test_replicas();
    let timeout = Duration::from_millis(10);
    let mut state = ClusterState::new(vec![2, 0, 1], millis(0));
    assert_eq!(state.current_rank(), 0);
    assert!(state.should_accept("replica-2", &replicas, timeout, millis(5)));
    assert!(!state.should_accept("replica-0", &replicas, timeout, millis(15)));
    assert!(state.should_accept("replica-0", &replicas, timeout, millis(16)));
    assert_eq!(state.current_rank(), 1);
    assert!(state.should_accept("replica-1", &replicas, timeout, millis(27)));
    assert_eq!(state.current_rank(), 2);
    assert!(!state.should_accept("replica-0", &replicas, timeout, millis(28)));
    assert!(!state.should_accept("replica-0", &replicas, timeout, millis(100)));
    assert_eq!(state.current_rank(), 2);
    // The primary is let through and takes over after the timeout.
    assert!(state.should_accept("replica-2", &replicas, timeout, millis(101)));
    assert_eq!(state.current_rank(), 2);
    assert!(state.should_accept("replica-1", &replicas, timeout, millis(105)));
    assert!(state.should_accept("replica-2", &replicas, timeout, millis(111)));
    assert_eq!(state.current_rank(), 0);
}

#[test]
fn stale_probation_starts_over() {
    let replicas = create_test_replicas();
    let timeout = Duration::from_millis(10);
    let mut state = ClusterState::new(vec![0, 1, 2], millis(0));
    assert!(state.should_accept("replica-1", &replicas, timeout, millis(11)));
    assert!(state.should_accept("replica-0", &replicas, timeout, millis(12)));
    assert!(state.should_accept("replica-1", &replicas, timeout, millis(20)));
    // The primary was quiet for longer than the timeout.
    assert!(state.should_accept("replica-0", &replicas, timeout, millis(23)));
    assert_eq!(state.current_rank(), 1);

    state.expire_stale_failback(timeout, millis(33));
    assert!(state.should_accept("replica-1", &replicas, timeout, millis(30)));
    assert!(state.should_accept("replica-0", &replicas, timeout, millis(33)));
    assert_eq!(state.current_rank(), 0);

    let mut cleared = ClusterState::new(vec![0, 1, 2], millis(0));
    assert!(cleared.should_accept("replica-1", &replicas, timeout, millis(11)));
    assert!(cleared.should_accept("replica-0", &replicas, timeout, millis(12)));
    cleared.clear_failback();
    assert!(cleared.should_accept("replica-1", &replicas, timeout, millis(20)));
    assert!(cleared.should_accept("replica-0", &replicas, timeout, millis(22)));
    assert_eq!(cleared.current_rank(), 1);

    let mut expired = ClusterState::new(vec![0, 1, 2], millis(0));
    assert!(expired.should_accept("replica-1", &replicas, timeout, millis(11)));
    assert!(expired.should_accept("replica-0", &replicas, timeout, millis(12)));
    expired.expire_stale_failback(timeout, millis(23));
    assert!(expired.should_accept("replica-1", &replicas, timeout, millis(20)));
    assert!(expired.should_accept("replica-0", &replicas, timeout, millis(22)));
    assert_eq!(expired.current_rank(), 1);
}

#[test]
fn with_a_zero_timeout_the_primary_takes_over_at_once() {
    let replicas = create_test_replicas();
    let timeout = Duration::from_secs(0);
    let mut state = ClusterState::new(vec![0, 1, 2], millis(0));
    assert!(state.should_accept("replica-1", &replicas, timeout, millis(1)));
    assert_eq!(state.current_rank(), 1);
    assert!(state.should_accept("replica-0", &replicas, timeout, millis(1)));
    assert_eq!(state.current_rank(), 0);
}

#[test]
fn idle_clusters_are_told_by_their_last_request() {
    let replicas = create_test_replicas();
    let timeout = Duration::from_millis(10);
    let mut state = ClusterState::new(vec![0, 1, 2], millis(0));
    state.should_accept("nobody", &replicas, timeout, millis(7));
    assert!(state.is_live(timeout, millis(17)));
    assert!(!state.is_live(timeout, millis(18)));
    assert!(state.is_live(timeout, millis(0)));
}

#[test]
fn counters_wrap_around() {
    let mut metrics = ReplicaSelectorMetrics {
        failovers: u64::MAX,
        failbacks: 3,
        idle_evictions: u64::MAX - 1,
    };
    metrics.record_failover();
    metrics.record_failback();
    metrics.record_idle_evictions(5);
    assert_eq!(
        metrics,
        ReplicaSelectorMetrics {
            failovers: 0,
            failbacks: 4,
            idle_evictions: 3,
        }
    );
}

#[test]
fn a_single_replica_is_always_active() {
    let mut selector = ReplicaSelector::new(
        vec![replica("only")],
        Duration::from_millis(10),
        Duration::from_secs(60),
        Some(ReplicaSelectorMetrics::new()),
    )
    .unwrap();
    assert!(selector.should_accept_at("c", "only", millis(0)));
    assert!(selector.should_accept_at("c", "only", millis(1000)));
    assert!(!selector.should_accept_at("c", "other", millis(5000)));
    assert_eq!(selector.metrics(), Some(ReplicaSelectorMetrics::new()));
}

use hatrack::ranking::hrw_weight;
use hatrack::replica_selector::{ClusterState, Replica, ReplicaSelector};
use hatrack::time::{Duration, Instant};

fn replicas() -> Vec<Replica> {
    ["r0", "r1", "r2", "r3"]
        .iter()
        .map(|id| Replica { id: id.to_string() })
        .collect()
}

fn selector() -> ReplicaSelector {
    ReplicaSelector::new(
        replicas(),
        Duration::from_millis(100),
        Duration::from_millis(300),
        None,
    )
    .unwrap()
}

fn id_at(selector: &ReplicaSelector, cluster: &str, rank: usize) -> String {
    selector.replicas()[selector.ranked_replica_indices(cluster)[rank]]
        .id
        .clone()
}

fn millis(ms: u64) -> Instant {
    Instant {
        nanos: ms as u128 * 1_000_000,
    }
}

#[test]
fn dropped_requests_leave_no_trace_but_time() {
    // Requests of other replicas do not keep a quiet active replica in place.
    let replicas = replicas();
    let timeout = Duration::from_millis(10);
    let mut state = ClusterState::new(vec![0, 1, 2, 3], millis(0));
    for ms in 1..=10 {
        assert!(!state.should_accept("r2", &replicas, timeout, millis(ms)));
    }
    assert!(state.should_accept("r1", &replicas, timeout, millis(11)));
    // Nor do they end a probation.
    assert!(state.should_accept("r0", &replicas, timeout, millis(12)));
    assert!(!state.should_accept("r2", &replicas, timeout, millis(13)));
    assert!(!state.should_accept("r3", &replicas, timeout, millis(14)));
    assert!(state.should_accept("r1", &replicas, timeout, millis(15)));
    assert!(state.should_accept("r0", &replicas, timeout, millis(22)));
    assert_eq!(state.current_rank(), 0);
}

#[test]
fn a_quiet_secondary_is_dropped_after_the_next_failover() {
    let replicas = replicas();
    let timeout = Duration::from_millis(10);
    let mut state = ClusterState::new(vec![0, 1, 2, 3], millis(0));
    assert!(state.should_accept("r1", &replicas, timeout, millis(11)));
    assert!(!state.should_accept("r1", &replicas, timeout, millis(22)));
    assert_eq!(state.current_rank(), 2);
    assert!(state.should_accept("r2", &replicas, timeout, millis(23)));
    assert!(state.should_accept("r0", &replicas, timeout, millis(23)));
}

#[test]
fn what_happens_in_one_cluster_is_nothing_to_another() {
    let mut together = selector();
    let mut alone = selector();
    let a: Vec<String> = (0..4).map(|r| id_at(&together, "a", r)).collect();
    let b: Vec<String> = (0..4).map(|r| id_at(&together, "b", r)).collect();
    // (cluster b?, rank, time)
    let run = [
        (false, 0, 0),
        (true, 1, 10),
        (true, 0, 20),
        (false, 1, 120),
        (true, 1, 110),
        (false, 0, 130),
        (true, 1, 125),
        (false, 1, 200),
        (true, 2, 300),
        (false, 0, 230),
        (false, 1, 231),
    ];
    for (is_b, rank, ms) in run {
        if is_b {
            together.should_accept_at("b", &b[rank], millis(ms));
        } else {
            let expected = alone.should_accept_at("a", &a[rank], millis(ms));
            let got = together.should_accept_at("a", &a[rank], millis(ms));
            assert_eq!(got, expected);
        }
    }
    assert!(!together.should_accept_at("a", &a[1], millis(232)));
    assert_eq!(together.cluster_count(), 2);
    assert_eq!(alone.cluster_count(), 1);
}

#[test]
fn evictions_between_requests_mix_no_clusters() {
    let mut together = selector();
    let mut alone = selector();
    let a: Vec<String> = (0..4).map(|r| id_at(&together, "a", r)).collect();
    let b: Vec<String> = (0..4).map(|r| id_at(&together, "b", r)).collect();

    let request_a =
        |together: &mut ReplicaSelector, alone: &mut ReplicaSelector, rank: usize, ms: u64| {
            let expected = alone.should_accept_at("a", &a[rank], millis(ms));
            assert_eq!(together.should_accept_at("a", &a[rank], millis(ms)), expected);
            expected
        };
    let evict = |together: &mut ReplicaSelector, alone: &mut ReplicaSelector, ms: u64| {
        together.evict_idle_clusters_at(millis(ms));
        alone.evict_idle_clusters_at(millis(ms));
    };
    assert!(request_a(&mut together, &mut alone, 0, 0));
    together.should_accept_at("b", &b[1], millis(50));
    // The second replica takes over.
    assert!(request_a(&mut together, &mut alone, 1, 101));
    together.should_accept_at("b", &b[0], millis(250));
    evict(&mut together, &mut alone, 300);
    // A cluster that is not idle is kept as it is.
    assert!(request_a(&mut together, &mut alone, 2, 310));
    together.should_accept_at("b", &b[3], millis(600));
    evict(&mut together, &mut alone, 611);
    assert_eq!(together.cluster_count(), 1);
    assert_eq!(alone.cluster_count(), 0);
    together.should_accept_at("b", &b[2], millis(612));
    // One that was dropped starts afresh, with its primary active.
    for (rank, accepted) in [(1, false), (2, false), (0, true)] {
        assert_eq!(alone.should_accept_at("a", &a[rank], millis(620)), accepted);
        assert_eq!(together.should_accept_at("a", &a[rank], millis(620)), accepted);
    }
    assert_eq!(together.cluster_count(), 2);
}

#[test]
fn a_quiet_active_replica_ends_a_probation_even_if_it_stays() {
    let replicas = replicas();
    let timeout = Duration::from_millis(10);
    let mut state = ClusterState::new(vec![0, 1], millis(0));
    assert!(state.should_accept("r1", &replicas, timeout, millis(11)));
    assert!(state.should_accept("r0", &replicas, timeout, millis(12)));
    assert!(state.should_accept("r0", &replicas, timeout, millis(20)));
    // There is none to take over, yet the probation starts again.
    assert!(state.should_accept("r0", &replicas, timeout, millis(22)));
    assert_eq!(state.current_rank(), 1);
    assert!(state.should_accept("r0", &replicas, timeout, millis(31)));
    assert_eq!(state.current_rank(), 1);
    assert!(state.should_accept("r0", &replicas, timeout, millis(32)));
    assert_eq!(state.current_rank(), 0);
}

#[test]
fn the_primary_has_the_largest_weight() {
    let selector = selector();
    for i in 0..50 {
        let cluster = format!("cluster-{}", i);
        let ranked = selector.ranked_replica_indices(&cluster);
        let weight = |i: usize| hrw_weight(&selector.replicas()[i].id, &cluster);
        for &i in &ranked {
            assert!(weight(i) <= weight(ranked[0]));
        }
        let mut sorted = ranked.clone();
        sorted.sort();
        assert_eq!(sorted, vec![0, 1, 2, 3]);
    }
}

#[test]
fn evicting_twice_does_no_more_than_once() {
    let mut selector = selector();
    selector.should_accept_at("a", "r0", millis(0));
    selector.should_accept_at("b", "r0", millis(200));
    selector.evict_idle_clusters_at(millis(400));
    assert_eq!(selector.cluster_count(), 1);
    selector.evict_idle_clusters_at(millis(400));
    assert_eq!(selector.cluster_count(), 1);
    // Counting a cluster once, however often it is heard of.
    selector.should_accept_at("b", "r1", millis(410));
    assert_eq!(selector.cluster_count(), 1);
}

#[test]
fn the_first_request_of_a_cluster_must_be_the_primary() {
    for rank in 0..4 {
        let mut selector = selector();
        let id = id_at(&selector, "new", rank);
        assert_eq!(selector.should_accept_at("new", &id, millis(7)), rank == 0);
    }
}

fn wait() {
    let start = std::time::Instant::now();
    while start.elapsed().as_millis() < 2 {}
}

#[test]
fn the_clock_of_a_selector_never_goes_back() {
    let window = Duration::from_secs(3_600);
    let mut selector = ReplicaSelector::new(replicas(), window, window, None).unwrap();
    let primary = id_at(&selector, "c", 0);
    let secondary = id_at(&selector, "c", 1);
    for _ in 0..100 {
        assert!(selector.should_accept("c", &primary));
        assert!(!selector.should_accept("c", &secondary));
        assert_eq!(selector.evict_and_report(), None);
    }
    // A request at the clock's pace is seen as later than one at its start.
    let mut selector = ReplicaSelector::new(
        replicas(),
        Duration { nanos: 0 },
        Duration { nanos: 0 },
        None,
    )
    .unwrap();
    selector.should_accept_at("c", &primary, millis(0));
    wait();
    assert!(selector.should_accept("c", &secondary));
    wait();
    assert_eq!(selector.evict_and_report(), Some((1, 0)));
}

//! What holds of every selector.

use vstd::prelude::*;
use vstd::utf8::encode_utf8;

use crate::cluster_laws::{law_request_keeps_valid, ReplicaRequest};
use crate::cluster_state::ClusterModel;
use crate::ranking::{
    cluster_ranking, law_cluster_ranked_by_hash, law_ranking_exists, weights_of, xxh3_of,
};
use crate::replica_selector::SelectorModel;
use crate::time::elapsed;

verus! {

/// A request of a replica in a cluster.
pub struct ClusterRequest {
    pub cluster: Seq<char>,
    pub request: ReplicaRequest,
}

impl ClusterModel {
    /// No time that is remembered of the cluster is later than `at`.
    pub open spec fn in_time(self, at: nat) -> bool {
        &&& self.last_seen <= at
        &&& self.last_touched <= at
        &&& self.probation matches Some(p) ==> p.started <= at && p.last_seen <= at
    }
}

impl SelectorModel {
    /// No time that is remembered of a cluster is later than the last reading of the
    /// clock.
    pub open spec fn in_time(self) -> bool {
        forall|cluster: Seq<char>| #[trigger]
            self.clusters.contains_key(cluster) ==> self.clusters[cluster].in_time(
                self.last_reading,
            )
    }

    /// The selector after a run of requests.
    pub open spec fn after_run(self, run: Seq<ClusterRequest>) -> SelectorModel
        decreases run.len(),
    {
        if run.len() == 0 {
            self
        } else {
            self.after_run(run.drop_last()).after_request(
                run.last().cluster,
                run.last().request.id,
                run.last().request.at,
            )
        }
    }
}

/// The requests of one cluster in a run.
pub open spec fn requests_of(run: Seq<ClusterRequest>, cluster: Seq<char>) -> Seq<ReplicaRequest>
    decreases run.len(),
{
    if run.len() == 0 {
        Seq::empty()
    } else if run.last().cluster == cluster {
        requests_of(run.drop_last(), cluster).push(run.last().request)
    } else {
        requests_of(run.drop_last(), cluster)
    }
}

/// What happens to a selector.
pub enum SelectorEvent {
    /// A request comes in.
    Request(ClusterRequest),
    /// Idle clusters are dropped.
    Eviction { at: nat },
    /// The clock is read.
    Reading { at: nat },
}

/// What happens to one cluster.
pub enum ClusterEvent {
    /// One of its replicas sends a request.
    Request(ReplicaRequest),
    /// It is dropped if it is idle.
    Eviction { at: nat },
}

impl SelectorModel {
    pub open spec fn after_event(self, event: SelectorEvent) -> SelectorModel {
        match event {
            SelectorEvent::Request(r) => self.after_request(r.cluster, r.request.id, r.request.at),
            SelectorEvent::Eviction { at } => self.after_eviction(at),
            SelectorEvent::Reading { at } => self.read_at(at),
        }
    }

    /// The selector after all that happened, in that order.
    pub open spec fn after_events(self, events: Seq<SelectorEvent>) -> SelectorModel
        decreases events.len(),
    {
        if events.len() == 0 {
            self
        } else {
            self.after_events(events.drop_last()).after_event(events.last())
        }
    }

    /// The state of a cluster that the selector knows.
    pub open spec fn known(self, cluster: Seq<char>) -> Option<ClusterModel> {
        if self.clusters.contains_key(cluster) {
            Some(self.clusters[cluster])
        } else {
            None
        }
    }

    /// What is known of a cluster after all that happened to it, in that order. A
    /// request makes it known where it is not, and an eviction drops it where it is
    /// idle.
    pub open spec fn known_after(self, cluster: Seq<char>, own: Seq<ClusterEvent>) -> Option<
        ClusterModel,
    >
        decreases own.len(),
    {
        if own.len() == 0 {
            self.known(cluster)
        } else {
            let before = self.known_after(cluster, own.drop_last());
            match own.last() {
                ClusterEvent::Request(r) => {
                    let state = match before {
                        Some(state) => state,
                        None => ClusterModel::fresh(cluster_ranking(self.ids, cluster), r.at),
                    };
                    Some(state.after_request(self.ids, r.id, self.silence_timeout, r.at))
                },
                ClusterEvent::Eviction { at } => match before {
                    Some(state) if elapsed(state.last_touched, at) <= self.idle_ttl => Some(state),
                    _ => None,
                },
            }
        }
    }
}

/// What of all that happened concerns one cluster: its own requests and every eviction.
pub open spec fn events_of(events: Seq<SelectorEvent>, cluster: Seq<char>) -> Seq<ClusterEvent>
    decreases events.len(),
{
    if events.len() == 0 {
        Seq::empty()
    } else {
        let before = events_of(events.drop_last(), cluster);
        match events.last() {
            SelectorEvent::Request(r) => if r.cluster == cluster {
                before.push(ClusterEvent::Request(r.request))
            } else {
                before
            },
            SelectorEvent::Eviction { at } => before.push(ClusterEvent::Eviction { at }),
            SelectorEvent::Reading { .. } => before,
        }
    }
}

/// A cluster that a selector has not heard of is valid once it does.
proof fn cluster_at_valid(m: SelectorModel, cluster: Seq<char>, now: nat)
    requires
        m.wf(),
        m.ids.len() <= usize::MAX,
    ensures
        m.cluster_at(cluster, now).wf(m.ids.len()),
{
    law_ranking_exists(m.ids, weights_of(m.ids, cluster));
}

/// A request keeps a selector valid, and its clusters ranked by weight.
pub proof fn law_request_keeps_selector(
    m: SelectorModel,
    cluster: Seq<char>,
    id: Seq<char>,
    now: nat,
)
    requires
        m.wf(),
        m.ids.len() <= usize::MAX,
    ensures
        m.after_request(cluster, id, now).wf(),
        m.ranked_by_weight() ==> m.after_request(cluster, id, now).ranked_by_weight(),
{
    cluster_at_valid(m, cluster, now);
    law_request_keeps_valid(m.cluster_at(cluster, now), m.ids, id, m.silence_timeout, now);
}

/// Dropping idle clusters keeps a selector valid, and its clusters ranked by
/// weight.
pub proof fn law_eviction_keeps_selector(m: SelectorModel, now: nat)
    requires
        m.wf(),
    ensures
        m.after_eviction(now).wf(),
        m.ranked_by_weight() ==> m.after_eviction(now).ranked_by_weight(),
{
    vstd::set_lib::lemma_len_subset(m.live_clusters(now).dom(), m.clusters.dom());
}

/// Nothing that a selector remembers is later than the last reading of its clock. That
/// holds of a selector that knows no cluster, and what happens at the next reading, a
/// request or the dropping of idle clusters, keeps it so.
pub proof fn law_clock_not_behind(m: SelectorModel, cluster: Seq<char>, id: Seq<char>, now: nat)
    requires
        now >= m.last_reading,
    ensures
        m.clusters == Map::<Seq<char>, ClusterModel>::empty() ==> m.in_time(),
        m.in_time() ==> m.read_at(now).in_time(),
        m.in_time() ==> m.read_at(now).after_request(cluster, id, now).in_time(),
        m.in_time() ==> m.read_at(now).after_eviction(now).in_time(),
{
    if m.in_time() {
        let after = m.read_at(now).after_request(cluster, id, now);
        assert forall|c: Seq<char>| #[trigger]
            after.clusters.contains_key(c) implies after.clusters[c].in_time(now) by {
            if c != cluster {
                assert(m.clusters.contains_key(c));
            }
        }
    }
}

/// The primary of a cluster, which is the first of its ranking, is let through at
/// all times.
pub proof fn law_ranked_primary_accepted(m: SelectorModel, cluster: Seq<char>, now: nat)
    requires
        m.wf(),
        m.ids.len() <= usize::MAX,
        m.ranked_by_weight(),
    ensures
        m.accepts(cluster, m.ids[cluster_ranking(m.ids, cluster)[0] as int], now),
{
}

/// A replica that the selector does not know is dropped at all times.
pub proof fn law_unknown_replica_dropped(
    m: SelectorModel,
    cluster: Seq<char>,
    id: Seq<char>,
    now: nat,
)
    requires
        m.wf(),
        m.ids.len() <= usize::MAX,
        !m.ids.contains(id),
    ensures
        !m.accepts(cluster, id, now),
{
    cluster_at_valid(m, cluster, now);
    crate::cluster_laws::law_unknown_dropped(
        m.cluster_at(cluster, now),
        m.ids,
        id,
        m.silence_timeout,
        now,
    );
}

/// The first request of a cluster is let through exactly if it comes from the
/// primary.
pub proof fn law_first_request(m: SelectorModel, cluster: Seq<char>, id: Seq<char>, now: nat)
    requires
        m.wf(),
        m.ids.len() <= usize::MAX,
        !m.clusters.contains_key(cluster),
    ensures
        m.accepts(cluster, id, now) <==> id == m.ids[cluster_ranking(m.ids, cluster)[0] as int],
{
}

/// While a cluster keeps hearing from its primary, every other replica is dropped.
pub proof fn law_one_active_replica(
    m: SelectorModel,
    cluster: Seq<char>,
    now: nat,
    id: Seq<char>,
    later: nat,
)
    requires
        m.wf(),
        m.ids.len() <= usize::MAX,
        m.ranked_by_weight(),
        m.cluster_at(cluster, now).active_rank(m.silence_timeout, now) == 0,
        elapsed(now, later) <= m.silence_timeout,
    ensures
        ({
            let primary = m.ids[cluster_ranking(m.ids, cluster)[0] as int];
            m.after_request(cluster, primary, now).accepts(cluster, id, later) <==> id == primary
        }),
{
    cluster_at_valid(m, cluster, now);
    crate::cluster_laws::law_secondary_dropped_while_primary_active(
        m.cluster_at(cluster, now),
        m.ids,
        m.silence_timeout,
        now,
        id,
        later,
    );
}

/// Clusters are independent: what happens in one changes nothing for another.
pub proof fn law_clusters_independent(
    m: SelectorModel,
    cluster: Seq<char>,
    id: Seq<char>,
    now: nat,
    other: Seq<char>,
    other_id: Seq<char>,
    later: nat,
)
    requires
        cluster != other,
    ensures
        m.after_request(cluster, id, now).cluster_at(other, later) == m.cluster_at(other, later),
        m.after_request(cluster, id, now).accepts(other, other_id, later) == m.accepts(
            other,
            other_id,
            later,
        ),
{
}

/// However the requests of many clusters are interleaved, each cluster fares as if
/// there were no other.
pub proof fn law_run_by_cluster(m: SelectorModel, run: Seq<ClusterRequest>, cluster: Seq<char>)
    ensures
        ({
            let after = m.after_run(run);
            let own = requests_of(run, cluster);
            &&& after.ids == m.ids
            &&& after.silence_timeout == m.silence_timeout
            &&& own.len() == 0 ==> {
                &&& after.clusters.contains_key(cluster) == m.clusters.contains_key(cluster)
                &&& after.clusters[cluster] == m.clusters[cluster]
            }
            &&& own.len() > 0 ==> {
                &&& after.clusters.contains_key(cluster)
                &&& after.clusters[cluster] == m.cluster_at(cluster, own[0].at).after_run(
                    m.ids,
                    m.silence_timeout,
                    own,
                )
            }
        }),
    decreases run.len(),
{
    if run.len() > 0 {
        let earlier = run.drop_last();
        law_run_by_cluster(m, earlier, cluster);
        if run.last().cluster == cluster {
            let own = requests_of(run, cluster);
            assert(own.drop_last() =~= requests_of(earlier, cluster));
            let start = m.cluster_at(cluster, own[0].at);
            if requests_of(earlier, cluster).len() == 0 {
                assert(start.after_run(m.ids, m.silence_timeout, own.drop_last()) == start);
            }
        }
    }
}

/// However the requests of many clusters and the evictions are interleaved, what is
/// known of a cluster comes of its own requests and of the evictions alone.
pub proof fn law_events_by_cluster(
    m: SelectorModel,
    events: Seq<SelectorEvent>,
    cluster: Seq<char>,
)
    ensures
        ({
            let after = m.after_events(events);
            &&& after.ids == m.ids
            &&& after.silence_timeout == m.silence_timeout
            &&& after.idle_ttl == m.idle_ttl
            &&& after.known(cluster) == m.known_after(cluster, events_of(events, cluster))
        }),
    decreases events.len(),
{
    if events.len() > 0 {
        let earlier = events.drop_last();
        law_events_by_cluster(m, earlier, cluster);
        let before = events_of(earlier, cluster);
        match events.last() {
            SelectorEvent::Request(r) => {
                if r.cluster == cluster {
                    assert(before.push(ClusterEvent::Request(r.request)).drop_last() =~= before);
                }
            },
            SelectorEvent::Eviction { at } => {
                assert(before.push(ClusterEvent::Eviction { at }).drop_last() =~= before);
            },
            SelectorEvent::Reading { .. } => {},
        }
    }
}

/// Two courses of events that are the same for a cluster, by its own requests and by
/// the evictions, leave the cluster the same, and let the same requests of it through.
pub proof fn law_other_clusters_do_not_matter(
    m: SelectorModel,
    events: Seq<SelectorEvent>,
    others: Seq<SelectorEvent>,
    cluster: Seq<char>,
    id: Seq<char>,
    now: nat,
)
    requires
        events_of(events, cluster) == events_of(others, cluster),
    ensures
        m.after_events(events).known(cluster) == m.after_events(others).known(cluster),
        m.after_events(events).cluster_at(cluster, now) == m.after_events(others).cluster_at(
            cluster,
            now,
        ),
        m.after_events(events).accepts(cluster, id, now) == m.after_events(others).accepts(
            cluster,
            id,
            now,
        ),
{
    law_events_by_cluster(m, events, cluster);
    law_events_by_cluster(m, others, cluster);
}

/// Whatever happens to a selector, it stays valid, and its clusters stay ranked by
/// weight.
pub proof fn law_events_keep_selector(m: SelectorModel, events: Seq<SelectorEvent>)
    requires
        m.wf(),
        m.ids.len() <= usize::MAX,
    ensures
        m.after_events(events).wf(),
        m.after_events(events).ids == m.ids,
        m.ranked_by_weight() ==> m.after_events(events).ranked_by_weight(),
    decreases events.len(),
{
    if events.len() > 0 {
        law_events_keep_selector(m, events.drop_last());
        let before = m.after_events(events.drop_last());
        match events.last() {
            SelectorEvent::Request(r) => {
                law_request_keeps_selector(before, r.cluster, r.request.id, r.request.at);
            },
            SelectorEvent::Eviction { at } => {
                law_eviction_keeps_selector(before, at);
            },
            SelectorEvent::Reading { .. } => {},
        }
    }
}

/// A request of a cluster adds the cluster where it was not known, and no other.
pub proof fn law_request_counts_cluster(
    m: SelectorModel,
    cluster: Seq<char>,
    id: Seq<char>,
    now: nat,
)
    requires
        m.wf(),
    ensures
        m.after_request(cluster, id, now).clusters.dom().len() == m.clusters.dom().len() + (
        if m.clusters.contains_key(cluster) {
            0int
        } else {
            1int
        }),
{
}

/// Any request of a cluster, let through or not, keeps it for the idle time and no
/// longer.
pub proof fn law_request_keeps_cluster_alive(
    m: SelectorModel,
    cluster: Seq<char>,
    id: Seq<char>,
    now: nat,
    later: nat,
)
    ensures
        m.after_request(cluster, id, now).after_eviction(later).clusters.contains_key(cluster)
            <==> elapsed(now, later) <= m.idle_ttl,
{
}

/// A cluster that was dropped starts afresh, with its primary active.
pub proof fn law_evicted_cluster_starts_afresh(
    m: SelectorModel,
    cluster: Seq<char>,
    now: nat,
    later: nat,
)
    requires
        !m.after_eviction(now).clusters.contains_key(cluster),
    ensures
        m.after_eviction(now).cluster_at(cluster, later) == ClusterModel::fresh(
            cluster_ranking(m.ids, cluster),
            later,
        ),
{
}

/// A cluster that is kept is kept as it is.
pub proof fn law_eviction_keeps_live(m: SelectorModel, cluster: Seq<char>, now: nat)
    requires
        m.clusters.contains_key(cluster),
        elapsed(m.clusters[cluster].last_touched, now) <= m.idle_ttl,
    ensures
        m.after_eviction(now).clusters.contains_key(cluster),
        m.after_eviction(now).clusters[cluster] == m.clusters[cluster],
{
}

/// Dropping idle clusters twice at the same time does no more than once.
pub proof fn law_eviction_idempotent(m: SelectorModel, now: nat)
    requires
        m.wf(),
    ensures
        m.after_eviction(now).after_eviction(now) == m.after_eviction(now),
{
    let once = m.after_eviction(now);
    assert(once.live_clusters(now) =~= once.clusters);
    assert(once.after_eviction(now) =~= once);
}

/// A request is filed under the whole name of its cluster and no other: the cluster is
/// known from then on, and all others are known or not as they were, and as they were.
/// The replicas, the windows and the clock stay.
pub proof fn law_request_filed_under_its_cluster(
    m: SelectorModel,
    cluster: Seq<char>,
    id: Seq<char>,
    now: nat,
    other: Seq<char>,
)
    ensures
        ({
            let after = m.after_request(cluster, id, now);
            &&& after.clusters.contains_key(cluster)
            &&& other != cluster ==> {
                &&& after.clusters.contains_key(other) <==> m.clusters.contains_key(other)
                &&& after.clusters[other] == m.clusters[other]
            }
            &&& after.ids == m.ids
            &&& after.silence_timeout == m.silence_timeout
            &&& after.idle_ttl == m.idle_ttl
            &&& after.last_reading == m.last_reading
            &&& after.origin == m.origin
        }),
{
}

/// What a known cluster makes of a request is what its own state makes of it, with the
/// replicas and the timeout of the selector.
pub proof fn law_known_cluster_decides(
    m: SelectorModel,
    cluster: Seq<char>,
    id: Seq<char>,
    now: nat,
)
    requires
        m.clusters.contains_key(cluster),
    ensures
        m.accepts(cluster, id, now) == m.clusters[cluster].accepts(
            m.ids,
            id,
            m.silence_timeout,
            now,
        ),
        m.after_request(cluster, id, now).clusters[cluster] == m.clusters[cluster].after_request(
            m.ids,
            id,
            m.silence_timeout,
            now,
        ),
{
}

/// A cluster that was not known starts with the heaviest replica active, whoever asks,
/// and lets that one through and nobody else. What a replica weighs there is the XOR of
/// the hashes of its ordinal and of the name of the cluster. The time of the request is
/// all that is remembered.
pub proof fn law_new_cluster_starts_with_the_heaviest(
    m: SelectorModel,
    cluster: Seq<char>,
    id: Seq<char>,
    now: nat,
)
    requires
        0 < m.ids.len() <= usize::MAX,
        !m.clusters.contains_key(cluster),
    ensures
        ({
            let state = m.after_request(cluster, id, now).clusters[cluster];
            &&& state.rank == 0
            &&& state.last_seen == now
            &&& state.last_touched == now
            &&& state.probation is None
            &&& state.ranked.len() == m.ids.len()
            &&& state.ranked[0] < m.ids.len()
            &&& m.accepts(cluster, id, now) <==> id == m.ids[state.ranked[0] as int]
            &&& forall|a: int, b: int|
                0 <= a < b < state.ranked.len() ==> {
                    let x = m.ids[#[trigger] state.ranked[a] as int];
                    let y = m.ids[#[trigger] state.ranked[b] as int];
                    &&& state.ranked[a] != state.ranked[b]
                    &&& xxh3_of(encode_utf8(x)) ^ xxh3_of(encode_utf8(cluster)) >= xxh3_of(
                        encode_utf8(y),
                    ) ^ xxh3_of(encode_utf8(cluster))
                }
        }),
{
    law_cluster_ranked_by_hash(m.ids, cluster);
}

/// Where counters are kept, a request that moves a cluster down its ranking counts one
/// failover, one that takes it back to its primary one failback, and no request counts
/// anything else. Counters start over behind the end of their range.
pub proof fn law_moves_are_counted(
    m: SelectorModel,
    cluster: Seq<char>,
    id: Seq<char>,
    now: nat,
)
    ensures
        ({
            let after = m.after_request(cluster, id, now);
            let from: nat = if m.clusters.contains_key(cluster) {
                m.clusters[cluster].rank
            } else {
                0
            };
            let to = after.clusters[cluster].rank;
            match (m.metrics, after.metrics) {
                (Some(x), Some(y)) => {
                    &&& to > from && x.failovers < u64::MAX ==> y.failovers == x.failovers + 1
                    &&& to > from && x.failovers == u64::MAX ==> y.failovers == 0
                    &&& to <= from ==> y.failovers == x.failovers
                    &&& from > 0 && to == 0 && x.failbacks < u64::MAX ==> y.failbacks
                        == x.failbacks + 1
                    &&& from > 0 && to == 0 && x.failbacks == u64::MAX ==> y.failbacks == 0
                    &&& from == 0 || to > 0 ==> y.failbacks == x.failbacks
                    &&& y.idle_evictions == x.idle_evictions
                },
                (None, None) => true,
                _ => false,
            }
        }),
{
}

/// Exactly the clusters that were touched no longer ago than the idle time are kept, and
/// as they were. The replicas, the windows and the clock stay.
pub proof fn law_idle_clusters_are_dropped(m: SelectorModel, now: nat, cluster: Seq<char>)
    ensures
        ({
            let after = m.after_eviction(now);
            &&& after.clusters.contains_key(cluster) <==> {
                &&& m.clusters.contains_key(cluster)
                &&& now - m.clusters[cluster].last_touched <= m.idle_ttl
            }
            &&& after.clusters.contains_key(cluster) ==> after.clusters[cluster]
                == m.clusters[cluster]
            &&& after.ids == m.ids
            &&& after.silence_timeout == m.silence_timeout
            &&& after.idle_ttl == m.idle_ttl
            &&& after.last_reading == m.last_reading
            &&& after.origin == m.origin
        }),
{
}

/// Where counters are kept, dropping idle clusters counts each of them once, and nothing
/// else.
pub proof fn law_evictions_are_counted(m: SelectorModel, now: nat)
    requires
        m.wf(),
    ensures
        ({
            let after = m.after_eviction(now);
            let kept = after.clusters.dom().len();
            &&& kept <= m.clusters.dom().len()
            &&& match (m.metrics, after.metrics) {
                (Some(x), Some(y)) => {
                    let sum = x.idle_evictions + m.clusters.dom().len() - kept;
                    &&& y.failovers == x.failovers
                    &&& y.failbacks == x.failbacks
                    &&& sum <= u64::MAX ==> y.idle_evictions == sum
                    &&& sum > u64::MAX ==> (sum - y.idle_evictions)
                        % 0x1_0000_0000_0000_0000 == 0
                },
                (None, None) => true,
                _ => false,
            }
        }),
{
    vstd::set_lib::lemma_len_subset(m.live_clusters(now).dom(), m.clusters.dom());
}

/// A reading of the clock sets the last reading and nothing else.
pub proof fn law_reading_sets_the_clock(m: SelectorModel, now: nat)
    ensures
        ({
            let after = m.read_at(now);
            &&& after.last_reading == now
            &&& after.ids == m.ids
            &&& after.clusters == m.clusters
            &&& after.silence_timeout == m.silence_timeout
            &&& after.idle_ttl == m.idle_ttl
            &&& after.metrics == m.metrics
            &&& after.origin == m.origin
        }),
{
}

/// A replica that has sent nothing for longer than the timeout while it was active gives
/// way to the next of its cluster, and a cluster that nobody sent anything for longer
/// than the idle time is gone, however much later that is.
pub proof fn law_time_has_its_way(
    m: SelectorModel,
    cluster: Seq<char>,
    id: Seq<char>,
    now: nat,
    later: nat,
)
    requires
        m.clusters.contains_key(cluster),
        m.clusters[cluster].rank + 1 < m.clusters[cluster].ranked.len(),
    ensures
        ({
            let s = m.clusters[cluster];
            let next = m.ids[s.ranked[s.rank as int + 1] as int];
            &&& later - s.last_seen > m.silence_timeout ==> m.accepts(cluster, next, later)
            &&& later - now > m.idle_ttl ==> !m.after_request(cluster, id, now).after_eviction(
                later,
            ).clusters.contains_key(cluster)
        }),
{
}

} // verus!

//! Which replica of which cluster is let through.

use dashmap::DashMap;
use vstd::prelude::*;

use crate::cluster_state::{replica_ids, ClusterModel};
pub use crate::cluster_state::{ClusterState, Replica};
use crate::metrics::{counted, ReplicaSelectorMetrics};
use crate::ranking::{cluster_ranking, hrw_weights, is_ranking, rank_by_weight, weights_of};
use crate::time::{
    elapsed, has_passed, law_passed_is_what_the_system_gives, nanos_since, Clock, Duration, Instant,
};

verus! {

/// `dashmap::DashMap`, opaque here. What one holds is [`clusters_of`].
#[verifier::external_type_specification]
#[verifier::external_body]
#[verifier::reject_recursive_types(K)]
#[verifier::reject_recursive_types(V)]
#[verifier::reject_recursive_types(S)]
pub struct ExDashMap<K, V, S>(DashMap<K, V, S>);

/// What a map of clusters holds: the state of each cluster under its name.
pub uninterp spec fn clusters_of(map: DashMap<String, ClusterState>) -> Map<
    Seq<char>,
    ClusterState,
>;

/// `DashMap::new`: a map that holds nothing.
#[verifier::external_body]
fn no_clusters() -> (clusters: DashMap<String, ClusterState>)
    ensures
        clusters_of(clusters) == (Map::<Seq<char>, ClusterState>::empty()),
{
    DashMap::new()
}

/// `DashMap::remove`: takes out the entry under a key, if there is one, and
/// leaves all others.
#[verifier::external_body]
fn take_cluster(map: &mut DashMap<String, ClusterState>, cluster: &str) -> (state: Option<
    ClusterState,
>)
    ensures
        clusters_of(*final(map)) == clusters_of(*old(map)).remove(cluster@),
        match state {
            Some(s) => clusters_of(*old(map)).contains_key(cluster@) && s == clusters_of(
                *old(map),
            )[cluster@],
            None => !clusters_of(*old(map)).contains_key(cluster@),
        },
{
    map.remove(cluster).map(|(_, state)| state)
}

/// `DashMap::insert`: puts an entry under a key, in place of one that was there,
/// and leaves all others.
#[verifier::external_body]
fn put_cluster(map: &mut DashMap<String, ClusterState>, cluster: String, state: ClusterState)
    ensures
        clusters_of(*final(map)) == clusters_of(*old(map)).insert(cluster@, state),
{
    map.insert(cluster, state);
}

/// `DashMap::len`: the number of entries.
#[verifier::external_body]
fn count_clusters(map: &DashMap<String, ClusterState>) -> (count: usize)
    ensures
        count == clusters_of(*map).dom().len(),
{
    map.len()
}

/// `DashMap::retain`: keeps, unchanged, the entries for which `keep` says so, and
/// drops the others.
#[verifier::external_body]
fn retain_clusters<F: Fn(&ClusterState) -> bool>(map: &mut DashMap<String, ClusterState>, keep: F)
    requires
        forall|state: &ClusterState| call_requires(keep, (state,)),
    ensures
        clusters_of(*final(map)).submap_of(clusters_of(*old(map))),
        forall|cluster: Seq<char>| #[trigger]
            clusters_of(*old(map)).contains_key(cluster) ==> call_ensures(
                keep,
                (&clusters_of(*old(map))[cluster],),
                clusters_of(*final(map)).contains_key(cluster),
            ),
{
    map.retain(|_, state| keep(state));
}

/// What a selector knows.
#[verifier::ext_equal]
pub struct SelectorModel {
    /// The ordinals of the replicas.
    pub ids: Seq<Seq<char>>,
    /// The clusters heard of, by name.
    pub clusters: Map<Seq<char>, ClusterModel>,
    pub silence_timeout: nat,
    pub idle_ttl: nat,
    pub metrics: Option<ReplicaSelectorMetrics>,
    /// What the clock of the selector showed last.
    pub last_reading: nat,
    /// The moment that the clock counts from.
    pub origin: std::time::Instant,
}

impl SelectorModel {
    /// There is at least one replica, and the state of every cluster is valid.
    pub open spec fn wf(self) -> bool {
        &&& self.ids.len() > 0
        &&& self.clusters.dom().finite()
        &&& forall|cluster: Seq<char>| #[trigger]
            self.clusters.contains_key(cluster) ==> self.clusters[cluster].wf(self.ids.len())
    }

    /// Every cluster ranks the replicas by their weights.
    pub open spec fn ranked_by_weight(self) -> bool {
        forall|cluster: Seq<char>| #[trigger]
            self.clusters.contains_key(cluster) ==> self.clusters[cluster].ranked
                == cluster_ranking(self.ids, cluster)
    }

    /// The selector once its clock was read at `now`.
    pub open spec fn read_at(self, now: nat) -> SelectorModel {
        SelectorModel { last_reading: now, ..self }
    }

    /// The state of a cluster that is heard from at `now`.
    pub open spec fn cluster_at(self, cluster: Seq<char>, now: nat) -> ClusterModel {
        if self.clusters.contains_key(cluster) {
            self.clusters[cluster]
        } else {
            ClusterModel::fresh(cluster_ranking(self.ids, cluster), now)
        }
    }

    /// Whether a request of a replica in a cluster is let through at `now`.
    pub open spec fn accepts(self, cluster: Seq<char>, id: Seq<char>, now: nat) -> bool {
        self.cluster_at(cluster, now).accepts(self.ids, id, self.silence_timeout, now)
    }

    /// The counters after the rank of the active replica went from `before` to
    /// `after`.
    pub open spec fn metrics_after_move(self, before: nat, after: nat) -> Option<
        ReplicaSelectorMetrics,
    > {
        match self.metrics {
            Some(m) => Some(
                if after > before {
                    ReplicaSelectorMetrics { failovers: counted(m.failovers, 1), ..m }
                } else if before > 0 && after == 0 {
                    ReplicaSelectorMetrics { failbacks: counted(m.failbacks, 1), ..m }
                } else {
                    m
                },
            ),
            None => None,
        }
    }

    /// The selector after a request of a replica in a cluster at `now`.
    pub open spec fn after_request(
        self,
        cluster: Seq<char>,
        id: Seq<char>,
        now: nat,
    ) -> SelectorModel {
        let before = self.cluster_at(cluster, now);
        let after = before.after_request(self.ids, id, self.silence_timeout, now);
        SelectorModel {
            clusters: self.clusters.insert(cluster, after),
            metrics: self.metrics_after_move(before.rank, after.rank),
            ..self
        }
    }

    /// The clusters that were touched no longer than the idle time before `now`.
    pub open spec fn live_clusters(self, now: nat) -> Map<Seq<char>, ClusterModel> {
        Map::new(
            |cluster: Seq<char>|
                self.clusters.contains_key(cluster) && elapsed(
                    self.clusters[cluster].last_touched,
                    now,
                ) <= self.idle_ttl,
            |cluster: Seq<char>| self.clusters[cluster],
        )
    }

    /// The selector after idle clusters were dropped at `now`.
    pub open spec fn after_eviction(self, now: nat) -> SelectorModel {
        let live = self.live_clusters(now);
        let evicted = (self.clusters.dom().len() - live.dom().len()) as nat;
        SelectorModel {
            clusters: live,
            metrics: match self.metrics {
                Some(m) => Some(
                    ReplicaSelectorMetrics {
                        idle_evictions: counted(m.idle_evictions, evicted),
                        ..m
                    },
                ),
                None => None,
            },
            ..self
        }
    }
}

/// Why a selector could not be made.
#[derive(Clone, Copy, Debug, PartialEq, Eq, Structural)]
pub enum SelectorError {
    /// There was no replica to select from.
    NoReplicas,
}

impl SelectorError {
    /// The message for the user.
    pub fn to_string(&self) -> (message: String)
        ensures
            message@ == "at least one replica ordinal is required"@,
    {
        "at least one replica ordinal is required".to_owned()
    }
}

/// Decides for each cluster which replica is active.
#[derive(Debug)]
pub struct ReplicaSelector {
    replicas: Vec<Replica>,
    clusters: DashMap<String, ClusterState>,
    silence_timeout: Duration,
    idle_ttl: Duration,
    metrics: Option<ReplicaSelectorMetrics>,
    clock: Clock,
}

impl View for ReplicaSelector {
    type V = SelectorModel;

    closed spec fn view(&self) -> SelectorModel {
        SelectorModel {
            ids: replica_ids(self.replicas@),
            clusters: clusters_of(self.clusters).map_values(|state: ClusterState| state@),
            silence_timeout: self.silence_timeout@,
            idle_ttl: self.idle_ttl@,
            metrics: self.metrics,
            last_reading: self.clock@,
            origin: self.clock.origin(),
        }
    }
}

impl ReplicaSelector {
    closed spec fn inv(&self) -> bool {
        forall|cluster: Seq<char>| #[trigger]
            clusters_of(self.clusters).contains_key(cluster) ==> clusters_of(
                self.clusters,
            )[cluster].inv()
    }

    /// A valid selector.
    pub closed spec fn wf(&self) -> bool {
        self.inv() && self@.wf()
    }

    /// What is known about a valid selector.
    pub proof fn wf_model(&self)
        requires
            self.wf(),
        ensures
            self@.wf(),
    {
    }

    pub fn new(
        replicas: Vec<Replica>,
        silence_timeout: Duration,
        idle_ttl: Duration,
        metrics: Option<ReplicaSelectorMetrics>,
    ) -> (selector: Result<ReplicaSelector, SelectorError>)
        ensures
            match selector {
                Ok(s) => {
                    &&& replicas@.len() > 0
                    &&& s.wf()
                    &&& s@ == (SelectorModel {
                        ids: replica_ids(replicas@),
                        clusters: Map::empty(),
                        silence_timeout: silence_timeout@,
                        idle_ttl: idle_ttl@,
                        metrics,
                        last_reading: 0,
                        origin: s@.origin,
                    })
                },
                Err(e) => replicas@.len() == 0 && e == SelectorError::NoReplicas,
            },
    {
        if replicas.len() == 0 {
            return Err(SelectorError::NoReplicas);
        }
        let selector = ReplicaSelector {
            replicas,
            clusters: no_clusters(),
            silence_timeout,
            idle_ttl,
            metrics,
            clock: Clock::start(),
        };
        assert(selector@.clusters =~= Map::empty());
        Ok(selector)
    }

    /// The replicas to select from.
    pub fn replicas(&self) -> (replicas: &Vec<Replica>)
        ensures
            replica_ids(replicas@) == self@.ids,
    {
        &self.replicas
    }

    /// The counters, where the selector keeps them.
    pub fn metrics(&self) -> (metrics: Option<ReplicaSelectorMetrics>)
        ensures
            metrics == self@.metrics,
    {
        self.metrics
    }

    /// Reads the clock of the selector, which never goes back. How far it has gone is
    /// left open.
    pub(crate) fn now(&mut self) -> (now: Instant)
        requires
            old(self).wf(),
        ensures
            final(self).wf(),
            now@ >= old(self)@.last_reading,
            final(self)@ == old(self)@.read_at(now@),
            exists|nanos: u128|
                {
                    &&& #[trigger] has_passed(old(self)@.origin, nanos)
                    &&& now.nanos >= nanos
                    &&& now.nanos == nanos || now@ == old(self)@.last_reading
                },
    {
        let now = self.clock.now();
        proof {
            let nanos = choose|nanos: u128|
                {
                    &&& #[trigger] call_ensures(nanos_since, (&old(self).clock.origin(),), nanos)
                    &&& now.nanos >= nanos
                    &&& now.nanos == nanos || now@ == old(self).clock@
                };
            law_passed_is_what_the_system_gives(old(self)@.origin, nanos);
        }
        now
    }

    /// Takes in a request that arrives now and says whether it is let through. Now is
    /// not before the last reading of the clock.
    pub fn should_accept(&mut self, cluster: &str, incoming_replica_id: &str) -> (accepted: bool)
        requires
            old(self).wf(),
        ensures
            final(self).wf(),
            exists|now: Instant, nanos: u128|
                {
                    &&& (#[trigger] now@) >= old(self)@.last_reading
                    &&& #[trigger] has_passed(old(self)@.origin, nanos)
                    &&& now.nanos >= nanos
                    &&& now.nanos == nanos || now@ == old(self)@.last_reading
                    &&& accepted == old(self)@.accepts(cluster@, incoming_replica_id@, now@)
                    &&& final(self)@ == old(self)@.read_at(now@).after_request(
                        cluster@,
                        incoming_replica_id@,
                        now@,
                    )
                },
    {
        let now = self.now();
        self.should_accept_at(cluster, incoming_replica_id, now)
    }

    /// Takes in a request that arrived at `now` and says whether it is let
    /// through.
    pub fn should_accept_at(
        &mut self,
        cluster: &str,
        incoming_replica_id: &str,
        now: Instant,
    ) -> (accepted: bool)
        requires
            old(self).wf(),
        ensures
            final(self).wf(),
            accepted == old(self)@.accepts(cluster@, incoming_replica_id@, now@),
            final(self)@ == old(self)@.after_request(cluster@, incoming_replica_id@, now@),
    {
        let ghost before = self@;
        let mut state = match take_cluster(&mut self.clusters, cluster) {
            Some(state) => state,
            None => ClusterState::new(self.ranked_replica_indices(cluster), now),
        };
        let prev_rank = state.current_rank();
        let accepted = state.should_accept(
            incoming_replica_id,
            self.replicas.as_slice(),
            self.silence_timeout,
            now,
        );
        let rank = state.current_rank();

        if let Some(m) = self.metrics {
            let mut m = m;
            if rank > prev_rank {
                m.record_failover();
            } else if prev_rank > 0 && rank == 0 {
                m.record_failback();
            }
            self.metrics = Some(m);
        }
        put_cluster(&mut self.clusters, cluster.to_owned(), state);
        assert(self@.clusters =~= before.after_request(
            cluster@,
            incoming_replica_id@,
            now@,
        ).clusters);
        accepted
    }

    /// Drops the clusters that are idle now. Now is not before the last reading of the
    /// clock.
    pub fn evict_idle_clusters(&mut self)
        requires
            old(self).wf(),
        ensures
            final(self).wf(),
            exists|now: Instant, nanos: u128|
                {
                    &&& (#[trigger] now@) >= old(self)@.last_reading
                    &&& #[trigger] has_passed(old(self)@.origin, nanos)
                    &&& now.nanos >= nanos
                    &&& now.nanos == nanos || now@ == old(self)@.last_reading
                    &&& final(self)@ == old(self)@.read_at(now@).after_eviction(now@)
                },
    {
        let now = self.now();
        self.evict_idle_clusters_at(now);
    }

    /// Drops the clusters that were last touched longer than the idle time before
    /// `now`.
    pub fn evict_idle_clusters_at(&mut self, now: Instant)
        requires
            old(self).wf(),
        ensures
            final(self).wf(),
            final(self)@ == old(self)@.after_eviction(now@),
    {
        let before = self.cluster_count();
        let idle_ttl = self.idle_ttl;
        let keep = |state: &ClusterState| -> (live: bool)
            ensures
                live == (elapsed(state@.last_touched, now@) <= idle_ttl@),
            { state.is_live(idle_ttl, now) };
        retain_clusters(&mut self.clusters, keep);
        assert(self@.clusters =~= old(self)@.live_clusters(now@));
        proof {
            vstd::set_lib::lemma_len_subset(self@.clusters.dom(), old(self)@.clusters.dom());
            assert forall|cluster: Seq<char>| #[trigger]
                clusters_of(self.clusters).contains_key(cluster) implies clusters_of(
                self.clusters,
            )[cluster].inv() by {
                assert(clusters_of(old(self).clusters).contains_key(cluster));
            }
        }
        let evicted = before.saturating_sub(self.cluster_count()) as u64;
        if let Some(m) = self.metrics {
            let mut m = m;
            if evicted > 0 {
                m.record_idle_evictions(evicted);
            }
            self.metrics = Some(m);
        }
    }

    /// Drops the clusters that are idle now. Where that changed the number of
    /// clusters, the numbers before and after come back.
    pub fn evict_and_report(&mut self) -> (change: Option<(usize, usize)>)
        requires
            old(self).wf(),
        ensures
            final(self).wf(),
            exists|now: Instant, nanos: u128|
                {
                    &&& (#[trigger] now@) >= old(self)@.last_reading
                    &&& #[trigger] has_passed(old(self)@.origin, nanos)
                    &&& now.nanos >= nanos
                    &&& now.nanos == nanos || now@ == old(self)@.last_reading
                    &&& final(self)@ == old(self)@.read_at(now@).after_eviction(now@)
                },
            ({
                let before = old(self)@.clusters.dom().len();
                let after = final(self)@.clusters.dom().len();
                match change {
                    Some(c) => c.0 == before && c.1 == after && before != after,
                    None => before == after,
                }
            }),
    {
        let before = self.cluster_count();
        self.evict_idle_clusters();
        let after = self.cluster_count();
        if before != after {
            Some((before, after))
        } else {
            None
        }
    }

    /// The number of clusters heard of.
    pub fn cluster_count(&self) -> (count: usize)
        ensures
            count == self@.clusters.dom().len(),
    {
        assert(self@.clusters.dom() =~= clusters_of(self.clusters).dom());
        count_clusters(&self.clusters)
    }

    /// The indices of the replicas in the order of their ranks in a cluster.
    pub fn ranked_replica_indices(&self, cluster: &str) -> (ranked: Vec<usize>)
        ensures
            ranked@ == cluster_ranking(self@.ids, cluster@),
            is_ranking(self@.ids, weights_of(self@.ids, cluster@), ranked@),
    {
        let weights = hrw_weights(self.replicas.as_slice(), cluster);
        rank_by_weight(self.replicas.as_slice(), weights.as_slice())
    }
}

} // verus!

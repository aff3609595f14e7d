//! Which replica of one cluster is active, and when that changes.

use vstd::prelude::*;

use crate::text::same_text;
use crate::time::{elapsed, Duration, Instant};

verus! {

/// One member of the replica group, by the ordinal that its requests carry.
#[derive(Debug, Clone)]
pub struct Replica {
    pub id: String,
}

/// The ordinals of a list of replicas.
pub open spec fn replica_ids(replicas: Seq<Replica>) -> Seq<Seq<char>> {
    Seq::new(replicas.len(), |i: int| replicas[i].id@)
}

/// A primary that is back and being watched before it takes over again.
pub struct Probation {
    /// When the primary first reappeared.
    pub started: nat,
    /// When the primary was last heard from.
    pub last_seen: nat,
}

/// What is known about one cluster.
///
/// Replicas are ranked, best first, by their indices in the list of replicas.
/// The replica at rank 0 is the primary, the one at `rank` the active replica.
#[verifier::ext_equal]
pub struct ClusterModel {
    pub rank: nat,
    pub last_seen: nat,
    pub last_touched: nat,
    pub probation: Option<Probation>,
    pub ranked: Seq<usize>,
}

impl ClusterModel {
    /// A cluster that is first heard of at `now`: its primary is active.
    pub open spec fn fresh(ranked: Seq<usize>, now: nat) -> ClusterModel {
        ClusterModel { rank: 0, last_seen: now, last_touched: now, probation: None, ranked }
    }

    /// The ranks stand for replicas out of a list of `count`, one of them is
    /// active, and only a primary that is not active is on probation.
    pub open spec fn wf(self, count: nat) -> bool {
        &&& self.rank < self.ranked.len()
        &&& forall|i: int| 0 <= i < self.ranked.len() ==> (#[trigger] self.ranked[i]) < count
        &&& self.rank == 0 ==> self.probation is None
    }

    /// The ordinal of the replica at a rank.
    pub open spec fn id_at(self, ids: Seq<Seq<char>>, rank: nat) -> Seq<char> {
        ids[self.ranked[rank as int] as int]
    }

    /// Whether the active replica has gone quiet.
    pub open spec fn is_silent(self, timeout: nat, now: nat) -> bool {
        elapsed(self.last_seen, now) > timeout
    }

    /// The rank that is active at `now`: one further down the ranking, as far as
    /// there is one, where the active replica has gone quiet.
    pub open spec fn active_rank(self, timeout: nat, now: nat) -> nat {
        if self.is_silent(timeout, now) && self.rank + 1 < self.ranked.len() {
            self.rank + 1
        } else {
            self.rank
        }
    }

    /// The probation that is still running at `now`: an active replica that has gone
    /// quiet ends it, whether or not another takes its place, and so does a primary
    /// that has gone quiet again.
    pub open spec fn running_probation(self, timeout: nat, now: nat) -> Option<Probation> {
        match self.probation {
            Some(p) if !self.is_silent(timeout, now) && elapsed(p.last_seen, now) <= timeout
                => Some(p),
            _ => None,
        }
    }

    /// Whether a request of the replica `id` is let through at `now`: it is if
    /// it comes from the primary or from the active replica.
    pub open spec fn accepts(
        self,
        ids: Seq<Seq<char>>,
        id: Seq<char>,
        timeout: nat,
        now: nat,
    ) -> bool {
        ||| id == self.id_at(ids, 0)
        ||| id == self.id_at(ids, self.active_rank(timeout, now))
    }

    /// The cluster at `now`, before the request that came in is looked at.
    pub open spec fn refreshed(self, timeout: nat, now: nat) -> ClusterModel {
        ClusterModel {
            rank: self.active_rank(timeout, now),
            last_seen: if self.is_silent(timeout, now) {
                now
            } else {
                self.last_seen
            },
            last_touched: now,
            probation: self.running_probation(timeout, now),
            ranked: self.ranked,
        }
    }

    /// The primary is active, and was heard from at `now`.
    pub open spec fn primary_active(self, now: nat) -> ClusterModel {
        ClusterModel { rank: 0, last_seen: now, probation: None, ..self }
    }

    /// The cluster after a request of the replica `id` at `now`.
    ///
    /// A primary that is not active goes on probation, and takes over again once
    /// the probation has lasted for the timeout. The active replica is marked as
    /// heard from. A request of any other replica leaves no trace but the time.
    pub open spec fn after_request(
        self,
        ids: Seq<Seq<char>>,
        id: Seq<char>,
        timeout: nat,
        now: nat,
    ) -> ClusterModel {
        let s = self.refreshed(timeout, now);
        if id == s.id_at(ids, 0) {
            let started = match s.probation {
                Some(p) => p.started,
                None => now,
            };
            if s.rank == 0 || elapsed(started, now) >= timeout {
                s.primary_active(now)
            } else {
                ClusterModel { probation: Some(Probation { started, last_seen: now }), ..s }
            }
        } else if id == s.id_at(ids, s.rank) {
            ClusterModel { last_seen: now, ..s }
        } else {
            s
        }
    }
}

/// The state of one cluster.
#[derive(Debug)]
pub struct ClusterState {
    current_rank: usize,
    last_seen: Instant,
    last_touched: Instant,
    /// When the primary first reappeared during failback probation.
    failback_started: Option<Instant>,
    /// Last time the primary was accepted while a secondary is still active.
    failback_primary_last_seen: Option<Instant>,
    /// Ranked replica indices for this cluster.
    ranked_indices: Vec<usize>,
}

impl View for ClusterState {
    type V = ClusterModel;

    closed spec fn view(&self) -> ClusterModel {
        ClusterModel {
            rank: self.current_rank as nat,
            last_seen: self.last_seen@,
            last_touched: self.last_touched@,
            probation: match (self.failback_started, self.failback_primary_last_seen) {
                (Some(started), Some(last)) => Some(
                    Probation { started: started@, last_seen: last@ },
                ),
                _ => None,
            },
            ranked: self.ranked_indices@,
        }
    }
}

impl ClusterState {
    /// The two readings that make up a probation come and go together.
    pub closed spec fn inv(&self) -> bool {
        self.failback_started is Some <==> self.failback_primary_last_seen is Some
    }

    /// A valid state for a cluster of `count` replicas.
    pub open spec fn wf(&self, count: nat) -> bool {
        self.inv() && self@.wf(count)
    }

    /// A cluster that is first heard of at `now`.
    pub fn new(ranked_indices: Vec<usize>, now: Instant) -> (state: ClusterState)
        ensures
            state.inv(),
            state@ == ClusterModel::fresh(ranked_indices@, now@),
    {
        ClusterState {
            current_rank: 0,
            last_seen: now,
            last_touched: now,
            failback_started: None,
            failback_primary_last_seen: None,
            ranked_indices,
        }
    }

    /// The rank of the active replica.
    pub fn current_rank(&self) -> (rank: usize)
        ensures
            rank == self@.rank,
    {
        self.current_rank
    }

    /// Ends a probation.
    pub fn clear_failback(&mut self)
        ensures
            final(self).inv(),
            final(self)@ == (ClusterModel { probation: None, ..old(self)@ }),
    {
        self.failback_started = None;
        self.failback_primary_last_seen = None;
    }

    /// Ends a probation in which the primary has gone quiet again.
    pub fn expire_stale_failback(&mut self, silence_timeout: Duration, now: Instant)
        requires
            old(self).inv(),
        ensures
            final(self).inv(),
            final(self)@ == (ClusterModel {
                probation: match old(self)@.probation {
                    Some(p) if elapsed(p.last_seen, now@) <= silence_timeout@ => Some(p),
                    _ => None,
                },
                ..old(self)@
            }),
    {
        if let Some(last) = self.failback_primary_last_seen {
            if now.duration_since(last).nanos > silence_timeout.nanos {
                self.clear_failback();
            }
        }
    }

    /// Whether the cluster was last touched at most `ttl` before `now`.
    pub fn is_live(&self, ttl: Duration, now: Instant) -> (live: bool)
        ensures
            live == (elapsed(self@.last_touched, now@) <= ttl@),
    {
        now.duration_since(self.last_touched).nanos <= ttl.nanos
    }

    /// Takes in a request that arrived at `now` and says whether it is let
    /// through. One reading of the clock serves the whole decision.
    pub fn should_accept(
        &mut self,
        incoming_replica_id: &str,
        replicas: &[Replica],
        silence_timeout: Duration,
        now: Instant,
    ) -> (accepted: bool)
        requires
            old(self).wf(replicas@.len()),
        ensures
            final(self).wf(replicas@.len()),
            accepted == old(self)@.accepts(
                replica_ids(replicas@),
                incoming_replica_id@,
                silence_timeout@,
                now@,
            ),
            final(self)@ == old(self)@.after_request(
                replica_ids(replicas@),
                incoming_replica_id@,
                silence_timeout@,
                now@,
            ),
    {
        self.last_touched = now;

        // If the active replica has gone quiet, move to the next ranked replica.
        if now.duration_since(self.last_seen).nanos > silence_timeout.nanos {
            if self.current_rank < self.ranked_indices.len() - 1 {
                self.current_rank = self.current_rank + 1;
            }
            self.last_seen = now;
            self.clear_failback();
        }
        if self.current_rank > 0 {
            self.expire_stale_failback(silence_timeout, now);
        }
        let primary_replica: &str = replicas[self.ranked_indices[0]].id.as_str();
        let active_replica: &str = replicas[self.ranked_indices[self.current_rank]].id.as_str();

        // Prefer the primary if it comes back.
        if same_text(incoming_replica_id, primary_replica) {
            if self.current_rank == 0 {
                self.last_seen = now;
                self.clear_failback();
                return true;
            }
            // Accept the primary during probation, so both replicas may forward briefly.

            let restart = match self.failback_primary_last_seen {
                None => true,
                Some(last) => now.duration_since(last).nanos > silence_timeout.nanos,
            };
            if restart {
                self.failback_started = Some(now);
            }
            self.failback_primary_last_seen = Some(now);

            if let Some(started) = self.failback_started {
                if now.duration_since(started).nanos >= silence_timeout.nanos {
                    self.current_rank = 0;
                    self.last_seen = now;
                    self.clear_failback();
                }
            }
            return true;
        }
        if same_text(incoming_replica_id, active_replica) {
            self.last_seen = now;
            true
        } else {
            false
        }
    }
}

} // verus!

//! What holds of every cluster, over one request and over many.

use vstd::prelude::*;

use crate::cluster_state::{replica_ids, ClusterModel, Probation, Replica};
use crate::time::elapsed;

verus! {

/// A request of the replica `id` at the time `at`.
pub struct ReplicaRequest {
    pub id: Seq<char>,
    pub at: nat,
}

impl ClusterModel {
    /// The cluster after a run of requests.
    pub open spec fn after_run(
        self,
        ids: Seq<Seq<char>>,
        timeout: nat,
        run: Seq<ReplicaRequest>,
    ) -> ClusterModel
        decreases run.len(),
    {
        if run.len() == 0 {
            self
        } else {
            self.after_run(ids, timeout, run.drop_last()).after_request(
                ids,
                run.last().id,
                timeout,
                run.last().at,
            )
        }
    }
}

/// When the replica `id` was last heard from in a run of requests, `start` where
/// the run holds no request of it.
pub open spec fn last_heard(run: Seq<ReplicaRequest>, id: Seq<char>, start: nat) -> nat
    decreases run.len(),
{
    if run.len() == 0 {
        start
    } else if run.last().id == id {
        run.last().at
    } else {
        last_heard(run.drop_last(), id, start)
    }
}

/// The replica `id`, last heard from at `start`, does not go quiet: every request
/// of the run comes within the timeout of the last one of that replica.
pub open spec fn keeps_talking(
    run: Seq<ReplicaRequest>,
    id: Seq<char>,
    start: nat,
    timeout: nat,
) -> bool {
    forall|k: int|
        0 <= k < run.len() ==> elapsed(last_heard(#[trigger] run.take(k), id, start), run[k].at)
            <= timeout
}

/// A request keeps the state of a cluster valid.
pub proof fn law_request_keeps_valid(
    s: ClusterModel,
    ids: Seq<Seq<char>>,
    id: Seq<char>,
    timeout: nat,
    now: nat,
)
    requires
        s.wf(ids.len()),
    ensures
        s.after_request(ids, id, timeout, now).wf(ids.len()),
{
}

/// A run of requests keeps the state of a cluster valid, and its ranking.
pub proof fn law_run_keeps_valid(
    s: ClusterModel,
    ids: Seq<Seq<char>>,
    timeout: nat,
    run: Seq<ReplicaRequest>,
)
    requires
        s.wf(ids.len()),
    ensures
        s.after_run(ids, timeout, run).wf(ids.len()),
        s.after_run(ids, timeout, run).ranked == s.ranked,
    decreases run.len(),
{
    if run.len() > 0 {
        law_run_keeps_valid(s, ids, timeout, run.drop_last());
    }
}

/// The primary is let through at all times.
pub proof fn law_primary_accepted(s: ClusterModel, ids: Seq<Seq<char>>, timeout: nat, now: nat)
    requires
        s.wf(ids.len()),
    ensures
        s.accepts(ids, s.id_at(ids, 0), timeout, now),
{
}

/// The active replica is let through at all times.
pub proof fn law_active_accepted(s: ClusterModel, ids: Seq<Seq<char>>, timeout: nat, now: nat)
    requires
        s.wf(ids.len()),
    ensures
        s.accepts(ids, s.id_at(ids, s.active_rank(timeout, now)), timeout, now),
{
}

/// No replica but the active one and the primary is let through. In particular
/// only the primary is while it is active itself.
pub proof fn law_others_dropped(
    s: ClusterModel,
    ids: Seq<Seq<char>>,
    id: Seq<char>,
    timeout: nat,
    now: nat,
)
    requires
        s.wf(ids.len()),
        id != s.id_at(ids, 0),
        id != s.id_at(ids, s.active_rank(timeout, now)),
    ensures
        !s.accepts(ids, id, timeout, now),
{
}

/// A replica that is not in the list is never let through.
pub proof fn law_unknown_dropped(
    s: ClusterModel,
    ids: Seq<Seq<char>>,
    id: Seq<char>,
    timeout: nat,
    now: nat,
)
    requires
        s.wf(ids.len()),
        !ids.contains(id),
    ensures
        !s.accepts(ids, id, timeout, now),
{
    let active = s.active_rank(timeout, now);
    assert(s.ranked[0] < ids.len() && s.ranked[active as int] < ids.len());
    assert(ids.contains(ids[s.ranked[0] as int]));
    assert(ids.contains(ids[s.ranked[active as int] as int]));
}

/// A request that is dropped leaves no trace but the passing of time.
pub proof fn law_dropped_leaves_no_trace(
    s: ClusterModel,
    ids: Seq<Seq<char>>,
    id: Seq<char>,
    timeout: nat,
    now: nat,
)
    requires
        s.wf(ids.len()),
        !s.accepts(ids, id, timeout, now),
    ensures
        s.after_request(ids, id, timeout, now) == s.refreshed(timeout, now),
{
}

/// With one request the active rank stays, moves down by one, or returns to the
/// primary, and the return takes a request of the primary.
pub proof fn law_rank_moves(
    s: ClusterModel,
    ids: Seq<Seq<char>>,
    id: Seq<char>,
    timeout: nat,
    now: nat,
)
    requires
        s.wf(ids.len()),
    ensures
        ({
            let rank = s.after_request(ids, id, timeout, now).rank;
            &&& rank == s.rank || rank == s.rank + 1 || rank == 0
            &&& rank > s.rank ==> s.is_silent(timeout, now)
            &&& rank < s.rank ==> id == s.id_at(ids, 0)
        }),
{
}

/// Once the primary was let through as the active replica, the other replicas are
/// dropped for as long as the timeout lasts.
pub proof fn law_secondary_dropped_while_primary_active(
    s: ClusterModel,
    ids: Seq<Seq<char>>,
    timeout: nat,
    now: nat,
    id: Seq<char>,
    later: nat,
)
    requires
        s.wf(ids.len()),
        s.active_rank(timeout, now) == 0,
        elapsed(now, later) <= timeout,
    ensures
        s.after_request(ids, s.id_at(ids, 0), timeout, now).accepts(ids, id, timeout, later)
            <==> id == s.id_at(ids, 0),
{
}

/// When the active replica has gone quiet, the next in the ranking is let through
/// and is the active one from then on. The one that went quiet is dropped, unless
/// it is the primary.
pub proof fn law_failover(s: ClusterModel, ids: Seq<Seq<char>>, timeout: nat, now: nat)
    requires
        s.wf(ids.len()),
        s.is_silent(timeout, now),
        s.rank + 1 < s.ranked.len(),
        s.id_at(ids, s.rank + 1) != s.id_at(ids, 0),
    ensures
        ({
            let next = s.id_at(ids, s.rank + 1);
            let after = s.after_request(ids, next, timeout, now);
            &&& s.accepts(ids, next, timeout, now)
            &&& after.rank == s.rank + 1
            &&& after.last_seen == now
            &&& after.probation is None
            &&& s.id_at(ids, s.rank) != s.id_at(ids, 0) && s.id_at(ids, s.rank) != next
                ==> !s.accepts(ids, s.id_at(ids, s.rank), timeout, now)
        }),
{
}

/// The last replica of the ranking stays active however long it is quiet.
pub proof fn law_last_stays_active(
    s: ClusterModel,
    ids: Seq<Seq<char>>,
    id: Seq<char>,
    timeout: nat,
    now: nat,
)
    requires
        s.wf(ids.len()),
        s.rank + 1 == s.ranked.len(),
        id != s.id_at(ids, 0),
    ensures
        s.after_request(ids, id, timeout, now).rank == s.rank,
{
}

/// A primary that comes back while a secondary is active goes on probation, with
/// the secondary still active, unless the timeout is zero.
pub proof fn law_probation_starts(s: ClusterModel, ids: Seq<Seq<char>>, timeout: nat, now: nat)
    requires
        s.wf(ids.len()),
        s.active_rank(timeout, now) > 0,
        s.running_probation(timeout, now) is None,
        timeout > 0,
    ensures
        ({
            let after = s.after_request(ids, s.id_at(ids, 0), timeout, now);
            &&& after.rank == s.active_rank(timeout, now)
            &&& after.probation == Some(Probation { started: now, last_seen: now })
        }),
{
}

/// Where a failback stands after a run of requests that began with the primary.
spec fn failback_progress(
    s: ClusterModel,
    ids: Seq<Seq<char>>,
    timeout: nat,
    run: Seq<ReplicaRequest>,
) -> bool {
    let after = s.after_run(ids, timeout, run);
    let primary = last_heard(run, s.id_at(ids, 0), run[0].at);
    let active = last_heard(run, s.id_at(ids, s.rank), s.last_seen);
    &&& after.ranked == s.ranked
    &&& {
        ||| after.rank == 0 && after.last_seen == primary && after.probation is None
        ||| {
            &&& after.rank == s.rank
            &&& after.last_seen == active
            &&& after.probation == Some(Probation { started: run[0].at, last_seen: primary })
            &&& run.last().id == s.id_at(ids, 0) ==> elapsed(run[0].at, run.last().at) < timeout
        }
    }
}

proof fn failback_progresses(
    s: ClusterModel,
    ids: Seq<Seq<char>>,
    timeout: nat,
    run: Seq<ReplicaRequest>,
)
    requires
        s.wf(ids.len()),
        s.rank > 0,
        s.id_at(ids, s.rank) != s.id_at(ids, 0),
        s.running_probation(timeout, run[0].at) is None,
        run.len() > 0,
        run[0].id == s.id_at(ids, 0),
        keeps_talking(run, s.id_at(ids, s.rank), s.last_seen, timeout),
        keeps_talking(run, s.id_at(ids, 0), run[0].at, timeout),
    ensures
        failback_progress(s, ids, timeout, run),
    decreases run.len(),
{
    let k = run.len() - 1;
    let earlier = run.drop_last();
    assert(run.take(k) =~= earlier);
    if earlier.len() > 0 {
        assert forall|j: int| 0 <= j < earlier.len() implies #[trigger] earlier.take(j)
            == run.take(j) by {
            assert(earlier.take(j) =~= run.take(j));
        }
        failback_progresses(s, ids, timeout, earlier);
    } else {
        assert(s.after_run(ids, timeout, earlier) == s);
    }
}

/// A primary that comes back while a secondary is active, and then keeps talking
/// as the secondary does, is active again with its first request after the
/// timeout has passed. From then on the other replicas are dropped while it talks.
pub proof fn law_failback(
    s: ClusterModel,
    ids: Seq<Seq<char>>,
    timeout: nat,
    run: Seq<ReplicaRequest>,
    id: Seq<char>,
    later: nat,
)
    requires
        s.wf(ids.len()),
        s.rank > 0,
        s.id_at(ids, s.rank) != s.id_at(ids, 0),
        s.running_probation(timeout, run[0].at) is None,
        run.len() > 0,
        run[0].id == s.id_at(ids, 0),
        run.last().id == s.id_at(ids, 0),
        elapsed(run[0].at, run.last().at) >= timeout,
        keeps_talking(run, s.id_at(ids, s.rank), s.last_seen, timeout),
        keeps_talking(run, s.id_at(ids, 0), run[0].at, timeout),
        elapsed(run.last().at, later) <= timeout,
    ensures
        s.after_run(ids, timeout, run).rank == 0,
        s.after_run(ids, timeout, run).accepts(ids, id, timeout, later) <==> id == s.id_at(ids, 0),
{
    failback_progresses(s, ids, timeout, run);
}

/// Until the timeout has passed since a primary came back, the secondary stays
/// active: both are let through.
pub proof fn law_probation_lasts(
    s: ClusterModel,
    ids: Seq<Seq<char>>,
    timeout: nat,
    run: Seq<ReplicaRequest>,
    later: nat,
)
    requires
        s.wf(ids.len()),
        s.rank > 0,
        s.id_at(ids, s.rank) != s.id_at(ids, 0),
        s.running_probation(timeout, run[0].at) is None,
        run.len() > 0,
        run[0].id == s.id_at(ids, 0),
        forall|k: int| 0 <= k < run.len() ==> elapsed(run[0].at, #[trigger] run[k].at) < timeout,
        keeps_talking(run, s.id_at(ids, s.rank), s.last_seen, timeout),
        keeps_talking(run, s.id_at(ids, 0), run[0].at, timeout),
        elapsed(last_heard(run, s.id_at(ids, s.rank), s.last_seen), later) <= timeout,
    ensures
        s.after_run(ids, timeout, run).rank == s.rank,
        s.after_run(ids, timeout, run).accepts(ids, s.id_at(ids, 0), timeout, later),
        s.after_run(ids, timeout, run).accepts(ids, s.id_at(ids, s.rank), timeout, later),
    decreases run.len(),
{
    let k = run.len() - 1;
    let earlier = run.drop_last();
    assert(run.take(k) =~= earlier);
    failback_progresses(s, ids, timeout, run);
    if earlier.len() > 0 {
        assert forall|j: int| 0 <= j < earlier.len() implies #[trigger] earlier.take(j)
            == run.take(j) by {
            assert(earlier.take(j) =~= run.take(j));
        }
        assert(elapsed(last_heard(run.take(k), s.id_at(ids, s.rank), s.last_seen), run[k].at)
            <= timeout);
        law_probation_lasts(s, ids, timeout, earlier, run[k].at);
        failback_progresses(s, ids, timeout, earlier);
    } else {
        assert(s.after_run(ids, timeout, earlier) == s);
    }
}

/// A cluster that is heard of for the first time lets its primary through, and
/// nobody else.
pub proof fn law_fresh_cluster(
    ids: Seq<Seq<char>>,
    ranked: Seq<usize>,
    id: Seq<char>,
    timeout: nat,
    now: nat,
)
    requires
        ClusterModel::fresh(ranked, now).wf(ids.len()),
    ensures
        ClusterModel::fresh(ranked, now).accepts(ids, id, timeout, now) <==> id
            == ids[ranked[0] as int],
{
}

/// Where ranks stand for replicas of the list, one of them is active, and no primary is
/// watched while it is active itself, a cluster is valid.
pub proof fn law_valid_cluster(s: ClusterModel, count: nat)
    requires
        s.rank < s.ranked.len(),
        forall|i: int| 0 <= i < s.ranked.len() ==> #[trigger] s.ranked[i] < count,
        s.rank == 0 ==> s.probation is None,
    ensures
        s.wf(count),
{
}

/// A fresh cluster was last heard from when it was first heard of, and has its first
/// rank active.
pub proof fn law_fresh_by_parts(ranked: Seq<usize>, now: nat)
    ensures
        ({
            let s = ClusterModel::fresh(ranked, now);
            &&& s.rank == 0
            &&& s.last_seen == now
            &&& s.last_touched == now
            &&& s.probation is None
            &&& s.ranked == ranked
        }),
{
}

/// Every request, let through or not, touches its cluster, and none changes the
/// ranking.
pub proof fn law_request_touches(
    s: ClusterModel,
    ids: Seq<Seq<char>>,
    id: Seq<char>,
    timeout: nat,
    now: nat,
)
    ensures
        s.after_request(ids, id, timeout, now).last_touched == now,
        s.after_request(ids, id, timeout, now).ranked == s.ranked,
{
}

/// Once more than the timeout has passed since the active replica was heard from, and
/// there is a next one in the ranking, that one is let through, and so is the primary,
/// and nobody else. The next one is active from then on, whoever asked, and has the
/// whole timeout before it. A primary that asks is watched from then on, and where the
/// timeout is zero it is active at once. When the cluster was last touched does not
/// matter.
pub proof fn law_next_takes_over_after_silence(
    s: ClusterModel,
    ids: Seq<Seq<char>>,
    id: Seq<char>,
    timeout: nat,
    now: nat,
)
    requires
        s.rank + 1 < s.ranked.len(),
        now - s.last_seen > timeout,
    ensures
        ({
            let primary = ids[s.ranked[0] as int];
            let next = ids[s.ranked[s.rank as int + 1] as int];
            let after = s.after_request(ids, id, timeout, now);
            &&& s.accepts(ids, id, timeout, now) <==> id == primary || id == next
            &&& after.last_seen == now
            &&& id != primary ==> after.rank == s.rank + 1 && after.probation is None
            &&& id == primary && timeout > 0 ==> after.rank == s.rank + 1 && after.probation
                == Some(Probation { started: now, last_seen: now })
            &&& id == primary && timeout == 0 ==> after.rank == 0 && after.probation is None
        }),
{
}

/// Once more than the timeout has passed since the active replica was heard from, and it
/// is the last of the ranking, it stays active and has the whole timeout before it
/// again. A probation that was running ends, and a primary that asks starts a new one.
pub proof fn law_last_stays_after_silence(
    s: ClusterModel,
    ids: Seq<Seq<char>>,
    id: Seq<char>,
    timeout: nat,
    now: nat,
)
    requires
        s.rank + 1 == s.ranked.len(),
        now - s.last_seen > timeout,
    ensures
        ({
            let primary = ids[s.ranked[0] as int];
            let active = ids[s.ranked[s.rank as int] as int];
            let after = s.after_request(ids, id, timeout, now);
            &&& s.accepts(ids, id, timeout, now) <==> id == primary || id == active
            &&& after.last_seen == now
            &&& id != primary || s.rank == 0 ==> after.rank == s.rank && after.probation is None
            &&& id == primary && s.rank > 0 && timeout > 0 ==> after.rank == s.rank
                && after.probation == Some(Probation { started: now, last_seen: now })
            &&& id == primary && timeout == 0 ==> after.rank == 0 && after.probation is None
        }),
{
}

/// As long as no more than the timeout has passed since the active replica was heard
/// from, it stays active whoever else asks, it and the primary are let through, and
/// nobody else is. It counts as heard from only where the request is its own.
pub proof fn law_active_keeps_its_window(
    s: ClusterModel,
    ids: Seq<Seq<char>>,
    id: Seq<char>,
    timeout: nat,
    now: nat,
)
    requires
        s.rank < s.ranked.len(),
        now - s.last_seen <= timeout,
    ensures
        ({
            let primary = ids[s.ranked[0] as int];
            let active = ids[s.ranked[s.rank as int] as int];
            let after = s.after_request(ids, id, timeout, now);
            &&& s.accepts(ids, id, timeout, now) <==> id == primary || id == active
            &&& id != primary || s.rank == 0 ==> after.rank == s.rank
            &&& id != primary && id != active ==> after.last_seen == s.last_seen
            &&& id != primary && id == active ==> after.last_seen == now
            &&& id == primary && s.rank == 0 ==> after.last_seen == now && after.probation is None
        }),
{
}

/// While a secondary is active, a probation outlasts the requests of others as long as
/// no more than the timeout has passed since the primary was heard from, and not longer.
pub proof fn law_others_leave_probation(
    s: ClusterModel,
    ids: Seq<Seq<char>>,
    id: Seq<char>,
    timeout: nat,
    now: nat,
)
    requires
        s.rank < s.ranked.len(),
        now - s.last_seen <= timeout,
        id != ids[s.ranked[0] as int],
    ensures
        ({
            let after = s.after_request(ids, id, timeout, now);
            match s.probation {
                Some(p) => {
                    &&& now - p.last_seen <= timeout ==> after.probation == s.probation
                    &&& now - p.last_seen > timeout ==> after.probation is None
                },
                None => after.probation is None,
            }
        }),
{
}

/// A primary that comes back while a secondary is active, and was not watched, or has
/// been quiet for more than the timeout since, is watched from now on: what it said
/// before does not count. The secondary stays active, unless the timeout is zero.
pub proof fn law_lapsed_probation_starts_over(
    s: ClusterModel,
    ids: Seq<Seq<char>>,
    timeout: nat,
    now: nat,
)
    requires
        0 < s.rank < s.ranked.len(),
        now - s.last_seen <= timeout,
        s.probation matches Some(p) ==> now - p.last_seen > timeout,
    ensures
        ({
            let after = s.after_request(ids, ids[s.ranked[0] as int], timeout, now);
            &&& timeout > 0 ==> {
                &&& after.rank == s.rank
                &&& after.last_seen == s.last_seen
                &&& after.probation == Some(Probation { started: now, last_seen: now })
            }
            &&& timeout == 0 ==> {
                &&& after.rank == 0
                &&& after.last_seen == now
                &&& after.probation is None
            }
        }),
{
}

/// A primary that is watched and has not been quiet for more than the timeout is active
/// again once the timeout has passed since it came back, and not before. Until then the
/// secondary is, and the probation goes on from where it started.
pub proof fn law_probation_is_served_in_full(
    s: ClusterModel,
    ids: Seq<Seq<char>>,
    timeout: nat,
    now: nat,
    p: Probation,
)
    requires
        0 < s.rank < s.ranked.len(),
        now - s.last_seen <= timeout,
        s.probation == Some(p),
        now - p.last_seen <= timeout,
        timeout > 0,
    ensures
        ({
            let after = s.after_request(ids, ids[s.ranked[0] as int], timeout, now);
            &&& now - p.started >= timeout ==> {
                &&& after.rank == 0
                &&& after.last_seen == now
                &&& after.probation is None
            }
            &&& now - p.started < timeout ==> {
                &&& after.rank == s.rank
                &&& after.last_seen == s.last_seen
                &&& after.probation == Some(Probation { started: p.started, last_seen: now })
            }
        }),
{
}

/// With no timeout to serve, a primary that asks is active at once.
pub proof fn law_no_timeout_no_probation(
    s: ClusterModel,
    ids: Seq<Seq<char>>,
    now: nat,
)
    requires
        s.rank < s.ranked.len(),
    ensures
        ({
            let after = s.after_request(ids, ids[s.ranked[0] as int], 0, now);
            &&& after.rank == 0
            &&& after.last_seen == now
            &&& after.probation is None
        }),
{
}

/// The ordinals of a list of replicas are the ordinals of its members, in their order.
pub proof fn law_ids_of_replicas(replicas: Seq<Replica>)
    ensures
        replica_ids(replicas).len() == replicas.len(),
        forall|i: int|
            0 <= i < replicas.len() ==> #[trigger] replica_ids(replicas)[i] == replicas[i].id@,
{
}

} // verus!

//! What is done with a request.

use hyper::HeaderMap;
use vstd::prelude::*;

use crate::cluster_state::{replica_ids, Replica};
use crate::http::{
    ascii_lower, header_text, header_value, headers_of, law_value_is_its_bytes,
    law_values_stay_apart, value_text, STATUS_ACCEPTED, STATUS_BAD_GATEWAY, STATUS_BAD_REQUEST,
};
use crate::metrics::{ReplicaSelectorMetrics, NO_ANSWER_CODE};
use crate::replica_selector::{ReplicaSelector, SelectorError, SelectorModel};
use crate::time::{has_passed, Duration, Instant, NANOS_PER_SEC};
use crate::util::upstream_target::{
    plain_path_and_query, uri_parse, TargetModel, UpstreamError, UpstreamTarget,
};

verus! {

/// The text behind an optional string.
pub open spec fn text_view(text: Option<&str>) -> Option<Seq<char>> {
    match text {
        Some(t) => Some(t@),
        None => None,
    }
}

/// What becomes of a request by its ordinal headers.
#[derive(Clone, Copy, Debug, PartialEq, Eq, Structural)]
pub enum Admission {
    /// It comes from a replica that is let through.
    Active,
    /// It carries no ordinal headers and is let through for that.
    Passthrough,
    /// It comes from a replica that is not let through.
    Inactive,
    /// A header that it needs is missing.
    MissingHeaders,
}

/// What becomes of a request that names a cluster and a replica, or leaves them
/// out, at `now`.
pub open spec fn admission(
    selector: SelectorModel,
    allow_passthrough: bool,
    cluster: Option<Seq<char>>,
    replica_id: Option<Seq<char>>,
    now: nat,
) -> Admission {
    match (cluster, replica_id) {
        (Some(c), Some(id)) => if selector.accepts(c, id, now) {
            Admission::Active
        } else {
            Admission::Inactive
        },
        (None, None) => if allow_passthrough {
            Admission::Passthrough
        } else {
            Admission::MissingHeaders
        },
        _ => Admission::MissingHeaders,
    }
}

/// The selector after such a request: it takes notice only of those that name both
/// a cluster and a replica.
pub open spec fn after_admission(
    selector: SelectorModel,
    cluster: Option<Seq<char>>,
    replica_id: Option<Seq<char>>,
    now: nat,
) -> SelectorModel {
    match (cluster, replica_id) {
        (Some(c), Some(id)) => selector.after_request(c, id, now),
        _ => selector,
    }
}

/// What is done with a request first.
#[derive(Clone, Debug)]
pub enum ProxyAction {
    /// It is answered with an empty response.
    Respond { status: u16 },
    /// It is forwarded to a URI.
    Forward { uri: String },
}

/// What is done with a request first, and whether it counts as passed through
/// without ordinal headers.
#[derive(Clone, Debug)]
pub struct ProxyPlan {
    pub passthrough: bool,
    pub action: ProxyAction,
}

/// A [`ProxyAction`].
pub enum ActionModel {
    Respond { status: u16 },
    Forward { uri: Seq<char> },
}

/// A [`ProxyPlan`].
pub struct PlanModel {
    pub passthrough: bool,
    pub action: ActionModel,
}

impl View for ProxyPlan {
    type V = PlanModel;

    open spec fn view(&self) -> PlanModel {
        PlanModel {
            passthrough: self.passthrough,
            action: match self.action {
                ProxyAction::Respond { status } => ActionModel::Respond { status },
                ProxyAction::Forward { uri } => ActionModel::Forward { uri: uri@ },
            },
        }
    }
}

/// The plan for a request, by its admission and by the URI that it would be
/// forwarded to, if there is one.
pub open spec fn plan_of(admission: Admission, uri: Result<Seq<char>, Seq<char>>) -> PlanModel {
    PlanModel {
        passthrough: admission == Admission::Passthrough,
        action: match admission {
            Admission::Inactive => ActionModel::Respond { status: STATUS_ACCEPTED },
            Admission::MissingHeaders => ActionModel::Respond { status: STATUS_BAD_REQUEST },
            _ => match uri {
                Ok(uri) => ActionModel::Forward { uri },
                Err(_) => ActionModel::Respond { status: STATUS_BAD_GATEWAY },
            },
        },
    }
}

/// A request that is forwarded keeps its path and query, behind the path of the
/// target, unless they hold a fragment or do not start with a slash.
pub open spec fn keeps_path(
    target: TargetModel,
    path_and_query: Option<Seq<char>>,
    plan: PlanModel,
) -> bool {
    target.is_plain() && (path_and_query matches Some(pq) ==> plain_path_and_query(pq)) ==> (
    plan.action matches ActionModel::Forward { uri } ==> uri == target.uri_text(path_and_query))
}

/// What is sent back once the upstream has been asked.
#[derive(Clone, Copy, Debug, PartialEq, Eq, Structural)]
pub enum UpstreamAnswer {
    /// The answer of the upstream as it is.
    Relay,
    /// An empty response.
    Respond { status: u16 },
}

/// What is done once the upstream has been asked.
#[derive(Clone, Copy, Debug, PartialEq, Eq, Structural)]
pub struct Completion {
    /// The code that the request to the upstream is counted under.
    pub counted_code: u16,
    pub answer: UpstreamAnswer,
}

/// Decides on a request that arrived at `now`.
pub fn decide(
    selector: &mut ReplicaSelector,
    allow_passthrough: bool,
    cluster: Option<&str>,
    replica_id: Option<&str>,
    now: Instant,
) -> (admitted: Admission)
    requires
        old(selector).wf(),
    ensures
        final(selector).wf(),
        admitted == admission(
            old(selector)@,
            allow_passthrough,
            text_view(cluster),
            text_view(replica_id),
            now@,
        ),
        final(selector)@ == after_admission(
            old(selector)@,
            text_view(cluster),
            text_view(replica_id),
            now@,
        ),
{
    match (cluster, replica_id) {
        (Some(cluster), Some(replica_id)) => {
            if selector.should_accept_at(cluster, replica_id, now) {
                Admission::Active
            } else {
                Admission::Inactive
            }
        },
        (None, None) => {
            if allow_passthrough {
                Admission::Passthrough
            } else {
                Admission::MissingHeaders
            }
        },
        _ => Admission::MissingHeaders,
    }
}

/// The answer to a request that is not let through, if it is not.
pub fn refusal(admitted: Admission) -> (status: Option<u16>)
    ensures
        status == match admitted {
            Admission::Inactive => Some(STATUS_ACCEPTED),
            Admission::MissingHeaders => Some(STATUS_BAD_REQUEST),
            _ => None,
        },
        admitted == Admission::Inactive ==> status == Some(202u16),
        admitted == Admission::MissingHeaders ==> status == Some(400u16),
        admitted == Admission::Active || admitted == Admission::Passthrough ==> status is None,
{
    match admitted {
        Admission::Inactive => Some(STATUS_ACCEPTED),
        Admission::MissingHeaders => Some(STATUS_BAD_REQUEST),
        _ => None,
    }
}

/// The plan for a request that is let through, by the URI that it was mapped to.
pub fn forward(mapped: Result<String, UpstreamError>) -> (action: ProxyAction)
    ensures
        match mapped {
            Ok(u) => action matches ProxyAction::Forward { uri } && uri@ == u@,
            Err(_) => action == (ProxyAction::Respond { status: STATUS_BAD_GATEWAY }),
        },
        mapped is Err ==> action == (ProxyAction::Respond { status: 502 }),
{
    match mapped {
        Ok(uri) => ProxyAction::Forward { uri },
        Err(_) => ProxyAction::Respond { status: STATUS_BAD_GATEWAY },
    }
}

/// What is done after the upstream answered with a status, or did not answer.
pub fn complete(upstream_status: Option<u16>) -> (completion: Completion)
    ensures
        completion == match upstream_status {
            Some(status) => Completion { counted_code: status, answer: UpstreamAnswer::Relay },
            None => Completion {
                counted_code: NO_ANSWER_CODE,
                answer: UpstreamAnswer::Respond { status: STATUS_BAD_GATEWAY },
            },
        },
        upstream_status is None ==> completion.counted_code == 0 && completion.answer == (
        UpstreamAnswer::Respond { status: 502 }),
{
    match upstream_status {
        Some(status) => Completion { counted_code: status, answer: UpstreamAnswer::Relay },
        None => Completion {
            counted_code: NO_ANSWER_CODE,
            answer: UpstreamAnswer::Respond { status: STATUS_BAD_GATEWAY },
        },
    }
}

/// Settings of the proxy.
#[derive(Clone, Debug)]
pub struct ProxyConfig {
    /// Upstream to forward requests to.
    pub upstream_url: UpstreamTarget,
    /// Duration of time after which an HA ordinal is considered inactive.
    pub inactive_window_seconds: u64,
    /// Header name for HA ordinal grouping.
    pub ordinal_grouping_header: String,
    /// Header name for HA ordinal.
    pub ordinal_header: String,
    /// Possible ordinals for the HA tracker, these will show up as header values.
    pub possible_ordinals: Vec<String>,
    /// Allow requests without HA ordinal headers to pass through directly to upstream.
    pub allow_passthrough: bool,
}

impl ProxyConfig {
    /// The ordinals, as text.
    pub open spec fn ordinals(self) -> Seq<Seq<char>> {
        Seq::new(self.possible_ordinals@.len(), |i: int| self.possible_ordinals@[i]@)
    }

    /// The cluster that a request names.
    pub open spec fn cluster_of(self, headers: Map<Seq<char>, Seq<u8>>) -> Option<Seq<char>> {
        header_text(headers, self.ordinal_grouping_header@)
    }

    /// The replica that a request names.
    pub open spec fn replica_of(self, headers: Map<Seq<char>, Seq<u8>>) -> Option<Seq<char>> {
        header_text(headers, self.ordinal_header@)
    }

    /// The plan for a request at `now`.
    pub open spec fn plan(
        self,
        selector: SelectorModel,
        headers: Map<Seq<char>, Seq<u8>>,
        path_and_query: Option<Seq<char>>,
        now: nat,
    ) -> PlanModel {
        plan_of(
            admission(
                selector,
                self.allow_passthrough,
                self.cluster_of(headers),
                self.replica_of(headers),
                now,
            ),
            uri_parse(self.upstream_url@.uri_text(path_and_query)),
        )
    }

    /// The selector after a request at `now`.
    pub open spec fn after_plan(
        self,
        selector: SelectorModel,
        headers: Map<Seq<char>, Seq<u8>>,
        now: nat,
    ) -> SelectorModel {
        after_admission(selector, self.cluster_of(headers), self.replica_of(headers), now)
    }

    /// The replicas that the ordinals name.
    pub fn replicas(&self) -> (replicas: Vec<Replica>)
        ensures
            replica_ids(replicas@) == self.ordinals(),
    {
        let mut replicas: Vec<Replica> = Vec::new();
        let mut i: usize = 0;
        while i < self.possible_ordinals.len()
            invariant
                i <= self.possible_ordinals@.len(),
                replica_ids(replicas@) == self.ordinals().take(i as int),
                replicas@.len() == i,
            decreases self.possible_ordinals@.len() - i,
        {
            let ghost before = replicas@;
            replicas.push(Replica { id: self.possible_ordinals[i].clone() });
            assert(replica_ids(replicas@) =~= replica_ids(before).push(
                self.possible_ordinals@[i as int]@,
            ));
            i += 1;
        }
        replicas
    }

    /// The selector for the ordinals. The window after which an ordinal counts as
    /// inactive is also the one after which an idle cluster is dropped.
    pub fn build_selector(&self, metrics: Option<ReplicaSelectorMetrics>) -> (selector: Result<
        ReplicaSelector,
        SelectorError,
    >)
        ensures
            match selector {
                Ok(s) => {
                    &&& self.possible_ordinals@.len() > 0
                    &&& s.wf()
                    &&& s@ == (SelectorModel {
                        ids: self.ordinals(),
                        clusters: Map::empty(),
                        silence_timeout: (self.inactive_window_seconds * NANOS_PER_SEC) as nat,
                        idle_ttl: (self.inactive_window_seconds * NANOS_PER_SEC) as nat,
                        metrics,
                        last_reading: 0,
                        origin: s@.origin,
                    })
                    &&& s@.silence_timeout == self.inactive_window_seconds * 1_000_000_000
                    &&& s@.idle_ttl == self.inactive_window_seconds * 1_000_000_000
                },
                Err(e) => {
                    &&& self.possible_ordinals@.len() == 0
                    &&& e == SelectorError::NoReplicas
                },
            },
    {
        let inactive_window = Duration::from_secs(self.inactive_window_seconds);
        let replicas = self.replicas();
        assert(replica_ids(replicas@).len() == self.possible_ordinals@.len());
        ReplicaSelector::new(replicas, inactive_window, inactive_window, metrics)
    }

    /// Decides what to do with a request that arrives now. Now is not before the last
    /// reading of the selector's clock.
    pub fn plan_request(
        &self,
        selector: &mut ReplicaSelector,
        headers: &HeaderMap,
        path_and_query: Option<&str>,
    ) -> (plan: ProxyPlan)
        requires
            old(selector).wf(),
        ensures
            final(selector).wf(),
            exists|now: Instant, nanos: u128|
                {
                    &&& (#[trigger] now@) >= old(selector)@.last_reading
                    &&& #[trigger] has_passed(old(selector)@.origin, nanos)
                    &&& now.nanos >= nanos
                    &&& now.nanos == nanos || now@ == old(selector)@.last_reading
                    &&& plan@ == self.plan(
                        old(selector)@,
                        headers_of(*headers),
                        text_view(path_and_query),
                        now@,
                    )
                    &&& final(selector)@ == self.after_plan(
                        old(selector)@.read_at(now@),
                        headers_of(*headers),
                        now@,
                    )
                },
            keeps_path(self.upstream_url@, text_view(path_and_query), plan@),
    {
        let now = selector.now();
        self.plan_request_at(selector, headers, path_and_query, now)
    }

    /// Decides what to do with a request that arrived at `now`.
    pub fn plan_request_at(
        &self,
        selector: &mut ReplicaSelector,
        headers: &HeaderMap,
        path_and_query: Option<&str>,
        now: Instant,
    ) -> (plan: ProxyPlan)
        requires
            old(selector).wf(),
        ensures
            final(selector).wf(),
            plan@ == self.plan(
                old(selector)@,
                headers_of(*headers),
                text_view(path_and_query),
                now@,
            ),
            final(selector)@ == self.after_plan(old(selector)@, headers_of(*headers), now@),
            keeps_path(self.upstream_url@, text_view(path_and_query), plan@),
    {
        let cluster = header_value(headers, self.ordinal_grouping_header.as_str());
        let replica_id = header_value(headers, self.ordinal_header.as_str());
        let admitted = decide(selector, self.allow_passthrough, cluster, replica_id, now);
        let action = match refusal(admitted) {
            Some(status) => ProxyAction::Respond { status },
            None => forward(self.upstream_url.map_request(path_and_query)),
        };
        let passthrough = match admitted {
            Admission::Passthrough => true,
            _ => false,
        };
        ProxyPlan { passthrough, action }
    }
}

/// A request of a replica that is not let through is answered with 202, whatever
/// it asks for, and goes nowhere.
pub proof fn law_inactive_is_answered_accepted(
    config: ProxyConfig,
    selector: SelectorModel,
    headers: Map<Seq<char>, Seq<u8>>,
    path_and_query: Option<Seq<char>>,
    now: nat,
)
    requires
        config.cluster_of(headers) is Some,
        config.replica_of(headers) is Some,
        !selector.accepts(config.cluster_of(headers)->0, config.replica_of(headers)->0, now),
    ensures
        config.plan(selector, headers, path_and_query, now) == (PlanModel {
            passthrough: false,
            action: ActionModel::Respond { status: STATUS_ACCEPTED },
        }),
{
}

/// A request that lacks a header is answered with 400, unless it lacks both and
/// such requests may pass. The selector takes no notice of it.
pub proof fn law_missing_header_is_answered_bad_request(
    config: ProxyConfig,
    selector: SelectorModel,
    headers: Map<Seq<char>, Seq<u8>>,
    path_and_query: Option<Seq<char>>,
    now: nat,
)
    requires
        config.cluster_of(headers) is None || config.replica_of(headers) is None,
        config.cluster_of(headers) is Some || config.replica_of(headers) is Some
            || !config.allow_passthrough,
    ensures
        config.plan(selector, headers, path_and_query, now) == (PlanModel {
            passthrough: false,
            action: ActionModel::Respond { status: STATUS_BAD_REQUEST },
        }),
        config.after_plan(selector, headers, now) == selector,
{
}

/// What is forwarded goes where the upstream target says, and either came from a
/// replica that is let through, or passed through without ordinal headers where
/// that is allowed.
pub proof fn law_forwarded_was_admitted(
    config: ProxyConfig,
    selector: SelectorModel,
    headers: Map<Seq<char>, Seq<u8>>,
    path_and_query: Option<Seq<char>>,
    now: nat,
)
    requires
        config.plan(selector, headers, path_and_query, now).action is Forward,
    ensures
        uri_parse(config.upstream_url@.uri_text(path_and_query)) == Ok::<Seq<char>, Seq<char>>(
            config.plan(selector, headers, path_and_query, now).action->uri,
        ),
        match (config.cluster_of(headers), config.replica_of(headers)) {
            (Some(cluster), Some(id)) => selector.accepts(cluster, id, now),
            (None, None) => config.allow_passthrough,
            _ => false,
        },
{
}

/// A request that passes through without ordinal headers counts as such and leaves
/// the selector as it is.
pub proof fn law_passthrough_leaves_selector(
    config: ProxyConfig,
    selector: SelectorModel,
    headers: Map<Seq<char>, Seq<u8>>,
    path_and_query: Option<Seq<char>>,
    now: nat,
)
    ensures
        config.plan(selector, headers, path_and_query, now).passthrough <==> {
            &&& config.allow_passthrough
            &&& config.cluster_of(headers) is None
            &&& config.replica_of(headers) is None
        },
        config.plan(selector, headers, path_and_query, now).passthrough ==> config.after_plan(
            selector,
            headers,
            now,
        ) == selector,
{
}

/// A request whose grouping header and ordinal header both hold printable bytes counts
/// for the cluster and the replica that these bytes spell, from the first to the last.
/// It is answered with 202 where that replica of that cluster is not let through. Else it
/// goes where the upstream target says, and is answered with 502 where that is nowhere.
pub proof fn law_request_counts_for_what_its_headers_spell(
    config: ProxyConfig,
    selector: SelectorModel,
    headers: Map<Seq<char>, Seq<u8>>,
    path_and_query: Option<Seq<char>>,
    now: nat,
    cluster: Seq<char>,
    id: Seq<char>,
)
    requires
        ({
            let group = ascii_lower(config.ordinal_grouping_header@);
            let ordinal = ascii_lower(config.ordinal_header@);
            &&& headers.contains_key(group)
            &&& headers.contains_key(ordinal)
            &&& cluster.len() == headers[group].len()
            &&& id.len() == headers[ordinal].len()
            &&& forall|i: int|
                0 <= i < cluster.len() ==> #[trigger] cluster[i] as int == headers[group][i] && (
                headers[group][i] == 9 || 32 <= headers[group][i] <= 126)
            &&& forall|i: int|
                0 <= i < id.len() ==> #[trigger] id[i] as int == headers[ordinal][i] && (
                headers[ordinal][i] == 9 || 32 <= headers[ordinal][i] <= 126)
        }),
    ensures
        ({
            let plan = config.plan(selector, headers, path_and_query, now);
            let uri = uri_parse(config.upstream_url@.uri_text(path_and_query));
            &&& config.after_plan(selector, headers, now) == selector.after_request(
                cluster,
                id,
                now,
            )
            &&& !plan.passthrough
            &&& !selector.accepts(cluster, id, now) ==> plan.action == (ActionModel::Respond {
                status: 202,
            })
            &&& selector.accepts(cluster, id, now) ==> match uri {
                Ok(uri) => plan.action == (ActionModel::Forward { uri }),
                Err(_) => plan.action == (ActionModel::Respond { status: 502 }),
            }
        }),
{
    let group = headers[ascii_lower(config.ordinal_grouping_header@)];
    let ordinal = headers[ascii_lower(config.ordinal_header@)];
    assert forall|i: int| 0 <= i < group.len() implies #[trigger] group[i] == 9 || 32 <= group[i]
        <= 126 by {
        assert(cluster[i] as int == group[i]);
    }
    assert forall|i: int| 0 <= i < ordinal.len() implies #[trigger] ordinal[i] == 9 || 32
        <= ordinal[i] <= 126 by {
        assert(id[i] as int == ordinal[i]);
    }
    law_value_is_its_bytes(group);
    law_value_is_its_bytes(ordinal);
    assert(value_text(group)->0 =~= cluster) by {
        assert forall|i: int| 0 <= i < cluster.len() implies value_text(group)->0[i]
            == cluster[i] by {
            assert(value_text(group)->0[i] as int == group[i]);
        }
    }
    assert(value_text(ordinal)->0 =~= id) by {
        assert forall|i: int| 0 <= i < id.len() implies value_text(ordinal)->0[i] == id[i] by {
            assert(value_text(ordinal)->0[i] as int == ordinal[i]);
        }
    }
}

/// A header that is missing, or holds a byte that is not printable, names nothing. Where
/// both headers name nothing and such requests may pass, the request goes where the
/// upstream target says. Else, where one names nothing, it is answered with 400. The
/// selector takes no notice either way.
pub proof fn law_request_without_names(
    config: ProxyConfig,
    selector: SelectorModel,
    headers: Map<Seq<char>, Seq<u8>>,
    path_and_query: Option<Seq<char>>,
    now: nat,
    names_cluster: bool,
    names_replica: bool,
)
    requires
        ({
            let group = ascii_lower(config.ordinal_grouping_header@);
            let ordinal = ascii_lower(config.ordinal_header@);
            &&& names_cluster <==> headers.contains_key(group) && forall|i: int|
                0 <= i < headers[group].len() ==> #[trigger] headers[group][i] == 9 || 32
                    <= headers[group][i] <= 126
            &&& names_replica <==> headers.contains_key(ordinal) && forall|i: int|
                0 <= i < headers[ordinal].len() ==> #[trigger] headers[ordinal][i] == 9 || 32
                    <= headers[ordinal][i] <= 126
        }),
        !names_cluster || !names_replica,
    ensures
        ({
            let plan = config.plan(selector, headers, path_and_query, now);
            let uri = uri_parse(config.upstream_url@.uri_text(path_and_query));
            let passes = config.allow_passthrough && !names_cluster && !names_replica;
            &&& config.after_plan(selector, headers, now) == selector
            &&& plan.passthrough <==> passes
            &&& !passes ==> plan.action == (ActionModel::Respond { status: 400 })
            &&& passes ==> match uri {
                Ok(uri) => plan.action == (ActionModel::Forward { uri }),
                Err(_) => plan.action == (ActionModel::Respond { status: 502 }),
            }
        }),
{
    law_value_is_its_bytes(headers[ascii_lower(config.ordinal_grouping_header@)]);
    law_value_is_its_bytes(headers[ascii_lower(config.ordinal_header@)]);
}

/// Requests whose grouping headers differ in any byte are nothing to each other: what is
/// done with the one is the same whether or not the other came first.
pub proof fn law_groups_stay_apart(
    config: ProxyConfig,
    selector: SelectorModel,
    earlier: Map<Seq<char>, Seq<u8>>,
    earlier_at: nat,
    headers: Map<Seq<char>, Seq<u8>>,
    path_and_query: Option<Seq<char>>,
    now: nat,
)
    requires
        ({
            let group = ascii_lower(config.ordinal_grouping_header@);
            &&& earlier.contains_key(group)
            &&& headers.contains_key(group)
            &&& earlier[group] != headers[group]
        }),
    ensures
        config.plan(
            config.after_plan(selector, earlier, earlier_at),
            headers,
            path_and_query,
            now,
        ) == config.plan(selector, headers, path_and_query, now),
{
    let group = ascii_lower(config.ordinal_grouping_header@);
    if value_text(earlier[group]) is Some && value_text(earlier[group]) == value_text(
        headers[group],
    ) {
        law_values_stay_apart(earlier[group], headers[group]);
    }
}

/// A request that is let through to a plain target, with a path and query that are
/// plain or none, is forwarded with them as they are, behind the path of the target.
pub proof fn law_forwarded_as_it_came(
    target: TargetModel,
    path_and_query: Option<Seq<char>>,
    plan: PlanModel,
)
    requires
        keeps_path(target, path_and_query, plan),
        target.is_plain(),
        path_and_query matches Some(pq) ==> plain_path_and_query(pq),
        plan.action is Forward,
    ensures
        plan.action->uri == target.scheme_authority + target.path + match path_and_query {
            Some(pq) => pq,
            None => seq!['/'],
        },
{
    reveal_strlit("/");
    assert("/"@ =~= seq!['/']);
}

/// A plan is made of what it holds: the status of its answer, or the whole of its URI.
pub proof fn law_plan_is_what_it_holds(plan: ProxyPlan)
    ensures
        plan@.passthrough == plan.passthrough,
        plan.action matches ProxyAction::Respond { status } ==> plan@.action == (
        ActionModel::Respond { status }),
        plan.action matches ProxyAction::Forward { uri } ==> plan@.action == (
        ActionModel::Forward { uri: uri@ }),
{
}

/// The ordinals of the settings are taken one for one, each as it is.
pub proof fn law_ordinals_as_they_are(config: ProxyConfig)
    ensures
        config.ordinals().len() == config.possible_ordinals@.len(),
        forall|i: int|
            0 <= i < config.possible_ordinals@.len() ==> #[trigger] config.ordinals()[i]
                == config.possible_ordinals@[i]@,
{
}

/// Text that is there is taken as it is.
pub proof fn law_text_as_it_is(text: &str)
    ensures
        text_view(Some(text)) == Some(text@),
        text_view(None) is None,
{
}

/// What becomes of a request by the cluster and the replica that it names.
pub proof fn law_admission(
    selector: SelectorModel,
    allow_passthrough: bool,
    cluster: Seq<char>,
    id: Seq<char>,
    now: nat,
)
    ensures
        admission(selector, allow_passthrough, Some(cluster), Some(id), now) == Admission::Active
            <==> selector.accepts(cluster, id, now),
        admission(selector, allow_passthrough, Some(cluster), Some(id), now) == Admission::Inactive
            <==> !selector.accepts(cluster, id, now),
        admission(selector, allow_passthrough, None, None, now) == Admission::Passthrough
            <==> allow_passthrough,
        admission(selector, allow_passthrough, None, None, now) == Admission::MissingHeaders
            <==> !allow_passthrough,
        admission(selector, allow_passthrough, Some(cluster), None, now)
            == Admission::MissingHeaders,
        admission(selector, allow_passthrough, None, Some(id), now) == Admission::MissingHeaders,
        after_admission(selector, Some(cluster), Some(id), now) == selector.after_request(
            cluster,
            id,
            now,
        ),
        after_admission(selector, Some(cluster), None, now) == selector,
        after_admission(selector, None, Some(id), now) == selector,
        after_admission(selector, None, None, now) == selector,
{
}

} // verus!

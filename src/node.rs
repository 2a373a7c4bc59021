use vstd::prelude::*;

verus! {

/// The body of a request that a non-leader hands on to the leader.
#[derive(Debug, PartialEq, Eq)]
pub enum ForwardRequestBody {
    Join { node_id: u64, endpoint: String, grpc_api_addr: String },
    Leave { node_id: u64 },
    Write { key: String, value: Option<Vec<u8>> },
    GetKV { key: String },
}

/// A request with the number of hops it may still be forwarded.
#[derive(Debug, PartialEq, Eq)]
pub struct ForwardRequest {
    pub forward_to_leader: u64,
    pub body: ForwardRequestBody,
}

/// Why a request could not be forwarded.
#[derive(Debug, Clone, Copy, PartialEq, Eq, Structural)]
pub enum CanNotForward {
    MaxForwardReached,
    NoKnownLeader,
}

/// The answer of a node that is not the leader, naming the leader it believes in.
#[derive(Debug, Clone, Copy, PartialEq, Eq, Structural)]
pub struct ForwardToLeader {
    pub leader_id: Option<u64>,
}

/// Why the local attempt to serve a request failed.
#[derive(Debug, Clone, Copy, PartialEq, Eq, Structural)]
pub enum MetaOperationError {
    ForwardToLeader(ForwardToLeader),
    /// A failure of the data itself, which no other node would do better on.
    DataError,
}

#[derive(Debug, Clone, Copy, PartialEq, Eq, Structural)]
pub enum MetaAPIError {
    CanNotForward(CanNotForward),
    DataError,
}

impl ForwardRequest {
    /// A join or leave request as a joining or leaving node sends it: one hop allowed.
    pub fn new(body: ForwardRequestBody) -> (r: ForwardRequest)
        ensures
            r.forward_to_leader == 1,
            r.body == body,
    {
        ForwardRequest { forward_to_leader: 1, body }
    }

    /// Spends one hop.
    pub fn decr_forward(&mut self)
        ensures
            final(self).forward_to_leader == if old(self).forward_to_leader > 0 { old(self).forward_to_leader - 1 } else { 0 },
            final(self).body == old(self).body,
    {
        if self.forward_to_leader > 0 {
            self.forward_to_leader = self.forward_to_leader - 1;
        }
    }
}

/// Whether this node serves requests itself: it does when it believes it is the leader,
/// and otherwise names the leader it believes in.
pub fn as_leader(self_id: u64, current_leader: u64) -> (r: Result<(), ForwardToLeader>)
    ensures
        self_id == current_leader <==> r is Ok,
        self_id != current_leader ==> r == Err::<(), ForwardToLeader>(ForwardToLeader { leader_id: Some(current_leader) }),
{
    if self_id == current_leader {
        Ok(())
    } else {
        Err(ForwardToLeader { leader_id: Some(current_leader) })
    }
}

/// What follows a failed local attempt: a data error is final; a "not leader" answer sends
/// the request on to the named leader with one hop less, unless no hop is left or no leader
/// is known. The pair returned is the node to forward to and the request to send it.
pub fn prepare_forward(req: ForwardRequest, op_err: MetaOperationError) -> (r: Result<(u64, ForwardRequest), MetaAPIError>)
    ensures
        op_err == MetaOperationError::DataError ==> r == Err::<(u64, ForwardRequest), MetaAPIError>(MetaAPIError::DataError),
        op_err is ForwardToLeader && req.forward_to_leader == 0
            ==> r == Err::<(u64, ForwardRequest), MetaAPIError>(MetaAPIError::CanNotForward(CanNotForward::MaxForwardReached)),
        op_err == MetaOperationError::ForwardToLeader(ForwardToLeader { leader_id: None }) && req.forward_to_leader > 0
            ==> r == Err::<(u64, ForwardRequest), MetaAPIError>(MetaAPIError::CanNotForward(CanNotForward::NoKnownLeader)),
        forall|l: u64| op_err == MetaOperationError::ForwardToLeader(ForwardToLeader { leader_id: Some(l) })
            && req.forward_to_leader > 0 ==> (r matches Ok((to, next)) && to == l
            && next.forward_to_leader == req.forward_to_leader - 1 && next.body == req.body),
{
    let to_leader = match op_err {
        MetaOperationError::DataError => {
            return Err(MetaAPIError::DataError);
        },
        MetaOperationError::ForwardToLeader(e) => e,
    };
    if req.forward_to_leader == 0 {
        return Err(MetaAPIError::CanNotForward(CanNotForward::MaxForwardReached));
    }
    let leader_id = match to_leader.leader_id {
        Some(l) => l,
        None => {
            return Err(MetaAPIError::CanNotForward(CanNotForward::NoKnownLeader));
        },
    };
    let mut next = req;
    next.decr_forward();
    Ok((leader_id, next))
}

/// Where a request goes first.
#[derive(Debug, PartialEq, Eq)]
pub enum ForwardStep {
    /// This node believes it is the leader and serves the request itself.
    Local(ForwardRequest),
    /// Send the request, with one hop less, to the node named.
    Forward(u64, ForwardRequest),
    /// Give up with this error, without any network call.
    Fail(MetaAPIError),
}

/// Routes an incoming request given the leader this node believes in. A request without
/// forward budget that reaches a node which is not the leader fails at once with
/// `CanNotForward` and is never sent anywhere.
pub fn route_request(self_id: u64, current_leader: u64, req: ForwardRequest) -> (r: ForwardStep)
    ensures
        self_id == current_leader ==> r == ForwardStep::Local(req),
        self_id != current_leader && req.forward_to_leader == 0
            ==> r == ForwardStep::Fail(MetaAPIError::CanNotForward(CanNotForward::MaxForwardReached)),
        self_id != current_leader && req.forward_to_leader > 0 ==> (r matches ForwardStep::Forward(to, next)
            && to == current_leader && next.forward_to_leader == req.forward_to_leader - 1 && next.body == req.body),
{
    match as_leader(self_id, current_leader) {
        Ok(()) => ForwardStep::Local(req),
        Err(e) => match prepare_forward(req, MetaOperationError::ForwardToLeader(e)) {
            Ok((to, next)) => ForwardStep::Forward(to, next),
            Err(err) => ForwardStep::Fail(err),
        },
    }
}

/// The addresses to try, in order, when joining a cluster: `None` when there is nothing to
/// do (no join address configured, or the node opened an existing store, which must not
/// join again); otherwise the configured addresses other than the node's own.
pub fn join_targets(join: &Vec<String>, self_addr: &String, is_opened: bool) -> (r: Option<Vec<String>>)
    ensures
        (join@.len() == 0 || is_opened) ==> r is None,
        !(join@.len() == 0 || is_opened) ==> (r matches Some(t) && t@ == join@.filter(other_than(self_addr@))),
{
    if join.len() == 0 || is_opened {
        return None;
    }
    let mut r: Vec<String> = Vec::new();
    let mut i: usize = 0;
    while i < join.len()
        invariant
            i <= join@.len(),
            r@ == join@.subrange(0, i as int).filter(other_than(self_addr@)),
        decreases join@.len() - i,
    {
        let a = join[i].clone();
        proof {
            reveal(Seq::filter);
            let sub = join@.subrange(0, i as int + 1);
            assert(sub.drop_last() =~= join@.subrange(0, i as int));
            assert(sub.last() == join@[i as int]);
            assert(other_than(self_addr@)(a) == (a@ != self_addr@));
        }
        if a != *self_addr {
            r.push(a);
        }
        i += 1;
    }
    assert(join@.subrange(0, join@.len() as int) =~= join@);
    Some(r)
}

/// Whether an address is not the node's own.
pub open spec fn other_than(self_addr: Seq<char>) -> spec_fn(String) -> bool {
    |a: String| a@ != self_addr
}

/// The next move of a join or leave loop that tries candidate addresses once each, in order.
#[derive(Debug, Clone, Copy, PartialEq, Eq, Structural)]
pub enum AttemptStep {
    /// Send the request through the address at this position.
    Try(usize),
    /// The last attempt was answered with data: the cluster accepted the request.
    Done,
    /// Every address was tried and none succeeded.
    GiveUp,
}

/// Decides the next step from the number of candidates and the last attempt, given as its
/// position and whether its reply carried data. The first step comes from `None`.
pub fn attempt_step(n_targets: usize, last: Option<(usize, bool)>) -> (r: AttemptStep)
    ensures
        last is None ==> r == if n_targets > 0 { AttemptStep::Try(0) } else { AttemptStep::GiveUp },
        last matches Some((i, true)) ==> r == AttemptStep::Done,
        last matches Some((i, false)) ==> r == if i + 1 < n_targets { AttemptStep::Try((i + 1) as usize) } else { AttemptStep::GiveUp },
        r matches AttemptStep::Try(j) ==> j < n_targets,
{
    match last {
        None => {
            if n_targets > 0 {
                AttemptStep::Try(0)
            } else {
                AttemptStep::GiveUp
            }
        },
        Some((_, true)) => AttemptStep::Done,
        Some((i, false)) => {
            if i < n_targets && i + 1 < n_targets {
                AttemptStep::Try(i + 1)
            } else {
                AttemptStep::GiveUp
            }
        },
    }
}

/// The node to remove when leaving is requested: leaving needs both an address to leave
/// through and the id of the node that leaves.
pub fn leave_target(leave_via: &Vec<String>, leave_id: Option<u64>) -> (r: Option<u64>)
    ensures
        leave_via@.len() == 0 ==> r is None,
        leave_via@.len() > 0 ==> r == leave_id,
{
    if leave_via.len() == 0 {
        None
    } else {
        leave_id
    }
}

/// The outcome of one look at the consensus metrics while waiting for a leader.
#[derive(Debug, Clone, Copy, PartialEq, Eq, Structural)]
pub enum LeaderPoll {
    Known(u64),
    /// No leader yet: wait for the next change.
    Wait,
    /// The metrics channel closed: the node is shutting down and no leader will come.
    Closed,
}

pub fn poll_leader(current_leader: Option<u64>, channel_closed: bool) -> (r: LeaderPoll)
    ensures
        current_leader matches Some(l) ==> r == LeaderPoll::Known(l),
        current_leader is None && channel_closed ==> r == LeaderPoll::Closed,
        current_leader is None && !channel_closed ==> r == LeaderPoll::Wait,
{
    match current_leader {
        Some(l) => LeaderPoll::Known(l),
        None => {
            if channel_closed {
                LeaderPoll::Closed
            } else {
                LeaderPoll::Wait
            }
        },
    }
}

/// Timers and snapshot policy of the consensus core, all scaled from one heartbeat.
#[derive(Debug, Clone, Copy, PartialEq, Eq, Structural)]
pub struct RaftTiming {
    pub heartbeat_interval: u64,
    pub election_timeout_min: u64,
    pub election_timeout_max: u64,
    /// A snapshot is taken once this many entries were applied since the last one.
    pub snapshot_logs_since_last: u64,
    pub max_applied_log_to_keep: u64,
}

#[derive(Debug, Clone, Copy, PartialEq, Eq, Structural)]
pub enum ConfigError {
    /// The heartbeat is zero, or twelve of them do not fit in the timer's range.
    InvalidHeartbeat,
}

/// Election timeouts range over `[8, 12]` heartbeats.
pub fn new_raft_config(heartbeat_interval: u64, snapshot_logs_since_last: u64, max_applied_log_to_keep: u64) -> (r: Result<RaftTiming, ConfigError>)
    ensures
        (heartbeat_interval == 0 || heartbeat_interval * 12 > u64::MAX) <==> r is Err,
        r matches Ok(t) ==> {
            &&& t.heartbeat_interval == heartbeat_interval
            &&& t.election_timeout_min == heartbeat_interval * 8
            &&& t.election_timeout_max == heartbeat_interval * 12
            &&& t.snapshot_logs_since_last == snapshot_logs_since_last
            &&& t.max_applied_log_to_keep == max_applied_log_to_keep
        },
{
    if heartbeat_interval == 0 || heartbeat_interval > u64::MAX / 12 {
        return Err(ConfigError::InvalidHeartbeat);
    }
    Ok(RaftTiming {
        heartbeat_interval,
        election_timeout_min: heartbeat_interval * 8,
        election_timeout_max: heartbeat_interval * 12,
        snapshot_logs_since_last,
        max_applied_log_to_keep,
    })
}

impl RaftTiming {
    /// Whether enough entries were applied since the last snapshot to take a new one.
    pub fn should_snapshot(&self, last_applied: u64, last_snapshot: Option<u64>) -> (r: bool)
        ensures
            r == match last_snapshot {
                Some(s) => last_applied >= s && last_applied - s >= self.snapshot_logs_since_last,
                None => last_applied + 1 >= self.snapshot_logs_since_last,
            },
    {
        match last_snapshot {
            Some(s) => last_applied >= s && last_applied - s >= self.snapshot_logs_since_last,
            None => last_applied as u128 + 1 >= self.snapshot_logs_since_last as u128,
        }
    }
}

} // verus!

verus! {

/// One reading of the consensus metrics.
#[derive(Debug, Clone, Copy, PartialEq, Eq, Structural)]
pub struct RaftMetrics {
    pub state: crate::raft::Role,
    /// Whether the node only replicates, without a vote.
    pub is_learner: bool,
    pub current_term: u64,
    pub current_leader: Option<u64>,
    pub last_log_index: Option<u64>,
    pub last_applied: Option<crate::state_machine::LogId>,
}

/// The gauges published after a metrics change.
#[derive(Debug, Clone, Copy, PartialEq, Eq, Structural)]
pub struct MetricsReport {
    /// A follower or the leader: a node that takes part in the cluster.
    pub node_is_healthy: bool,
    /// A leader is known and differs from the one of the previous reading.
    pub leader_changed: bool,
    /// The leader's id, 0 when none is known.
    pub current_leader: u64,
    pub is_leader: bool,
    pub current_term: u64,
    pub last_log_index: u64,
    pub proposals_applied: u64,
    /// The last sequence number the state machine handed out.
    pub last_seq: u64,
}

pub fn metrics_report(self_id: u64, last_leader: Option<u64>, m: RaftMetrics, last_seq: u64) -> (r: MetricsReport)
    ensures
        r.node_is_healthy == (!m.is_learner && (m.state == crate::raft::Role::Follower || m.state == crate::raft::Role::Leader)),
        r.leader_changed == (m.current_leader is Some && m.current_leader != last_leader),
        r.current_leader == match m.current_leader { Some(l) => l, None => 0 },
        r.is_leader == (m.current_leader == Some(self_id)),
        r.current_term == m.current_term,
        r.last_log_index == match m.last_log_index { Some(i) => i, None => 0 },
        r.proposals_applied == match m.last_applied { Some(l) => l.index, None => 0 },
        r.last_seq == last_seq,
{
    let healthy = !m.is_learner && (m.state == crate::raft::Role::Follower || m.state == crate::raft::Role::Leader);
    let changed = match m.current_leader {
        Some(l) => match last_leader {
            Some(p) => l != p,
            None => true,
        },
        None => false,
    };
    MetricsReport {
        node_is_healthy: healthy,
        leader_changed: changed,
        current_leader: match m.current_leader {
            Some(l) => l,
            None => 0,
        },
        is_leader: match m.current_leader {
            Some(l) => l == self_id,
            None => false,
        },
        current_term: m.current_term,
        last_log_index: match m.last_log_index {
            Some(i) => i,
            None => 0,
        },
        proposals_applied: match m.last_applied {
            Some(l) => l.index,
            None => 0,
        },
        last_seq,
    }
}

} // verus!

verus! {

/// How a meta node brings up its store at startup.
#[derive(Debug, Clone, Copy, PartialEq, Eq, Structural)]
pub struct StartPlan {
    /// Open the store if it exists.
    pub open: bool,
    /// Create the store if it does not exist.
    pub create: bool,
    /// Initialize a one-node cluster with this node, when the store was just created.
    pub initialize_cluster: bool,
}

/// A single-node setup opens or creates its store and initializes its own cluster; a node
/// that is to join opens or creates its store; any other node only opens an existing one.
pub fn start_plan(single: bool, join_configured: bool) -> (r: StartPlan)
    ensures
        single ==> r == (StartPlan { open: true, create: true, initialize_cluster: true }),
        !single && join_configured ==> r == (StartPlan { open: true, create: true, initialize_cluster: false }),
        !single && !join_configured ==> r == (StartPlan { open: true, create: false, initialize_cluster: false }),
{
    if single {
        StartPlan { open: true, create: true, initialize_cluster: true }
    } else if join_configured {
        StartPlan { open: true, create: true, initialize_cluster: false }
    } else {
        StartPlan { open: true, create: false, initialize_cluster: false }
    }
}

/// Booting the first node of a new cluster creates its store and the cluster.
pub fn boot_plan() -> (r: StartPlan)
    ensures
        r == (StartPlan { open: false, create: true, initialize_cluster: true }),
{
    StartPlan { open: false, create: true, initialize_cluster: true }
}

/// The id of the node: the configured id counts only when the store is new.
pub fn self_node_id(store_opened: bool, stored_id: u64, config_id: u64) -> (r: u64)
    ensures
        r == if store_opened { stored_id } else { config_id },
{
    if store_opened {
        stored_id
    } else {
        config_id
    }
}

/// A cluster is initialized only on a newly created store, and only when asked for.
pub fn should_init_cluster(store_opened: bool, plan: StartPlan) -> (r: bool)
    ensures
        r == (!store_opened && plan.initialize_cluster),
{
    !store_opened && plan.initialize_cluster
}

} // verus!

verus! {

/// Why a meta node cannot be built.
#[derive(Debug, Clone, Copy, PartialEq, Eq, Structural)]
pub enum BuildError {
    NodeIdNotSet,
    ConfigNotSet,
    StoreNotSet,
    /// No endpoint was configured and the store records none for the node.
    NoEndpoint,
}

/// Checks what building a meta node needs, in order: the node id, the consensus config and
/// the store; then picks the endpoint, the configured one or else the one the store records.
pub fn build_check(
    node_id: Option<u64>,
    has_config: bool,
    has_store: bool,
    endpoint: Option<String>,
    stored_endpoint: Option<String>,
) -> (r: Result<(u64, String), BuildError>)
    ensures
        node_id is None ==> r == Err::<(u64, String), BuildError>(BuildError::NodeIdNotSet),
        node_id is Some && !has_config ==> r == Err::<(u64, String), BuildError>(BuildError::ConfigNotSet),
        node_id is Some && has_config && !has_store ==> r == Err::<(u64, String), BuildError>(BuildError::StoreNotSet),
        node_id is Some && has_config && has_store && endpoint is None && stored_endpoint is None
            ==> r == Err::<(u64, String), BuildError>(BuildError::NoEndpoint),
        r matches Ok((id, e)) ==> node_id == Some(id) && has_config && has_store && match endpoint {
            Some(c) => e == c,
            None => stored_endpoint == Some(e),
        },
        node_id is Some && has_config && has_store && (endpoint is Some || stored_endpoint is Some) ==> r is Ok,
{
    let id = match node_id {
        Some(id) => id,
        None => {
            return Err(BuildError::NodeIdNotSet);
        },
    };
    if !has_config {
        return Err(BuildError::ConfigNotSet);
    }
    if !has_store {
        return Err(BuildError::StoreNotSet);
    }
    match endpoint {
        Some(e) => Ok((id, e)),
        None => match stored_endpoint {
            Some(e) => Ok((id, e)),
            None => Err(BuildError::NoEndpoint),
        },
    }
}

} // verus!

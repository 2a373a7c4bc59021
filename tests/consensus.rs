use databend_core::election::{
    count_votes, handle_vote_request, is_majority, is_up_to_date, majority_matched_index, wins_election, HardState,
    VoteRequest,
};
use databend_core::node::{
    as_leader, attempt_step, AttemptStep, join_targets, leave_target, new_raft_config, poll_leader, prepare_forward, route_request, CanNotForward,
    ConfigError, ForwardRequest, ForwardRequestBody, ForwardStep, ForwardToLeader, LeaderPoll, MetaAPIError,
    MetaOperationError, MetricsReport, RaftMetrics, metrics_report,
    boot_plan, build_check, BuildError, self_node_id, should_init_cluster, start_plan, StartPlan,
};
use databend_core::raft::Role;
use databend_core::state_machine::{AppliedState, Cmd, EntryPayload, LogEntry, LogId, StateMachine};
use databend_core::store::{LogStore, RaftStore, Snapshot, SnapshotMeta, StoreError};

fn upsert(term: u64, index: u64, key: &str, value: Option<Vec<u8>>) -> LogEntry {
    LogEntry {
        log_id: LogId { term, index },
        payload: EntryPayload::Normal(Cmd::UpsertKV { key: key.to_string(), value }),
    }
}

fn blank(term: u64, index: u64) -> LogEntry {
    LogEntry { log_id: LogId { term, index }, payload: EntryPayload::Blank }
}

fn sample_log() -> Vec<LogEntry> {
    vec![
        blank(1, 1),
        upsert(1, 2, "a", Some(vec![1])),
        LogEntry {
            log_id: LogId { term: 1, index: 3 },
            payload: EntryPayload::Normal(Cmd::AddNode { node_id: 2, endpoint: "127.0.0.1:29000".to_string() }),
        },
        upsert(2, 4, "b", Some(vec![2, 2])),
        upsert(2, 5, "a", Some(vec![3])),
        LogEntry { log_id: LogId { term: 2, index: 6 }, payload: EntryPayload::Membership(vec![1, 2, 3]) },
        upsert(2, 7, "b", None),
    ]
}

#[test]
fn apply_assigns_increasing_sequence_numbers() {
    let mut sm = StateMachine::new();
    let r1 = sm.apply(&upsert(1, 1, "k", Some(vec![7])));
    assert_eq!(r1, AppliedState::KV { before: None, after: Some((1, vec![7])) });
    let r2 = sm.apply(&upsert(1, 2, "k", Some(vec![8])));
    assert_eq!(r2, AppliedState::KV { before: Some((1, vec![7])), after: Some((2, vec![8])) });
    assert_eq!(sm.get_kv(&"k".to_string()), Some((2, vec![8])));
    let r3 = sm.apply(&upsert(1, 3, "k", None));
    assert_eq!(r3, AppliedState::KV { before: Some((2, vec![8])), after: None });
    assert_eq!(sm.get_kv(&"k".to_string()), None);
    assert_eq!(sm.seq, 2);
    assert_eq!(sm.last_applied, Some(LogId { term: 1, index: 3 }));
}

#[test]
fn nodes_are_recorded_once() {
    let mut sm = StateMachine::new();
    let add = |index: u64, ep: &str| LogEntry {
        log_id: LogId { term: 1, index },
        payload: EntryPayload::Normal(Cmd::AddNode { node_id: 5, endpoint: ep.to_string() }),
    };
    assert_eq!(sm.apply(&add(1, "a:1")), AppliedState::Node { recorded_before: false, recorded_after: true });
    assert_eq!(sm.apply(&add(2, "b:2")), AppliedState::Node { recorded_before: true, recorded_after: true });
    assert_eq!(sm.get_node_endpoint(5), Some("a:1".to_string()));
    let rm = LogEntry { log_id: LogId { term: 1, index: 3 }, payload: EntryPayload::Normal(Cmd::RemoveNode { node_id: 5 }) };
    assert_eq!(sm.apply(&rm), AppliedState::Node { recorded_before: true, recorded_after: false });
    assert_eq!(sm.get_node_endpoint(5), None);
}

#[test]
fn replay_on_fresh_nodes_is_identical() {
    let log = sample_log();
    let mut a = StateMachine::new();
    let mut b = StateMachine::new();
    a.replay(&log);
    b.replay(&log);
    assert_eq!(a, b);
    assert_eq!(a.get_kv(&"a".to_string()), Some((3, vec![3])));
    assert_eq!(a.get_kv(&"b".to_string()), None);
    assert_eq!(a.membership, vec![1, 2, 3]);
    assert_eq!(a.last_applied, Some(LogId { term: 2, index: 7 }));
}

#[test]
fn snapshot_plus_log_suffix_equals_full_replay() {
    let log = sample_log();
    let mut full = StateMachine::new();
    full.replay(&log);

    let mut leader = RaftStore::new(1);
    let mut prefix = sample_log();
    let suffix = prefix.split_off(4);
    leader.state_machine.replay(&prefix);
    let snapshot = leader.build_snapshot().unwrap();
    assert_eq!(snapshot.meta.last_log_id, LogId { term: 2, index: 4 });

    let mut follower = RaftStore::new(2);
    assert_eq!(follower.install_snapshot(snapshot), Ok(()));
    follower.state_machine.replay(&suffix);
    assert_eq!(follower.state_machine, full);
}

#[test]
fn build_snapshot_needs_an_applied_entry() {
    let mut store = RaftStore::new(1);
    assert_eq!(store.build_snapshot().err(), Some(StoreError::NothingApplied));
    store.state_machine.apply(&blank(1, 1));
    let s = store.build_snapshot().unwrap();
    assert_eq!(store.current_snapshot, Some(s.meta));
    assert_eq!(s.data, store.state_machine);
}

#[test]
fn stale_snapshot_install_changes_nothing() {
    let mut ahead = RaftStore::new(3);
    ahead.log.append_entries(sample_log()).unwrap();
    ahead.state_machine.replay(&sample_log());

    let mut old = StateMachine::new();
    let mut prefix = sample_log();
    prefix.truncate(3);
    old.replay(&prefix);
    let snapshot = Snapshot { meta: SnapshotMeta { last_log_id: LogId { term: 1, index: 3 }, snapshot_id: 1 }, data: old };

    let mut before = RaftStore::new(3);
    before.log.append_entries(sample_log()).unwrap();
    before.state_machine.replay(&sample_log());

    assert_eq!(ahead.install_snapshot(snapshot), Err(StoreError::StaleSnapshot));
    assert_eq!(ahead, before);
}

#[test]
fn inconsistent_snapshot_install_changes_nothing() {
    let mut store = RaftStore::new(1);
    store.log.append_entries(vec![blank(1, 1)]).unwrap();
    let mut data = StateMachine::new();
    data.apply(&blank(1, 1));
    let snapshot = Snapshot { meta: SnapshotMeta { last_log_id: LogId { term: 1, index: 2 }, snapshot_id: 9 }, data };
    assert_eq!(store.install_snapshot(snapshot), Err(StoreError::InconsistentSnapshot));
    let mut fresh = RaftStore::new(1);
    fresh.log.append_entries(vec![blank(1, 1)]).unwrap();
    assert_eq!(store, fresh);
}

#[test]
fn install_keeps_matching_log_suffix() {
    let mut store = RaftStore::new(2);
    store.log.append_entries(sample_log()).unwrap();
    let mut data = StateMachine::new();
    let mut prefix = sample_log();
    prefix.truncate(4);
    data.replay(&prefix);
    let snapshot = Snapshot { meta: SnapshotMeta { last_log_id: LogId { term: 2, index: 4 }, snapshot_id: 1 }, data };
    assert_eq!(store.install_snapshot(snapshot), Ok(()));
    assert_eq!(store.log.first_index, 5);
    assert_eq!(store.log.entries.len(), 3);
    assert_eq!(store.log.entries[0].log_id, LogId { term: 2, index: 5 });
}

#[test]
fn install_drops_conflicting_log() {
    let mut store = RaftStore::new(2);
    store.log.append_entries(vec![blank(1, 1), blank(1, 2), blank(1, 3)]).unwrap();
    let mut data = StateMachine::new();
    data.apply(&blank(3, 2));
    let snapshot = Snapshot { meta: SnapshotMeta { last_log_id: LogId { term: 3, index: 2 }, snapshot_id: 1 }, data };
    assert_eq!(store.install_snapshot(snapshot), Ok(()));
    assert_eq!(store.log.first_index, 3);
    assert!(store.log.entries.is_empty());
}

#[test]
fn log_matching_truncates_conflicts() {
    let mut log = LogStore::new(1);
    assert_eq!(log.append_entries(vec![blank(1, 1), blank(1, 2), blank(1, 3)]), Ok(()));
    assert_eq!(log.last_log_id(), Some(LogId { term: 1, index: 3 }));
    assert_eq!(log.append_entry(blank(2, 2)), Ok(()));
    assert_eq!(log.entries.len(), 2);
    assert_eq!(log.last_log_id(), Some(LogId { term: 2, index: 2 }));
}

#[test]
fn duplicate_append_is_a_no_op() {
    let mut log = LogStore::new(1);
    log.append_entries(vec![blank(1, 1), blank(1, 2)]).unwrap();
    assert_eq!(log.append_entry(blank(1, 1)), Ok(()));
    assert_eq!(log.entries.len(), 2);
    assert_eq!(log.append_entry(blank(1, 0)), Ok(()));
    assert_eq!(log.entries.len(), 2);
}

#[test]
fn log_refuses_gaps_and_term_regressions() {
    let mut log = LogStore::new(1);
    assert_eq!(log.append_entry(blank(1, 3)), Err(StoreError::LogGap));
    assert!(log.entries.is_empty());
    log.append_entry(blank(2, 1)).unwrap();
    assert_eq!(log.append_entry(blank(1, 2)), Err(StoreError::TermRegression));
    assert_eq!(log.entries.len(), 1);
}

#[test]
fn purge_drops_covered_entries() {
    let mut log = LogStore::new(1);
    log.append_entries(vec![blank(1, 1), blank(1, 2), blank(1, 3)]).unwrap();
    log.purge_upto(2);
    assert_eq!(log.first_index, 3);
    assert_eq!(log.entries.len(), 1);
    log.purge_upto(1);
    assert_eq!(log.first_index, 3);
}

#[test]
fn votes_follow_term_and_log_freshness() {
    let mut hs = HardState { current_term: 1, voted_for: None };
    let req = VoteRequest { term: 2, candidate_id: 3, last_log_id: Some(LogId { term: 1, index: 5 }) };
    let r = handle_vote_request(&mut hs, Some(LogId { term: 1, index: 4 }), req);
    assert!(r.vote_granted);
    assert_eq!(r.term, 2);
    assert_eq!(hs, HardState { current_term: 2, voted_for: Some(3) });

    let other = VoteRequest { term: 2, candidate_id: 4, last_log_id: Some(LogId { term: 9, index: 9 }) };
    assert!(!handle_vote_request(&mut hs, None, other).vote_granted);
    assert!(handle_vote_request(&mut hs, None, req).vote_granted);

    let stale = VoteRequest { term: 1, candidate_id: 4, last_log_id: None };
    let r = handle_vote_request(&mut hs, None, stale);
    assert!(!r.vote_granted);
    assert_eq!(r.term, 2);
    assert_eq!(hs, HardState { current_term: 2, voted_for: Some(3) });

    let behind = VoteRequest { term: 3, candidate_id: 4, last_log_id: Some(LogId { term: 1, index: 9 }) };
    let r = handle_vote_request(&mut hs, Some(LogId { term: 2, index: 1 }), behind);
    assert!(!r.vote_granted);
    assert_eq!(hs, HardState { current_term: 3, voted_for: None });
}

#[test]
fn up_to_date_compares_term_then_index() {
    assert!(is_up_to_date(Some(LogId { term: 2, index: 1 }), Some(LogId { term: 1, index: 9 })));
    assert!(!is_up_to_date(Some(LogId { term: 1, index: 8 }), Some(LogId { term: 1, index: 9 })));
    assert!(is_up_to_date(None, None));
    assert!(!is_up_to_date(None, Some(LogId { term: 1, index: 1 })));
}

#[test]
fn partitioned_three_node_cluster_elects_on_majority_side() {
    let voters = vec![1, 2, 3];
    // Node 1 is isolated: only its own vote reaches it.
    assert!(!wins_election(&voters, &vec![1]));
    // Nodes 2 and 3 reach each other.
    assert!(wins_election(&voters, &vec![2, 3]));
    assert_eq!(count_votes(&voters, &vec![3, 3, 2, 9]), 2);
    assert!(!is_majority(1, 3));
    assert!(is_majority(2, 3));
    assert!(!is_majority(2, 4));
}

#[test]
fn commit_index_is_majority_matched() {
    assert_eq!(majority_matched_index(&vec![5, 3, 4]), 4);
    assert_eq!(majority_matched_index(&vec![7]), 7);
    assert_eq!(majority_matched_index(&vec![]), 0);
    assert_eq!(majority_matched_index(&vec![9, 9, 1, 1]), 1);
    assert_eq!(majority_matched_index(&vec![9, 9, 9, 1, 1]), 9);
}

#[test]
fn no_forward_budget_fails_without_forwarding() {
    let req = ForwardRequest { forward_to_leader: 0, body: ForwardRequestBody::Leave { node_id: 9 } };
    match route_request(1, 2, req) {
        ForwardStep::Fail(e) => assert_eq!(e, MetaAPIError::CanNotForward(CanNotForward::MaxForwardReached)),
        _ => panic!("expected CanNotForward"),
    }
}

#[test]
fn forwarding_spends_one_hop() {
    let req = ForwardRequest::new(ForwardRequestBody::GetKV { key: "x".to_string() });
    match route_request(1, 2, req) {
        ForwardStep::Forward(to, next) => {
            assert_eq!(to, 2);
            assert_eq!(next.forward_to_leader, 0);
            assert_eq!(next.body, ForwardRequestBody::GetKV { key: "x".to_string() });
        },
        _ => panic!("expected a forward"),
    }
    let local = ForwardRequest::new(ForwardRequestBody::Leave { node_id: 1 });
    assert!(matches!(route_request(1, 1, local), ForwardStep::Local(_)));
}

#[test]
fn failed_local_attempts() {
    let req = || ForwardRequest::new(ForwardRequestBody::Leave { node_id: 1 });
    assert_eq!(prepare_forward(req(), MetaOperationError::DataError).err(), Some(MetaAPIError::DataError));
    let no_leader = MetaOperationError::ForwardToLeader(ForwardToLeader { leader_id: None });
    assert_eq!(
        prepare_forward(req(), no_leader).err(),
        Some(MetaAPIError::CanNotForward(CanNotForward::NoKnownLeader))
    );
    assert_eq!(as_leader(1, 1), Ok(()));
    assert_eq!(as_leader(1, 2), Err(ForwardToLeader { leader_id: Some(2) }));
}

#[test]
fn election_timeouts_scale_from_heartbeat() {
    let t = new_raft_config(500, 1024, 1000).unwrap();
    assert_eq!(t.election_timeout_min, 4000);
    assert_eq!(t.election_timeout_max, 6000);
    assert_eq!(new_raft_config(0, 1, 1), Err(ConfigError::InvalidHeartbeat));
    assert_eq!(new_raft_config(u64::MAX / 12 + 1, 1, 1), Err(ConfigError::InvalidHeartbeat));
    assert!(t.should_snapshot(2048, Some(1024)));
    assert!(!t.should_snapshot(2000, Some(1024)));
    assert!(t.should_snapshot(1023, None));
    assert!(!t.should_snapshot(10, None));
}

#[test]
fn join_skips_self_and_opened_stores() {
    let join = vec!["a:1".to_string(), "me:2".to_string(), "b:3".to_string()];
    let me = "me:2".to_string();
    assert_eq!(join_targets(&join, &me, false), Some(vec!["a:1".to_string(), "b:3".to_string()]));
    let repeated = vec!["b:3".to_string(), "me:2".to_string(), "a:1".to_string(), "b:3".to_string()];
    assert_eq!(
        join_targets(&repeated, &me, false),
        Some(vec!["b:3".to_string(), "a:1".to_string(), "b:3".to_string()])
    );
    assert_eq!(join_targets(&join, &me, true), None);
    assert_eq!(join_targets(&vec![], &me, false), None);
    assert_eq!(join_targets(&vec![me.clone()], &me, false), Some(vec![]));
}

#[test]
fn candidate_addresses_are_tried_once_in_order() {
    assert_eq!(attempt_step(2, None), AttemptStep::Try(0));
    assert_eq!(attempt_step(2, Some((0, false))), AttemptStep::Try(1));
    assert_eq!(attempt_step(2, Some((1, false))), AttemptStep::GiveUp);
    assert_eq!(attempt_step(2, Some((0, true))), AttemptStep::Done);
    assert_eq!(attempt_step(0, None), AttemptStep::GiveUp);
}

#[test]
fn leaving_needs_address_and_id() {
    assert_eq!(leave_target(&vec![], Some(3)), None);
    assert_eq!(leave_target(&vec!["a:1".to_string()], None), None);
    assert_eq!(leave_target(&vec!["a:1".to_string()], Some(3)), Some(3));
}

#[test]
fn leader_polling() {
    assert_eq!(poll_leader(Some(4), false), LeaderPoll::Known(4));
    assert_eq!(poll_leader(Some(4), true), LeaderPoll::Known(4));
    assert_eq!(poll_leader(None, false), LeaderPoll::Wait);
    assert_eq!(poll_leader(None, true), LeaderPoll::Closed);
}

#[test]
fn metrics_reports() {
    use_metrics_cases();
}

fn use_metrics_cases() {
    let m = RaftMetrics {
        state: Role::Leader,
        is_learner: false,
        current_term: 3,
        current_leader: Some(1),
        last_log_index: Some(9),
        last_applied: Some(LogId { term: 3, index: 8 }),
    };
    let r = metrics_report(1, Some(2), m, 17);
    assert_eq!(
        r,
        MetricsReport {
            node_is_healthy: true,
            leader_changed: true,
            current_leader: 1,
            is_leader: true,
            current_term: 3,
            last_log_index: 9,
            proposals_applied: 8,
            last_seq: 17,
        }
    );
    assert!(!metrics_report(1, Some(1), m, 0).leader_changed);
    let candidate = RaftMetrics { state: Role::Candidate, current_leader: None, last_log_index: None, last_applied: None, ..m };
    let r = metrics_report(1, Some(1), candidate, 0);
    assert!(!r.node_is_healthy && !r.leader_changed && !r.is_leader);
    assert_eq!((r.current_leader, r.last_log_index, r.proposals_applied), (0, 0, 0));
    let learner = RaftMetrics { state: Role::Follower, is_learner: true, ..m };
    assert!(!metrics_report(2, Some(1), learner, 0).node_is_healthy);
}

#[test]
fn nodes_split_into_voters_and_learners() {
    let mut sm = StateMachine::new();
    for (i, id) in [1u64, 2, 3].iter().enumerate() {
        sm.apply(&LogEntry {
            log_id: LogId { term: 1, index: i as u64 + 1 },
            payload: EntryPayload::Normal(Cmd::AddNode { node_id: *id, endpoint: format!("n{id}:1") }),
        });
    }
    sm.apply(&LogEntry { log_id: LogId { term: 1, index: 4 }, payload: EntryPayload::Membership(vec![3, 1]) });
    assert_eq!(sm.split_nodes(), (vec![1, 3], vec![2]));
}

#[test]
fn startup_modes() {
    assert_eq!(start_plan(true, false), StartPlan { open: true, create: true, initialize_cluster: true });
    assert_eq!(start_plan(false, true), StartPlan { open: true, create: true, initialize_cluster: false });
    assert_eq!(start_plan(false, false), StartPlan { open: true, create: false, initialize_cluster: false });
    assert_eq!(boot_plan(), StartPlan { open: false, create: true, initialize_cluster: true });
    assert_eq!(self_node_id(true, 4, 9), 4);
    assert_eq!(self_node_id(false, 4, 9), 9);
    assert!(should_init_cluster(false, boot_plan()));
    assert!(!should_init_cluster(true, boot_plan()));
    assert!(!should_init_cluster(false, start_plan(false, true)));
}

#[test]
fn builder_needs_id_config_store_and_endpoint() {
    let ep = || Some("h:1".to_string());
    assert_eq!(build_check(None, true, true, ep(), None), Err(BuildError::NodeIdNotSet));
    assert_eq!(build_check(Some(1), false, false, ep(), None), Err(BuildError::ConfigNotSet));
    assert_eq!(build_check(Some(1), true, false, ep(), None), Err(BuildError::StoreNotSet));
    assert_eq!(build_check(Some(1), true, true, None, None), Err(BuildError::NoEndpoint));
    assert_eq!(build_check(Some(1), true, true, ep(), Some("s:2".to_string())), Ok((1, "h:1".to_string())));
    assert_eq!(build_check(Some(1), true, true, None, Some("s:2".to_string())), Ok((1, "s:2".to_string())));
}

use databend_core::node::ForwardToLeader;
use databend_core::raft::{ApplyError, ProposeError, RaftNode, Role};
use databend_core::state_machine::{Cmd, EntryPayload, LogEntry, LogId, StateMachine};
use databend_core::store::{Snapshot, SnapshotMeta};

fn put(key: &str, v: u8) -> EntryPayload {
    EntryPayload::Normal(Cmd::UpsertKV { key: key.to_string(), value: Some(vec![v]) })
}

fn leader(id: u64) -> RaftNode {
    let mut n = RaftNode::new(id);
    assert!(n.become_candidate());
    n.become_leader(true);
    n
}

#[test]
fn follower_refuses_proposals() {
    let mut n = RaftNode::new(1);
    n.leader_id = Some(2);
    assert_eq!(
        n.propose(put("a", 1)),
        Err(ProposeError::ForwardToLeader(ForwardToLeader { leader_id: Some(2) }))
    );
    assert!(n.store.log.entries.is_empty());
}

#[test]
fn election_moves_through_roles() {
    let mut n = RaftNode::new(1);
    assert!(n.become_candidate());
    assert_eq!(n.role, Role::Candidate);
    assert_eq!(n.hard_state.current_term, 1);
    assert_eq!(n.hard_state.voted_for, Some(1));
    n.become_leader(false);
    assert_eq!(n.role, Role::Candidate);
    n.become_leader(true);
    assert_eq!(n.role, Role::Leader);
    assert_eq!(n.leader_id, Some(1));
}

#[test]
fn proposals_commit_and_apply_in_order() {
    let mut n = leader(1);
    assert_eq!(n.propose(put("a", 1)), Ok(LogId { term: 1, index: 1 }));
    assert_eq!(n.propose(put("b", 2)), Ok(LogId { term: 1, index: 2 }));
    assert_eq!(n.propose(put("a", 3)), Ok(LogId { term: 1, index: 3 }));

    // Only this node has the entries: no majority of three yet.
    n.advance_commit(&vec![3, 0, 0]);
    assert_eq!(n.commit_index, 0);
    n.advance_commit(&vec![3, 2, 0]);
    assert_eq!(n.commit_index, 2);
    assert_eq!(n.apply_committed(), Ok(()));
    assert_eq!(n.store.state_machine.get_kv(&"a".to_string()), Some((1, vec![1])));
    assert_eq!(n.store.state_machine.last_applied, Some(LogId { term: 1, index: 2 }));

    n.advance_commit(&vec![3, 3, 1]);
    assert_eq!(n.commit_index, 3);
    assert_eq!(n.apply_committed(), Ok(()));
    assert_eq!(n.store.state_machine.get_kv(&"a".to_string()), Some((3, vec![3])));

    // A fresh node replaying the persisted log holds the same content.
    let mut fresh = StateMachine::new();
    fresh.replay(&n.store.log.entries);
    assert_eq!(fresh, n.store.state_machine);
}

#[test]
fn commit_needs_an_entry_of_the_current_term() {
    let mut n = leader(1);
    n.propose(put("a", 1)).unwrap();
    // A new term: the old entry cannot be committed by counting replicas alone.
    n.role = Role::Follower;
    assert!(n.become_candidate());
    n.become_leader(true);
    n.advance_commit(&vec![1, 1, 1]);
    assert_eq!(n.commit_index, 0);
    n.propose(put("b", 2)).unwrap();
    n.advance_commit(&vec![2, 2, 0]);
    assert_eq!(n.commit_index, 2);
}

#[test]
fn applying_needs_the_entries_after_the_snapshot() {
    let mut n = RaftNode::new(2);
    let mut data = StateMachine::new();
    data.apply(&LogEntry { log_id: LogId { term: 1, index: 1 }, payload: put("x", 1) });
    n.store
        .install_snapshot(Snapshot { meta: SnapshotMeta { last_log_id: LogId { term: 1, index: 1 }, snapshot_id: 1 }, data })
        .unwrap();
    n.hard_state.current_term = 1;
    n.store.log.append_entry(LogEntry { log_id: LogId { term: 1, index: 2 }, payload: put("y", 2) }).unwrap();
    n.commit_index = 2;
    assert_eq!(n.apply_committed(), Ok(()));
    assert_eq!(n.store.state_machine.get_kv(&"y".to_string()), Some((2, vec![2])));

    let mut behind = RaftNode::new(3);
    behind.hard_state.current_term = 1;
    behind.store.log.first_index = 5;
    behind.store.log.append_entry(LogEntry { log_id: LogId { term: 1, index: 5 }, payload: put("z", 1) }).unwrap();
    behind.commit_index = 5;
    assert_eq!(behind.apply_committed(), Err(ApplyError::MissingEntries));
    assert_eq!(behind.store.state_machine.last_applied, None);
}

#[test]
fn proposals_stop_when_log_indices_run_out() {
    let mut n = leader(1);
    n.store.log.first_index = u64::MAX;
    assert_eq!(n.propose(put("a", 1)), Ok(LogId { term: 1, index: u64::MAX }));
    assert_eq!(n.propose(put("b", 2)), Err(ProposeError::LogFull));
    assert_eq!(n.store.log.entries.len(), 1);
}

#[test]
fn applying_stops_when_sequence_numbers_run_out() {
    let mut n = leader(1);
    n.propose(put("a", 1)).unwrap();
    n.advance_commit(&vec![1]);
    n.store.state_machine.seq = u64::MAX;
    assert_eq!(n.apply_committed(), Err(ApplyError::SeqExhausted));
    assert_eq!(n.store.state_machine.last_applied, None);
}

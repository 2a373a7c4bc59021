use vstd::prelude::*;

use crate::election::{count_at_least, is_quorum, majority_matched_index, spec_majority_index, HardState};
use crate::node::ForwardToLeader;
use crate::state_machine::{spec_replay, EntryPayload, LogEntry, LogId, SmView, StateMachine};
use crate::store::{log_wf, RaftStore};

verus! {

#[derive(Debug, Clone, Copy, PartialEq, Eq, Structural)]
pub enum Role {
    Follower,
    Candidate,
    Leader,
}

#[derive(Debug, Clone, Copy, PartialEq, Eq, Structural)]
pub enum ProposeError {
    /// This node is not the leader; the caller should retry at the one named.
    ForwardToLeader(ForwardToLeader),
    /// The log index space is used up.
    LogFull,
}

#[derive(Debug, Clone, Copy, PartialEq, Eq, Structural)]
pub enum ApplyError {
    /// The state machine is behind the start of the log: a snapshot must be installed first.
    MissingEntries,
    /// The sequence numbers of the state machine are used up.
    SeqExhausted,
}

/// One member of the consensus group: its role, persisted vote, log, state machine and
/// commit index.
#[derive(Debug, PartialEq, Eq)]
pub struct RaftNode {
    pub id: u64,
    pub role: Role,
    pub hard_state: HardState,
    pub leader_id: Option<u64>,
    pub store: RaftStore,
    pub commit_index: u64,
}

/// The index of the last entry the state machine applied, 0 before any.
pub open spec fn applied_index(sm: SmView) -> int {
    match sm.last_applied {
        Some(l) => l.index as int,
        None => 0,
    }
}

/// The index of the last log entry, or the one before the log's start when it is empty.
pub open spec fn last_index(first: u64, log: Seq<LogEntry>) -> int {
    first + log.len() - 1
}

impl RaftNode {
    pub open spec fn wf(&self) -> bool {
        &&& self.store.log.wf()
        &&& self.store.log.first_index >= 1
        &&& forall|i: int| 0 <= i < self.store.log.entries@.len() ==>
            (#[trigger] self.store.log.entries@[i]).log_id.term <= self.hard_state.current_term
    }

    pub fn new(id: u64) -> (r: RaftNode)
        ensures
            r.wf(),
            r.id == id,
            r.role == Role::Follower,
            r.hard_state == (HardState { current_term: 0, voted_for: None }),
            r.commit_index == 0,
    {
        RaftNode {
            id,
            role: Role::Follower,
            hard_state: HardState { current_term: 0, voted_for: None },
            leader_id: None,
            store: RaftStore::new(id),
            commit_index: 0,
        }
    }

    /// Starts an election: a new term, with this node's own vote.
    pub fn become_candidate(&mut self) -> (r: bool)
        requires
            old(self).wf(),
        ensures
            final(self).wf(),
            r == (old(self).hard_state.current_term < u64::MAX),
            r ==> final(self).role == Role::Candidate && final(self).hard_state == (HardState {
                current_term: (old(self).hard_state.current_term + 1) as u64,
                voted_for: Some(old(self).id),
            }) && final(self).leader_id is None,
            !r ==> *final(self) == *old(self),
            final(self).store == old(self).store,
    {
        if self.hard_state.current_term == u64::MAX {
            return false;
        }
        self.hard_state = HardState { current_term: self.hard_state.current_term + 1, voted_for: Some(self.id) };
        self.role = Role::Candidate;
        self.leader_id = None;
        true
    }

    /// A candidate that won a majority of the voters becomes leader of its term.
    pub fn become_leader(&mut self, won: bool)
        requires
            old(self).wf(),
        ensures
            final(self).wf(),
            won && old(self).role == Role::Candidate ==> final(self).role == Role::Leader
                && final(self).leader_id == Some(old(self).id),
            !(won && old(self).role == Role::Candidate) ==> *final(self) == *old(self),
            final(self).hard_state == old(self).hard_state,
            final(self).store == old(self).store,
    {
        if won && self.role == Role::Candidate {
            self.role = Role::Leader;
            self.leader_id = Some(self.id);
        }
    }

    /// Leader only: appends an entry of the current term at the end of the log.
    pub fn propose(&mut self, payload: EntryPayload) -> (r: Result<LogId, ProposeError>)
        requires
            old(self).wf(),
        ensures
            final(self).wf(),
            old(self).role != Role::Leader ==> r == Err::<LogId, ProposeError>(
                ProposeError::ForwardToLeader(ForwardToLeader { leader_id: old(self).leader_id })),
            r is Err ==> *final(self) == *old(self),
            r matches Ok(id) ==> {
                &&& old(self).role == Role::Leader
                &&& id == (LogId { term: old(self).hard_state.current_term, index: (old(self).store.log.first_index + old(self).store.log.entries@.len()) as u64 })
                &&& final(self).store.log.entries@ == old(self).store.log.entries@.push(LogEntry { log_id: id, payload })
                &&& final(self).store.log.first_index == old(self).store.log.first_index
                &&& final(self).store.state_machine == old(self).store.state_machine
                &&& final(self).hard_state == old(self).hard_state
                &&& final(self).commit_index == old(self).commit_index
            },
            old(self).role == Role::Leader && old(self).store.log.first_index + old(self).store.log.entries@.len() <= u64::MAX
                ==> r is Ok,
    {
        if self.role != Role::Leader {
            return Err(ProposeError::ForwardToLeader(ForwardToLeader { leader_id: self.leader_id }));
        }
        let first = self.store.log.first_index;
        let n = self.store.log.entries.len();
        if first > u64::MAX - n as u64 {
            return Err(ProposeError::LogFull);
        }
        let id = LogId { term: self.hard_state.current_term, index: first + n as u64 };
        let ghost old_log = self.store.log.entries@;
        self.store.log.entries.push(LogEntry { log_id: id, payload });
        proof {
            let l = self.store.log.entries@;
            assert forall|i: int, j: int| 0 <= i <= j < l.len() implies (#[trigger] l[i]).log_id.term <= (#[trigger] l[j]).log_id.term by {
                if j < n {
                    assert(l[i] == old_log[i] && l[j] == old_log[j]);
                } else if i < n {
                    assert(l[i] == old_log[i]);
                }
            }
            assert forall|i: int| 0 <= i < l.len() implies (#[trigger] l[i]).log_id.index == first + i by {
                if i < n {
                    assert(l[i] == old_log[i]);
                }
            }
        }
        Ok(id)
    }

    /// Leader only: moves the commit index to the largest index a majority has matched,
    /// when that entry is of the current term and beyond the present commit index.
    pub fn advance_commit(&mut self, matched: &Vec<u64>)
        requires
            old(self).wf(),
        ensures
            final(self).wf(),
            final(self).store == old(self).store,
            final(self).hard_state == old(self).hard_state,
            final(self).role == old(self).role,
            final(self).commit_index >= old(self).commit_index,
            ({
                let n = spec_majority_index(matched@);
                let first = old(self).store.log.first_index;
                let log = old(self).store.log.entries@;
                final(self).commit_index == if old(self).role == Role::Leader && n > old(self).commit_index
                    && first <= n <= last_index(first, log)
                    && log[n - first].log_id.term == old(self).hard_state.current_term { n } else { old(self).commit_index }
            }),
            final(self).commit_index > old(self).commit_index ==> {
                let n = final(self).commit_index;
                let first = old(self).store.log.first_index;
                let log = old(self).store.log.entries@;
                &&& old(self).role == Role::Leader
                &&& matched@.contains(n)
                &&& is_quorum(count_at_least(matched@, n) as int, matched@.len() as int)
                &&& first <= n <= last_index(first, log)
                &&& log[n - first].log_id.term == old(self).hard_state.current_term
            },
    {
        if self.role != Role::Leader {
            return;
        }
        let n = majority_matched_index(matched);
        let first = self.store.log.first_index;
        let len = self.store.log.entries.len();
        if n > self.commit_index && n >= first && n - first < len as u64 {
            if self.store.log.entries[(n - first) as usize].log_id.term == self.hard_state.current_term {
                self.commit_index = n;
            }
        }
    }

    /// Applies, in log order, every committed entry that the state machine has not applied.
    pub fn apply_committed(&mut self) -> (r: Result<(), ApplyError>)
        requires
            old(self).wf(),
        ensures
            final(self).wf(),
            final(self).store.log == old(self).store.log,
            final(self).commit_index == old(self).commit_index,
            r is Err ==> *final(self) == *old(self),
            r is Ok ==> {
                let first = old(self).store.log.first_index as int;
                let log = old(self).store.log.entries@;
                let start = applied_index(old(self).store.state_machine@) + 1;
                let end = if old(self).commit_index <= last_index(first as u64, log) {
                    old(self).commit_index as int
                } else {
                    last_index(first as u64, log)
                };
                &&& start >= first || start > end
                &&& final(self).store.state_machine@ == if start > end {
                    old(self).store.state_machine@
                } else {
                    spec_replay(old(self).store.state_machine@, log.subrange(start - first, end - first + 1))
                }
            },
            ({
                let first = old(self).store.log.first_index as int;
                let log = old(self).store.log.entries@;
                let start = applied_index(old(self).store.state_machine@) + 1;
                let end = if old(self).commit_index <= last_index(first as u64, log) {
                    old(self).commit_index as int
                } else {
                    last_index(first as u64, log)
                };
                &&& (start <= end && start < first) <==> r == Err::<(), ApplyError>(ApplyError::MissingEntries)
                &&& (start <= end && start >= first && old(self).store.state_machine.seq + (end - start + 1) > u64::MAX)
                    <==> r == Err::<(), ApplyError>(ApplyError::SeqExhausted)
            }),
    {
        let first = self.store.log.first_index;
        let len = self.store.log.entries.len();
        let applied: u64 = match self.store.state_machine.last_applied {
            Some(l) => l.index,
            None => 0,
        };
        let last: u64 = (first - 1) + len as u64;
        let end: u64 = if self.commit_index <= last { self.commit_index } else { last };
        if applied >= end {
            return Ok(());
        }
        let start = applied + 1;
        if start < first {
            return Err(ApplyError::MissingEntries);
        }
        let count = end - start + 1;
        if self.store.state_machine.seq > u64::MAX - count {
            return Err(ApplyError::SeqExhausted);
        }
        let ghost s0 = self.store.state_machine@;
        let lo = (start - first) as usize;
        let hi = (end - first) as usize + 1;
        let mut i: usize = lo;
        while i < hi
            invariant
                lo <= i <= hi,
                hi <= self.store.log.entries@.len(),
                self.store.log == old(self).store.log,
                self.store.state_machine.seq as int <= s0.seq + (i - lo),
                s0.seq + (hi - lo) <= u64::MAX,
                self.store.state_machine@ == spec_replay(s0, self.store.log.entries@.subrange(lo as int, i as int)),
                self.wf(),
                self.commit_index == old(self).commit_index,
            decreases hi - i,
        {
            let ghost before = self.store.state_machine@;
            self.store.state_machine.apply(&self.store.log.entries[i]);
            proof {
                let sub = self.store.log.entries@.subrange(lo as int, i as int + 1);
                assert(sub.drop_last() =~= self.store.log.entries@.subrange(lo as int, i as int));
                assert(sub.last() == self.store.log.entries@[i as int]);
                crate::state_machine::lemma_apply_seq_bound(before, self.store.log.entries@[i as int]);
            }
            i += 1;
        }
        Ok(())
    }
}

} // verus!

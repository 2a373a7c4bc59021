use vstd::prelude::*;

use crate::state_machine::{LogEntry, LogId, SmView, StateMachine};

verus! {

/// The persisted log: entries at consecutive indices from `first_index`, with terms that
/// never go down.
#[derive(Debug, PartialEq, Eq)]
pub struct LogStore {
    pub first_index: u64,
    pub entries: Vec<LogEntry>,
}

#[derive(Debug, Clone, Copy, PartialEq, Eq, Structural)]
pub enum StoreError {
    /// An entry that would leave a hole in the log.
    LogGap,
    /// An entry whose term is below the term of the entry before it.
    TermRegression,
    /// A snapshot whose data is not at the position its meta names.
    InconsistentSnapshot,
    /// A snapshot older than what the state machine already applied.
    StaleSnapshot,
    /// Nothing has been applied, so there is nothing to snapshot.
    NothingApplied,
}

pub open spec fn log_wf(first: u64, log: Seq<LogEntry>) -> bool {
    &&& first as int + log.len() <= u64::MAX + 1
    &&& forall|i: int| 0 <= i < log.len() ==> (#[trigger] log[i]).log_id.index == first + i
    &&& forall|i: int, j: int| 0 <= i <= j < log.len() ==> (#[trigger] log[i]).log_id.term <= (#[trigger] log[j]).log_id.term
}

/// The log after receiving one entry from the leader: an entry before the log's start or
/// already present with its term changes nothing; one that conflicts replaces the
/// conflicting entry and all that follows; one just past the end is appended; one further
/// out leaves a gap and is refused, as is one whose term is below its predecessor's.
pub open spec fn spec_append_one(first: u64, log: Seq<LogEntry>, e: LogEntry) -> Result<Seq<LogEntry>, StoreError> {
    let idx = e.log_id.index as int;
    let pos = idx - first;
    if idx < first {
        Ok(log)
    } else if pos > log.len() {
        Err(StoreError::LogGap)
    } else if pos < log.len() && log[pos].log_id.term == e.log_id.term {
        Ok(log)
    } else if pos > 0 && log[pos - 1].log_id.term > e.log_id.term {
        Err(StoreError::TermRegression)
    } else {
        Ok(log.subrange(0, pos).push(e))
    }
}

/// The log after receiving `es` in order, or the first refusal.
pub open spec fn spec_append_all(first: u64, log: Seq<LogEntry>, es: Seq<LogEntry>) -> Result<Seq<LogEntry>, StoreError>
    decreases es.len(),
{
    if es.len() == 0 {
        Ok(log)
    } else {
        match spec_append_one(first, log, es[0]) {
            Ok(l2) => spec_append_all(first, l2, es.drop_first()),
            Err(e) => Err(e),
        }
    }
}

proof fn lemma_append_one_wf(first: u64, log: Seq<LogEntry>, e: LogEntry)
    requires
        log_wf(first, log),
    ensures
        spec_append_one(first, log, e) matches Ok(l2) ==> log_wf(first, l2),
{
    let idx = e.log_id.index as int;
    let pos = idx - first;
    if idx >= first && pos <= log.len() && !(pos < log.len() && log[pos].log_id.term == e.log_id.term)
        && !(pos > 0 && log[pos - 1].log_id.term > e.log_id.term) {
        let l2 = log.subrange(0, pos).push(e);
        assert forall|i: int, j: int| 0 <= i <= j < l2.len() implies (#[trigger] l2[i]).log_id.term <= (#[trigger] l2[j]).log_id.term by {
            if j == pos && i < pos {
                assert(log[i].log_id.term <= log[pos - 1].log_id.term);
            }
        }
    }
}

impl LogStore {
    pub open spec fn wf(&self) -> bool {
        log_wf(self.first_index, self.entries@)
    }

    pub fn new(first_index: u64) -> (r: LogStore)
        ensures
            r.wf(),
            r.first_index == first_index,
            r.entries@.len() == 0,
    {
        LogStore { first_index, entries: Vec::new() }
    }

    /// The id of the last entry, if any.
    pub fn last_log_id(&self) -> (r: Option<LogId>)
        ensures
            self.entries@.len() == 0 ==> r is None,
            self.entries@.len() > 0 ==> r == Some(self.entries@.last().log_id),
    {
        if self.entries.len() == 0 {
            None
        } else {
            Some(self.entries[self.entries.len() - 1].log_id)
        }
    }

    /// Receives one entry from the leader.
    pub fn append_entry(&mut self, e: LogEntry) -> (r: Result<(), StoreError>)
        requires
            old(self).wf(),
        ensures
            final(self).wf(),
            final(self).first_index == old(self).first_index,
            match spec_append_one(old(self).first_index, old(self).entries@, e) {
                Ok(l) => r is Ok && final(self).entries@ == l,
                Err(err) => r == Err::<(), StoreError>(err) && final(self).entries@ == old(self).entries@,
            },
    {
        proof {
            lemma_append_one_wf(self.first_index, self.entries@, e);
        }
        let idx = e.log_id.index;
        let n = self.entries.len();
        if idx < self.first_index {
            return Ok(());
        }
        if idx - self.first_index > n as u64 {
            return Err(StoreError::LogGap);
        }
        let pos = (idx - self.first_index) as usize;
        if pos < n && self.entries[pos].log_id.term == e.log_id.term {
            return Ok(());
        }
        if pos > 0 && self.entries[pos - 1].log_id.term > e.log_id.term {
            return Err(StoreError::TermRegression);
        }
        self.entries.truncate(pos);
        self.entries.push(e);
        Ok(())
    }

    /// Receives a run of entries from the leader, in order, stopping at the first refusal.
    pub fn append_entries(&mut self, entries: Vec<LogEntry>) -> (r: Result<(), StoreError>)
        requires
            old(self).wf(),
        ensures
            final(self).wf(),
            final(self).first_index == old(self).first_index,
            match spec_append_all(old(self).first_index, old(self).entries@, entries@) {
                Ok(l) => r is Ok && final(self).entries@ == l,
                Err(err) => r == Err::<(), StoreError>(err),
            },
    {
        let mut rest = entries;
        while rest.len() > 0
            invariant
                self.wf(),
                self.first_index == old(self).first_index,
                spec_append_all(old(self).first_index, old(self).entries@, entries@)
                    == spec_append_all(self.first_index, self.entries@, rest@),
            decreases rest@.len(),
        {
            let ghost before = rest@;
            let e = rest.remove(0);
            assert(rest@ =~= before.drop_first());
            self.append_entry(e)?;
        }
        Ok(())
    }

    /// Drops every entry up to and including `index`, as a snapshot covers them.
    pub fn purge_upto(&mut self, index: u64)
        requires
            old(self).wf(),
            index < u64::MAX,
        ensures
            final(self).wf(),
            index < old(self).first_index ==> *final(self) == *old(self),
            index >= old(self).first_index ==> final(self).first_index == index + 1
                && final(self).entries@ == old(self).entries@.subrange(
                    if index - old(self).first_index + 1 <= old(self).entries@.len() { index - old(self).first_index + 1 } else { old(self).entries@.len() as int },
                    old(self).entries@.len() as int,
                ),
    {
        if index < self.first_index {
            return;
        }
        let n = self.entries.len();
        let k: usize = if index - self.first_index < n as u64 { (index - self.first_index) as usize + 1 } else { n };
        let ghost old_entries = self.entries@;
        let kept = self.entries.split_off(k);
        self.entries = kept;
        self.first_index = index + 1;
        proof {
            assert forall|i: int, j: int| 0 <= i <= j < self.entries@.len() implies
                (#[trigger] self.entries@[i]).log_id.term <= (#[trigger] self.entries@[j]).log_id.term by {
                assert(old_entries[i + k].log_id.term <= old_entries[j + k].log_id.term);
            }
            assert forall|i: int| 0 <= i < self.entries@.len() implies (#[trigger] self.entries@[i]).log_id.index == self.first_index + i by {
                assert(old_entries[i + k].log_id.index == old(self).first_index + i + k);
            }
        }
    }
}

#[derive(Debug, Clone, Copy, PartialEq, Eq, Structural)]
pub struct SnapshotMeta {
    pub last_log_id: LogId,
    pub snapshot_id: u64,
}

/// A point-in-time copy of the state machine and the log position it reflects.
#[derive(Debug, PartialEq, Eq)]
pub struct Snapshot {
    pub meta: SnapshotMeta,
    pub data: StateMachine,
}

/// A node's log, state machine and latest snapshot.
#[derive(Debug, PartialEq, Eq)]
pub struct RaftStore {
    pub id: u64,
    pub log: LogStore,
    pub state_machine: StateMachine,
    pub current_snapshot: Option<SnapshotMeta>,
    pub snapshot_count: u64,
}

/// What install keeps of the log: the entries after the snapshot when the log holds the
/// snapshot's last entry with its term, nothing otherwise.
pub open spec fn log_after_install(first: u64, log: Seq<LogEntry>, last: LogId) -> Seq<LogEntry> {
    let pos = last.index as int - first;
    if 0 <= pos < log.len() && log[pos].log_id.term == last.term {
        log.subrange(pos + 1, log.len() as int)
    } else {
        Seq::empty()
    }
}

/// Whether installing a snapshot taken at `last` would move the state machine backwards.
pub open spec fn is_stale(sm: SmView, last: LogId) -> bool {
    sm.last_applied matches Some(a) && a.index > last.index
}

impl RaftStore {
    pub fn new(id: u64) -> (r: RaftStore)
        ensures
            r.id == id,
            r.log.wf(),
            r.log.first_index == 1,
            r.log.entries@.len() == 0,
            r.state_machine@ == crate::state_machine::empty_view(),
            r.current_snapshot is None,
    {
        RaftStore { id, log: LogStore::new(1), state_machine: StateMachine::new(), current_snapshot: None, snapshot_count: 0 }
    }

    /// Takes a snapshot of the state machine at its last applied entry.
    pub fn build_snapshot(&mut self) -> (r: Result<Snapshot, StoreError>)
        ensures
            old(self).state_machine.last_applied is None <==> r == Err::<Snapshot, StoreError>(StoreError::NothingApplied),
            r matches Ok(s) ==> {
                &&& Some(s.meta.last_log_id) == old(self).state_machine.last_applied
                &&& s.data@ == old(self).state_machine@
                &&& final(self).current_snapshot == Some(s.meta)
            },
            final(self).state_machine@ == old(self).state_machine@,
            final(self).log == old(self).log,
    {
        match self.state_machine.last_applied {
            None => Err(StoreError::NothingApplied),
            Some(last) => {
                let id = if self.snapshot_count < u64::MAX { self.snapshot_count + 1 } else { self.snapshot_count };
                self.snapshot_count = id;
                let meta = SnapshotMeta { last_log_id: last, snapshot_id: id };
                self.current_snapshot = Some(meta);
                Ok(Snapshot { meta, data: self.state_machine.snapshot_data() })
            },
        }
    }

    /// Installs a snapshot received from the leader, all or nothing: a refused install
    /// leaves the store exactly as it was.
    pub fn install_snapshot(&mut self, snapshot: Snapshot) -> (r: Result<(), StoreError>)
        requires
            old(self).log.wf(),
            snapshot.meta.last_log_id.index < u64::MAX,
        ensures
            final(self).log.wf(),
            snapshot.data.last_applied != Some(snapshot.meta.last_log_id)
                ==> r == Err::<(), StoreError>(StoreError::InconsistentSnapshot),
            snapshot.data.last_applied == Some(snapshot.meta.last_log_id)
                && is_stale(old(self).state_machine@, snapshot.meta.last_log_id)
                ==> r == Err::<(), StoreError>(StoreError::StaleSnapshot),
            r is Err ==> *final(self) == *old(self),
            r is Ok ==> {
                &&& snapshot.data.last_applied == Some(snapshot.meta.last_log_id)
                &&& !is_stale(old(self).state_machine@, snapshot.meta.last_log_id)
                &&& final(self).state_machine@ == snapshot.data@
                &&& final(self).log.first_index == snapshot.meta.last_log_id.index + 1
                &&& final(self).log.entries@ == log_after_install(
                    old(self).log.first_index, old(self).log.entries@, snapshot.meta.last_log_id)
                &&& final(self).current_snapshot == Some(snapshot.meta)
                &&& final(self).id == old(self).id
            },
    {
        let last = snapshot.meta.last_log_id;
        match snapshot.data.last_applied {
            Some(a) => {
                if a != last {
                    return Err(StoreError::InconsistentSnapshot);
                }
            },
            None => {
                return Err(StoreError::InconsistentSnapshot);
            },
        }
        match self.state_machine.last_applied {
            Some(a) => {
                if a.index > last.index {
                    return Err(StoreError::StaleSnapshot);
                }
            },
            None => {},
        }
        let first = self.log.first_index;
        let n = self.log.entries.len();
        let keep = last.index >= first && last.index - first < n as u64
            && self.log.entries[(last.index - first) as usize].log_id.term == last.term;
        if keep {
            self.log.purge_upto(last.index);
        } else {
            self.log = LogStore::new(last.index + 1);
            assert(self.log.entries@ =~= Seq::<LogEntry>::empty());
        }
        self.state_machine = snapshot.data;
        self.current_snapshot = Some(snapshot.meta);
        Ok(())
    }
}

} // verus!

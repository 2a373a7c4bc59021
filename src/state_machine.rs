use vstd::prelude::*;

verus! {

/// The position of an entry in the replicated log.
#[derive(Debug, Clone, Copy, PartialEq, Eq, Structural)]
pub struct LogId {
    pub term: u64,
    pub index: u64,
}

/// A command of the key-value state machine.
#[derive(Debug, PartialEq, Eq)]
pub enum Cmd {
    /// Writes `value` under `key`, or deletes the key when `value` is `None`.
    UpsertKV { key: String, value: Option<Vec<u8>> },
    /// Records a cluster member, unless one with that id is recorded already.
    AddNode { node_id: u64, endpoint: String },
    RemoveNode { node_id: u64 },
}

#[derive(Debug, PartialEq, Eq)]
pub enum EntryPayload {
    Blank,
    Normal(Cmd),
    Membership(Vec<u64>),
}

#[derive(Debug, PartialEq, Eq)]
pub struct LogEntry {
    pub log_id: LogId,
    pub payload: EntryPayload,
}

/// A stored value with the sequence number of the write that stored it.
#[derive(Debug, PartialEq, Eq)]
pub struct KvItem {
    pub key: String,
    pub seq: u64,
    pub data: Vec<u8>,
}

#[derive(Debug, PartialEq, Eq)]
pub struct NodeItem {
    pub node_id: u64,
    pub endpoint: String,
}

/// The result of applying one entry.
#[derive(Debug, PartialEq, Eq)]
pub enum AppliedState {
    Nothing,
    /// The stored `(seq, data)` of the key before and after the write.
    KV { before: Option<(u64, Vec<u8>)>, after: Option<(u64, Vec<u8>)> },
    /// Whether the node was recorded before, and whether it is after.
    Node { recorded_before: bool, recorded_after: bool },
}

/// The key-value tree that committed log entries are applied to.
#[derive(Debug, PartialEq, Eq)]
pub struct StateMachine {
    pub last_applied: Option<LogId>,
    pub kvs: Vec<KvItem>,
    /// The last sequence number handed out to a write.
    pub seq: u64,
    pub nodes: Vec<NodeItem>,
    pub membership: Vec<u64>,
}

/// The content of a state machine: what a replica must agree on.
pub struct SmView {
    pub last_applied: Option<LogId>,
    pub kvs: Seq<(Seq<char>, u64, Seq<u8>)>,
    pub seq: u64,
    pub nodes: Seq<(u64, Seq<char>)>,
    pub membership: Seq<u64>,
}

pub open spec fn empty_view() -> SmView {
    SmView { last_applied: None, kvs: Seq::empty(), seq: 0, nodes: Seq::empty(), membership: Seq::empty() }
}

/// The first position at or after `i` that holds `key`, or -1.
pub open spec fn key_pos_from(kvs: Seq<(Seq<char>, u64, Seq<u8>)>, key: Seq<char>, i: int) -> int
    decreases kvs.len() - i,
{
    if i < 0 || i >= kvs.len() {
        -1
    } else if kvs[i].0 == key {
        i
    } else {
        key_pos_from(kvs, key, i + 1)
    }
}

pub open spec fn node_pos_from(nodes: Seq<(u64, Seq<char>)>, id: u64, i: int) -> int
    decreases nodes.len() - i,
{
    if i < 0 || i >= nodes.len() {
        -1
    } else if nodes[i].0 == id {
        i
    } else {
        node_pos_from(nodes, id, i + 1)
    }
}

/// The state after applying one entry.
pub open spec fn spec_apply(s: SmView, e: LogEntry) -> SmView {
    let s2 = SmView { last_applied: Some(e.log_id), ..s };
    match e.payload {
        EntryPayload::Blank => s2,
        EntryPayload::Membership(m) => SmView { membership: m@, ..s2 },
        EntryPayload::Normal(cmd) => match cmd {
            Cmd::UpsertKV { key, value } => {
                let p = key_pos_from(s.kvs, key@, 0);
                match value {
                    Some(v) => {
                        let item = (key@, (s.seq + 1) as u64, v@);
                        SmView {
                            seq: (s.seq + 1) as u64,
                            kvs: if p >= 0 { s.kvs.update(p, item) } else { s.kvs.push(item) },
                            ..s2
                        }
                    },
                    None => SmView { kvs: if p >= 0 { s.kvs.remove(p) } else { s.kvs }, ..s2 },
                }
            },
            Cmd::AddNode { node_id, endpoint } => {
                if node_pos_from(s.nodes, node_id, 0) >= 0 {
                    s2
                } else {
                    SmView { nodes: s.nodes.push((node_id, endpoint@)), ..s2 }
                }
            },
            Cmd::RemoveNode { node_id } => {
                let p = node_pos_from(s.nodes, node_id, 0);
                SmView { nodes: if p >= 0 { s.nodes.remove(p) } else { s.nodes }, ..s2 }
            },
        },
    }
}

/// The state after applying a sequence of entries in order.
pub open spec fn spec_replay(s: SmView, log: Seq<LogEntry>) -> SmView {
    log.fold_left(s, |acc: SmView, e: LogEntry| spec_apply(acc, e))
}

fn clone_bytes(v: &Vec<u8>) -> (r: Vec<u8>)
    ensures
        r@ == v@,
{
    let r = v.clone();
    assert(r@ =~= v@);
    r
}

fn clone_ids(v: &Vec<u64>) -> (r: Vec<u64>)
    ensures
        r@ == v@,
{
    let r = v.clone();
    assert(r@ =~= v@);
    r
}

impl View for StateMachine {
    type V = SmView;

    open spec fn view(&self) -> SmView {
        SmView {
            last_applied: self.last_applied,
            kvs: Seq::new(self.kvs@.len(), |i: int| (self.kvs@[i].key@, self.kvs@[i].seq, self.kvs@[i].data@)),
            seq: self.seq,
            nodes: Seq::new(self.nodes@.len(), |i: int| (self.nodes@[i].node_id, self.nodes@[i].endpoint@)),
            membership: self.membership@,
        }
    }
}

impl StateMachine {
    pub fn new() -> (r: StateMachine)
        ensures
            r@ == empty_view(),
    {
        let r = StateMachine { last_applied: None, kvs: Vec::new(), seq: 0, nodes: Vec::new(), membership: Vec::new() };
        assert(r@.kvs =~= Seq::<(Seq<char>, u64, Seq<u8>)>::empty());
        assert(r@.nodes =~= Seq::<(u64, Seq<char>)>::empty());
        r
    }

    /// The position of `key`, as `key_pos_from` gives it.
    pub fn find_key(&self, key: &String) -> (r: Option<usize>)
        ensures
            r matches Some(i) ==> i as int == key_pos_from(self@.kvs, key@, 0) && i < self.kvs@.len(),
            r is None ==> key_pos_from(self@.kvs, key@, 0) == -1,
    {
        let mut i: usize = 0;
        while i < self.kvs.len()
            invariant
                i <= self.kvs@.len(),
                key_pos_from(self@.kvs, key@, 0) == key_pos_from(self@.kvs, key@, i as int),
            decreases self.kvs@.len() - i,
        {
            if self.kvs[i].key == *key {
                return Some(i);
            }
            i += 1;
        }
        None
    }

    pub fn find_node(&self, node_id: u64) -> (r: Option<usize>)
        ensures
            r matches Some(i) ==> i as int == node_pos_from(self@.nodes, node_id, 0) && i < self.nodes@.len(),
            r is None ==> node_pos_from(self@.nodes, node_id, 0) == -1,
    {
        let mut i: usize = 0;
        while i < self.nodes.len()
            invariant
                i <= self.nodes@.len(),
                node_pos_from(self@.nodes, node_id, 0) == node_pos_from(self@.nodes, node_id, i as int),
            decreases self.nodes@.len() - i,
        {
            if self.nodes[i].node_id == node_id {
                return Some(i);
            }
            i += 1;
        }
        None
    }

    /// The value stored under `key`, with its sequence number.
    pub fn get_kv(&self, key: &String) -> (r: Option<(u64, Vec<u8>)>)
        ensures
            key_pos_from(self@.kvs, key@, 0) == -1 ==> r is None,
            key_pos_from(self@.kvs, key@, 0) >= 0 ==> (r matches Some((s, d)) && {
                let p = key_pos_from(self@.kvs, key@, 0);
                s == self@.kvs[p].1 && d@ == self@.kvs[p].2
            }),
    {
        match self.find_key(key) {
            Some(i) => Some((self.kvs[i].seq, clone_bytes(&self.kvs[i].data))),
            None => None,
        }
    }

    /// The endpoint recorded for a node.
    pub fn get_node_endpoint(&self, node_id: u64) -> (r: Option<String>)
        ensures
            node_pos_from(self@.nodes, node_id, 0) == -1 ==> r is None,
            node_pos_from(self@.nodes, node_id, 0) >= 0 ==> (r matches Some(e)
                && e@ == self@.nodes[node_pos_from(self@.nodes, node_id, 0)].1),
    {
        match self.find_node(node_id) {
            Some(i) => Some(self.nodes[i].endpoint.clone()),
            None => None,
        }
    }

    fn upsert(&mut self, key: &String, value: &Option<Vec<u8>>) -> (r: AppliedState)
        requires
            old(self).seq < u64::MAX,
        ensures
            final(self)@ == (SmView {
                last_applied: final(self)@.last_applied,
                ..spec_apply(old(self)@, LogEntry {
                    log_id: LogId { term: 0, index: 0 },
                    payload: EntryPayload::Normal(Cmd::UpsertKV { key: *key, value: *value }),
                })
            }),
            final(self).last_applied == old(self).last_applied,
    {
        let ghost s = self@;
        let pos = self.find_key(key);
        match value {
            Some(v) => {
                let seq = self.seq + 1;
                self.seq = seq;
                let item = KvItem { key: key.clone(), seq, data: clone_bytes(v) };
                match pos {
                    Some(i) => {
                        let prev = (self.kvs[i].seq, clone_bytes(&self.kvs[i].data));
                        self.kvs.set(i, item);
                        assert(self@.kvs =~= s.kvs.update(i as int, (key@, seq, v@)));
                        AppliedState::KV { before: Some(prev), after: Some((seq, clone_bytes(v))) }
                    },
                    None => {
                        self.kvs.push(item);
                        assert(self@.kvs =~= s.kvs.push((key@, seq, v@)));
                        AppliedState::KV { before: None, after: Some((seq, clone_bytes(v))) }
                    },
                }
            },
            None => {
                match pos {
                    Some(i) => {
                        let old_item = self.kvs.remove(i);
                        assert(self@.kvs =~= s.kvs.remove(i as int));
                        AppliedState::KV { before: Some((old_item.seq, old_item.data)), after: None }
                    },
                    None => AppliedState::KV { before: None, after: None },
                }
            },
        }
    }

    /// Applies one committed entry.
    pub fn apply(&mut self, entry: &LogEntry) -> (r: AppliedState)
        requires
            old(self).seq < u64::MAX,
        ensures
            final(self)@ == spec_apply(old(self)@, *entry),
    {
        let ghost s = self@;
        let r = match &entry.payload {
            EntryPayload::Blank => AppliedState::Nothing,
            EntryPayload::Membership(m) => {
                self.membership = clone_ids(m);
                AppliedState::Nothing
            },
            EntryPayload::Normal(cmd) => match cmd {
                Cmd::UpsertKV { key, value } => self.upsert(key, value),
                Cmd::AddNode { node_id, endpoint } => {
                    match self.find_node(*node_id) {
                        Some(_) => AppliedState::Node { recorded_before: true, recorded_after: true },
                        None => {
                            self.nodes.push(NodeItem { node_id: *node_id, endpoint: endpoint.clone() });
                            assert(self@.nodes =~= s.nodes.push((*node_id, endpoint@)));
                            AppliedState::Node { recorded_before: false, recorded_after: true }
                        },
                    }
                },
                Cmd::RemoveNode { node_id } => {
                    match self.find_node(*node_id) {
                        Some(i) => {
                            self.nodes.remove(i);
                            assert(self@.nodes =~= s.nodes.remove(i as int));
                            AppliedState::Node { recorded_before: true, recorded_after: false }
                        },
                        None => AppliedState::Node { recorded_before: false, recorded_after: false },
                    }
                },
            },
        };
        self.last_applied = Some(entry.log_id);
        r
    }

    /// Applies a run of committed entries in order.
    pub fn replay(&mut self, log: &Vec<LogEntry>)
        requires
            old(self).seq as int + log@.len() <= u64::MAX,
        ensures
            final(self)@ == spec_replay(old(self)@, log@),
    {
        let ghost s0 = self@;
        let mut i: usize = 0;
        while i < log.len()
            invariant
                i <= log@.len(),
                self.seq as int <= s0.seq + i,
                s0.seq + log@.len() <= u64::MAX,
                self@ == spec_replay(s0, log@.subrange(0, i as int)),
            decreases log@.len() - i,
        {
            let ghost before = self@;
            self.apply(&log[i]);
            proof {
                let f = |acc: SmView, e: LogEntry| spec_apply(acc, e);
                let sub = log@.subrange(0, i as int + 1);
                assert(sub.drop_last() =~= log@.subrange(0, i as int));
                assert(sub.last() == log@[i as int]);
                lemma_apply_seq_bound(before, log@[i as int]);
            }
            i += 1;
        }
        assert(log@.subrange(0, log@.len() as int) =~= log@);
    }

    /// The ids of the recorded nodes, in order, split into voters (members of the current
    /// membership) and learners.
    pub fn split_nodes(&self) -> (r: (Vec<u64>, Vec<u64>))
        ensures
            r.0@ == self@.nodes.map_values(|n: (u64, Seq<char>)| n.0).filter(|id: u64| self@.membership.contains(id)),
            r.1@ == self@.nodes.map_values(|n: (u64, Seq<char>)| n.0).filter(|id: u64| !self@.membership.contains(id)),
    {
        let ghost ids = self@.nodes.map_values(|n: (u64, Seq<char>)| n.0);
        let ghost is_voter = |id: u64| self@.membership.contains(id);
        let ghost is_learner = |id: u64| !self@.membership.contains(id);
        let mut voters: Vec<u64> = Vec::new();
        let mut learners: Vec<u64> = Vec::new();
        let mut i: usize = 0;
        while i < self.nodes.len()
            invariant
                i <= self.nodes@.len(),
                ids.len() == self.nodes@.len(),
                ids == self@.nodes.map_values(|n: (u64, Seq<char>)| n.0),
                is_voter == (|id: u64| self@.membership.contains(id)),
                is_learner == (|id: u64| !self@.membership.contains(id)),
                voters@ == ids.subrange(0, i as int).filter(is_voter),
                learners@ == ids.subrange(0, i as int).filter(is_learner),
            decreases self.nodes@.len() - i,
        {
            let id = self.nodes[i].node_id;
            let mut member = false;
            let mut j: usize = 0;
            while j < self.membership.len()
                invariant
                    j <= self.membership@.len(),
                    member <==> exists|k: int| 0 <= k < j && self.membership@[k] == id,
                decreases self.membership@.len() - j,
            {
                if self.membership[j] == id {
                    member = true;
                }
                j += 1;
            }
            proof {
                reveal(Seq::filter);
                let sub = ids.subrange(0, i as int + 1);
                assert(sub.drop_last() =~= ids.subrange(0, i as int));
                assert(sub.last() == id);
                assert(member == self@.membership.contains(id));
            }
            if member {
                voters.push(id);
            } else {
                learners.push(id);
            }
            i += 1;
        }
        assert(ids.subrange(0, ids.len() as int) =~= ids);
        (voters, learners)
    }

    /// A copy of the whole content: the data of a snapshot.
    pub fn snapshot_data(&self) -> (r: StateMachine)
        ensures
            r@ == self@,
    {
        let mut kvs: Vec<KvItem> = Vec::new();
        let mut i: usize = 0;
        while i < self.kvs.len()
            invariant
                i <= self.kvs@.len(),
                kvs@.len() == i,
                forall|k: int| 0 <= k < i ==> (#[trigger] kvs@[k]).key@ == self.kvs@[k].key@
                    && kvs@[k].seq == self.kvs@[k].seq && kvs@[k].data@ == self.kvs@[k].data@,
            decreases self.kvs@.len() - i,
        {
            kvs.push(KvItem { key: self.kvs[i].key.clone(), seq: self.kvs[i].seq, data: clone_bytes(&self.kvs[i].data) });
            i += 1;
        }
        let mut nodes: Vec<NodeItem> = Vec::new();
        let mut j: usize = 0;
        while j < self.nodes.len()
            invariant
                j <= self.nodes@.len(),
                nodes@.len() == j,
                forall|k: int| 0 <= k < j ==> (#[trigger] nodes@[k]).node_id == self.nodes@[k].node_id
                    && nodes@[k].endpoint@ == self.nodes@[k].endpoint@,
            decreases self.nodes@.len() - j,
        {
            nodes.push(NodeItem { node_id: self.nodes[j].node_id, endpoint: self.nodes[j].endpoint.clone() });
            j += 1;
        }
        let r = StateMachine {
            last_applied: self.last_applied,
            kvs,
            seq: self.seq,
            nodes,
            membership: clone_ids(&self.membership),
        };
        assert(r@.kvs =~= self@.kvs);
        assert(r@.nodes =~= self@.nodes);
        r
    }
}

pub proof fn lemma_apply_seq_bound(s: SmView, e: LogEntry)
    ensures
        spec_apply(s, e).seq <= s.seq + 1,
{
}

/// Sequence numbers only grow: applying an entry never lowers the last one handed out, and
/// a write stores its value under a number above every number used before it.
pub proof fn lemma_seq_monotonic(s: SmView, e: LogEntry)
    requires
        s.seq < u64::MAX,
    ensures
        spec_apply(s, e).seq >= s.seq,
        e.payload matches EntryPayload::Normal(Cmd::UpsertKV { key, value: Some(v) }) ==> {
            &&& spec_apply(s, e).seq == s.seq + 1
            &&& exists|i: int| 0 <= i < spec_apply(s, e).kvs.len() && #[trigger] spec_apply(s, e).kvs[i] == (key@, (s.seq + 1) as u64, v@)
        },
{
    if let EntryPayload::Normal(Cmd::UpsertKV { key, value: Some(v) }) = e.payload {
        let p = key_pos_from(s.kvs, key@, 0);
        let t = spec_apply(s, e);
        if p >= 0 {
            lemma_key_pos_bounds(s.kvs, key@, 0);
            assert(t.kvs[p] == (key@, (s.seq + 1) as u64, v@));
        } else {
            assert(t.kvs[s.kvs.len() as int] == (key@, (s.seq + 1) as u64, v@));
        }
    }
}

proof fn lemma_key_pos_bounds(kvs: Seq<(Seq<char>, u64, Seq<u8>)>, key: Seq<char>, i: int)
    requires
        0 <= i,
    ensures
        key_pos_from(kvs, key, i) == -1 || (i <= key_pos_from(kvs, key, i) < kvs.len()),
    decreases kvs.len() - i,
{
    if i < kvs.len() && kvs[i].0 != key {
        lemma_key_pos_bounds(kvs, key, i + 1);
    }
}

/// Replay is deterministic and may start from a snapshot: applying the first `k` entries,
/// and then the rest to the result, gives the state that applying the whole log gives. So
/// a node restored from a snapshot plus the persisted log suffix holds exactly what a node
/// that applied every entry holds.
pub proof fn lemma_snapshot_then_replay(s: SmView, log: Seq<LogEntry>, k: int)
    requires
        0 <= k <= log.len(),
    ensures
        spec_replay(spec_replay(s, log.subrange(0, k)), log.subrange(k, log.len() as int)) == spec_replay(s, log),
{
    let f = |acc: SmView, e: LogEntry| spec_apply(acc, e);
    log.lemma_fold_left_split(s, f, k);
}

} // verus!

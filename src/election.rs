use vstd::prelude::*;
use vstd::set_lib::{lemma_len_subset, lemma_set_intersect_union_lens};

use crate::state_machine::LogId;

verus! {

/// What a node persists before it answers a vote or an append.
#[derive(Debug, Clone, Copy, PartialEq, Eq, Structural)]
pub struct HardState {
    pub current_term: u64,
    pub voted_for: Option<u64>,
}

#[derive(Debug, Clone, Copy, PartialEq, Eq, Structural)]
pub struct VoteRequest {
    pub term: u64,
    pub candidate_id: u64,
    pub last_log_id: Option<LogId>,
}

#[derive(Debug, Clone, Copy, PartialEq, Eq, Structural)]
pub struct VoteResponse {
    pub term: u64,
    pub vote_granted: bool,
}

/// Whether a log ending at `a` is at least as up to date as one ending at `b`: the later
/// last term wins, and on equal terms the longer log.
pub open spec fn at_least_as_up_to_date(a: Option<LogId>, b: Option<LogId>) -> bool {
    match (a, b) {
        (_, None) => true,
        (None, Some(_)) => false,
        (Some(x), Some(y)) => x.term > y.term || (x.term == y.term && x.index >= y.index),
    }
}

pub fn is_up_to_date(a: Option<LogId>, b: Option<LogId>) -> (r: bool)
    ensures
        r == at_least_as_up_to_date(a, b),
{
    match (a, b) {
        (_, None) => true,
        (None, Some(_)) => false,
        (Some(x), Some(y)) => x.term > y.term || (x.term == y.term && x.index >= y.index),
    }
}

/// The hard state once a request of `req.term` has been seen: a newer term is adopted and
/// forgets the vote of the old one.
pub open spec fn term_adopted(hs: HardState, term: u64) -> HardState {
    if term > hs.current_term { HardState { current_term: term, voted_for: None } } else { hs }
}

/// Whether a vote goes to the candidate: its term is current, this node has not voted for
/// someone else in that term, and the candidate's log is at least as up to date.
pub open spec fn grants(hs: HardState, my_last: Option<LogId>, req: VoteRequest) -> bool {
    let h = term_adopted(hs, req.term);
    &&& req.term >= hs.current_term
    &&& (h.voted_for is None || h.voted_for == Some(req.candidate_id))
    &&& at_least_as_up_to_date(req.last_log_id, my_last)
}

/// Answers a vote request and updates the hard state that must be persisted before the
/// answer is sent.
pub fn handle_vote_request(hs: &mut HardState, my_last: Option<LogId>, req: VoteRequest) -> (r: VoteResponse)
    ensures
        r.vote_granted == grants(*old(hs), my_last, req),
        r.term == final(hs).current_term,
        req.term < old(hs).current_term ==> *final(hs) == *old(hs),
        req.term >= old(hs).current_term ==> final(hs).current_term == req.term,
        r.vote_granted ==> final(hs).voted_for == Some(req.candidate_id),
        !r.vote_granted && req.term >= old(hs).current_term ==> *final(hs) == term_adopted(*old(hs), req.term),
{
    if req.term < hs.current_term {
        return VoteResponse { term: hs.current_term, vote_granted: false };
    }
    if req.term > hs.current_term {
        hs.current_term = req.term;
        hs.voted_for = None;
    }
    let free = match hs.voted_for {
        None => true,
        Some(v) => v == req.candidate_id,
    };
    let granted = free && is_up_to_date(req.last_log_id, my_last);
    if granted {
        hs.voted_for = Some(req.candidate_id);
    }
    VoteResponse { term: hs.current_term, vote_granted: granted }
}

/// One vote per term: once a node has voted for a candidate in a term, no other candidate
/// of that term gets its vote.
pub proof fn lemma_one_vote_per_term(hs: HardState, my_last: Option<LogId>, req: VoteRequest)
    requires
        hs.voted_for matches Some(c) && c != req.candidate_id,
        req.term == hs.current_term,
    ensures
        !grants(hs, my_last, req),
{
}

/// The voters of `voters` that appear in `granted`.
pub open spec fn votes_of(voters: Seq<u64>, granted: Seq<u64>) -> Seq<u64> {
    voters.filter(granted_by(granted))
}

pub open spec fn granted_by(granted: Seq<u64>) -> spec_fn(u64) -> bool {
    |v: u64| granted.contains(v)
}

/// Counts the voters that granted their vote.
pub fn count_votes(voters: &Vec<u64>, granted: &Vec<u64>) -> (r: usize)
    ensures
        r == votes_of(voters@, granted@).len(),
{
    let mut count: usize = 0;
    let mut i: usize = 0;
    while i < voters.len()
        invariant
            i <= voters@.len(),
            count == votes_of(voters@.subrange(0, i as int), granted@).len(),
            count <= i,
        decreases voters@.len() - i,
    {
        let v = voters[i];
        let mut found = false;
        let mut j: usize = 0;
        while j < granted.len()
            invariant
                j <= granted@.len(),
                found <==> exists|k: int| 0 <= k < j && granted@[k] == v,
            decreases granted@.len() - j,
        {
            if granted[j] == v {
                found = true;
            }
            j += 1;
        }
        proof {
            let sub = voters@.subrange(0, i as int + 1);
            assert(sub.drop_last() =~= voters@.subrange(0, i as int));
            assert(sub.last() == v);
            assert(found == granted@.contains(v));
            assert(granted_by(granted@)(v) == found);
            reveal(Seq::filter);
            assert(votes_of(sub, granted@) == if found {
                votes_of(voters@.subrange(0, i as int), granted@).push(v)
            } else {
                votes_of(voters@.subrange(0, i as int), granted@)
            });
        }
        if found {
            count += 1;
        }
        i += 1;
    }
    assert(voters@.subrange(0, voters@.len() as int) =~= voters@);
    count
}

/// A strict majority of `voters` voters.
pub open spec fn is_quorum(votes: int, voters: int) -> bool {
    2 * votes > voters
}

pub fn is_majority(votes: usize, voters: usize) -> (r: bool)
    ensures
        r == is_quorum(votes as int, voters as int),
{
    votes as u128 * 2 > voters as u128
}

/// Whether a candidate that received `granted` wins among `voters`.
pub fn wins_election(voters: &Vec<u64>, granted: &Vec<u64>) -> (r: bool)
    ensures
        r == is_quorum(votes_of(voters@, granted@).len() as int, voters@.len() as int),
{
    let n = count_votes(voters, granted);
    is_majority(n, voters.len())
}

/// Two quorums of one voter set share a voter: two leaders cannot both win one term, since
/// the shared voter votes once per term.
pub proof fn lemma_quorums_intersect(voters: Set<u64>, a: Set<u64>, b: Set<u64>)
    requires
        voters.finite(),
        a.subset_of(voters),
        b.subset_of(voters),
        is_quorum(a.len() as int, voters.len() as int),
        is_quorum(b.len() as int, voters.len() as int),
    ensures
        exists|x: u64| a.contains(x) && b.contains(x),
{
    lemma_len_subset(a, voters);
    lemma_len_subset(b, voters);
    lemma_len_subset(a + b, voters);
    lemma_set_intersect_union_lens(a, b);
    let i = a.intersect(b);
    vstd::set_lib::lemma_set_empty_equivalency_len(i);
    assert(i.len() > 0);
    assert(!(i =~= Set::<u64>::empty()));
    let x = choose|x: u64| i.contains(x);
    assert(a.contains(x) && b.contains(x));
}

/// Election safety: within one term every voter votes at most once (`vote_of` maps a voter
/// to the candidate it voted for), so two candidates that each won a quorum of the same
/// voters are the same candidate.
pub proof fn lemma_one_leader_per_term(
    voters: Set<u64>,
    vote_of: Map<u64, u64>,
    a: Set<u64>,
    b: Set<u64>,
    c1: u64,
    c2: u64,
)
    requires
        voters.finite(),
        a.subset_of(voters),
        b.subset_of(voters),
        forall|v: u64| a.contains(v) ==> vote_of.dom().contains(v) && vote_of[v] == c1,
        forall|v: u64| b.contains(v) ==> vote_of.dom().contains(v) && vote_of[v] == c2,
        is_quorum(a.len() as int, voters.len() as int),
        is_quorum(b.len() as int, voters.len() as int),
    ensures
        c1 == c2,
{
    lemma_quorums_intersect(voters, a, b);
    let x = choose|x: u64| a.contains(x) && b.contains(x);
    assert(vote_of[x] == c1 && vote_of[x] == c2);
}

/// Votes that can only come from reachable nodes never outnumber the reachable voters.
proof fn lemma_votes_within_reach(voters: Seq<u64>, granted: Seq<u64>, reachable: Seq<u64>)
    requires
        forall|x: u64| granted.contains(x) ==> reachable.contains(x),
    ensures
        votes_of(voters, granted).len() <= votes_of(voters, reachable).len(),
    decreases voters.len(),
{
    reveal(Seq::filter);
    if voters.len() > 0 {
        lemma_votes_within_reach(voters.drop_last(), granted, reachable);
        assert(granted_by(granted)(voters.last()) ==> granted_by(reachable)(voters.last()));
    }
}

/// A partitioned candidate cannot win: when the voters it can reach are not a majority,
/// the votes it gathers, all from reachable nodes, are not a majority either, so
/// `wins_election` is false for it. With three voters, an isolated node reaches only
/// itself and never becomes leader; the two nodes that reach each other are a majority.
pub proof fn lemma_unreachable_majority_cannot_win(voters: Seq<u64>, granted: Seq<u64>, reachable: Seq<u64>)
    requires
        forall|x: u64| granted.contains(x) ==> reachable.contains(x),
        !is_quorum(votes_of(voters, reachable).len() as int, voters.len() as int),
    ensures
        !is_quorum(votes_of(voters, granted).len() as int, voters.len() as int),
{
    lemma_votes_within_reach(voters, granted, reachable);
}

/// How many of `matched` are at least `n`.
pub open spec fn count_at_least(matched: Seq<u64>, n: u64) -> nat {
    matched.filter(at_least(n)).len()
}

pub open spec fn at_least(n: u64) -> spec_fn(u64) -> bool {
    |m: u64| m >= n
}

fn count_ge(matched: &Vec<u64>, n: u64) -> (r: usize)
    ensures
        r == count_at_least(matched@, n),
{
    let mut count: usize = 0;
    let mut i: usize = 0;
    while i < matched.len()
        invariant
            i <= matched@.len(),
            count == count_at_least(matched@.subrange(0, i as int), n),
            count <= i,
        decreases matched@.len() - i,
    {
        proof {
            let sub = matched@.subrange(0, i as int + 1);
            assert(sub.drop_last() =~= matched@.subrange(0, i as int));
            assert(sub.last() == matched@[i as int]);
            assert(at_least(n)(matched@[i as int]) == (matched@[i as int] >= n));
            reveal(Seq::filter);
            assert(matched@.subrange(0, i as int + 1).filter(at_least(n)) == if matched@[i as int] >= n {
                matched@.subrange(0, i as int).filter(at_least(n)).push(matched@[i as int])
            } else {
                matched@.subrange(0, i as int).filter(at_least(n))
            });
        }
        if matched[i] >= n {
            count += 1;
        }
        i += 1;
    }
    assert(matched@.subrange(0, matched@.len() as int) =~= matched@);
    count
}

/// The largest index matched by a strict majority, 0 with no voters.
pub open spec fn spec_majority_index(matched: Seq<u64>) -> u64 {
    if matched.len() == 0 {
        0
    } else {
        choose|n: u64| matched.contains(n) && is_quorum(count_at_least(matched, n) as int, matched.len() as int)
            && forall|k: int| 0 <= k < matched.len() && is_quorum(
                count_at_least(matched, #[trigger] matched[k]) as int,
                matched.len() as int,
            ) ==> matched[k] <= n
    }
}

/// The commit index a leader may advance to: the largest index that a strict majority of
/// the voters (the leader included) has matched, or 0 with no voters.
pub fn majority_matched_index(matched: &Vec<u64>) -> (r: u64)
    ensures
        matched@.len() == 0 ==> r == 0,
        matched@.len() > 0 ==> {
            &&& matched@.contains(r)
            &&& is_quorum(count_at_least(matched@, r) as int, matched@.len() as int)
            &&& forall|k: int| 0 <= k < matched@.len() && is_quorum(
                count_at_least(matched@, #[trigger] matched@[k]) as int,
                matched@.len() as int,
            ) ==> matched@[k] <= r
        },
        r == spec_majority_index(matched@),
{
    let n = matched.len();
    let mut best: Option<u64> = None;
    let mut i: usize = 0;
    while i < n
        invariant
            n == matched@.len(),
            i <= n,
            best matches Some(b) ==> matched@.contains(b) && is_quorum(count_at_least(matched@, b) as int, n as int),
            forall|k: int| 0 <= k < i && is_quorum(count_at_least(matched@, #[trigger] matched@[k]) as int, n as int)
                ==> (best matches Some(b) && matched@[k] <= b),
        decreases n - i,
    {
        let m = matched[i];
        let c = count_ge(matched, m);
        if is_majority(c, n) {
            match best {
                None => {
                    best = Some(m);
                },
                Some(b) => {
                    if m > b {
                        best = Some(m);
                    }
                },
            }
        }
        i += 1;
    }
    match best {
        Some(b) => {
            proof {
                let n = spec_majority_index(matched@);
                let kb = choose|k: int| 0 <= k < matched@.len() && matched@[k] == b;
                assert(matched@[kb] == b);
                let kn = choose|k: int| 0 <= k < matched@.len() && matched@[k] == n;
                assert(matched@[kn] == n);
            }
            b
        },
        None => {
            if n > 0 {
                proof {
                    lemma_min_has_quorum(matched@);
                }
            }
            0
        },
    }
}

/// The smallest matched index is matched by every voter, so some entry always has a quorum.
proof fn lemma_min_has_quorum(matched: Seq<u64>)
    requires
        matched.len() > 0,
    ensures
        exists|k: int| 0 <= k < matched.len() && is_quorum(count_at_least(matched, #[trigger] matched[k]) as int, matched.len() as int),
{
    let k = min_index(matched, matched.len() as int);
    lemma_min_index(matched, matched.len() as int);
    assert(forall|j: int| 0 <= j < matched.len() ==> matched[j] >= matched[k]);
    lemma_filter_all(matched, matched[k]);
}

proof fn lemma_filter_all(s: Seq<u64>, n: u64)
    requires
        forall|j: int| 0 <= j < s.len() ==> s[j] >= n,
    ensures
        s.filter(at_least(n)) == s,
    decreases s.len(),
{
    if s.len() > 0 {
        lemma_filter_all(s.drop_last(), n);
        assert(at_least(n)(s.last()));
        reveal(Seq::filter);
        assert(s.filter(at_least(n)) == s.drop_last().filter(at_least(n)).push(s.last()));
        assert(s.drop_last().push(s.last()) =~= s);
    }
}

/// The position of a smallest element among the first `n`.
spec fn min_index(s: Seq<u64>, n: int) -> int
    decreases n,
{
    if n <= 1 {
        0
    } else {
        let k = min_index(s, n - 1);
        if s[n - 1] < s[k] { n - 1 } else { k }
    }
}

proof fn lemma_min_index(s: Seq<u64>, n: int)
    requires
        1 <= n <= s.len(),
    ensures
        0 <= min_index(s, n) < n,
        forall|j: int| 0 <= j < n ==> #[trigger] s[j] >= s[min_index(s, n)],
    decreases n,
{
    if n > 1 {
        lemma_min_index(s, n - 1);
    }
}

} // verus!

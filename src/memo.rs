use vstd::prelude::*;

verus! {

/// A relational operator as it appears in one multi-expression.
///
/// `LogicalGet` and `PhysicalScan` carry the index of the table they read.
#[derive(Debug, Clone, Copy, PartialEq, Eq, Structural)]
pub enum RelOperator {
    LogicalGet(u64),
    LogicalInnerJoin,
    PhysicalScan(u64),
    PhysicalHashJoin,
    EvalScalar,
    Filter,
    Aggregate,
    Sort,
    Limit,
    UnionAll,
    Exchange,
    Pattern,
    DummyTableScan,
}

impl RelOperator {
    /// Whether the operator can be executed (and thus costed) as it is.
    pub open spec fn spec_is_physical(self) -> bool {
        !(self is LogicalGet || self is LogicalInnerJoin || self is Pattern)
    }

    pub fn is_physical(&self) -> (r: bool)
        ensures
            r == self.spec_is_physical(),
    {
        match self {
            RelOperator::LogicalGet(_) => false,
            RelOperator::LogicalInnerJoin => false,
            RelOperator::Pattern => false,
            _ => true,
        }
    }
}

/// Exploration progress of a group.
#[derive(Debug, Clone, Copy, PartialEq, Eq, Structural)]
pub enum GroupState {
    Init,
    Exploring,
    Explored,
}

/// One operator whose inputs are groups of the memo.
#[derive(Debug, PartialEq, Eq)]
pub struct MExpr {
    pub group_index: usize,
    pub index: usize,
    pub plan: RelOperator,
    pub children: Vec<usize>,
}

/// A set of logically equivalent multi-expressions.
#[derive(Debug, PartialEq, Eq)]
pub struct Group {
    pub group_index: usize,
    pub m_exprs: Vec<MExpr>,
    pub state: GroupState,
}

/// The arena of groups explored during one optimization.
#[derive(Debug, PartialEq, Eq)]
pub struct Memo {
    pub groups: Vec<Group>,
}

/// A plan tree, as the binder hands it to the optimizer.
#[derive(Debug, PartialEq, Eq)]
pub struct SExpr {
    pub plan: RelOperator,
    pub children: Vec<SExpr>,
}

/// Errors of the optimizer: violated invariants, never user input.
#[derive(Debug, Clone, Copy, PartialEq, Eq, Structural)]
pub enum OptimizerError {
    /// A group or multi-expression index that is not in the memo.
    IndexOutOfRange,
    /// A group that holds no physical multi-expression, so it has no cost.
    NoPhysicalExpr,
    /// The search did not converge within its step budget.
    StepBudgetExhausted,
    /// A statement that the requested operation does not apply to.
    BadArguments,
}

/// What identifies a multi-expression: its operator and its child groups.
pub open spec fn same_signature(a: MExpr, b: MExpr) -> bool {
    a.plan == b.plan && a.children@ == b.children@
}

impl Group {
    pub open spec fn wf_at(&self, g: int) -> bool {
        &&& self.group_index == g
        &&& forall|j: int|
            0 <= j < self.m_exprs@.len() ==> {
                &&& (#[trigger] self.m_exprs@[j]).group_index == g
                &&& self.m_exprs@[j].index == j
                &&& forall|k: int|
                    0 <= k < self.m_exprs@[j].children@.len() ==> 0 <= #[trigger] self.m_exprs@[j].children@[k] < g
            }
    }

    pub fn num_exprs(&self) -> (r: usize)
        ensures
            r == self.m_exprs@.len(),
    {
        self.m_exprs.len()
    }

    pub fn set_state(&mut self, state: GroupState)
        ensures
            final(self).state == state,
            final(self).group_index == old(self).group_index,
            final(self).m_exprs@ == old(self).m_exprs@,
    {
        self.state = state;
    }

    pub fn m_expr(&self, index: usize) -> (r: Result<&MExpr, OptimizerError>)
        ensures
            index < self.m_exprs@.len() ==> r == Ok::<&MExpr, OptimizerError>(&self.m_exprs@[index as int]),
            index >= self.m_exprs@.len() ==> r == Err::<&MExpr, OptimizerError>(OptimizerError::IndexOutOfRange),
    {
        if index < self.m_exprs.len() {
            Ok(&self.m_exprs[index])
        } else {
            Err(OptimizerError::IndexOutOfRange)
        }
    }
}

impl Memo {
    /// Every group sits at its own index, every multi-expression at its own place in its
    /// group, a group only refers to groups created before it, and no two
    /// multi-expressions of the memo share a signature.
    pub open spec fn wf(&self) -> bool {
        &&& forall|g: int| 0 <= g < self.groups@.len() ==> (#[trigger] self.groups@[g]).wf_at(g)
        &&& forall|g1: int, j1: int, g2: int, j2: int|
            0 <= g1 < self.groups@.len() && 0 <= g2 < self.groups@.len()
                && 0 <= j1 < self.groups@[g1].m_exprs@.len()
                && 0 <= j2 < self.groups@[g2].m_exprs@.len()
                && same_signature(
                #[trigger] self.groups@[g1].m_exprs@[j1],
                #[trigger] self.groups@[g2].m_exprs@[j2],
            ) ==> g1 == g2 && j1 == j2
    }

    /// Where a multi-expression of this signature stands in the memo, if anywhere.
    pub open spec fn holds_at(&self, plan: RelOperator, children: Seq<usize>, g: int, j: int) -> bool {
        &&& 0 <= g < self.groups@.len()
        &&& 0 <= j < self.groups@[g].m_exprs@.len()
        &&& self.groups@[g].m_exprs@[j].plan == plan
        &&& self.groups@[g].m_exprs@[j].children@ == children
    }

    pub open spec fn contains(&self, plan: RelOperator, children: Seq<usize>) -> bool {
        exists|g: int, j: int| self.holds_at(plan, children, g, j)
    }

    /// The signatures in each group, the part of the memo that the contracts speak of.
    pub open spec fn shape(&self) -> Seq<Seq<(RelOperator, Seq<usize>)>> {
        Seq::new(
            self.groups@.len(),
            |g: int| Seq::new(
                self.groups@[g].m_exprs@.len(),
                |j: int| (self.groups@[g].m_exprs@[j].plan, self.groups@[g].m_exprs@[j].children@),
            ),
        )
    }

    pub fn new() -> (r: Memo)
        ensures
            r.wf(),
            r.groups@.len() == 0,
    {
        Memo { groups: Vec::new() }
    }

    pub fn num_groups(&self) -> (r: usize)
        ensures
            r == self.groups@.len(),
    {
        self.groups.len()
    }

    pub fn group(&self, index: usize) -> (r: Result<&Group, OptimizerError>)
        ensures
            index < self.groups@.len() ==> r == Ok::<&Group, OptimizerError>(&self.groups@[index as int]),
            index >= self.groups@.len() ==> r == Err::<&Group, OptimizerError>(OptimizerError::IndexOutOfRange),
    {
        if index < self.groups.len() {
            Ok(&self.groups[index])
        } else {
            Err(OptimizerError::IndexOutOfRange)
        }
    }

    /// Appends an empty group and returns its index.
    pub fn add_group(&mut self) -> (r: usize)
        requires
            old(self).wf(),
        ensures
            final(self).wf(),
            r == old(self).groups@.len(),
            final(self).groups@.len() == r + 1,
            final(self).groups@[r as int].m_exprs@.len() == 0,
            final(self).groups@[r as int].state == GroupState::Init,
            forall|g: int| 0 <= g < r ==> final(self).groups@[g] == old(self).groups@[g],
            final(self).shape() == old(self).shape().push(Seq::empty()),
    {
        let index = self.groups.len();
        self.groups.push(Group { group_index: index, m_exprs: Vec::new(), state: GroupState::Init });
        proof {
            assert forall|g: int| 0 <= g < self.groups@.len() implies (#[trigger] self.groups@[g]).wf_at(g) by {
                if g < index {
                    assert(old(self).groups@[g].wf_at(g));
                }
            }
            assert forall|g: int| 0 <= g < self.groups@.len() implies #[trigger] self.shape()[g]
                =~= old(self).shape().push(Seq::empty())[g] by {}
            assert(self.shape() =~= old(self).shape().push(Seq::empty()));
        }
        index
    }

    /// Looks a signature up in the whole memo.
    pub fn lookup(&self, plan: RelOperator, children: &Vec<usize>) -> (r: Option<(usize, usize)>)
        requires
            self.wf(),
        ensures
            r matches Some((g, j)) ==> self.holds_at(plan, children@, g as int, j as int),
            r is None ==> !self.contains(plan, children@),
    {
        let mut g: usize = 0;
        while g < self.groups.len()
            invariant
                g <= self.groups@.len(),
                forall|g2: int, j2: int| 0 <= g2 < g ==> !self.holds_at(plan, children@, g2, j2),
            decreases self.groups@.len() - g,
        {
            let group = &self.groups[g];
            let mut j: usize = 0;
            while j < group.m_exprs.len()
                invariant
                    g < self.groups@.len(),
                    group == &self.groups@[g as int],
                    j <= group.m_exprs@.len(),
                    forall|j2: int| 0 <= j2 < j ==> !self.holds_at(plan, children@, g as int, j2),
                decreases group.m_exprs@.len() - j,
            {
                let e = &group.m_exprs[j];
                if e.plan == plan && vec_eq(&e.children, children) {
                    return Some((g, j));
                }
                j += 1;
            }
            g += 1;
        }
        None
    }

    /// Inserts a multi-expression into group `group_index` unless the memo already holds
    /// one of the same signature; returns where the signature stands.
    pub fn insert_m_expr(&mut self, group_index: usize, plan: RelOperator, children: Vec<usize>) -> (r: (usize, usize))
        requires
            old(self).wf(),
            group_index < old(self).groups@.len(),
            forall|k: int| 0 <= k < children@.len() ==> children@[k] < group_index,
        ensures
            final(self).wf(),
            final(self).holds_at(plan, children@, r.0 as int, r.1 as int),
            old(self).contains(plan, children@) ==> final(self).shape() == old(self).shape()
                && old(self).holds_at(plan, children@, r.0 as int, r.1 as int),
            !old(self).contains(plan, children@) ==> {
                &&& r.0 == group_index
                &&& r.1 == old(self).groups@[group_index as int].m_exprs@.len()
                &&& final(self).shape() == old(self).shape().update(
                    group_index as int,
                    old(self).shape()[group_index as int].push((plan, children@)),
                )
            },
            final(self).groups@.len() == old(self).groups@.len(),
            forall|g: int| 0 <= g < final(self).groups@.len() ==>
                (#[trigger] final(self).groups@[g]).state == old(self).groups@[g].state,
            forall|g: int| 0 <= g < final(self).groups@.len() && g != group_index ==>
                #[trigger] final(self).groups@[g] == old(self).groups@[g],
            final(self).groups@[group_index as int].m_exprs@.len() >= old(self).groups@[group_index as int].m_exprs@.len(),
            forall|j: int| 0 <= j < old(self).groups@[group_index as int].m_exprs@.len() ==>
                #[trigger] final(self).groups@[group_index as int].m_exprs@[j] == old(self).groups@[group_index as int].m_exprs@[j],
    {
        match self.lookup(plan, &children) {
            Some(found) => found,
            None => {
                let ghost old_memo = *self;
                let mut group = self.groups.remove(group_index);
                let index = group.m_exprs.len();
                group.m_exprs.push(MExpr { group_index, index, plan, children });
                self.groups.insert(group_index, group);
                proof {
                    let gi = group_index as int;
                    assert(self.groups@ =~= old_memo.groups@.update(gi, self.groups@[gi]));
                    assert(old_memo.groups@[gi].wf_at(gi));
                    assert forall|g: int| 0 <= g < self.groups@.len() implies (#[trigger] self.groups@[g]).wf_at(g) by {
                        if g != gi {
                            assert(old_memo.groups@[g].wf_at(g));
                        } else {
                            assert forall|j: int| 0 <= j < self.groups@[g].m_exprs@.len() implies {
                                &&& (#[trigger] self.groups@[g].m_exprs@[j]).group_index == g
                                &&& self.groups@[g].m_exprs@[j].index == j
                                &&& forall|k: int|
                                    0 <= k < self.groups@[g].m_exprs@[j].children@.len() ==> 0 <= #[trigger] self.groups@[g].m_exprs@[j].children@[k] < g
                            } by {
                                if j < index {
                                    assert(self.groups@[g].m_exprs@[j] == old_memo.groups@[g].m_exprs@[j]);
                                }
                            }
                        }
                    }
                    assert forall|g1: int, j1: int, g2: int, j2: int|
                        0 <= g1 < self.groups@.len() && 0 <= g2 < self.groups@.len()
                            && 0 <= j1 < self.groups@[g1].m_exprs@.len()
                            && 0 <= j2 < self.groups@[g2].m_exprs@.len()
                            && same_signature(
                            #[trigger] self.groups@[g1].m_exprs@[j1],
                            #[trigger] self.groups@[g2].m_exprs@[j2],
                        ) implies g1 == g2 && j1 == j2 by {
                        let new1 = g1 == gi && j1 == index;
                        let new2 = g2 == gi && j2 == index;
                        if !new1 {
                            assert(self.groups@[g1].m_exprs@[j1] == old_memo.groups@[g1].m_exprs@[j1]);
                        }
                        if !new2 {
                            assert(self.groups@[g2].m_exprs@[j2] == old_memo.groups@[g2].m_exprs@[j2]);
                        }
                        if new1 && !new2 {
                            assert(old_memo.holds_at(plan, children@, g2, j2));
                        }
                        if new2 && !new1 {
                            assert(old_memo.holds_at(plan, children@, g1, j1));
                        }
                    }
                    assert(self.holds_at(plan, children@, gi, index as int));
                    assert forall|j: int| 0 <= j < old_memo.groups@[gi].m_exprs@.len() implies
                        #[trigger] self.groups@[gi].m_exprs@[j] == old_memo.groups@[gi].m_exprs@[j] by {}
                    assert(self.shape()[gi] =~= old_memo.shape()[gi].push((plan, children@)));
                    assert(self.shape() =~= old_memo.shape().update(gi, old_memo.shape()[gi].push((plan, children@))));
                }
                (group_index, index)
            },
        }
    }
}

impl Memo {
    /// Inserts a plan tree bottom-up and returns the group of its root. A subtree whose
    /// operator and child groups the memo already holds is not inserted again: its group is
    /// reused. Existing groups are left as they were.
    pub fn insert_tree(&mut self, s_expr: &SExpr) -> (r: usize)
        requires
            old(self).wf(),
        ensures
            final(self).wf(),
            r < final(self).groups@.len(),
            final(self).groups@.len() >= old(self).groups@.len(),
            forall|g: int| 0 <= g < old(self).groups@.len() ==> #[trigger] final(self).groups@[g] == old(self).groups@[g],
            exists|j: int| 0 <= j < final(self).groups@[r as int].m_exprs@.len()
                && (#[trigger] final(self).groups@[r as int].m_exprs@[j]).plan == s_expr.plan
                && final(self).groups@[r as int].m_exprs@[j].children@.len() == s_expr.children@.len(),
        decreases s_expr,
    {
        let mut child_groups: Vec<usize> = Vec::new();
        let mut i: usize = 0;
        while i < s_expr.children.len()
            invariant
                self.wf(),
                i <= s_expr.children@.len(),
                child_groups@.len() == i,
                self.groups@.len() >= old(self).groups@.len(),
                forall|g: int| 0 <= g < old(self).groups@.len() ==> #[trigger] self.groups@[g] == old(self).groups@[g],
                forall|k: int| 0 <= k < child_groups@.len() ==> #[trigger] child_groups@[k] < self.groups@.len(),
            decreases s_expr.children@.len() - i,
        {
            proof {
                vstd::std_specs::vec::axiom_vec_index_decreases(s_expr.children, i as int);
            }
            let ghost before = *self;
            let g = self.insert_tree(&s_expr.children[i]);
            child_groups.push(g);
            proof {
                assert forall|g2: int| 0 <= g2 < old(self).groups@.len() implies #[trigger] self.groups@[g2] == old(self).groups@[g2] by {
                    assert(self.groups@[g2] == before.groups@[g2]);
                }
            }
            i += 1;
        }
        match self.lookup(s_expr.plan, &child_groups) {
            Some((g, j)) => {
                assert(self.groups@[g as int].m_exprs@[j as int].plan == s_expr.plan);
                g
            },
            None => {
                let g = self.add_group();
                let ghost ch = child_groups@;
                let loc = self.insert_m_expr(g, s_expr.plan, child_groups);
                assert(self.holds_at(s_expr.plan, ch, loc.0 as int, loc.1 as int));
                assert(self.groups@[loc.0 as int].m_exprs@[loc.1 as int].plan == s_expr.plan);
                loc.0
            },
        }
    }
}

/// Deduplication: a well-formed memo holds each signature (operator and child groups) in
/// at most one place, however often it was inserted.
pub proof fn lemma_signature_unique(
    memo: &Memo,
    plan: RelOperator,
    children: Seq<usize>,
    g1: int,
    j1: int,
    g2: int,
    j2: int,
)
    requires
        memo.wf(),
        memo.holds_at(plan, children, g1, j1),
        memo.holds_at(plan, children, g2, j2),
    ensures
        g1 == g2 && j1 == j2,
{
    assert(same_signature(memo.groups@[g1].m_exprs@[j1], memo.groups@[g2].m_exprs@[j2]));
}

/// Element-wise equality of two index vectors.
pub fn vec_eq(a: &Vec<usize>, b: &Vec<usize>) -> (r: bool)
    ensures
        r == (a@ == b@),
{
    if a.len() != b.len() {
        return false;
    }
    let mut i: usize = 0;
    while i < a.len()
        invariant
            a@.len() == b@.len(),
            i <= a@.len(),
            forall|k: int| 0 <= k < i ==> a@[k] == b@[k],
        decreases a@.len() - i,
    {
        if a[i] != b[i] {
            return false;
        }
        i += 1;
    }
    proof {
        assert(a@ =~= b@);
    }
    true
}

} // verus!

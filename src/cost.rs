use vstd::prelude::*;

use crate::memo::{Memo, MExpr, OptimizerError, RelOperator};

verus! {

/// The best physical multi-expression found for a group, and its cost.
#[derive(Debug, Clone, Copy, PartialEq, Eq, Structural)]
pub struct CostContext {
    pub expr_index: usize,
    pub cost: u64,
}

/// Costs of the physical operators: a scan costs the row count of its table (zero when
/// unknown), a hash join `join_cost`, any other physical operator nothing beyond its inputs.
#[derive(Debug, Clone)]
pub struct CostModel {
    pub table_rows: Vec<u64>,
    pub join_cost: u64,
}

/// Costs add up saturating at `u64::MAX`.
pub open spec fn sat(x: int) -> int {
    if x > u64::MAX { u64::MAX as int } else { x }
}

pub open spec fn op_cost(rows: Seq<u64>, join_cost: u64, op: RelOperator) -> int {
    match op {
        RelOperator::PhysicalScan(t) => if t < rows.len() { rows[t as int] as int } else { 0 },
        RelOperator::PhysicalHashJoin => join_cost as int,
        _ => 0,
    }
}

/// The summed best costs of the first `n` children.
pub open spec fn children_cost(children: Seq<usize>, best: Seq<CostContext>, n: int) -> int
    decreases n,
{
    if n <= 0 {
        0
    } else {
        sat(children_cost(children, best, n - 1) + best[children[n - 1] as int].cost as int)
    }
}

impl CostModel {
    /// The cost of a physical multi-expression given the best cost of each group.
    pub open spec fn expr_cost(&self, e: MExpr, best: Seq<CostContext>) -> int {
        sat(op_cost(self.table_rows@, self.join_cost, e.plan) + children_cost(e.children@, best, e.children@.len() as int))
    }

    pub fn local_cost(&self, op: RelOperator) -> (r: u64)
        ensures
            r == op_cost(self.table_rows@, self.join_cost, op),
    {
        match op {
            RelOperator::PhysicalScan(t) => {
                if t < self.table_rows.len() as u64 {
                    self.table_rows[t as usize]
                } else {
                    0
                }
            },
            RelOperator::PhysicalHashJoin => self.join_cost,
            _ => 0,
        }
    }

    /// The cost of `e` given the best costs of the groups before it.
    pub fn compute_cost(&self, e: &MExpr, best: &Vec<CostContext>) -> (r: u64)
        requires
            forall|k: int| 0 <= k < e.children@.len() ==> e.children@[k] < best@.len(),
        ensures
            r == self.expr_cost(*e, best@),
    {
        let mut acc: u64 = 0;
        let mut i: usize = 0;
        while i < e.children.len()
            invariant
                i <= e.children@.len(),
                forall|k: int| 0 <= k < e.children@.len() ==> e.children@[k] < best@.len(),
                acc == children_cost(e.children@, best@, i as int),
            decreases e.children@.len() - i,
        {
            let c = best[e.children[i]].cost;
            acc = saturating(acc, c);
            i += 1;
        }
        saturating(self.local_cost(e.plan), acc)
    }
}

fn saturating(a: u64, b: u64) -> (r: u64)
    ensures
        r == sat(a + b),
{
    if a > u64::MAX - b {
        u64::MAX
    } else {
        a + b
    }
}

proof fn lemma_children_cost_prefix(children: Seq<usize>, b1: Seq<CostContext>, b2: Seq<CostContext>, n: int, p: int)
    requires
        n <= children.len(),
        p <= b1.len(),
        p <= b2.len(),
        forall|k: int| 0 <= k < p ==> b1[k] == b2[k],
        forall|k: int| 0 <= k < children.len() ==> children[k] < p,
    ensures
        children_cost(children, b1, n) == children_cost(children, b2, n),
    decreases n,
{
    if n > 0 {
        lemma_children_cost_prefix(children, b1, b2, n - 1, p);
    }
}

/// Whether `c` is the cheapest physical multi-expression of group `g`, the first one
/// found among equals.
pub open spec fn is_best(memo: &Memo, model: &CostModel, best: Seq<CostContext>, g: int, c: CostContext) -> bool {
    let exprs = memo.groups@[g].m_exprs@;
    &&& c.expr_index < exprs.len()
    &&& exprs[c.expr_index as int].plan.spec_is_physical()
    &&& c.cost == model.expr_cost(exprs[c.expr_index as int], best)
    &&& forall|j: int| 0 <= j < exprs.len() && (#[trigger] exprs[j]).plan.spec_is_physical()
        ==> c.cost <= model.expr_cost(exprs[j], best)
    &&& forall|j: int| 0 <= j < c.expr_index && (#[trigger] exprs[j]).plan.spec_is_physical()
        ==> c.cost < model.expr_cost(exprs[j], best)
}

pub open spec fn has_physical(memo: &Memo, g: int) -> bool {
    exists|j: int| 0 <= j < memo.groups@[g].m_exprs@.len() && (#[trigger] memo.groups@[g].m_exprs@[j]).plan.spec_is_physical()
}

/// Picks, bottom-up, the cheapest physical multi-expression of every group.
pub fn derive_costs(memo: &Memo, model: &CostModel) -> (r: Result<Vec<CostContext>, OptimizerError>)
    requires
        memo.wf(),
    ensures
        r is Ok <==> forall|g: int| 0 <= g < memo.groups@.len() ==> has_physical(memo, g),
        r matches Ok(best) ==> best@.len() == memo.groups@.len() && forall|g: int|
            0 <= g < memo.groups@.len() ==> is_best(memo, model, best@, g, #[trigger] best@[g]),
        r matches Err(e) ==> e == OptimizerError::NoPhysicalExpr,
{
    let mut best: Vec<CostContext> = Vec::new();
    let mut g: usize = 0;
    while g < memo.groups.len()
        invariant
            memo.wf(),
            g <= memo.groups@.len(),
            best@.len() == g,
            forall|h: int| 0 <= h < g ==> has_physical(memo, h),
            forall|h: int| 0 <= h < g ==> is_best(memo, model, best@, h, #[trigger] best@[h]),
        decreases memo.groups@.len() - g,
    {
        let group = &memo.groups[g];
        assert(memo.groups@[g as int].wf_at(g as int));
        let mut found: Option<CostContext> = None;
        let mut j: usize = 0;
        while j < group.m_exprs.len()
            invariant
                memo.wf(),
                g < memo.groups@.len(),
                group == &memo.groups@[g as int],
                group.wf_at(g as int),
                best@.len() == g,
                j <= group.m_exprs@.len(),
                found is None ==> forall|k: int| 0 <= k < j ==> !(#[trigger] group.m_exprs@[k]).plan.spec_is_physical(),
                found matches Some(c) ==> {
                    &&& c.expr_index < j
                    &&& group.m_exprs@[c.expr_index as int].plan.spec_is_physical()
                    &&& c.cost == model.expr_cost(group.m_exprs@[c.expr_index as int], best@)
                    &&& forall|k: int| 0 <= k < j && (#[trigger] group.m_exprs@[k]).plan.spec_is_physical()
                        ==> c.cost <= model.expr_cost(group.m_exprs@[k], best@)
                    &&& forall|k: int| 0 <= k < c.expr_index && (#[trigger] group.m_exprs@[k]).plan.spec_is_physical()
                        ==> c.cost < model.expr_cost(group.m_exprs@[k], best@)
                },
            decreases group.m_exprs@.len() - j,
        {
            let e = &group.m_exprs[j];
            if e.plan.is_physical() {
                let c = model.compute_cost(e, &best);
                match found {
                    None => {
                        found = Some(CostContext { expr_index: j, cost: c });
                    },
                    Some(prev) => {
                        if c < prev.cost {
                            found = Some(CostContext { expr_index: j, cost: c });
                        }
                    },
                }
            }
            j += 1;
        }
        match found {
            None => {
                proof {
                    assert(!has_physical(memo, g as int));
                }
                return Err(OptimizerError::NoPhysicalExpr);
            },
            Some(c) => {
                let ghost before = best@;
                best.push(c);
                proof {
                    assert forall|j2: int| 0 <= j2 < group.m_exprs@.len() implies model.expr_cost(
                        #[trigger] group.m_exprs@[j2],
                        best@,
                    ) == model.expr_cost(group.m_exprs@[j2], before) by {
                        lemma_children_cost_prefix(group.m_exprs@[j2].children@, best@, before,
                            group.m_exprs@[j2].children@.len() as int, g as int);
                    }
                    assert forall|h: int| 0 <= h < g + 1 implies is_best(memo, model, best@, h, #[trigger] best@[h]) by {
                        if h < g {
                            let eh = memo.groups@[h].m_exprs@;
                            assert(memo.groups@[h].wf_at(h));
                            assert(is_best(memo, model, before, h, before[h]));
                            assert forall|j2: int| 0 <= j2 < eh.len() implies model.expr_cost(
                                #[trigger] eh[j2],
                                best@,
                            ) == model.expr_cost(eh[j2], before) by {
                                lemma_children_cost_prefix(eh[j2].children@, best@, before,
                                    eh[j2].children@.len() as int, h);
                            }
                        }
                    }
                    assert(has_physical(memo, g as int));
                }
            },
        }
        g += 1;
    }
    Ok(best)
}

} // verus!

verus! {

/// The winners of a memo are determined by the memo: two choices that both name the
/// cheapest, first-found physical multi-expression of every group are the same.
pub proof fn lemma_winners_unique(memo: &Memo, model: &CostModel, b1: Seq<CostContext>, b2: Seq<CostContext>)
    requires
        memo.wf(),
        b1.len() == memo.groups@.len(),
        b2.len() == memo.groups@.len(),
        forall|g: int| 0 <= g < memo.groups@.len() ==> is_best(memo, model, b1, g, #[trigger] b1[g]),
        forall|g: int| 0 <= g < memo.groups@.len() ==> is_best(memo, model, b2, g, #[trigger] b2[g]),
    ensures
        b1 == b2,
{
    lemma_winners_agree_below(memo, model, b1, b2, memo.groups@.len() as int);
    assert(b1 =~= b2);
}

proof fn lemma_winners_agree_below(memo: &Memo, model: &CostModel, b1: Seq<CostContext>, b2: Seq<CostContext>, n: int)
    requires
        memo.wf(),
        0 <= n <= memo.groups@.len(),
        b1.len() == memo.groups@.len(),
        b2.len() == memo.groups@.len(),
        forall|g: int| 0 <= g < memo.groups@.len() ==> is_best(memo, model, b1, g, #[trigger] b1[g]),
        forall|g: int| 0 <= g < memo.groups@.len() ==> is_best(memo, model, b2, g, #[trigger] b2[g]),
    ensures
        forall|k: int| 0 <= k < n ==> b1[k] == b2[k],
    decreases n,
{
    if n > 0 {
        lemma_winners_agree_below(memo, model, b1, b2, n - 1);
        let g = n - 1;
        let exprs = memo.groups@[g].m_exprs@;
        assert(memo.groups@[g].wf_at(g));
        assert forall|j: int| 0 <= j < exprs.len() implies model.expr_cost(#[trigger] exprs[j], b1) == model.expr_cost(exprs[j], b2) by {
            lemma_children_cost_prefix(exprs[j].children@, b1, b2, exprs[j].children@.len() as int, g);
        }
        let c1 = b1[g];
        let c2 = b2[g];
        assert(is_best(memo, model, b1, g, c1));
        assert(is_best(memo, model, b2, g, c2));
        assert(c1.cost <= model.expr_cost(exprs[c2.expr_index as int], b1));
        assert(c2.cost <= model.expr_cost(exprs[c1.expr_index as int], b2));
        if c1.expr_index < c2.expr_index {
            assert(c2.cost < model.expr_cost(exprs[c1.expr_index as int], b2));
        }
        if c2.expr_index < c1.expr_index {
            assert(c1.cost < model.expr_cost(exprs[c2.expr_index as int], b1));
        }
    }
}

} // verus!

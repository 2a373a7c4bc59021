use vstd::prelude::*;

use crate::cost::{has_physical, is_best, CostContext, CostModel};
use crate::format::{display_memo, memo_text};
use crate::memo::{Memo, OptimizerError, SExpr};
use crate::tasks::{closed_under_rules, memo_grows, optimize_memo};

verus! {

#[derive(Debug, Clone, Copy, PartialEq, Eq, Structural)]
pub struct OptimizerConfig {
    pub enable_distributed_optimization: bool,
}

#[derive(Debug, Clone, Copy, PartialEq, Eq, Structural)]
pub struct OptimizerContext {
    pub config: OptimizerConfig,
}

impl OptimizerContext {
    pub fn new(config: OptimizerConfig) -> (r: OptimizerContext)
        ensures
            r.config == config,
    {
        OptimizerContext { config }
    }

    /// A query is planned for distributed execution only when that is enabled and it reads
    /// no local table.
    pub fn enable_distributed_query(&self, contains_local_table_scan: bool) -> (r: bool)
        ensures
            r == (self.config.enable_distributed_optimization && !contains_local_table_scan),
    {
        self.config.enable_distributed_optimization && !contains_local_table_scan
    }
}

/// Whether every operator of a tree is physical.
pub open spec fn physical_tree(s: SExpr) -> bool
    decreases s, 0int,
{
    s.plan.spec_is_physical() && physical_prefix(s.children@, s.children@.len() as int)
}

pub open spec fn physical_prefix(v: Seq<SExpr>, n: int) -> bool
    decreases v, n,
{
    if n <= 0 || n > v.len() {
        true
    } else {
        physical_prefix(v, n - 1) && physical_tree(v[n - 1])
    }
}

proof fn lemma_physical_prefix_push(v: Seq<SExpr>, x: SExpr, n: int)
    requires
        0 <= n <= v.len(),
    ensures
        physical_prefix(v.push(x), n) == physical_prefix(v, n),
    decreases n,
{
    if n > 0 {
        lemma_physical_prefix_push(v, x, n - 1);
        assert(v.push(x)[n - 1] == v[n - 1]);
    }
}

/// Whether `t` is the plan made of the winners: the winning multi-expression of group `g`,
/// over the winner plans of its child groups.
pub open spec fn winner_tree(memo: &Memo, best: Seq<CostContext>, g: int, t: SExpr) -> bool
    decreases t, 0int,
{
    &&& 0 <= g < memo.groups@.len()
    &&& 0 <= g < best.len()
    &&& best[g].expr_index < memo.groups@[g].m_exprs@.len()
    &&& t.plan == memo.groups@[g].m_exprs@[best[g].expr_index as int].plan
    &&& t.children@.len() == memo.groups@[g].m_exprs@[best[g].expr_index as int].children@.len()
    &&& winner_prefix(memo, best, memo.groups@[g].m_exprs@[best[g].expr_index as int].children@, t.children@,
        t.children@.len() as int)
}

pub open spec fn winner_prefix(memo: &Memo, best: Seq<CostContext>, groups: Seq<usize>, v: Seq<SExpr>, n: int) -> bool
    decreases v, n,
{
    if n <= 0 || n > v.len() {
        true
    } else {
        winner_prefix(memo, best, groups, v, n - 1) && n <= groups.len() && winner_tree(memo, best, groups[n - 1] as int, v[n - 1])
    }
}

proof fn lemma_winner_prefix_push(memo: &Memo, best: Seq<CostContext>, groups: Seq<usize>, v: Seq<SExpr>, x: SExpr, n: int)
    requires
        0 <= n <= v.len(),
    ensures
        winner_prefix(memo, best, groups, v.push(x), n) == winner_prefix(memo, best, groups, v, n),
    decreases n,
{
    if n > 0 {
        lemma_winner_prefix_push(memo, best, groups, v, x, n - 1);
        assert(v.push(x)[n - 1] == v[n - 1]);
    }
}

/// What optimizing `s_expr` leaves: a well-formed memo that holds the root operator of
/// `s_expr` in group `root`, is closed under the rules, and whose winners `best` are the
/// cheapest physical multi-expressions of their groups.
pub open spec fn explored_memo_of(s_expr: SExpr, model: &CostModel, memo: Memo, best: Seq<CostContext>, root: int) -> bool {
    &&& memo.wf()
    &&& closed_under_rules(&memo)
    &&& 0 <= root < memo.groups@.len()
    &&& exists|j: int| 0 <= j < memo.groups@[root].m_exprs@.len() && (#[trigger] memo.groups@[root].m_exprs@[j]).plan == s_expr.plan
    &&& best.len() == memo.groups@.len()
    &&& forall|g: int| 0 <= g < memo.groups@.len() ==> is_best(&memo, model, best, g, #[trigger] best[g])
}

/// Whether `p` is an optimized plan of `s_expr`: the winner plan of the root group of an
/// explored memo of `s_expr`.
pub open spec fn query_optimized(s_expr: SExpr, model: &CostModel, p: SExpr) -> bool {
    exists|memo: Memo, best: Seq<CostContext>, root: int|
        explored_memo_of(s_expr, model, memo, best, root) && #[trigger] winner_tree(&memo, best, root, p)
}

/// Whether `best` names a physical multi-expression in every group.
pub open spec fn winners_valid(memo: &Memo, best: Seq<CostContext>) -> bool {
    &&& best.len() == memo.groups@.len()
    &&& forall|h: int| 0 <= h < best.len() ==> {
        &&& (#[trigger] best[h]).expr_index < memo.groups@[h].m_exprs@.len()
        &&& memo.groups@[h].m_exprs@[best[h].expr_index as int].plan.spec_is_physical()
    }
}

/// Builds the plan that picks, in group `g` and below, the winning multi-expression of
/// each group.
pub fn extract_best_plan(memo: &Memo, best: &Vec<CostContext>, g: usize) -> (r: SExpr)
    requires
        memo.wf(),
        g < memo.groups@.len(),
        winners_valid(memo, best@),
    ensures
        r.plan == memo.groups@[g as int].m_exprs@[best@[g as int].expr_index as int].plan,
        r.children@.len() == memo.groups@[g as int].m_exprs@[best@[g as int].expr_index as int].children@.len(),
        physical_tree(r),
        winner_tree(memo, best@, g as int, r),
    decreases g,
{
    let e = &memo.groups[g].m_exprs[best[g].expr_index];
    proof {
        assert(memo.groups@[g as int].wf_at(g as int));
    }
    let mut children: Vec<SExpr> = Vec::new();
    let mut i: usize = 0;
    while i < e.children.len()
        invariant
            memo.wf(),
            g < memo.groups@.len(),
            winners_valid(memo, best@),
            *e == memo.groups@[g as int].m_exprs@[best@[g as int].expr_index as int],
            forall|k: int| 0 <= k < e.children@.len() ==> 0 <= #[trigger] e.children@[k] < g,
            i <= e.children@.len(),
            children@.len() == i,
            physical_prefix(children@, i as int),
            winner_prefix(memo, best@, e.children@, children@, i as int),
        decreases e.children@.len() - i,
    {
        let child = extract_best_plan(memo, best, e.children[i]);
        proof {
            lemma_physical_prefix_push(children@, child, i as int);
            lemma_winner_prefix_push(memo, best@, e.children@, children@, child, i as int);
        }
        children.push(child);
        i += 1;
    }
    let r = SExpr { plan: e.plan, children };
    r
}

/// Optimizes a plan tree: inserts it into a fresh memo, explores it with the rules within
/// `max_steps` tasks, costs every group, and returns the cheapest physical plan.
pub fn optimize_query(s_expr: &SExpr, model: &CostModel, max_steps: u64) -> (r: Result<SExpr, OptimizerError>)
    ensures
        r matches Ok(p) ==> physical_tree(p) && query_optimized(*s_expr, model, p),
        r matches Err(e) ==> e == OptimizerError::StepBudgetExhausted || e == OptimizerError::NoPhysicalExpr,
{
    let mut memo = Memo::new();
    let root = memo.insert_tree(s_expr);
    let ghost inserted = memo;
    let best = optimize_memo(&mut memo, model, max_steps)?;
    proof {
        assert forall|h: int| 0 <= h < best@.len() implies {
            &&& (#[trigger] best@[h]).expr_index < memo.groups@[h].m_exprs@.len()
            &&& memo.groups@[h].m_exprs@[best@[h].expr_index as int].plan.spec_is_physical()
        } by {
            assert(is_best(&memo, model, best@, h, best@[h]));
        }
        let j = choose|j: int| 0 <= j < inserted.groups@[root as int].m_exprs@.len()
            && (#[trigger] inserted.groups@[root as int].m_exprs@[j]).plan == s_expr.plan;
        assert(memo.groups@[root as int].m_exprs@[j] == inserted.groups@[root as int].m_exprs@[j]);
        assert(explored_memo_of(*s_expr, model, memo, best@, root as int));
    }
    let p = extract_best_plan(&memo, &best, root);
    proof {
        assert(winner_tree(&memo, best@, root as int, p));
    }
    Ok(p)
}

} // verus!
verus! {

#[derive(Debug, PartialEq, Eq)]
pub enum ExplainKind {
    Raw,
    Ast,
    Syntax,
    /// The memo after optimization, shown group by group; its text is filled in by
    /// `optimize`.
    Memo(String),
    /// The optimized plan.
    Plan,
}

/// A bound statement.
#[derive(Debug, PartialEq, Eq)]
pub enum Plan {
    Query(SExpr),
    Explain { kind: ExplainKind, plan: Box<Plan> },
    /// `COPY INTO <stage> FROM <query>`: the query is optimized.
    CopyIntoStage { from: Box<Plan> },
    /// `COPY INTO <table>`, and any other statement: passed through.
    Other(u64),
}

/// Whether `text` renders an explored memo of `s_expr` with its winners.
pub open spec fn memo_rendered(s_expr: SExpr, model: &CostModel, text: Seq<char>) -> bool {
    exists|memo: Memo, best: Seq<CostContext>, root: int|
        #[trigger] explored_memo_of(s_expr, model, memo, best, root) && text == memo_text(&memo, best, memo.groups@.len() as int)
}

/// Whether `out` is `inp` with every query it runs replaced by a physical plan, and the
/// memo text of EXPLAIN MEMO filled in.
pub open spec fn optimized(inp: Plan, out: Plan, model: &CostModel) -> bool
    decreases inp,
{
    match inp {
        Plan::Query(s) => out matches Plan::Query(p) && physical_tree(p) && query_optimized(s, model, p),
        Plan::Explain { kind, plan } => match kind {
            ExplainKind::Plan => out matches Plan::Explain { kind: k, plan: q } && k == kind && optimized(*plan, *q, model),
            ExplainKind::Memo(_) => out matches Plan::Explain { kind: ExplainKind::Memo(t), plan: q } && *q == *plan
                && (*plan matches Plan::Query(s) && memo_rendered(s, model, t@)),
            _ => out == inp,
        },
        Plan::CopyIntoStage { from } => out matches Plan::CopyIntoStage { from: q } && optimized(*from, *q, model),
        Plan::Other(_) => out == inp,
    }
}

/// Optimizes the queries of a statement. EXPLAIN of the raw plan, the syntax tree or the
/// syntax is left alone; EXPLAIN MEMO applies to queries only and carries the rendered memo.
pub fn optimize(plan: Plan, model: &CostModel, max_steps: u64) -> (r: Result<Plan, OptimizerError>)
    ensures
        r matches Ok(out) ==> optimized(plan, out, model),
        r matches Err(e) ==> e == OptimizerError::StepBudgetExhausted || e == OptimizerError::NoPhysicalExpr
            || e == OptimizerError::BadArguments,
        (plan matches Plan::Explain { kind, plan: inner } && kind is Memo && !(*inner is Query))
            ==> r == Err::<Plan, OptimizerError>(OptimizerError::BadArguments),
        (plan matches Plan::Explain { kind, .. } && (kind is Raw || kind is Ast || kind is Syntax)) || plan is Other
            ==> r == Ok::<Plan, OptimizerError>(plan),
        r == Err::<Plan, OptimizerError>(OptimizerError::BadArguments) ==> !(plan is Query),
    decreases plan,
{
    match plan {
        Plan::Query(s) => {
            let p = optimize_query(&s, model, max_steps)?;
            Ok(Plan::Query(p))
        },
        Plan::Explain { kind, plan: inner } => match kind {
            ExplainKind::Raw | ExplainKind::Ast | ExplainKind::Syntax => Ok(Plan::Explain { kind, plan: inner }),
            ExplainKind::Memo(_) => {
                let text = match &*inner {
                    Plan::Query(s) => {
                        let (memo, best, root) = get_optimized_memo(s, model, max_steps)?;
                        match display_memo(&memo, &best) {
                            Ok(t) => {
                                proof {
                                    assert(explored_memo_of(*s, model, memo, best@, root as int));
                                }
                                t
                            },
                            Err(e) => {
                                return Err(e);
                            },
                        }
                    },
                    _ => {
                        return Err(OptimizerError::BadArguments);
                    },
                };
                Ok(Plan::Explain { kind: ExplainKind::Memo(text), plan: inner })
            },
            ExplainKind::Plan => {
                let q = optimize(*inner, model, max_steps)?;
                Ok(Plan::Explain { kind, plan: Box::new(q) })
            },
        },
        Plan::CopyIntoStage { from } => {
            let q = optimize(*from, model, max_steps)?;
            Ok(Plan::CopyIntoStage { from: Box::new(q) })
        },
        Plan::Other(id) => Ok(Plan::Other(id)),
    }
}

/// The memo, the winners of its groups and the root group after optimizing a query, for
/// EXPLAIN MEMO.
pub fn get_optimized_memo(s_expr: &SExpr, model: &CostModel, max_steps: u64) -> (r: Result<(Memo, Vec<CostContext>, usize), OptimizerError>)
    ensures
        r matches Ok(res) ==> explored_memo_of(*s_expr, model, res.0, res.1@, res.2 as int),
        r matches Err(e) ==> e == OptimizerError::StepBudgetExhausted || e == OptimizerError::NoPhysicalExpr,
{
    let mut memo = Memo::new();
    let root = memo.insert_tree(s_expr);
    let ghost inserted = memo;
    let best = optimize_memo(&mut memo, model, max_steps)?;
    proof {
        let j = choose|j: int| 0 <= j < inserted.groups@[root as int].m_exprs@.len()
            && (#[trigger] inserted.groups@[root as int].m_exprs@[j]).plan == s_expr.plan;
        assert(memo.groups@[root as int].m_exprs@[j] == inserted.groups@[root as int].m_exprs@[j]);
        assert(explored_memo_of(*s_expr, model, memo, best@, root as int));
    }
    Ok((memo, best, root))
}

} // verus!

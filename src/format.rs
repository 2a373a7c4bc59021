use vstd::prelude::*;

use crate::cost::CostContext;
use crate::memo::{Memo, MExpr, OptimizerError, RelOperator};

verus! {

/// The name under which an operator is displayed.
pub open spec fn rel_op_name(op: RelOperator) -> &'static str {
    match op {
        RelOperator::LogicalGet(_) => "LogicalGet",
        RelOperator::LogicalInnerJoin => "LogicalInnerJoin",
        RelOperator::PhysicalScan(_) => "PhysicalScan",
        RelOperator::PhysicalHashJoin => "PhysicalHashJoin",
        RelOperator::EvalScalar => "EvalScalar",
        RelOperator::Filter => "Filter",
        RelOperator::Aggregate => "Aggregate",
        RelOperator::Sort => "Sort",
        RelOperator::Limit => "Limit",
        RelOperator::UnionAll => "UnionAll",
        RelOperator::Exchange => "Exchange",
        RelOperator::Pattern => "Pattern",
        RelOperator::DummyTableScan => "DummyTableScan",
    }
}

pub fn display_rel_op(rel_op: &RelOperator) -> (r: String)
    ensures
        r@ == rel_op_name(*rel_op)@,
{
    let name: &'static str = match rel_op {
        RelOperator::LogicalGet(_) => "LogicalGet",
        RelOperator::LogicalInnerJoin => "LogicalInnerJoin",
        RelOperator::PhysicalScan(_) => "PhysicalScan",
        RelOperator::PhysicalHashJoin => "PhysicalHashJoin",
        RelOperator::EvalScalar => "EvalScalar",
        RelOperator::Filter => "Filter",
        RelOperator::Aggregate => "Aggregate",
        RelOperator::Sort => "Sort",
        RelOperator::Limit => "Limit",
        RelOperator::UnionAll => "UnionAll",
        RelOperator::Exchange => "Exchange",
        RelOperator::Pattern => "Pattern",
        RelOperator::DummyTableScan => "DummyTableScan",
    };
    String::from_str(name)
}

/// The text of one decimal digit.
pub open spec fn digit_text(d: nat) -> Seq<char> {
    if d == 0 { "0"@ } else if d == 1 { "1"@ } else if d == 2 { "2"@ } else if d == 3 { "3"@ }
    else if d == 4 { "4"@ } else if d == 5 { "5"@ } else if d == 6 { "6"@ } else if d == 7 { "7"@ }
    else if d == 8 { "8"@ } else { "9"@ }
}

/// A number written in decimal, without leading zeros.
pub open spec fn decimal(n: nat) -> Seq<char>
    decreases n,
{
    if n < 10 { digit_text(n) } else { decimal(n / 10) + digit_text(n % 10) }
}

fn digit_str(d: u64) -> (r: &'static str)
    requires
        d < 10,
    ensures
        r@ == digit_text(d as nat),
{
    if d == 0 { "0" } else if d == 1 { "1" } else if d == 2 { "2" } else if d == 3 { "3" }
    else if d == 4 { "4" } else if d == 5 { "5" } else if d == 6 { "6" } else if d == 7 { "7" }
    else if d == 8 { "8" } else { "9" }
}

/// Appends `n` in decimal.
pub fn push_decimal(s: &mut String, n: u64)
    ensures
        final(s)@ == old(s)@ + decimal(n as nat),
    decreases n,
{
    if n >= 10 {
        push_decimal(s, n / 10);
    }
    s.append(digit_str(n % 10));
    proof {
        if n >= 10 {
            assert(decimal(n as nat) == decimal((n / 10) as nat) + digit_text((n % 10) as nat));
        }
    }
}

/// `#c1, #c2, ...` for the first `n` child groups.
pub open spec fn children_text(cs: Seq<usize>, n: int) -> Seq<char>
    decreases n,
{
    if n <= 0 || n > cs.len() {
        Seq::empty()
    } else if n == 1 {
        "#"@ + decimal(cs[0] as nat)
    } else {
        children_text(cs, n - 1) + ", #"@ + decimal(cs[n - 1] as nat)
    }
}

/// The line of one multi-expression: its operator and its child groups.
pub open spec fn m_expr_line(e: MExpr) -> Seq<char> {
    "\n├── "@ + rel_op_name(e.plan)@ + " ["@ + children_text(e.children@, e.children@.len() as int) + "]"@
}

pub open spec fn exprs_text(es: Seq<MExpr>, n: int) -> Seq<char>
    decreases n,
{
    if n <= 0 || n > es.len() { Seq::empty() } else { exprs_text(es, n - 1) + m_expr_line(es[n - 1]) }
}

/// A group: its index, the winner with its cost, and each multi-expression on a line.
pub open spec fn group_text(memo: &Memo, best: Seq<CostContext>, g: int) -> Seq<char> {
    "Group #"@ + decimal(g as nat) + "\n├── best cost: [#"@ + decimal(best[g].expr_index as nat) + "] "@
        + decimal(best[g].cost as nat) + exprs_text(memo.groups@[g].m_exprs@, memo.groups@[g].m_exprs@.len() as int)
}

/// The first `n` groups, one after the other on their own lines.
pub open spec fn memo_text(memo: &Memo, best: Seq<CostContext>, n: int) -> Seq<char>
    decreases n,
{
    if n <= 0 {
        Seq::empty()
    } else if n == 1 {
        group_text(memo, best, 0)
    } else {
        memo_text(memo, best, n - 1) + "\n"@ + group_text(memo, best, n - 1)
    }
}

fn push_m_expr(s: &mut String, e: &MExpr)
    ensures
        final(s)@ == old(s)@ + m_expr_line(*e),
{
    let ghost s0 = s@;
    s.append("\n├── ");
    let name = display_rel_op(&e.plan);
    s.append(name.as_str());
    s.append(" [");
    let mut i: usize = 0;
    while i < e.children.len()
        invariant
            i <= e.children@.len(),
            s@ == s0 + "\n├── "@ + rel_op_name(e.plan)@ + " ["@ + children_text(e.children@, i as int),
        decreases e.children@.len() - i,
    {
        if i > 0 {
            s.append(", #");
        } else {
            s.append("#");
        }
        push_decimal(s, e.children[i] as u64);
        i += 1;
    }
    s.append("]");
}

/// The memo as text, group after group, each with its winner and its multi-expressions.
/// Fails when a group has no winner in `best`.
pub fn display_memo(memo: &Memo, best: &Vec<CostContext>) -> (r: Result<String, OptimizerError>)
    requires
        memo.wf(),
    ensures
        best@.len() < memo.groups@.len() <==> r is Err,
        r matches Err(e) ==> e == OptimizerError::IndexOutOfRange,
        r matches Ok(t) ==> t@ == memo_text(memo, best@, memo.groups@.len() as int),
{
    if best.len() < memo.groups.len() {
        return Err(OptimizerError::IndexOutOfRange);
    }
    let mut s = String::new();
    let mut g: usize = 0;
    while g < memo.groups.len()
        invariant
            g <= memo.groups@.len(),
            best@.len() >= memo.groups@.len(),
            s@ == memo_text(memo, best@, g as int),
        decreases memo.groups@.len() - g,
    {
        let ghost before = s@;
        if g > 0 {
            s.append("\n");
        }
        s.append("Group #");
        push_decimal(&mut s, g as u64);
        s.append("\n├── best cost: [#");
        push_decimal(&mut s, best[g].expr_index as u64);
        s.append("] ");
        push_decimal(&mut s, best[g].cost);
        let group = &memo.groups[g];
        let ghost head = s@;
        let mut j: usize = 0;
        while j < group.m_exprs.len()
            invariant
                j <= group.m_exprs@.len(),
                s@ == head + exprs_text(group.m_exprs@, j as int),
            decreases group.m_exprs@.len() - j,
        {
            push_m_expr(&mut s, &group.m_exprs[j]);
            j += 1;
        }
        proof {
            if g > 0 {
                assert(s@ =~= before + "\n"@ + group_text(memo, best@, g as int));
            } else {
                assert(s@ =~= group_text(memo, best@, 0));
            }
        }
        g += 1;
    }
    Ok(s)
}

} // verus!

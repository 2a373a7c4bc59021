use vstd::prelude::*;

use crate::memo::{MExpr, RelOperator};

verus! {

/// The transformation rules of the search.
#[derive(Debug, Clone, Copy, PartialEq, Eq, Structural)]
pub enum RuleID {
    /// `A join B` to `B join A`.
    CommuteJoin,
    /// A logical table read to a physical scan of the same table.
    ImplementGet,
    /// A logical inner join to a hash join over the same inputs.
    ImplementJoin,
}

/// What `rule` makes of an operator over the given child groups, if its pattern matches.
pub open spec fn spec_apply_rule(rule: RuleID, plan: RelOperator, children: Seq<usize>) -> Option<(RelOperator, Seq<usize>)> {
    match rule {
        RuleID::CommuteJoin => if plan is LogicalInnerJoin && children.len() == 2 {
            Some((RelOperator::LogicalInnerJoin, seq![children[1], children[0]]))
        } else {
            None
        },
        RuleID::ImplementGet => match plan {
            RelOperator::LogicalGet(t) => Some((RelOperator::PhysicalScan(t), children)),
            _ => None,
        },
        RuleID::ImplementJoin => if plan is LogicalInnerJoin {
            Some((RelOperator::PhysicalHashJoin, children))
        } else {
            None
        },
    }
}

/// Every rule, in the order in which they are tried.
pub fn all_rules() -> (r: Vec<RuleID>)
    ensures
        r@ == seq![RuleID::CommuteJoin, RuleID::ImplementGet, RuleID::ImplementJoin],
{
    vec![RuleID::CommuteJoin, RuleID::ImplementGet, RuleID::ImplementJoin]
}

/// Matches `rule` against one multi-expression and builds its replacement.
pub fn apply_rule(rule: RuleID, m_expr: &MExpr) -> (r: Option<(RelOperator, Vec<usize>)>)
    ensures
        r matches Some((p, c)) ==> spec_apply_rule(rule, m_expr.plan, m_expr.children@) == Some((p, c@)),
        r is None ==> spec_apply_rule(rule, m_expr.plan, m_expr.children@) is None,
{
    match rule {
        RuleID::CommuteJoin => {
            if m_expr.plan == RelOperator::LogicalInnerJoin && m_expr.children.len() == 2 {
                let children = vec![m_expr.children[1], m_expr.children[0]];
                proof {
                    assert(children@ =~= seq![m_expr.children@[1], m_expr.children@[0]]);
                }
                Some((RelOperator::LogicalInnerJoin, children))
            } else {
                None
            }
        },
        RuleID::ImplementGet => match m_expr.plan {
            RelOperator::LogicalGet(t) => Some((RelOperator::PhysicalScan(t), m_expr.children.clone())),
            _ => None,
        },
        RuleID::ImplementJoin => {
            if m_expr.plan == RelOperator::LogicalInnerJoin {
                Some((RelOperator::PhysicalHashJoin, m_expr.children.clone()))
            } else {
                None
            }
        },
    }
}

/// A rule only rearranges the child groups it was given.
pub proof fn lemma_rule_keeps_children(rule: RuleID, plan: RelOperator, children: Seq<usize>, bound: usize)
    requires
        forall|k: int| 0 <= k < children.len() ==> children[k] < bound,
    ensures
        spec_apply_rule(rule, plan, children) matches Some((p, c)) ==> forall|k: int|
            0 <= k < c.len() ==> c[k] < bound,
{
}

} // verus!

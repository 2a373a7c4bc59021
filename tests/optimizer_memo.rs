use databend_core::cost::{derive_costs, CostContext, CostModel};
use databend_core::format::{display_memo, display_rel_op};
use databend_core::memo::{GroupState, Memo, OptimizerError, RelOperator, SExpr};
use databend_core::optimizer::{get_optimized_memo, optimize, ExplainKind, OptimizerConfig, OptimizerContext, Plan};
use databend_core::rules::{all_rules, apply_rule, RuleID};
use databend_core::tasks::{optimize_memo, ExploreGroupEvent, ExploreGroupState, ExploreGroupTask, Scheduler};

fn leaf(plan: RelOperator) -> SExpr {
    SExpr { plan, children: vec![] }
}

fn join_tree() -> SExpr {
    SExpr {
        plan: RelOperator::LogicalInnerJoin,
        children: vec![leaf(RelOperator::LogicalGet(0)), leaf(RelOperator::LogicalGet(1))],
    }
}

#[test]
fn identical_m_exprs_are_stored_once() {
    let mut memo = Memo::new();
    let g0 = memo.add_group();
    let g1 = memo.add_group();
    let a = memo.insert_m_expr(g0, RelOperator::LogicalGet(7), vec![]);
    let b = memo.insert_m_expr(g0, RelOperator::LogicalGet(7), vec![]);
    assert_eq!(a, b);
    assert_eq!(memo.groups[g0].m_exprs.len(), 1);
    let c = memo.insert_m_expr(g1, RelOperator::Filter, vec![g0]);
    let d = memo.insert_m_expr(g1, RelOperator::Filter, vec![g0]);
    assert_eq!(c, d);
    assert_eq!(memo.groups[g1].m_exprs.len(), 1);
    let e = memo.insert_m_expr(g1, RelOperator::Sort, vec![g0]);
    assert_eq!(e, (g1, 1));
    assert_eq!(memo.lookup(RelOperator::Sort, &vec![g0]), Some((g1, 1)));
    assert_eq!(memo.lookup(RelOperator::Limit, &vec![g0]), None);
}

#[test]
fn same_signature_in_another_group_is_not_duplicated() {
    let mut memo = Memo::new();
    let g0 = memo.add_group();
    let g1 = memo.add_group();
    memo.insert_m_expr(g0, RelOperator::DummyTableScan, vec![]);
    let r = memo.insert_m_expr(g1, RelOperator::DummyTableScan, vec![]);
    assert_eq!(r, (g0, 0));
    assert!(memo.groups[g1].m_exprs.is_empty());
}

#[test]
fn tree_insertion_shares_subtrees() {
    let mut memo = Memo::new();
    let root = memo.insert_tree(&join_tree());
    assert_eq!(root, 2);
    assert_eq!(memo.num_groups(), 3);
    assert_eq!(memo.groups[2].m_exprs[0].children, vec![0, 1]);
    let self_join = SExpr {
        plan: RelOperator::LogicalInnerJoin,
        children: vec![leaf(RelOperator::LogicalGet(0)), leaf(RelOperator::LogicalGet(0))],
    };
    let root2 = memo.insert_tree(&self_join);
    assert_eq!(memo.num_groups(), 4);
    assert_eq!(memo.groups[root2].m_exprs[0].children, vec![0, 0]);
    assert_eq!(memo.insert_tree(&join_tree()), 2);
    assert_eq!(memo.num_groups(), 4);
}

#[test]
fn group_and_m_expr_lookups_check_bounds() {
    let mut memo = Memo::new();
    memo.insert_tree(&leaf(RelOperator::LogicalGet(3)));
    assert!(memo.group(0).is_ok());
    assert_eq!(memo.group(1).err(), Some(OptimizerError::IndexOutOfRange));
    let g = memo.group(0).unwrap();
    assert_eq!(g.num_exprs(), 1);
    assert_eq!(g.m_expr(0).unwrap().plan, RelOperator::LogicalGet(3));
    assert_eq!(g.m_expr(1).err(), Some(OptimizerError::IndexOutOfRange));
}

#[test]
fn costs_pick_cheapest_physical_expression() {
    let mut memo = Memo::new();
    let g0 = memo.add_group();
    memo.insert_m_expr(g0, RelOperator::LogicalGet(0), vec![]);
    memo.insert_m_expr(g0, RelOperator::PhysicalScan(0), vec![]);
    memo.insert_m_expr(g0, RelOperator::PhysicalScan(1), vec![]);
    let g1 = memo.add_group();
    memo.insert_m_expr(g1, RelOperator::PhysicalHashJoin, vec![g0, g0]);
    memo.insert_m_expr(g1, RelOperator::Filter, vec![g0]);
    let model = CostModel { table_rows: vec![50, 20], join_cost: 3 };
    let best = derive_costs(&memo, &model).unwrap();
    assert_eq!(best, vec![CostContext { expr_index: 2, cost: 20 }, CostContext { expr_index: 1, cost: 20 }]);
}

#[test]
fn cost_ties_keep_first_found() {
    let mut memo = Memo::new();
    let g0 = memo.add_group();
    memo.insert_m_expr(g0, RelOperator::PhysicalScan(0), vec![]);
    memo.insert_m_expr(g0, RelOperator::PhysicalScan(1), vec![]);
    let model = CostModel { table_rows: vec![5, 5], join_cost: 0 };
    assert_eq!(derive_costs(&memo, &model).unwrap(), vec![CostContext { expr_index: 0, cost: 5 }]);
}

#[test]
fn costs_saturate() {
    let mut memo = Memo::new();
    let g0 = memo.add_group();
    memo.insert_m_expr(g0, RelOperator::PhysicalScan(0), vec![]);
    let g1 = memo.add_group();
    memo.insert_m_expr(g1, RelOperator::PhysicalHashJoin, vec![g0, g0]);
    let model = CostModel { table_rows: vec![u64::MAX - 1], join_cost: 1 };
    let best = derive_costs(&memo, &model).unwrap();
    assert_eq!(best[1].cost, u64::MAX);
}

#[test]
fn group_without_physical_expression_has_no_cost() {
    let mut memo = Memo::new();
    memo.insert_tree(&join_tree());
    let model = CostModel { table_rows: vec![1, 1], join_cost: 1 };
    assert_eq!(derive_costs(&memo, &model), Err(OptimizerError::NoPhysicalExpr));
}

#[test]
fn rules_rewrite_matching_expressions() {
    let mut memo = Memo::new();
    memo.insert_tree(&join_tree());
    let join = &memo.groups[2].m_exprs[0];
    assert_eq!(apply_rule(RuleID::CommuteJoin, join), Some((RelOperator::LogicalInnerJoin, vec![1, 0])));
    assert_eq!(apply_rule(RuleID::ImplementJoin, join), Some((RelOperator::PhysicalHashJoin, vec![0, 1])));
    assert_eq!(apply_rule(RuleID::ImplementGet, join), None);
    let get = &memo.groups[0].m_exprs[0];
    assert_eq!(apply_rule(RuleID::ImplementGet, get), Some((RelOperator::PhysicalScan(0), vec![])));
    assert_eq!(all_rules(), vec![RuleID::CommuteJoin, RuleID::ImplementGet, RuleID::ImplementJoin]);
}

#[test]
fn full_search_explores_and_costs_every_group() {
    let mut memo = Memo::new();
    memo.insert_tree(&join_tree());
    let model = CostModel { table_rows: vec![100, 10], join_cost: 5 };
    let best = optimize_memo(&mut memo, &model, 1000).unwrap();
    assert_eq!(best[0], CostContext { expr_index: 1, cost: 100 });
    assert_eq!(best[1], CostContext { expr_index: 1, cost: 10 });
    assert_eq!(best[2].cost, 115);
    assert_eq!(memo.groups[2].m_exprs[best[2].expr_index].plan, RelOperator::PhysicalHashJoin);
    assert_eq!(memo.groups[2].m_exprs.len(), 4);
    assert_eq!(memo.lookup(RelOperator::PhysicalHashJoin, &vec![1, 0]).map(|l| l.0), Some(2));
    for g in memo.groups.iter() {
        assert_eq!(g.state, GroupState::Explored);
    }
}

#[test]
fn search_stops_at_step_budget() {
    let mut memo = Memo::new();
    memo.insert_tree(&join_tree());
    let model = CostModel { table_rows: vec![1, 1], join_cost: 1 };
    assert_eq!(optimize_memo(&mut memo, &model, 2), Err(OptimizerError::StepBudgetExhausted));
}

#[test]
fn explore_group_task_moves_through_its_states() {
    let mut memo = Memo::new();
    memo.insert_tree(&leaf(RelOperator::LogicalGet(0)));
    let mut scheduler = Scheduler::new();
    let parent = scheduler.new_counter();
    let mut task = ExploreGroupTask::with_parent(0, parent, &mut scheduler);
    assert_eq!(scheduler.counters[parent], 1);
    assert_eq!(task.explore_group(&mut memo, &mut scheduler), Ok(ExploreGroupEvent::Exploring));
    assert_eq!(task.last_explored_m_expr, Some(1));
    assert_eq!(scheduler.tasks.len(), 1);
    assert_eq!(memo.groups[0].state, GroupState::Init);
    // Its child is still running, so the task waits.
    assert_eq!(task.explore_group(&mut memo, &mut scheduler), Ok(ExploreGroupEvent::Exploring));
    scheduler.dec(task.ref_count);
    assert_eq!(task.explore_group(&mut memo, &mut scheduler), Ok(ExploreGroupEvent::Explored));
    assert_eq!(memo.groups[0].state, GroupState::Explored);
    assert_eq!(scheduler.counters[parent], 0);
    task.transition_on(ExploreGroupEvent::Explored);
    assert_eq!(task.state, ExploreGroupState::Explored);
    let mut missing = ExploreGroupTask::new(9, 0);
    assert_eq!(missing.explore_group(&mut memo, &mut scheduler), Err(OptimizerError::IndexOutOfRange));
}

#[test]
fn scheduler_is_first_in_first_out() {
    let mut scheduler = Scheduler::new();
    let c = scheduler.new_counter();
    scheduler.add_task(databend_core::tasks::Task::ExploreGroup(ExploreGroupTask::new(1, c)));
    scheduler.add_task(databend_core::tasks::Task::ExploreGroup(ExploreGroupTask::new(2, c)));
    match scheduler.next_task() {
        Some(databend_core::tasks::Task::ExploreGroup(t)) => assert_eq!(t.group_index, 1),
        _ => panic!("expected the first task"),
    }
    scheduler.inc(c);
    scheduler.inc(c);
    scheduler.dec(c);
    assert_eq!(scheduler.counters[c], 1);
    scheduler.dec(c);
    scheduler.dec(c);
    assert_eq!(scheduler.counters[c], 0);
}

#[test]
fn operator_names() {
    assert_eq!(display_rel_op(&RelOperator::PhysicalHashJoin), "PhysicalHashJoin");
    assert_eq!(display_rel_op(&RelOperator::LogicalGet(4)), "LogicalGet");
    assert_eq!(display_rel_op(&RelOperator::DummyTableScan), "DummyTableScan");
}

#[test]
fn distributed_planning_needs_config_and_no_local_scan() {
    let ctx = OptimizerContext::new(OptimizerConfig { enable_distributed_optimization: true });
    assert!(ctx.enable_distributed_query(false));
    assert!(!ctx.enable_distributed_query(true));
    let off = OptimizerContext::new(OptimizerConfig { enable_distributed_optimization: false });
    assert!(!off.enable_distributed_query(false));
}

#[test]
fn optimize_query_returns_cheapest_physical_plan() {
    let model = CostModel { table_rows: vec![100, 10], join_cost: 5 };
    let plan = databend_core::optimizer::optimize_query(&join_tree(), &model, 1000).unwrap();
    assert_eq!(plan.plan, RelOperator::PhysicalHashJoin);
    assert_eq!(plan.children.len(), 2);
    assert_eq!(plan.children[0].plan, RelOperator::PhysicalScan(0));
    assert_eq!(plan.children[1].plan, RelOperator::PhysicalScan(1));
    let filtered = SExpr { plan: RelOperator::Filter, children: vec![leaf(RelOperator::LogicalGet(1))] };
    let plan = databend_core::optimizer::optimize_query(&filtered, &model, 1000).unwrap();
    assert_eq!(plan, SExpr { plan: RelOperator::Filter, children: vec![leaf(RelOperator::PhysicalScan(1))] });
}

#[test]
fn optimize_query_fails_without_physical_alternative() {
    let model = CostModel { table_rows: vec![], join_cost: 0 };
    let pattern = leaf(RelOperator::Pattern);
    assert_eq!(databend_core::optimizer::optimize_query(&pattern, &model, 100), Err(OptimizerError::NoPhysicalExpr));
}

#[test]
fn statements_are_optimized_by_kind() {
    let model = CostModel { table_rows: vec![100, 10], join_cost: 5 };
    match optimize(Plan::Query(join_tree()), &model, 1000).unwrap() {
        Plan::Query(p) => assert_eq!(p.plan, RelOperator::PhysicalHashJoin),
        _ => panic!("expected a query"),
    }
    let raw = Plan::Explain { kind: ExplainKind::Raw, plan: Box::new(Plan::Query(join_tree())) };
    assert_eq!(
        optimize(raw, &model, 1000),
        Ok(Plan::Explain { kind: ExplainKind::Raw, plan: Box::new(Plan::Query(join_tree())) })
    );
    let memo_of_copy = Plan::Explain { kind: ExplainKind::Memo(String::new()), plan: Box::new(Plan::Other(1)) };
    assert_eq!(optimize(memo_of_copy, &model, 1000), Err(OptimizerError::BadArguments));
    let explain = Plan::Explain { kind: ExplainKind::Plan, plan: Box::new(Plan::Query(join_tree())) };
    match optimize(explain, &model, 1000).unwrap() {
        Plan::Explain { kind, plan } => {
            assert_eq!(kind, ExplainKind::Plan);
            assert!(matches!(*plan, Plan::Query(ref p) if p.plan == RelOperator::PhysicalHashJoin));
        },
        _ => panic!("expected an explain"),
    }
    let copy = Plan::CopyIntoStage { from: Box::new(Plan::Query(leaf(RelOperator::LogicalGet(0)))) };
    assert_eq!(
        optimize(copy, &model, 1000),
        Ok(Plan::CopyIntoStage { from: Box::new(Plan::Query(leaf(RelOperator::PhysicalScan(0)))) })
    );
    assert_eq!(optimize(Plan::Other(7), &model, 1000), Ok(Plan::Other(7)));
    let (memo, best, root) = get_optimized_memo(&join_tree(), &model, 1000).unwrap();
    assert_eq!(root, 2);
    assert_eq!(memo.groups.len(), 3);
    assert_eq!(best[2].cost, 115);
}

#[test]
fn explain_memo_renders_the_explored_memo() {
    let model = CostModel { table_rows: vec![7], join_cost: 1 };
    let plan = Plan::Explain {
        kind: ExplainKind::Memo(String::new()),
        plan: Box::new(Plan::Query(leaf(RelOperator::LogicalGet(0)))),
    };
    let expected = "Group #0\n├── best cost: [#1] 7\n├── LogicalGet []\n├── PhysicalScan []";
    match optimize(plan, &model, 100).unwrap() {
        Plan::Explain { kind: ExplainKind::Memo(text), plan } => {
            assert_eq!(text, expected);
            assert_eq!(*plan, Plan::Query(leaf(RelOperator::LogicalGet(0))));
        },
        _ => panic!("expected EXPLAIN MEMO"),
    }
}

#[test]
fn memo_text_lists_groups_and_children() {
    let model = CostModel { table_rows: vec![100, 10], join_cost: 5 };
    let (memo, best, _) = get_optimized_memo(&join_tree(), &model, 1000).unwrap();
    let text = display_memo(&memo, &best).unwrap();
    assert!(text.starts_with("Group #0\n├── best cost: [#1] 100\n"));
    assert!(text.contains("Group #2\n├── best cost: [#2] 115\n├── LogicalInnerJoin [#0, #1]"));
    assert_eq!(display_memo(&memo, &best[..2].to_vec()), Err(OptimizerError::IndexOutOfRange));
}

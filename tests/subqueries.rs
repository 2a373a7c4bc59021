use databend_core::plans::{join_predicate, ComparisonOp, JoinType, LogicalPlan, Scalar, SubqueryExpr, SubqueryType};
use databend_core::subquery::{
    check_child_expr_in_subquery, coerce_count, flattened_value, FlattenInfo, exists_by_count, mark_join_marker, single_join_value, MarkerKind,
    RewriteError, SubqueryRewriter,
};

fn scan(t: u64) -> Box<LogicalPlan> {
    Box::new(LogicalPlan::Get(t))
}

fn subquery(typ: SubqueryType, plan: LogicalPlan) -> SubqueryExpr {
    SubqueryExpr {
        typ,
        subquery: Box::new(plan),
        output_column: 5,
        child_expr: None,
        compare_op: None,
        correlated: false,
        projection_index: None,
    }
}

/// `SELECT .. FROM t1 WHERE false`: a subquery that yields no row.
fn empty_subquery() -> LogicalPlan {
    LogicalPlan::Filter { predicates: vec![Scalar::BoolConstant(false)], input: scan(1) }
}

fn exists_rewrite(typ: SubqueryType, op: ComparisonOp) {
    let plan = LogicalPlan::Filter {
        predicates: vec![Scalar::SubqueryExpr(Box::new(subquery(typ, empty_subquery())))],
        input: scan(0),
    };
    let mut rewriter = SubqueryRewriter::new(10);
    let out = rewriter.rewrite(&plan).unwrap();
    let expected = LogicalPlan::Filter {
        predicates: vec![Scalar::BoolConstant(true)],
        input: Box::new(LogicalPlan::Join {
            join_type: JoinType::Cross,
            left_conditions: vec![],
            right_conditions: vec![],
            other_conditions: vec![],
            marker_index: None,
            left: scan(0),
            right: Box::new(LogicalPlan::Filter {
                predicates: vec![Scalar::ComparisonExpr(
                    op,
                    Box::new(Scalar::BoundColumnRef(10)),
                    Box::new(Scalar::ConstantExpr(1)),
                )],
                input: Box::new(LogicalPlan::Aggregate {
                    group_items: vec![],
                    aggregate_functions: vec![Scalar::AggregateFunction(10)],
                    input: Box::new(LogicalPlan::Limit { limit: Some(1), input: Box::new(empty_subquery()) }),
                }),
            }),
        }),
    };
    assert_eq!(out, expected);
    assert_eq!(rewriter.next_column, 11);
}

#[test]
fn exists_becomes_count_equals_one_over_limit_one() {
    exists_rewrite(SubqueryType::Exists, ComparisonOp::Equal);
}

#[test]
fn not_exists_becomes_count_not_equal_one() {
    exists_rewrite(SubqueryType::NotExists, ComparisonOp::NotEqual);
}

#[test]
fn exists_over_empty_subquery() {
    // COUNT(*) over the empty subquery limited to one row is 0.
    assert!(!exists_by_count(0, false));
    assert!(exists_by_count(0, true));
}

#[test]
fn exists_over_non_empty_subquery() {
    assert!(exists_by_count(1, false));
    assert!(exists_by_count(1000, false));
    assert!(!exists_by_count(1000, true));
}

#[test]
fn scalar_subquery_becomes_single_join() {
    let plan = LogicalPlan::EvalScalar {
        items: vec![Scalar::SubqueryExpr(Box::new(subquery(SubqueryType::Scalar, LogicalPlan::Get(1))))],
        input: scan(0),
    };
    let mut rewriter = SubqueryRewriter::new(10);
    let out = rewriter.rewrite(&plan).unwrap();
    let expected = LogicalPlan::EvalScalar {
        items: vec![Scalar::BoundColumnRef(5)],
        input: Box::new(LogicalPlan::Join {
            join_type: JoinType::Single,
            left_conditions: vec![],
            right_conditions: vec![],
            other_conditions: vec![],
            marker_index: None,
            left: scan(0),
            right: scan(1),
        }),
    };
    assert_eq!(out, expected);
    assert_eq!(rewriter.next_column, 10);
}

fn any_subquery(child: Scalar, op: ComparisonOp) -> LogicalPlan {
    let mut sq = subquery(SubqueryType::Any, LogicalPlan::Get(1));
    sq.child_expr = Some(Box::new(child));
    sq.compare_op = Some(op);
    LogicalPlan::EvalScalar { items: vec![Scalar::SubqueryExpr(Box::new(sq))], input: scan(0) }
}

#[test]
fn any_with_equality_becomes_mark_join_on_keys() {
    let mut rewriter = SubqueryRewriter::new(20);
    let out = rewriter.rewrite(&any_subquery(Scalar::BoundColumnRef(2), ComparisonOp::Equal)).unwrap();
    let expected = LogicalPlan::EvalScalar {
        items: vec![Scalar::BoundColumnRef(20)],
        input: Box::new(LogicalPlan::Join {
            join_type: JoinType::LeftMark,
            left_conditions: vec![Scalar::BoundColumnRef(5)],
            right_conditions: vec![Scalar::BoundColumnRef(2)],
            other_conditions: vec![],
            marker_index: Some(20),
            left: scan(1),
            right: scan(0),
        }),
    };
    assert_eq!(out, expected);
}

#[test]
fn any_with_other_comparison_becomes_other_condition() {
    let mut rewriter = SubqueryRewriter::new(20);
    let out = rewriter.rewrite(&any_subquery(Scalar::BoundColumnRef(2), ComparisonOp::LT)).unwrap();
    match out {
        LogicalPlan::EvalScalar { input, .. } => match *input {
            LogicalPlan::Join { join_type, left_conditions, other_conditions, .. } => {
                assert_eq!(join_type, JoinType::LeftMark);
                assert!(left_conditions.is_empty());
                assert_eq!(
                    other_conditions,
                    vec![Scalar::ComparisonExpr(
                        ComparisonOp::LT,
                        Box::new(Scalar::BoundColumnRef(2)),
                        Box::new(Scalar::BoundColumnRef(5)),
                    )]
                );
            },
            _ => panic!("expected a join"),
        },
        _ => panic!("expected a projection"),
    }
}

#[test]
fn unsupported_subqueries_are_errors() {
    let mut rewriter = SubqueryRewriter::new(0);
    assert_eq!(
        rewriter.rewrite(&any_subquery(Scalar::AggregateFunction(1), ComparisonOp::Equal)),
        Err(RewriteError::InvalidChildExpr)
    );
    let mut correlated = subquery(SubqueryType::Exists, LogicalPlan::Get(1));
    correlated.correlated = true;
    let plan = LogicalPlan::Filter { predicates: vec![Scalar::SubqueryExpr(Box::new(correlated))], input: scan(0) };
    assert_eq!(rewriter.rewrite(&plan), Err(RewriteError::NotImplemented));
    let all = subquery(SubqueryType::All, LogicalPlan::Get(1));
    let plan = LogicalPlan::Filter { predicates: vec![Scalar::SubqueryExpr(Box::new(all))], input: scan(0) };
    assert_eq!(rewriter.rewrite(&plan), Err(RewriteError::NotImplemented));
    let in_join = LogicalPlan::Join {
        join_type: JoinType::Inner,
        left_conditions: vec![Scalar::SubqueryExpr(Box::new(subquery(SubqueryType::Scalar, LogicalPlan::Get(2))))],
        right_conditions: vec![],
        other_conditions: vec![],
        marker_index: None,
        left: scan(0),
        right: scan(1),
    };
    assert_eq!(rewriter.rewrite(&in_join), Err(RewriteError::NotImplemented));
}

#[test]
fn nested_subqueries_are_rewritten_inside_out() {
    let inner = LogicalPlan::Filter {
        predicates: vec![Scalar::SubqueryExpr(Box::new(subquery(SubqueryType::Exists, LogicalPlan::Get(2))))],
        input: scan(1),
    };
    let plan = LogicalPlan::Filter {
        predicates: vec![Scalar::AndExpr(
            Box::new(Scalar::SubqueryExpr(Box::new(subquery(SubqueryType::Exists, inner)))),
            Box::new(Scalar::FunctionCall("not".to_string(), vec![Scalar::BoundColumnRef(1)])),
        )],
        input: scan(0),
    };
    let mut rewriter = SubqueryRewriter::new(30);
    let out = rewriter.rewrite(&plan).unwrap();
    assert_eq!(rewriter.next_column, 32);
    match out {
        LogicalPlan::Filter { predicates, .. } => assert_eq!(
            predicates,
            vec![Scalar::AndExpr(
                Box::new(Scalar::BoolConstant(true)),
                Box::new(Scalar::FunctionCall("not".to_string(), vec![Scalar::BoundColumnRef(1)])),
            )]
        ),
        _ => panic!("expected a filter"),
    }
}

#[test]
fn any_with_null_and_no_match_marks_null() {
    let values = vec![Some(1), None];
    assert_eq!(mark_join_marker(Some(2), &values, ComparisonOp::Equal), MarkerKind::Null);
    assert_eq!(mark_join_marker(Some(1), &values, ComparisonOp::Equal), MarkerKind::True);
}

#[test]
fn any_without_null_is_two_valued() {
    let values = vec![Some(1), Some(3)];
    assert_eq!(mark_join_marker(Some(2), &values, ComparisonOp::Equal), MarkerKind::False);
    assert_eq!(mark_join_marker(Some(2), &values, ComparisonOp::GT), MarkerKind::True);
    assert_eq!(mark_join_marker(Some(2), &values, ComparisonOp::NotEqual), MarkerKind::True);
    assert_eq!(mark_join_marker(Some(5), &values, ComparisonOp::GTE), MarkerKind::True);
    assert_eq!(mark_join_marker(Some(0), &values, ComparisonOp::LTE), MarkerKind::True);
    assert_eq!(mark_join_marker(Some(3), &values, ComparisonOp::LT), MarkerKind::False);
}

#[test]
fn any_with_null_probe_or_empty_subquery() {
    assert_eq!(mark_join_marker(None, &vec![Some(1)], ComparisonOp::Equal), MarkerKind::Null);
    assert_eq!(mark_join_marker(None, &vec![], ComparisonOp::Equal), MarkerKind::False);
    assert_eq!(mark_join_marker(Some(1), &vec![], ComparisonOp::Equal), MarkerKind::False);
}

#[test]
fn child_expression_shapes() {
    assert_eq!(check_child_expr_in_subquery(&Scalar::BoundColumnRef(1), ComparisonOp::Equal), Ok(false));
    assert_eq!(check_child_expr_in_subquery(&Scalar::BoundColumnRef(1), ComparisonOp::LT), Ok(true));
    assert_eq!(check_child_expr_in_subquery(&Scalar::ConstantExpr(3), ComparisonOp::Equal), Ok(true));
    let cast = Scalar::CastExpr(Box::new(Scalar::BoundColumnRef(2)));
    assert_eq!(check_child_expr_in_subquery(&cast, ComparisonOp::Equal), Ok(false));
    let bad = Scalar::CastExpr(Box::new(Scalar::AggregateFunction(0)));
    assert_eq!(check_child_expr_in_subquery(&bad, ComparisonOp::Equal), Err(RewriteError::InvalidChildExpr));
}

#[test]
fn count_over_empty_group_reads_zero() {
    assert_eq!(coerce_count(None), 0);
    assert_eq!(coerce_count(Some(7)), 7);
}

#[test]
fn scalar_subquery_yields_at_most_one_row() {
    assert_eq!(single_join_value(&vec![]), Ok(None));
    assert_eq!(single_join_value(&vec![9]), Ok(Some(9)));
    assert_eq!(single_join_value(&vec![9, 10]), Err(RewriteError::MoreThanOneRow));
}

#[test]
fn plans_without_subqueries_are_kept() {
    let make = || LogicalPlan::Sort {
        input: Box::new(LogicalPlan::Join {
            join_type: JoinType::Inner,
            left_conditions: vec![Scalar::BoundColumnRef(1)],
            right_conditions: vec![Scalar::CastExpr(Box::new(Scalar::BoundColumnRef(2)))],
            other_conditions: vec![Scalar::FunctionCall("gt".to_string(), vec![Scalar::ConstantExpr(1), Scalar::BoundColumnRef(3)])],
            marker_index: None,
            left: Box::new(LogicalPlan::Filter {
                predicates: vec![Scalar::OrExpr(Box::new(Scalar::BoolConstant(false)), Box::new(Scalar::BoundColumnRef(4)))],
                input: scan(0),
            }),
            right: Box::new(LogicalPlan::Limit { limit: Some(3), input: Box::new(LogicalPlan::DummyTableScan) }),
        }),
    };
    let mut rewriter = SubqueryRewriter::new(0);
    assert_eq!(rewriter.rewrite(&make()), Ok(make()));
    assert_eq!(rewriter.next_column, 0);
}

#[test]
fn other_conditions_fold_into_one_conjunction() {
    assert_eq!(join_predicate(vec![]), None);
    assert_eq!(join_predicate(vec![Scalar::BoundColumnRef(1)]), Some(Scalar::BoundColumnRef(1)));
    assert_eq!(
        join_predicate(vec![Scalar::BoundColumnRef(1), Scalar::BoundColumnRef(2), Scalar::BoolConstant(true)]),
        Some(Scalar::AndExpr(
            Box::new(Scalar::AndExpr(Box::new(Scalar::BoundColumnRef(1)), Box::new(Scalar::BoundColumnRef(2)))),
            Box::new(Scalar::BoolConstant(true)),
        ))
    );
}

#[test]
fn flattened_count_reads_zero_for_no_group() {
    let count = FlattenInfo { from_count_func: true };
    let other = FlattenInfo { from_count_func: false };
    assert_eq!(flattened_value(count, None), Some(0));
    assert_eq!(flattened_value(count, Some(4)), Some(4));
    assert_eq!(flattened_value(other, None), None);
    assert_eq!(flattened_value(other, Some(4)), Some(4));
}

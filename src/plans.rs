use vstd::prelude::*;

verus! {

#[derive(Clone, Copy, Eq, PartialEq, Debug, Structural)]
pub enum ComparisonOp {
    Equal,
    NotEqual,
    GT,
    LT,
    GTE,
    LTE,
}

#[derive(Clone, Copy, Eq, PartialEq, Debug, Structural)]
pub enum SubqueryType {
    Any,
    All,
    Scalar,
    Exists,
    NotExists,
}

#[derive(Clone, Copy, Eq, PartialEq, Debug, Structural)]
pub enum JoinType {
    Inner,
    Cross,
    /// At most one row from the right side, NULL when there is none.
    Single,
    /// Every row of the left side, with a marker column for whether it matched.
    LeftMark,
}

/// A bound scalar expression.
#[derive(Debug, PartialEq, Eq)]
pub enum Scalar {
    BoundColumnRef(usize),
    ConstantExpr(i64),
    BoolConstant(bool),
    AndExpr(Box<Scalar>, Box<Scalar>),
    OrExpr(Box<Scalar>, Box<Scalar>),
    ComparisonExpr(ComparisonOp, Box<Scalar>, Box<Scalar>),
    /// An aggregate whose result is the column with this index.
    AggregateFunction(usize),
    FunctionCall(String, Vec<Scalar>),
    CastExpr(Box<Scalar>),
    SubqueryExpr(Box<SubqueryExpr>),
}

/// A subquery used as a scalar expression.
#[derive(Debug, PartialEq, Eq)]
pub struct SubqueryExpr {
    pub typ: SubqueryType,
    pub subquery: Box<LogicalPlan>,
    /// The column the subquery produces.
    pub output_column: usize,
    /// For ANY: the expression compared with the subquery's column, and the comparison.
    pub child_expr: Option<Box<Scalar>>,
    pub compare_op: Option<ComparisonOp>,
    /// Whether the subquery refers to columns of the outer query.
    pub correlated: bool,
    /// A column already reserved for the marker of a mark join.
    pub projection_index: Option<usize>,
}

/// A bound logical plan tree.
#[derive(Debug, PartialEq, Eq)]
pub enum LogicalPlan {
    Get(u64),
    DummyTableScan,
    EvalScalar { items: Vec<Scalar>, input: Box<LogicalPlan> },
    Filter { predicates: Vec<Scalar>, input: Box<LogicalPlan> },
    Aggregate { group_items: Vec<Scalar>, aggregate_functions: Vec<Scalar>, input: Box<LogicalPlan> },
    Join {
        join_type: JoinType,
        left_conditions: Vec<Scalar>,
        right_conditions: Vec<Scalar>,
        other_conditions: Vec<Scalar>,
        marker_index: Option<usize>,
        left: Box<LogicalPlan>,
        right: Box<LogicalPlan>,
    },
    UnionAll { left: Box<LogicalPlan>, right: Box<LogicalPlan> },
    Limit { limit: Option<u64>, input: Box<LogicalPlan> },
    Sort { input: Box<LogicalPlan> },
}

/// Whether an expression holds no subquery.
pub open spec fn scalar_free(s: Scalar) -> bool
    decreases s, 0int,
{
    match s {
        Scalar::AndExpr(l, r) => scalar_free(*l) && scalar_free(*r),
        Scalar::OrExpr(l, r) => scalar_free(*l) && scalar_free(*r),
        Scalar::ComparisonExpr(_, l, r) => scalar_free(*l) && scalar_free(*r),
        Scalar::FunctionCall(_, args) => prefix_free(args@, args@.len() as int),
        Scalar::CastExpr(a) => scalar_free(*a),
        Scalar::SubqueryExpr(_) => false,
        _ => true,
    }
}

/// Whether the first `n` expressions hold no subquery.
pub open spec fn prefix_free(v: Seq<Scalar>, n: int) -> bool
    decreases v, n,
{
    if n <= 0 || n > v.len() {
        true
    } else {
        prefix_free(v, n - 1) && scalar_free(v[n - 1])
    }
}

pub open spec fn scalars_free(v: Seq<Scalar>) -> bool {
    forall|i: int| 0 <= i < v.len() ==> #[trigger] scalar_free(v[i])
}

/// Whether a plan holds no subquery in any of its expressions.
pub open spec fn plan_free(p: LogicalPlan) -> bool
    decreases p,
{
    match p {
        LogicalPlan::EvalScalar { items, input } => scalars_free(items@) && plan_free(*input),
        LogicalPlan::Filter { predicates, input } => scalars_free(predicates@) && plan_free(*input),
        LogicalPlan::Aggregate { group_items, aggregate_functions, input } =>
            scalars_free(group_items@) && scalars_free(aggregate_functions@) && plan_free(*input),
        LogicalPlan::Join { left_conditions, right_conditions, other_conditions, left, right, .. } =>
            scalars_free(left_conditions@) && scalars_free(right_conditions@) && scalars_free(other_conditions@)
                && plan_free(*left) && plan_free(*right),
        LogicalPlan::UnionAll { left, right } => plan_free(*left) && plan_free(*right),
        LogicalPlan::Limit { input, .. } => plan_free(*input),
        LogicalPlan::Sort { input } => plan_free(*input),
        _ => true,
    }
}

/// Whether the expression compared with an ANY subquery must become an "other" join
/// condition rather than an equi-condition; `None` where its shape is not supported.
pub open spec fn spec_check_child(child: Scalar, op: ComparisonOp) -> Option<bool>
    decreases child,
{
    match child {
        Scalar::BoundColumnRef(_) => Some(op != ComparisonOp::Equal),
        Scalar::ConstantExpr(_) => Some(true),
        Scalar::BoolConstant(_) => Some(true),
        Scalar::CastExpr(arg) => spec_check_child(*arg, op),
        _ => None,
    }
}

/// Whether a subquery can be turned into a join: it is uncorrelated, not an ALL, and an
/// ANY names a supported expression and comparison.
pub open spec fn subquery_shape_supported(sq: SubqueryExpr) -> bool {
    &&& !sq.correlated
    &&& sq.typ != SubqueryType::All
    &&& sq.typ == SubqueryType::Any ==> (sq.child_expr matches Some(c) && sq.compare_op matches Some(op)
        && spec_check_child(*c, op) is Some)
}

/// Whether every subquery of an expression, nested ones included, can be rewritten.
pub open spec fn scalar_supported(s: Scalar) -> bool
    decreases s, 0int,
{
    match s {
        Scalar::AndExpr(l, r) => scalar_supported(*l) && scalar_supported(*r),
        Scalar::OrExpr(l, r) => scalar_supported(*l) && scalar_supported(*r),
        Scalar::ComparisonExpr(_, l, r) => scalar_supported(*l) && scalar_supported(*r),
        Scalar::FunctionCall(_, args) => prefix_supported(args@, args@.len() as int),
        Scalar::CastExpr(a) => scalar_supported(*a),
        Scalar::SubqueryExpr(sq) => plan_supported(*sq.subquery) && subquery_shape_supported(*sq),
        _ => true,
    }
}

/// Whether the subqueries of the first `n` expressions can be rewritten.
pub open spec fn prefix_supported(v: Seq<Scalar>, n: int) -> bool
    decreases v, n,
{
    if n <= 0 || n > v.len() {
        true
    } else {
        prefix_supported(v, n - 1) && scalar_supported(v[n - 1])
    }
}

pub open spec fn scalars_supported(v: Seq<Scalar>) -> bool {
    forall|i: int| 0 <= i < v.len() ==> #[trigger] scalar_supported(v[i])
}

/// Whether every subquery of a plan can be rewritten; join conditions, which the rewrite
/// leaves as they are, must hold none.
pub open spec fn plan_supported(p: LogicalPlan) -> bool
    decreases p, 0int,
{
    match p {
        LogicalPlan::EvalScalar { items, input } => prefix_supported(items@, items@.len() as int) && plan_supported(*input),
        LogicalPlan::Filter { predicates, input } =>
            prefix_supported(predicates@, predicates@.len() as int) && plan_supported(*input),
        LogicalPlan::Aggregate { group_items, aggregate_functions, input } =>
            prefix_supported(group_items@, group_items@.len() as int)
                && prefix_supported(aggregate_functions@, aggregate_functions@.len() as int) && plan_supported(*input),
        LogicalPlan::Join { left_conditions, right_conditions, other_conditions, left, right, .. } =>
            scalars_free(left_conditions@) && scalars_free(right_conditions@) && scalars_free(other_conditions@)
                && plan_supported(*left) && plan_supported(*right),
        LogicalPlan::UnionAll { left, right } => plan_supported(*left) && plan_supported(*right),
        LogicalPlan::Limit { input, .. } => plan_supported(*input),
        LogicalPlan::Sort { input } => plan_supported(*input),
        _ => true,
    }
}

pub proof fn lemma_prefix_free(v: Seq<Scalar>, n: int)
    requires
        0 <= n <= v.len(),
    ensures
        prefix_free(v, n) <==> forall|i: int| 0 <= i < n ==> #[trigger] scalar_free(v[i]),
    decreases n,
{
    if n > 0 {
        lemma_prefix_free(v, n - 1);
        assert(prefix_free(v, n) == (prefix_free(v, n - 1) && scalar_free(v[n - 1])));
        if forall|i: int| 0 <= i < n ==> #[trigger] scalar_free(v[i]) {
            assert(scalar_free(v[n - 1]));
            assert forall|i: int| 0 <= i < n - 1 implies #[trigger] scalar_free(v[i]) by {}
        }
    }
}

pub proof fn lemma_prefix_supported(v: Seq<Scalar>, n: int)
    requires
        0 <= n <= v.len(),
    ensures
        prefix_supported(v, n) <==> forall|i: int| 0 <= i < n ==> #[trigger] scalar_supported(v[i]),
    decreases n,
{
    if n > 0 {
        lemma_prefix_supported(v, n - 1);
        assert(prefix_supported(v, n) == (prefix_supported(v, n - 1) && scalar_supported(v[n - 1])));
        if forall|i: int| 0 <= i < n ==> #[trigger] scalar_supported(v[i]) {
            assert(scalar_supported(v[n - 1]));
            assert forall|i: int| 0 <= i < n - 1 implies #[trigger] scalar_supported(v[i]) by {}
        }
    }
}

/// Structural equality of expressions, argument lists compared element by element.
pub open spec fn same_scalar(a: Scalar, b: Scalar) -> bool
    decreases a, 0int,
{
    match a {
        Scalar::AndExpr(l, r) => b matches Scalar::AndExpr(l2, r2) && same_scalar(*l, *l2) && same_scalar(*r, *r2),
        Scalar::OrExpr(l, r) => b matches Scalar::OrExpr(l2, r2) && same_scalar(*l, *l2) && same_scalar(*r, *r2),
        Scalar::ComparisonExpr(op, l, r) => b matches Scalar::ComparisonExpr(op2, l2, r2) && op == op2
            && same_scalar(*l, *l2) && same_scalar(*r, *r2),
        Scalar::FunctionCall(name, args) => b matches Scalar::FunctionCall(name2, args2) && name == name2
            && args@.len() == args2@.len() && same_prefix(args@, args2@, args@.len() as int),
        Scalar::CastExpr(x) => b matches Scalar::CastExpr(y) && same_scalar(*x, *y),
        _ => a == b,
    }
}

/// Whether the first `n` expressions of `v` and `w` are the same.
pub open spec fn same_prefix(v: Seq<Scalar>, w: Seq<Scalar>, n: int) -> bool
    decreases v, n,
{
    if n <= 0 || n > v.len() {
        true
    } else {
        same_prefix(v, w, n - 1) && n <= w.len() && same_scalar(v[n - 1], w[n - 1])
    }
}

pub open spec fn same_scalars(v: Seq<Scalar>, w: Seq<Scalar>) -> bool {
    v.len() == w.len() && same_prefix(v, w, v.len() as int)
}

/// Structural equality of plans.
pub open spec fn same_plan(a: LogicalPlan, b: LogicalPlan) -> bool
    decreases a,
{
    match a {
        LogicalPlan::EvalScalar { items, input } => b matches LogicalPlan::EvalScalar { items: i2, input: n2 }
            && same_scalars(items@, i2@) && same_plan(*input, *n2),
        LogicalPlan::Filter { predicates, input } => b matches LogicalPlan::Filter { predicates: p2, input: n2 }
            && same_scalars(predicates@, p2@) && same_plan(*input, *n2),
        LogicalPlan::Aggregate { group_items, aggregate_functions, input } => b matches LogicalPlan::Aggregate {
            group_items: g2, aggregate_functions: f2, input: n2,
        } && same_scalars(group_items@, g2@) && same_scalars(aggregate_functions@, f2@) && same_plan(*input, *n2),
        LogicalPlan::Join { join_type, left_conditions, right_conditions, other_conditions, marker_index, left, right } =>
            b matches LogicalPlan::Join {
                join_type: t2, left_conditions: l2, right_conditions: r2, other_conditions: o2, marker_index: m2,
                left: a2, right: b2,
            } && join_type == t2 && marker_index == m2 && same_scalars(left_conditions@, l2@)
                && same_scalars(right_conditions@, r2@) && same_scalars(other_conditions@, o2@)
                && same_plan(*left, *a2) && same_plan(*right, *b2),
        LogicalPlan::UnionAll { left, right } => b matches LogicalPlan::UnionAll { left: a2, right: b2 }
            && same_plan(*left, *a2) && same_plan(*right, *b2),
        LogicalPlan::Limit { limit, input } => b matches LogicalPlan::Limit { limit: l2, input: n2 }
            && limit == l2 && same_plan(*input, *n2),
        LogicalPlan::Sort { input } => b matches LogicalPlan::Sort { input: n2 } && same_plan(*input, *n2),
        _ => a == b,
    }
}

pub proof fn lemma_same_prefix_push(v: Seq<Scalar>, x: Scalar, w: Seq<Scalar>, n: int)
    requires
        0 <= n <= v.len(),
    ensures
        same_prefix(v.push(x), w, n) == same_prefix(v, w, n),
    decreases n,
{
    if n > 0 {
        lemma_same_prefix_push(v, x, w, n - 1);
        assert(v.push(x)[n - 1] == v[n - 1]);
    }
}

/// An expression without subqueries has nothing the rewrite could refuse.
pub proof fn lemma_free_scalar_supported(s: Scalar)
    requires
        scalar_free(s),
    ensures
        scalar_supported(s),
    decreases s, 0int,
{
    match s {
        Scalar::AndExpr(l, r) => {
            lemma_free_scalar_supported(*l);
            lemma_free_scalar_supported(*r);
        },
        Scalar::OrExpr(l, r) => {
            lemma_free_scalar_supported(*l);
            lemma_free_scalar_supported(*r);
        },
        Scalar::ComparisonExpr(_, l, r) => {
            lemma_free_scalar_supported(*l);
            lemma_free_scalar_supported(*r);
        },
        Scalar::FunctionCall(_, args) => {
            lemma_free_prefix_supported(args@, args@.len() as int);
        },
        Scalar::CastExpr(a) => {
            lemma_free_scalar_supported(*a);
        },
        _ => {},
    }
}

proof fn lemma_free_prefix_supported(v: Seq<Scalar>, n: int)
    requires
        0 <= n <= v.len(),
        prefix_free(v, n),
    ensures
        prefix_supported(v, n),
    decreases v, n,
{
    if n > 0 {
        lemma_free_prefix_supported(v, n - 1);
        lemma_free_scalar_supported(v[n - 1]);
    }
}

/// The conjunction of conditions, folded from the left.
pub open spec fn and_all(v: Seq<Scalar>) -> Scalar
    recommends
        v.len() > 0,
    decreases v.len(),
{
    if v.len() <= 1 {
        v[0]
    } else {
        Scalar::AndExpr(Box::new(and_all(v.drop_last())), Box::new(v.last()))
    }
}

/// The single predicate a hash join checks besides its keys: the conjunction of its other
/// conditions, or none when there are none.
pub fn join_predicate(other_conditions: Vec<Scalar>) -> (r: Option<Scalar>)
    ensures
        other_conditions@.len() == 0 ==> r is None,
        other_conditions@.len() > 0 ==> r == Some(and_all(other_conditions@)),
{
    let ghost all = other_conditions@;
    let n = other_conditions.len();
    let mut rest = other_conditions;
    if rest.len() == 0 {
        return None;
    }
    let mut condition = rest.remove(0);
    let mut i: usize = 1;
    assert(all.subrange(0, 1) =~= seq![all[0]]);
    while rest.len() > 0
        invariant
            1 <= i <= all.len(),
            all.len() == n,
            rest@ == all.subrange(i as int, all.len() as int),
            condition == and_all(all.subrange(0, i as int)),
        decreases rest@.len(),
    {
        let next = rest.remove(0);
        proof {
            let sub = all.subrange(0, i as int + 1);
            assert(sub.drop_last() =~= all.subrange(0, i as int));
            assert(sub.last() == next);
        }
        condition = Scalar::AndExpr(Box::new(condition), Box::new(next));
        i += 1;
        assert(rest@ =~= all.subrange(i as int, all.len() as int));
    }
    assert(all.subrange(0, all.len() as int) =~= all);
    Some(condition)
}

} // verus!

use vstd::prelude::*;

use crate::plans::{
    lemma_free_scalar_supported, lemma_prefix_free, lemma_prefix_supported, lemma_same_prefix_push, plan_free,
    plan_supported, same_plan, same_prefix, same_scalar, same_scalars, scalar_free, scalar_supported, scalars_free,
    scalars_supported, spec_check_child, subquery_shape_supported, ComparisonOp, JoinType, LogicalPlan, Scalar,
    SubqueryExpr, SubqueryType,
};

verus! {

/// The tri-state value of a mark join's marker column.
#[derive(Clone, Copy, Eq, PartialEq, Debug, Hash, Structural)]
pub enum MarkerKind {
    True,
    False,
    Null,
}

/// How a subquery was turned into a join.
#[derive(Clone, Copy, Eq, PartialEq, Debug, Structural)]
pub enum UnnestResult {
    /// Semi, anti or cross join, for EXISTS.
    SimpleJoin,
    MarkJoin { marker_index: usize },
    SingleJoin,
}

/// Whether a flattened subquery came from a `COUNT` aggregate, whose NULL over an empty
/// group must read as zero after the join.
#[derive(Clone, Copy, Eq, PartialEq, Debug, Structural)]
pub struct FlattenInfo {
    pub from_count_func: bool,
}

#[derive(Clone, Copy, Eq, PartialEq, Debug, Structural)]
pub enum RewriteError {
    /// The expression compared with an ANY subquery has an unsupported shape.
    InvalidChildExpr,
    /// A scalar subquery produced more than one row.
    MoreThanOneRow,
    /// A subquery shape the rewrite does not handle: a correlated subquery, ALL, an ANY
    /// without its comparison, or a subquery inside a join condition.
    NotImplemented,
}

/// The join an uncorrelated subquery becomes: a single join for a scalar subquery, a cross
/// join over `COUNT(*)` for EXISTS and NOT EXISTS, a mark join for ANY.
pub open spec fn spec_unnest(typ: SubqueryType, marker_index: usize) -> UnnestResult {
    match typ {
        SubqueryType::Scalar => UnnestResult::SingleJoin,
        SubqueryType::Any => UnnestResult::MarkJoin { marker_index },
        _ => UnnestResult::SimpleJoin,
    }
}

pub fn check_child_expr_in_subquery(child_expr: &Scalar, op: ComparisonOp) -> (r: Result<bool, RewriteError>)
    ensures
        spec_check_child(*child_expr, op) matches Some(b) ==> r == Ok::<bool, RewriteError>(b),
        spec_check_child(*child_expr, op) is None ==> r == Err::<bool, RewriteError>(RewriteError::InvalidChildExpr),
    decreases child_expr,
{
    match child_expr {
        Scalar::BoundColumnRef(_) => Ok(op != ComparisonOp::Equal),
        Scalar::ConstantExpr(_) => Ok(true),
        Scalar::BoolConstant(_) => Ok(true),
        Scalar::CastExpr(arg) => check_child_expr_in_subquery(arg, op),
        _ => Err(RewriteError::InvalidChildExpr),
    }
}

proof fn lemma_checked_child_is_free(c: Scalar, op: ComparisonOp)
    requires
        spec_check_child(c, op) is Some,
    ensures
        scalar_free(c),
    decreases c,
{
    if let Scalar::CastExpr(a) = c {
        lemma_checked_child_is_free(*a, op);
    }
}

/// A copy of an expression, or `None` when it holds a subquery.
pub fn copy_free_scalar(s: &Scalar) -> (r: Option<Scalar>)
    ensures
        r is Some <==> scalar_free(*s),
        r matches Some(c) ==> scalar_free(c) && same_scalar(c, *s),
    decreases s,
{
    match s {
        Scalar::BoundColumnRef(i) => Some(Scalar::BoundColumnRef(*i)),
        Scalar::ConstantExpr(v) => Some(Scalar::ConstantExpr(*v)),
        Scalar::BoolConstant(b) => Some(Scalar::BoolConstant(*b)),
        Scalar::AndExpr(l, r) => {
            let l2 = copy_free_scalar(l)?;
            let r2 = copy_free_scalar(r)?;
            Some(Scalar::AndExpr(Box::new(l2), Box::new(r2)))
        },
        Scalar::OrExpr(l, r) => {
            let l2 = copy_free_scalar(l)?;
            let r2 = copy_free_scalar(r)?;
            Some(Scalar::OrExpr(Box::new(l2), Box::new(r2)))
        },
        Scalar::ComparisonExpr(op, l, r) => {
            let l2 = copy_free_scalar(l)?;
            let r2 = copy_free_scalar(r)?;
            Some(Scalar::ComparisonExpr(*op, Box::new(l2), Box::new(r2)))
        },
        Scalar::AggregateFunction(i) => Some(Scalar::AggregateFunction(*i)),
        Scalar::FunctionCall(name, args) => {
            proof {
                assert(decreases_to!(*s => (*s)->FunctionCall_1));
                lemma_prefix_free(args@, args@.len() as int);
            }
            let args2 = copy_free_scalars(args)?;
            proof {
                lemma_prefix_free(args2@, args2@.len() as int);
            }
            Some(Scalar::FunctionCall(name.clone(), args2))
        },
        Scalar::CastExpr(a) => {
            let a2 = copy_free_scalar(a)?;
            Some(Scalar::CastExpr(Box::new(a2)))
        },
        Scalar::SubqueryExpr(_) => None,
    }
}

/// Copies of expressions, or `None` when one holds a subquery.
pub fn copy_free_scalars(v: &Vec<Scalar>) -> (r: Option<Vec<Scalar>>)
    ensures
        r is Some <==> scalars_free(v@),
        r matches Some(c) ==> scalars_free(c@) && same_scalars(c@, v@),
    decreases v,
{
    let mut out: Vec<Scalar> = Vec::new();
    let mut i: usize = 0;
    while i < v.len()
        invariant
            i <= v@.len(),
            out@.len() == i,
            scalars_free(out@),
            same_prefix(out@, v@, i as int),
            forall|k: int| 0 <= k < i ==> #[trigger] scalar_free(v@[k]),
        decreases v@.len() - i,
    {
        proof {
            vstd::std_specs::vec::axiom_vec_index_decreases(*v, i as int);
        }
        let c = copy_free_scalar(&v[i]);
        match c {
            Some(c) => {
                proof {
                    lemma_same_prefix_push(out@, c, v@, i as int);
                }
                out.push(c);
            },
            None => {
                return None;
            },
        }
        i += 1;
    }
    Some(out)
}

/// Whether `p` is the join that an uncorrelated subquery `sq` becomes over `outer`, with
/// `inner` its rewritten plan and `col` the next free column: a single join for a scalar
/// subquery; for EXISTS (NOT EXISTS) a cross join with `COUNT(*) = 1` (`!= 1`), counted into
/// column `col`, over `inner` limited to one row; for ANY a mark join with `inner` as probe
/// side, on the keys when the comparison is an equality of columns and as an "other"
/// condition otherwise, marking into the reserved column or else `col`.
pub open spec fn is_unnest_join(p: LogicalPlan, outer: LogicalPlan, inner: LogicalPlan, sq: SubqueryExpr, col: usize) -> bool {
    match sq.typ {
        SubqueryType::Scalar => p matches LogicalPlan::Join {
            join_type, left_conditions, right_conditions, other_conditions, marker_index, left, right,
        } && join_type == JoinType::Single && left_conditions@.len() == 0 && right_conditions@.len() == 0
            && other_conditions@.len() == 0 && marker_index is None && *left == outer && *right == inner,
        SubqueryType::Exists | SubqueryType::NotExists => {
            let op = if sq.typ == SubqueryType::Exists { ComparisonOp::Equal } else { ComparisonOp::NotEqual };
            p matches LogicalPlan::Join {
                join_type, left_conditions, right_conditions, other_conditions, marker_index, left, right,
            } && join_type == JoinType::Cross && left_conditions@.len() == 0 && right_conditions@.len() == 0
                && other_conditions@.len() == 0 && marker_index is None && *left == outer
                && (*right matches LogicalPlan::Filter { predicates, input: agg }
                && predicates@ == seq![Scalar::ComparisonExpr(op, Box::new(Scalar::BoundColumnRef(col)), Box::new(Scalar::ConstantExpr(1)))]
                && (*agg matches LogicalPlan::Aggregate { group_items, aggregate_functions, input: limited }
                && group_items@.len() == 0 && aggregate_functions@ == seq![Scalar::AggregateFunction(col)]
                && *limited == LogicalPlan::Limit { limit: Some(1), input: Box::new(inner) }))
        },
        SubqueryType::Any => p matches LogicalPlan::Join {
            join_type, left_conditions, right_conditions, other_conditions, marker_index, left, right,
        } && join_type == JoinType::LeftMark && *left == inner && *right == outer
            && marker_index == Some(match sq.projection_index { Some(i) => i, None => col })
            && (sq.child_expr matches Some(c) && sq.compare_op matches Some(op) && (
                if spec_check_child(*c, op) == Some(false) {
                    left_conditions@ == seq![Scalar::BoundColumnRef(sq.output_column)]
                        && right_conditions@.len() == 1 && same_scalar(right_conditions@[0], *c)
                        && other_conditions@.len() == 0
                } else {
                    left_conditions@.len() == 0 && right_conditions@.len() == 0 && other_conditions@.len() == 1
                        && (other_conditions@[0] matches Scalar::ComparisonExpr(o, l, r)
                        && o == op && same_scalar(*l, *c) && *r == Scalar::BoundColumnRef(sq.output_column))
                })),
        SubqueryType::All => false,
    }
}

/// The expression that stands in for an uncorrelated subquery once it is a join: TRUE for
/// EXISTS and NOT EXISTS (the join itself filters), the subquery's column for a scalar
/// subquery, the marker column for ANY.
pub open spec fn replacement(sq: SubqueryExpr, col: usize) -> Scalar {
    match sq.typ {
        SubqueryType::Scalar => Scalar::BoundColumnRef(sq.output_column),
        SubqueryType::Any => Scalar::BoundColumnRef(match sq.projection_index { Some(i) => i, None => col }),
        _ => Scalar::BoolConstant(true),
    }
}

/// The plan an uncorrelated subquery's join was built over: the probe side is the
/// subquery for ANY, so the outer plan is then the right child; otherwise the left one.
pub open spec fn outer_of(out: LogicalPlan, sq: SubqueryExpr) -> LogicalPlan {
    match out {
        LogicalPlan::Join { left, right, .. } => if sq.typ == SubqueryType::Any { *right } else { *left },
        _ => out,
    }
}

/// The rewritten subquery plan inside the join that `sq` became.
pub open spec fn inner_of(out: LogicalPlan, sq: SubqueryExpr) -> LogicalPlan {
    match out {
        LogicalPlan::Join { left, right, .. } => match sq.typ {
            SubqueryType::Any => *left,
            SubqueryType::Scalar => *right,
            _ => match *right {
                LogicalPlan::Filter { input, .. } => match *input {
                    LogicalPlan::Aggregate { input: limited, .. } => match *limited {
                        LogicalPlan::Limit { input: i, .. } => *i,
                        _ => out,
                    },
                    _ => out,
                },
                _ => out,
            },
        },
        _ => out,
    }
}

/// The column that the join of `sq` reserved: the count column for EXISTS, the marker
/// column for ANY.
pub open spec fn col_of(out: LogicalPlan, sq: SubqueryExpr) -> usize {
    match out {
        LogicalPlan::Join { right, marker_index, .. } => match sq.typ {
            SubqueryType::Any => match marker_index { Some(m) => m, None => 0 },
            SubqueryType::Exists | SubqueryType::NotExists => match *right {
                LogicalPlan::Filter { input, .. } => match *input {
                    LogicalPlan::Aggregate { aggregate_functions, .. } =>
                        if aggregate_functions@.len() > 0 && aggregate_functions@[0] is AggregateFunction {
                            aggregate_functions@[0]->AggregateFunction_0
                        } else { 0 },
                    _ => 0,
                },
                _ => 0,
            },
            _ => 0,
        },
        _ => 0,
    }
}

/// The plan that rewriting `s` started from, given the plan `out` it ended with: each
/// subquery of `s` added one join on top, which is peeled off, last operand first.
pub open spec fn peel(s: Scalar, out: LogicalPlan) -> LogicalPlan
    decreases s, 0int,
{
    match s {
        Scalar::AndExpr(l, r) => peel(*l, peel(*r, out)),
        Scalar::OrExpr(l, r) => peel(*l, peel(*r, out)),
        Scalar::ComparisonExpr(_, l, r) => peel(*l, peel(*r, out)),
        Scalar::FunctionCall(_, args) => peel_prefix(args@, out, args@.len() as int),
        Scalar::CastExpr(a) => peel(*a, out),
        Scalar::SubqueryExpr(sq) => outer_of(out, *sq),
        _ => out,
    }
}

pub open spec fn peel_prefix(v: Seq<Scalar>, out: LogicalPlan, n: int) -> LogicalPlan
    decreases v, n,
{
    if n <= 0 || n > v.len() {
        out
    } else {
        peel_prefix(v, peel(v[n - 1], out), n - 1)
    }
}

/// Whether the rewrite turns expression `s` over plan `inp` into `t` over plan `out`: every
/// subquery, innermost first, becomes `replacement` over its join with the plan built so far
/// (`is_unnest_join`, whose inner side is the rewrite of the subquery's own plan); operands
/// are rewritten left to right, each over the plan the previous one produced; every other
/// part is kept.
pub open spec fn rewritten_scalar(s: Scalar, inp: LogicalPlan, t: Scalar, out: LogicalPlan) -> bool
    decreases s, 0int,
{
    match s {
        Scalar::AndExpr(l, r) => t matches Scalar::AndExpr(l2, r2)
            && rewritten_scalar(*l, inp, *l2, peel(*r, out)) && rewritten_scalar(*r, peel(*r, out), *r2, out),
        Scalar::OrExpr(l, r) => t matches Scalar::OrExpr(l2, r2)
            && rewritten_scalar(*l, inp, *l2, peel(*r, out)) && rewritten_scalar(*r, peel(*r, out), *r2, out),
        Scalar::ComparisonExpr(op, l, r) => t matches Scalar::ComparisonExpr(op2, l2, r2) && op2 == op
            && rewritten_scalar(*l, inp, *l2, peel(*r, out)) && rewritten_scalar(*r, peel(*r, out), *r2, out),
        Scalar::FunctionCall(name, args) => t matches Scalar::FunctionCall(name2, args2) && name2 == name
            && args2@.len() == args@.len() && rewritten_prefix(args@, args2@, inp, out, args@.len() as int),
        Scalar::CastExpr(a) => t matches Scalar::CastExpr(a2) && rewritten_scalar(*a, inp, *a2, out),
        Scalar::SubqueryExpr(sq) => rewritten_plan(*sq.subquery, inner_of(out, *sq))
            && is_unnest_join(out, inp, inner_of(out, *sq), *sq, col_of(out, *sq))
            && t == replacement(*sq, col_of(out, *sq)),
        _ => t == s && out == inp,
    }
}

/// `rewritten_scalar` over the first `n` expressions of `v`, threading the plan through.
pub open spec fn rewritten_prefix(v: Seq<Scalar>, w: Seq<Scalar>, inp: LogicalPlan, out: LogicalPlan, n: int) -> bool
    decreases v, n,
{
    if n <= 0 || n > v.len() {
        out == inp
    } else {
        rewritten_prefix(v, w, inp, peel(v[n - 1], out), n - 1) && n <= w.len()
            && rewritten_scalar(v[n - 1], peel(v[n - 1], out), w[n - 1], out)
    }
}

/// Whether the rewrite turns plan `p` into `q`: the operator tree is kept, inputs first;
/// the expressions of projections, filters and aggregates are rewritten in order over the
/// rewritten input, and join conditions and leaves are kept.
pub open spec fn rewritten_plan(p: LogicalPlan, q: LogicalPlan) -> bool
    decreases p, 0int,
{
    match p {
        LogicalPlan::EvalScalar { items, input } => q matches LogicalPlan::EvalScalar { items: i2, input: n2 }
            && i2@.len() == items@.len()
            && rewritten_plan(*input, peel_prefix(items@, *n2, items@.len() as int))
            && rewritten_prefix(items@, i2@, peel_prefix(items@, *n2, items@.len() as int), *n2, items@.len() as int),
        LogicalPlan::Filter { predicates, input } => q matches LogicalPlan::Filter { predicates: p2, input: n2 }
            && p2@.len() == predicates@.len()
            && rewritten_plan(*input, peel_prefix(predicates@, *n2, predicates@.len() as int))
            && rewritten_prefix(predicates@, p2@, peel_prefix(predicates@, *n2, predicates@.len() as int), *n2, predicates@.len() as int),
        LogicalPlan::Aggregate { group_items, aggregate_functions, input } => q matches LogicalPlan::Aggregate {
            group_items: g2, aggregate_functions: f2, input: n2,
        } && g2@.len() == group_items@.len() && f2@.len() == aggregate_functions@.len() && {
            let d = peel_prefix(aggregate_functions@, *n2, aggregate_functions@.len() as int);
            let c = peel_prefix(group_items@, d, group_items@.len() as int);
            rewritten_plan(*input, c) && rewritten_prefix(group_items@, g2@, c, d, group_items@.len() as int)
                && rewritten_prefix(aggregate_functions@, f2@, d, *n2, aggregate_functions@.len() as int)
        },
        LogicalPlan::Join { join_type, left_conditions, right_conditions, other_conditions, marker_index, left, right } =>
            q matches LogicalPlan::Join {
                join_type: t2, left_conditions: l2, right_conditions: r2, other_conditions: o2, marker_index: m2,
                left: a2, right: b2,
            } && join_type == t2 && marker_index == m2 && same_scalars(l2@, left_conditions@)
                && same_scalars(r2@, right_conditions@) && same_scalars(o2@, other_conditions@)
                && rewritten_plan(*left, *a2) && rewritten_plan(*right, *b2),
        LogicalPlan::UnionAll { left, right } => q matches LogicalPlan::UnionAll { left: a2, right: b2 }
            && rewritten_plan(*left, *a2) && rewritten_plan(*right, *b2),
        LogicalPlan::Limit { limit, input } => q matches LogicalPlan::Limit { limit: l2, input: n2 }
            && limit == l2 && rewritten_plan(*input, *n2),
        LogicalPlan::Sort { input } => q matches LogicalPlan::Sort { input: n2 } && rewritten_plan(*input, *n2),
        _ => q == p,
    }
}

/// A rewritten expression determines the plan it started from.
proof fn lemma_peel(s: Scalar, inp: LogicalPlan, t: Scalar, out: LogicalPlan)
    requires
        rewritten_scalar(s, inp, t, out),
    ensures
        peel(s, out) == inp,
    decreases s, 0int,
{
    match s {
        Scalar::AndExpr(l, r) => {
            let (l2, r2) = match t { Scalar::AndExpr(a, b) => (*a, *b), _ => (t, t) };
            lemma_peel(*r, peel(*r, out), r2, out);
            lemma_peel(*l, inp, l2, peel(*r, out));
        },
        Scalar::OrExpr(l, r) => {
            let (l2, r2) = match t { Scalar::OrExpr(a, b) => (*a, *b), _ => (t, t) };
            lemma_peel(*l, inp, l2, peel(*r, out));
        },
        Scalar::ComparisonExpr(_, l, r) => {
            let (l2, r2) = match t { Scalar::ComparisonExpr(_, a, b) => (*a, *b), _ => (t, t) };
            lemma_peel(*l, inp, l2, peel(*r, out));
        },
        Scalar::FunctionCall(_, args) => {
            let args2 = match t { Scalar::FunctionCall(_, a) => a@, _ => Seq::empty() };
            lemma_peel_prefix(args@, args2, inp, out, args@.len() as int);
        },
        Scalar::CastExpr(a) => {
            let a2 = match t { Scalar::CastExpr(x) => *x, _ => t };
            lemma_peel(*a, inp, a2, out);
        },
        Scalar::SubqueryExpr(sq) => {},
        _ => {},
    }
}

proof fn lemma_peel_prefix(v: Seq<Scalar>, w: Seq<Scalar>, inp: LogicalPlan, out: LogicalPlan, n: int)
    requires
        rewritten_prefix(v, w, inp, out, n),
    ensures
        peel_prefix(v, out, n) == inp,
    decreases v, n,
{
    if n > 0 && n <= v.len() {
        lemma_peel(v[n - 1], peel(v[n - 1], out), w[n - 1], out);
        lemma_peel_prefix(v, w, inp, peel(v[n - 1], out), n - 1);
    }
}

/// The join built for `sq` determines its inner plan and column.
proof fn lemma_unnest_parts(out: LogicalPlan, inp: LogicalPlan, inner: LogicalPlan, sq: SubqueryExpr, col: usize)
    requires
        is_unnest_join(out, inp, inner, sq, col),
    ensures
        outer_of(out, sq) == inp,
        inner_of(out, sq) == inner,
        is_unnest_join(out, inp, inner, sq, col_of(out, sq)),
        replacement(sq, col_of(out, sq)) == replacement(sq, col),
{
}

/// The column counter after reserving column `c`.
pub open spec fn next_column_after(c: usize) -> usize {
    if c < usize::MAX { (c + 1) as usize } else { c }
}

proof fn lemma_rewritten_prefix_push(v: Seq<Scalar>, w: Seq<Scalar>, x: Scalar, a: LogicalPlan, b: LogicalPlan, n: int)
    requires
        0 <= n <= w.len(),
    ensures
        rewritten_prefix(v, w.push(x), a, b, n) == rewritten_prefix(v, w, a, b, n),
    decreases n,
{
    if n > 0 && n <= v.len() {
        lemma_rewritten_prefix_push(v, w, x, a, peel(v[n - 1], b), n - 1);
        assert(w.push(x)[n - 1] == w[n - 1]);
    }
}

/// Rewrites subqueries of a bound plan into joins.
#[derive(Debug)]
pub struct SubqueryRewriter {
    /// The index the next new column gets.
    pub next_column: usize,
}

impl SubqueryRewriter {
    pub fn new(next_column: usize) -> (r: SubqueryRewriter)
        ensures
            r.next_column == next_column,
    {
        SubqueryRewriter { next_column }
    }

    /// Reserves a new column and returns its index.
    pub fn add_column(&mut self) -> (r: usize)
        ensures
            r == old(self).next_column,
            final(self).next_column == next_column_after(r),
    {
        let c = self.next_column;
        if c < usize::MAX {
            self.next_column = c + 1;
        }
        c
    }

    /// Rewrites every subquery of the plan into a join. Fails exactly when some subquery is
    /// of a shape that is not supported; what it returns holds no subquery.
    pub fn rewrite(&mut self, s_expr: &LogicalPlan) -> (r: Result<LogicalPlan, RewriteError>)
        ensures
            r is Ok <==> plan_supported(*s_expr),
            r matches Ok(p) ==> plan_free(p),
            plan_free(*s_expr) ==> (r matches Ok(p) && same_plan(p, *s_expr)),
            r matches Ok(p) ==> rewritten_plan(*s_expr, p),
        decreases s_expr,
    {
        match s_expr {
            LogicalPlan::Get(t) => Ok(LogicalPlan::Get(*t)),
            LogicalPlan::DummyTableScan => Ok(LogicalPlan::DummyTableScan),
            LogicalPlan::EvalScalar { items, input: child } => {
                let input = self.rewrite(child)?;
                proof {
                    assert(decreases_to!(*s_expr => (*s_expr)->items));
                }
                let ghost c = input;
                let res = self.rewrite_scalars(items, input);
                proof {
                    lemma_prefix_supported(items@, items@.len() as int);
                    assert(plan_supported(*s_expr) == (scalars_supported(items@) && plan_supported(**child)));
                }
                let (items2, input) = res?;
                proof {
                    lemma_peel_prefix(items@, items2@, c, input, items@.len() as int);
                }
                let items = items2;
                Ok(LogicalPlan::EvalScalar { items, input: Box::new(input) })
            },
            LogicalPlan::Filter { predicates, input: child } => {
                let input = self.rewrite(child)?;
                proof {
                    assert(decreases_to!(*s_expr => (*s_expr)->predicates));
                }
                let ghost c = input;
                let res = self.rewrite_scalars(predicates, input);
                proof {
                    lemma_prefix_supported(predicates@, predicates@.len() as int);
                    assert(plan_supported(*s_expr) == (scalars_supported(predicates@) && plan_supported(**child)));
                }
                let (p2, input) = res?;
                proof {
                    lemma_peel_prefix(predicates@, p2@, c, input, predicates@.len() as int);
                }
                let predicates = p2;
                Ok(LogicalPlan::Filter { predicates, input: Box::new(input) })
            },
            LogicalPlan::Aggregate { group_items, aggregate_functions, input: child } => {
                let input = self.rewrite(child)?;
                proof {
                    assert(decreases_to!(*s_expr => (*s_expr)->group_items));
                    assert(decreases_to!(*s_expr => (*s_expr)->aggregate_functions));
                }
                proof {
                    lemma_prefix_supported(group_items@, group_items@.len() as int);
                    lemma_prefix_supported(aggregate_functions@, aggregate_functions@.len() as int);
                    assert(plan_supported(*s_expr) == (scalars_supported(group_items@)
                        && scalars_supported(aggregate_functions@) && plan_supported(**child)));
                }
                let ghost c = input;
                let (g2, input) = self.rewrite_scalars(group_items, input)?;
                let ghost d = input;
                let (f2, input) = self.rewrite_scalars(aggregate_functions, input)?;
                proof {
                    lemma_peel_prefix(aggregate_functions@, f2@, d, input, aggregate_functions@.len() as int);
                    lemma_peel_prefix(group_items@, g2@, c, d, group_items@.len() as int);
                }
                let group_items = g2;
                let aggregate_functions = f2;
                Ok(LogicalPlan::Aggregate { group_items, aggregate_functions, input: Box::new(input) })
            },
            LogicalPlan::Join { join_type, left_conditions, right_conditions, other_conditions, marker_index, left, right } => {
                let l = self.rewrite(left)?;
                let r = self.rewrite(right)?;
                let lc = match copy_free_scalars(left_conditions) {
                    Some(c) => c,
                    None => {
                        return Err(RewriteError::NotImplemented);
                    },
                };
                let rc = match copy_free_scalars(right_conditions) {
                    Some(c) => c,
                    None => {
                        return Err(RewriteError::NotImplemented);
                    },
                };
                let oc = match copy_free_scalars(other_conditions) {
                    Some(c) => c,
                    None => {
                        return Err(RewriteError::NotImplemented);
                    },
                };
                Ok(LogicalPlan::Join {
                    join_type: *join_type,
                    left_conditions: lc,
                    right_conditions: rc,
                    other_conditions: oc,
                    marker_index: *marker_index,
                    left: Box::new(l),
                    right: Box::new(r),
                })
            },
            LogicalPlan::UnionAll { left, right } => {
                let l = self.rewrite(left)?;
                let r = self.rewrite(right)?;
                Ok(LogicalPlan::UnionAll { left: Box::new(l), right: Box::new(r) })
            },
            LogicalPlan::Limit { limit, input } => {
                let i = self.rewrite(input)?;
                Ok(LogicalPlan::Limit { limit: *limit, input: Box::new(i) })
            },
            LogicalPlan::Sort { input } => {
                let i = self.rewrite(input)?;
                Ok(LogicalPlan::Sort { input: Box::new(i) })
            },
        }
    }

    /// Rewrites the subqueries of a list of expressions over `input`, in order; each one
    /// rewritten extends the input with its join.
    fn rewrite_scalars(&mut self, items: &Vec<Scalar>, input: LogicalPlan) -> (r: Result<(Vec<Scalar>, LogicalPlan), RewriteError>)
        requires
            plan_free(input),
        ensures
            r is Ok <==> scalars_supported(items@),
            r matches Ok((v, p)) ==> scalars_free(v@) && plan_free(p) && v@.len() == items@.len(),
            scalars_free(items@) ==> (r matches Ok((v, p)) && same_scalars(v@, items@) && p == input),
            r matches Ok((v, p)) ==> rewritten_prefix(items@, v@, input, p, items@.len() as int),
        decreases items,
    {
        let ghost input0 = input;
        let mut out: Vec<Scalar> = Vec::new();
        let mut cur = input;
        let mut i: usize = 0;
        while i < items.len()
            invariant
                i <= items@.len(),
                out@.len() == i,
                plan_free(cur),
                scalars_free(out@),
                forall|k: int| 0 <= k < i ==> #[trigger] scalar_supported(items@[k]),
                scalars_free(items@) ==> cur == input0 && same_prefix(out@, items@, i as int),
                rewritten_prefix(items@, out@, input0, cur, i as int),
            decreases items@.len() - i,
        {
            proof {
                vstd::std_specs::vec::axiom_vec_index_decreases(*items, i as int);
            }
            let ghost before = cur;
            let (s, next) = self.try_rewrite_subquery(&items[i], cur)?;
            proof {
                lemma_same_prefix_push(out@, s, items@, i as int);
                lemma_rewritten_prefix_push(items@, out@, s, input0, before, i as int);
                lemma_peel(items@[i as int], before, s, next);
                assert(rewritten_prefix(items@, out@.push(s), input0, before, i as int));
                assert(out@.push(s)[i as int] == s);
                assert(rewritten_scalar(items@[i as int], before, out@.push(s)[i as int], next));
            }
            out.push(s);
            cur = next;
            i += 1;
        }
        Ok((out, cur))
    }

    /// Replaces each subquery of `scalar` by a column of a join added over `s_expr`.
    fn try_rewrite_subquery(&mut self, scalar: &Scalar, s_expr: LogicalPlan) -> (r: Result<(Scalar, LogicalPlan), RewriteError>)
        requires
            plan_free(s_expr),
        ensures
            r is Ok <==> scalar_supported(*scalar),
            r matches Ok((s, p)) ==> scalar_free(s) && plan_free(p),
            scalar_free(*scalar) ==> (r matches Ok((s, p)) && same_scalar(s, *scalar) && p == s_expr),
            r matches Ok((s, p)) ==> rewritten_scalar(*scalar, s_expr, s, p),
        decreases scalar,
    {
        proof {
            if scalar_free(*scalar) {
                lemma_free_scalar_supported(*scalar);
            }
        }
        match scalar {
            Scalar::BoundColumnRef(i) => Ok((Scalar::BoundColumnRef(*i), s_expr)),
            Scalar::ConstantExpr(v) => Ok((Scalar::ConstantExpr(*v), s_expr)),
            Scalar::BoolConstant(b) => Ok((Scalar::BoolConstant(*b), s_expr)),
            Scalar::AggregateFunction(i) => Ok((Scalar::AggregateFunction(*i), s_expr)),
            Scalar::AndExpr(l, r) => {
                let (l2, p) = self.try_rewrite_subquery(l, s_expr)?;
                let ghost mid = p;
                let (r2, p) = self.try_rewrite_subquery(r, p)?;
                proof {
                    lemma_peel(**r, mid, r2, p);
                }
                Ok((Scalar::AndExpr(Box::new(l2), Box::new(r2)), p))
            },
            Scalar::OrExpr(l, r) => {
                let (l2, p) = self.try_rewrite_subquery(l, s_expr)?;
                let ghost mid = p;
                let (r2, p) = self.try_rewrite_subquery(r, p)?;
                proof {
                    lemma_peel(**r, mid, r2, p);
                }
                Ok((Scalar::OrExpr(Box::new(l2), Box::new(r2)), p))
            },
            Scalar::ComparisonExpr(op, l, r) => {
                let (l2, p) = self.try_rewrite_subquery(l, s_expr)?;
                let ghost mid = p;
                let (r2, p) = self.try_rewrite_subquery(r, p)?;
                proof {
                    lemma_peel(**r, mid, r2, p);
                }
                Ok((Scalar::ComparisonExpr(*op, Box::new(l2), Box::new(r2)), p))
            },
            Scalar::FunctionCall(name, args) => {
                proof {
                    assert(decreases_to!(*scalar => (*scalar)->FunctionCall_1));
                }
                let res = self.rewrite_scalars(args, s_expr);
                proof {
                    lemma_prefix_supported(args@, args@.len() as int);
                    lemma_prefix_free(args@, args@.len() as int);
                    assert(scalar_supported(*scalar) == scalars_supported(args@));
                    assert(scalar_free(*scalar) == scalars_free(args@));
                }
                let (args2, p) = res?;
                proof {
                    lemma_prefix_free(args2@, args2@.len() as int);
                    assert(scalar_free(Scalar::FunctionCall(*name, args2)));
                }
                Ok((Scalar::FunctionCall(name.clone(), args2), p))
            },
            Scalar::CastExpr(a) => {
                let (a2, p) = self.try_rewrite_subquery(a, s_expr)?;
                Ok((Scalar::CastExpr(Box::new(a2)), p))
            },
            Scalar::SubqueryExpr(subquery) => {
                proof {
                    assert(decreases_to!(*scalar => (*scalar)->SubqueryExpr_0));
                    assert(decreases_to!((*scalar)->SubqueryExpr_0 => (*scalar)->SubqueryExpr_0.subquery));
                }
                proof {
                    assert(scalar_supported(*scalar) == (plan_supported(*subquery.subquery) && subquery_shape_supported(**subquery)));
                }
                let inner = self.rewrite(&subquery.subquery)?;
                if subquery.correlated {
                    return Err(RewriteError::NotImplemented);
                }
                let ghost inner0 = inner;
                let ghost outer0 = s_expr;
                let ghost col = self.next_column;
                let (p, result) = self.try_rewrite_uncorrelated_subquery(s_expr, subquery, inner)?;
                proof {
                    lemma_unnest_parts(p, outer0, inner0, **subquery, col);
                }
                match result {
                    UnnestResult::SimpleJoin => Ok((Scalar::BoolConstant(true), p)),
                    UnnestResult::MarkJoin { marker_index } => Ok((Scalar::BoundColumnRef(marker_index), p)),
                    UnnestResult::SingleJoin => Ok((Scalar::BoundColumnRef(subquery.output_column), p)),
                }
            },
        }
    }

    /// Turns an uncorrelated subquery, whose plan is already rewritten to `inner`, into a
    /// join with `left`: a single join for a scalar subquery; for EXISTS and NOT EXISTS a
    /// cross join with `COUNT(*) = 1` (or `!= 1`) over the subquery limited to one row; for
    /// ANY a mark join with the subquery as probe side and a marker column.
    fn try_rewrite_uncorrelated_subquery(&mut self, left: LogicalPlan, subquery: &SubqueryExpr, inner: LogicalPlan) -> (r: Result<(LogicalPlan, UnnestResult), RewriteError>)
        requires
            plan_free(left),
            plan_free(inner),
            !subquery.correlated,
        ensures
            r is Ok <==> subquery_shape_supported(*subquery),
            r matches Ok((p, u)) ==> plan_free(p),
            r matches Ok((p, u)) ==> is_unnest_join(p, left, inner, *subquery, old(self).next_column),
            r matches Ok((p, u)) ==> u == spec_unnest(subquery.typ, match u {
                UnnestResult::MarkJoin { marker_index } => marker_index,
                _ => 0,
            }),
            r matches Ok((p, UnnestResult::MarkJoin { marker_index })) ==> Scalar::BoundColumnRef(marker_index)
                == replacement(*subquery, old(self).next_column),
            r is Ok ==> final(self).next_column == if subquery.typ == SubqueryType::Exists
                || subquery.typ == SubqueryType::NotExists
                || (subquery.typ == SubqueryType::Any && subquery.projection_index is None) {
                next_column_after(old(self).next_column)
            } else {
                old(self).next_column
            },
    {
        let ghost outer0 = left;
        let ghost inner0 = inner;
        let ghost col0 = self.next_column;
        match subquery.typ {
            SubqueryType::Scalar => {
                let p = LogicalPlan::Join {
                    join_type: JoinType::Single,
                    left_conditions: Vec::new(),
                    right_conditions: Vec::new(),
                    other_conditions: Vec::new(),
                    marker_index: None,
                    left: Box::new(left),
                    right: Box::new(inner),
                };
                proof {
                    assert(scalars_free(Seq::<Scalar>::empty()));
                    assert(is_unnest_join(p, outer0, inner0, *subquery, col0));
                }
                Ok((p, UnnestResult::SingleJoin))
            },
            SubqueryType::Exists | SubqueryType::NotExists => {
                let limited = LogicalPlan::Limit { limit: Some(1), input: Box::new(inner) };
                let count = self.add_column();
                let agg_fns = vec![Scalar::AggregateFunction(count)];
                let agg = LogicalPlan::Aggregate { group_items: Vec::new(), aggregate_functions: agg_fns, input: Box::new(limited) };
                let op = if subquery.typ == SubqueryType::Exists { ComparisonOp::Equal } else { ComparisonOp::NotEqual };
                let compare = Scalar::ComparisonExpr(op, Box::new(Scalar::BoundColumnRef(count)), Box::new(Scalar::ConstantExpr(1)));
                let preds = vec![compare];
                let filter = LogicalPlan::Filter { predicates: preds, input: Box::new(agg) };
                let p = LogicalPlan::Join {
                    join_type: JoinType::Cross,
                    left_conditions: Vec::new(),
                    right_conditions: Vec::new(),
                    other_conditions: Vec::new(),
                    marker_index: None,
                    left: Box::new(left),
                    right: Box::new(filter),
                };
                proof {
                    assert(scalars_free(Seq::<Scalar>::empty()));
                    assert(scalar_free(agg_fns@[0]));
                    assert(scalars_free(agg_fns@));
                    assert(scalar_free(Scalar::BoundColumnRef(count)));
                    assert(scalar_free(Scalar::ConstantExpr(1)));
                    assert(scalar_free(preds@[0]));
                    assert(scalars_free(preds@));
                    assert(plan_free(limited));
                    assert(plan_free(agg));
                    assert(plan_free(filter));
                    assert(preds@ =~= seq![Scalar::ComparisonExpr(op, Box::new(Scalar::BoundColumnRef(col0)), Box::new(Scalar::ConstantExpr(1)))]);
                    assert(agg_fns@ =~= seq![Scalar::AggregateFunction(col0)]);
                    assert(is_unnest_join(p, outer0, inner0, *subquery, col0));
                }
                Ok((p, UnnestResult::SimpleJoin))
            },
            SubqueryType::Any => {
                let child = match &subquery.child_expr {
                    Some(c) => c,
                    None => {
                        return Err(RewriteError::NotImplemented);
                    },
                };
                let op = match subquery.compare_op {
                    Some(op) => op,
                    None => {
                        return Err(RewriteError::NotImplemented);
                    },
                };
                let is_other_condition = check_child_expr_in_subquery(child, op)?;
                proof {
                    lemma_checked_child_is_free(**child, op);
                }
                let right_condition = match copy_free_scalar(child) {
                    Some(c) => c,
                    None => {
                        return Err(RewriteError::InvalidChildExpr);
                    },
                };
                let left_condition = Scalar::BoundColumnRef(subquery.output_column);
                let mut left_conditions: Vec<Scalar> = Vec::new();
                let mut right_conditions: Vec<Scalar> = Vec::new();
                let mut other_conditions: Vec<Scalar> = Vec::new();
                proof {
                    assert(scalar_free(left_condition));
                    assert(scalars_free(Seq::<Scalar>::empty()));
                }
                if !is_other_condition {
                    left_conditions.push(left_condition);
                    right_conditions.push(right_condition);
                    assert(scalars_free(left_conditions@));
                    assert(scalars_free(right_conditions@));
                    assert(left_conditions@ =~= seq![Scalar::BoundColumnRef(subquery.output_column)]);
                } else {
                    let cond = Scalar::ComparisonExpr(op, Box::new(right_condition), Box::new(left_condition));
                    assert(scalar_free(cond));
                    other_conditions.push(cond);
                    assert(scalars_free(other_conditions@));
                }
                let marker_index = match subquery.projection_index {
                    Some(idx) => idx,
                    None => self.add_column(),
                };
                let p = LogicalPlan::Join {
                    join_type: JoinType::LeftMark,
                    left_conditions,
                    right_conditions,
                    other_conditions,
                    marker_index: Some(marker_index),
                    left: Box::new(inner),
                    right: Box::new(left),
                };
                proof {
                    assert(is_unnest_join(p, outer0, inner0, *subquery, col0));
                }
                Ok((p, UnnestResult::MarkJoin { marker_index }))
            },
            SubqueryType::All => Err(RewriteError::NotImplemented),
        }
    }
}

/// The value EXISTS (or NOT EXISTS) takes after the rewrite to `COUNT(*) = 1` (or `!= 1`)
/// over the subquery limited to one row, for a subquery of `rows` rows.
pub fn exists_by_count(rows: u64, negated: bool) -> (r: bool)
    ensures
        r == ((rows > 0) != negated),
{
    let limited: u64 = if rows > 0 { 1 } else { 0 };
    let count: u64 = limited;
    if negated {
        count != 1
    } else {
        count == 1
    }
}

/// A `COUNT` read through an outer join: NULL (no group) counts as zero.
pub fn coerce_count(value: Option<u64>) -> (r: u64)
    ensures
        r == match value {
            Some(v) => v,
            None => 0,
        },
{
    match value {
        Some(v) => v,
        None => 0,
    }
}

/// The value a flattened subquery's column reads as after the join: for a `COUNT`, a NULL
/// (no matching group) reads as zero; any other value is kept.
pub fn flattened_value(info: FlattenInfo, value: Option<u64>) -> (r: Option<u64>)
    ensures
        info.from_count_func ==> r == Some(match value {
            Some(v) => v,
            None => 0,
        }),
        !info.from_count_func ==> r == value,
{
    if info.from_count_func {
        Some(coerce_count(value))
    } else {
        value
    }
}

/// The value a single join yields for a scalar subquery: NULL for no row, the row's value
/// for one, an error for more.
pub fn single_join_value(rows: &Vec<i64>) -> (r: Result<Option<i64>, RewriteError>)
    ensures
        rows@.len() == 0 ==> r == Ok::<Option<i64>, RewriteError>(None),
        rows@.len() == 1 ==> r == Ok::<Option<i64>, RewriteError>(Some(rows@[0])),
        rows@.len() > 1 ==> r == Err::<Option<i64>, RewriteError>(RewriteError::MoreThanOneRow),
{
    if rows.len() == 0 {
        Ok(None)
    } else if rows.len() == 1 {
        Ok(Some(rows[0]))
    } else {
        Err(RewriteError::MoreThanOneRow)
    }
}

pub open spec fn spec_compare(op: ComparisonOp, a: i64, b: i64) -> bool {
    match op {
        ComparisonOp::Equal => a == b,
        ComparisonOp::NotEqual => a != b,
        ComparisonOp::GT => a > b,
        ComparisonOp::LT => a < b,
        ComparisonOp::GTE => a >= b,
        ComparisonOp::LTE => a <= b,
    }
}

/// SQL comparison: NULL when either side is NULL.
pub open spec fn spec_compare_nullable(op: ComparisonOp, a: Option<i64>, b: Option<i64>) -> MarkerKind {
    match (a, b) {
        (Some(x), Some(y)) => if spec_compare(op, x, y) { MarkerKind::True } else { MarkerKind::False },
        _ => MarkerKind::Null,
    }
}

/// The marker of `probe op ANY (values)`: TRUE if some comparison is TRUE, else NULL if
/// some comparison is NULL, else FALSE.
pub open spec fn spec_marker(probe: Option<i64>, values: Seq<Option<i64>>, op: ComparisonOp) -> MarkerKind {
    if exists|i: int| 0 <= i < values.len() && spec_compare_nullable(op, probe, #[trigger] values[i]) == MarkerKind::True {
        MarkerKind::True
    } else if exists|i: int| 0 <= i < values.len() && spec_compare_nullable(op, probe, #[trigger] values[i]) == MarkerKind::Null {
        MarkerKind::Null
    } else {
        MarkerKind::False
    }
}

pub fn compare_nullable(op: ComparisonOp, a: Option<i64>, b: Option<i64>) -> (r: MarkerKind)
    ensures
        r == spec_compare_nullable(op, a, b),
{
    match (a, b) {
        (Some(x), Some(y)) => {
            let t = match op {
                ComparisonOp::Equal => x == y,
                ComparisonOp::NotEqual => x != y,
                ComparisonOp::GT => x > y,
                ComparisonOp::LT => x < y,
                ComparisonOp::GTE => x >= y,
                ComparisonOp::LTE => x <= y,
            };
            if t {
                MarkerKind::True
            } else {
                MarkerKind::False
            }
        },
        _ => MarkerKind::Null,
    }
}

/// The marker a mark join writes for one probe row against the subquery's values.
pub fn mark_join_marker(probe: Option<i64>, values: &Vec<Option<i64>>, op: ComparisonOp) -> (r: MarkerKind)
    ensures
        r == spec_marker(probe, values@, op),
{
    let mut has_null = false;
    let mut i: usize = 0;
    while i < values.len()
        invariant
            i <= values@.len(),
            forall|k: int| 0 <= k < i ==> spec_compare_nullable(op, probe, #[trigger] values@[k]) != MarkerKind::True,
            has_null <==> exists|k: int| 0 <= k < i && spec_compare_nullable(op, probe, #[trigger] values@[k]) == MarkerKind::Null,
        decreases values@.len() - i,
    {
        let c = compare_nullable(op, probe, values[i]);
        if c == MarkerKind::True {
            return MarkerKind::True;
        }
        if c == MarkerKind::Null {
            has_null = true;
        }
        i += 1;
    }
    if has_null {
        MarkerKind::Null
    } else {
        MarkerKind::False
    }
}

/// A subquery that holds a NULL and no match marks a row NULL, never FALSE.
pub proof fn lemma_null_in_subquery_marks_null(probe: Option<i64>, values: Seq<Option<i64>>, op: ComparisonOp, i: int)
    requires
        0 <= i < values.len(),
        values[i] is None,
        forall|k: int| 0 <= k < values.len() ==> spec_compare_nullable(op, probe, #[trigger] values[k]) != MarkerKind::True,
    ensures
        spec_marker(probe, values, op) == MarkerKind::Null,
{
    assert(spec_compare_nullable(op, probe, values[i]) == MarkerKind::Null);
}

} // verus!

use vstd::prelude::*;

use crate::cost::{derive_costs, has_physical, is_best, CostContext, CostModel};
use crate::memo::{GroupState, Memo, OptimizerError};
use crate::rules::{all_rules, apply_rule, lemma_rule_keeps_children, spec_apply_rule, RuleID};

verus! {

#[derive(Debug, Clone, Copy, PartialEq, Eq, Structural)]
pub enum ExploreGroupState {
    Init,
    Explored,
}

#[derive(Debug, Clone, Copy, PartialEq, Eq, Structural)]
pub enum ExploreGroupEvent {
    Exploring,
    Explored,
}

/// The state an exploring group task moves to on an event.
pub open spec fn spec_transition(event: ExploreGroupEvent) -> ExploreGroupState {
    match event {
        ExploreGroupEvent::Exploring => ExploreGroupState::Init,
        ExploreGroupEvent::Explored => ExploreGroupState::Explored,
    }
}

/// Explores the multi-expressions of one group, including those that rules add to it.
#[derive(Debug)]
pub struct ExploreGroupTask {
    pub state: ExploreGroupState,
    pub group_index: usize,
    /// How many multi-expressions of the group have been handed out for exploration.
    pub last_explored_m_expr: Option<usize>,
    /// The counter of the children still running.
    pub ref_count: usize,
    /// The counter of the task that waits for this one.
    pub parent: Option<usize>,
}

/// Applies every rule to one multi-expression.
#[derive(Debug)]
pub struct ExploreExprTask {
    pub group_index: usize,
    pub m_expr_index: usize,
    pub parent: Option<usize>,
}

/// Applies one rule to one multi-expression and inserts what it produces.
#[derive(Debug)]
pub struct ApplyRuleTask {
    pub rule_id: RuleID,
    pub target_group_index: usize,
    pub m_expr_index: usize,
    pub parent: Option<usize>,
}

#[derive(Debug)]
pub enum Task {
    ExploreGroup(ExploreGroupTask),
    ExploreExpr(ExploreExprTask),
    ApplyRule(ApplyRuleTask),
}

/// A first-in first-out queue of tasks, and the counters by which a task waits for the
/// tasks it spawned.
#[derive(Debug)]
pub struct Scheduler {
    pub tasks: Vec<Task>,
    pub counters: Vec<u64>,
}

impl Scheduler {
    pub fn new() -> (r: Scheduler)
        ensures
            r.tasks@.len() == 0,
            r.counters@.len() == 0,
    {
        Scheduler { tasks: Vec::new(), counters: Vec::new() }
    }

    /// Enqueues a task at the back of the queue.
    pub fn add_task(&mut self, task: Task)
        ensures
            final(self).tasks@ == old(self).tasks@.push(task),
            final(self).counters@ == old(self).counters@,
    {
        self.tasks.push(task);
    }

    /// Takes the task at the front of the queue.
    pub fn next_task(&mut self) -> (r: Option<Task>)
        ensures
            old(self).tasks@.len() == 0 ==> r is None && final(self).tasks@ == old(self).tasks@,
            old(self).tasks@.len() > 0 ==> r == Some(old(self).tasks@[0])
                && final(self).tasks@ == old(self).tasks@.drop_first(),
            final(self).counters@ == old(self).counters@,
    {
        if self.tasks.len() == 0 {
            None
        } else {
            Some(self.tasks.remove(0))
        }
    }

    /// Creates a counter at zero and returns its handle.
    pub fn new_counter(&mut self) -> (r: usize)
        ensures
            r == old(self).counters@.len(),
            final(self).counters@ == old(self).counters@.push(0),
            final(self).tasks@ == old(self).tasks@,
    {
        self.counters.push(0);
        self.counters.len() - 1
    }

    pub open spec fn counter_value(&self, c: usize) -> u64 {
        if c < self.counters@.len() { self.counters@[c as int] } else { 0 }
    }

    /// Counts one more unfinished child (saturating; unknown handles are ignored).
    pub fn inc(&mut self, c: usize)
        ensures
            c < old(self).counters@.len() && old(self).counters@[c as int] < u64::MAX ==>
                final(self).counters@ == old(self).counters@.update(c as int, (old(self).counters@[c as int] + 1) as u64),
            !(c < old(self).counters@.len() && old(self).counters@[c as int] < u64::MAX) ==>
                final(self).counters@ == old(self).counters@,
            final(self).tasks@ == old(self).tasks@,
    {
        if c < self.counters.len() && self.counters[c] < u64::MAX {
            let v = self.counters[c];
            self.counters.set(c, v + 1);
        }
    }

    /// Counts one child less (saturating at zero; unknown handles are ignored).
    pub fn dec(&mut self, c: usize)
        ensures
            c < old(self).counters@.len() && old(self).counters@[c as int] > 0 ==>
                final(self).counters@ == old(self).counters@.update(c as int, (old(self).counters@[c as int] - 1) as u64),
            !(c < old(self).counters@.len() && old(self).counters@[c as int] > 0) ==>
                final(self).counters@ == old(self).counters@,
            final(self).tasks@ == old(self).tasks@,
    {
        if c < self.counters.len() && self.counters[c] > 0 {
            let v = self.counters[c];
            self.counters.set(c, v - 1);
        }
    }

    fn dec_opt(&mut self, c: Option<usize>)
        ensures
            final(self).tasks@ == old(self).tasks@,
            final(self).counters@ == dec_counters(old(self).counters@, c),
    {
        if let Some(p) = c {
            self.dec(p);
        }
    }

    fn inc_opt(&mut self, c: Option<usize>)
        ensures
            final(self).tasks@ == old(self).tasks@,
            final(self).counters@.len() == old(self).counters@.len(),
    {
        if let Some(p) = c {
            self.inc(p);
        }
    }
}

/// The counters after the one named by `c`, if any, went down by one (not below zero).
pub open spec fn dec_counters(counters: Seq<u64>, c: Option<usize>) -> Seq<u64> {
    match c {
        Some(i) => if i < counters.len() && counters[i as int] > 0 {
            counters.update(i as int, (counters[i as int] - 1) as u64)
        } else {
            counters
        },
        None => counters,
    }
}

/// The counters after counter `i` went up by `k`, saturating.
pub open spec fn raised(counters: Seq<u64>, i: usize, k: int) -> Seq<u64> {
    if i < counters.len() {
        counters.update(i as int, (if counters[i as int] + k > u64::MAX { u64::MAX as int } else { counters[i as int] + k }) as u64)
    } else {
        counters
    }
}

/// Whether a task names a group, and a multi-expression, that the memo holds.
pub open spec fn task_valid(t: Task, memo: &Memo) -> bool {
    match t {
        Task::ExploreGroup(t) => t.group_index < memo.groups@.len(),
        Task::ExploreExpr(t) => t.group_index < memo.groups@.len()
            && t.m_expr_index < memo.groups@[t.group_index as int].m_exprs@.len(),
        Task::ApplyRule(t) => t.target_group_index < memo.groups@.len()
            && t.m_expr_index < memo.groups@[t.target_group_index as int].m_exprs@.len(),
    }
}

pub open spec fn queue_valid(tasks: Seq<Task>, memo: &Memo) -> bool {
    forall|i: int| 0 <= i < tasks.len() ==> task_valid(#[trigger] tasks[i], memo)
}

proof fn lemma_queue_valid_grows(tasks: Seq<Task>, a: &Memo, b: &Memo)
    requires
        queue_valid(tasks, a),
        memo_grows(a, b),
    ensures
        queue_valid(tasks, b),
{
    assert forall|i: int| 0 <= i < tasks.len() implies task_valid(#[trigger] tasks[i], b) by {
        assert(task_valid(tasks[i], a));
    }
}

/// Whether every result of every rule on every multi-expression is in the memo.
pub open spec fn closed_under_rules(memo: &Memo) -> bool {
    forall|g: int, j: int, rule: RuleID| 0 <= g < memo.groups@.len() && 0 <= j < memo.groups@[g].m_exprs@.len() ==>
        (#[trigger] spec_apply_rule(rule, memo.groups@[g].m_exprs@[j].plan, memo.groups@[g].m_exprs@[j].children@)
            matches Some((p, c)) ==> memo.contains(p, c))
}

/// What a memo change keeps: well-formedness, the groups, and every multi-expression
/// already present at its place.
pub open spec fn memo_grows(before: &Memo, after: &Memo) -> bool {
    &&& after.wf()
    &&& after.groups@.len() == before.groups@.len()
    &&& forall|g: int| 0 <= g < before.groups@.len() ==>
        (#[trigger] after.groups@[g]).m_exprs@.len() >= before.groups@[g].m_exprs@.len()
    &&& forall|g: int, j: int| 0 <= g < before.groups@.len() && 0 <= j < before.groups@[g].m_exprs@.len() ==>
        #[trigger] after.groups@[g].m_exprs@[j] == before.groups@[g].m_exprs@[j]
}

proof fn lemma_memo_grows_trans(a: &Memo, b: &Memo, c: &Memo)
    requires
        memo_grows(a, b),
        memo_grows(b, c),
    ensures
        memo_grows(a, c),
{
    assert forall|g: int, j: int| 0 <= g < a.groups@.len() && 0 <= j < a.groups@[g].m_exprs@.len() implies
        #[trigger] c.groups@[g].m_exprs@[j] == a.groups@[g].m_exprs@[j] by {
        assert(b.groups@[g].m_exprs@[j] == a.groups@[g].m_exprs@[j]);
    }
}

impl ExploreGroupTask {
    pub fn new(group_index: usize, ref_count: usize) -> (r: ExploreGroupTask)
        ensures
            r.state == ExploreGroupState::Init,
            r.group_index == group_index,
            r.last_explored_m_expr is None,
            r.ref_count == ref_count,
            r.parent is None,
    {
        ExploreGroupTask {
            state: ExploreGroupState::Init,
            group_index,
            last_explored_m_expr: None,
            ref_count,
            parent: None,
        }
    }

    /// A task that its parent waits for: the parent's counter goes up by one.
    pub fn with_parent(group_index: usize, parent: usize, scheduler: &mut Scheduler) -> (r: ExploreGroupTask)
        ensures
            r.state == ExploreGroupState::Init,
            r.group_index == group_index,
            r.last_explored_m_expr is None,
            r.ref_count == old(scheduler).counters@.len(),
            r.parent == Some(parent),
            final(scheduler).tasks@ == old(scheduler).tasks@,
            final(scheduler).counters@.len() == old(scheduler).counters@.len() + 1,
    {
        scheduler.inc(parent);
        let rc = scheduler.new_counter();
        let mut task = Self::new(group_index, rc);
        task.parent = Some(parent);
        task
    }

    /// Moves the task's state on an event.
    pub fn transition_on(&mut self, event: ExploreGroupEvent)
        requires
            old(self).state == ExploreGroupState::Init,
        ensures
            final(self).state == spec_transition(event),
            final(self).group_index == old(self).group_index,
            final(self).last_explored_m_expr == old(self).last_explored_m_expr,
            final(self).ref_count == old(self).ref_count,
            final(self).parent == old(self).parent,
    {
        match event {
            ExploreGroupEvent::Exploring => {},
            ExploreGroupEvent::Explored => {
                self.state = ExploreGroupState::Explored;
            },
        }
    }

    /// One step of exploration. While children are unfinished the task waits; otherwise the
    /// multi-expressions past the watermark are handed out, and when there are none the
    /// group is explored.
    pub fn explore_group(&mut self, memo: &mut Memo, scheduler: &mut Scheduler) -> (r: Result<ExploreGroupEvent, OptimizerError>)
        requires
            old(memo).wf(),
        ensures
            memo_grows(old(memo), final(memo)),
            final(scheduler).counters@.len() == old(scheduler).counters@.len(),
            final(self).group_index == old(self).group_index,
            final(self).state == old(self).state,
            final(self).ref_count == old(self).ref_count,
            final(self).parent == old(self).parent,
            old(self).group_index >= old(memo).groups@.len() ==> r == Err::<ExploreGroupEvent, OptimizerError>(OptimizerError::IndexOutOfRange),
            r == Ok::<ExploreGroupEvent, OptimizerError>(ExploreGroupEvent::Explored) ==> {
                &&& old(scheduler).counter_value(old(self).ref_count) == 0
                &&& old(self).last_explored_m_expr.unwrap_or(0) == old(memo).groups@[old(self).group_index as int].m_exprs@.len()
                &&& final(memo).groups@[old(self).group_index as int].state == GroupState::Explored
                &&& final(scheduler).counters@ == dec_counters(old(scheduler).counters@, old(self).parent)
                &&& final(scheduler).tasks@ == old(scheduler).tasks@
            },
            old(self).group_index < old(memo).groups@.len() && old(scheduler).counter_value(old(self).ref_count) == 0
                && old(self).last_explored_m_expr.unwrap_or(0) == old(memo).groups@[old(self).group_index as int].m_exprs@.len()
                ==> r == Ok::<ExploreGroupEvent, OptimizerError>(ExploreGroupEvent::Explored),
            old(self).group_index < old(memo).groups@.len() ==> r is Ok,
            r == Ok::<ExploreGroupEvent, OptimizerError>(ExploreGroupEvent::Exploring) ==> *final(memo) == *old(memo),
            final(scheduler).tasks@.len() >= old(scheduler).tasks@.len(),
            final(scheduler).tasks@.subrange(0, old(scheduler).tasks@.len() as int) == old(scheduler).tasks@,
            queue_valid(old(scheduler).tasks@, old(memo)) ==> queue_valid(final(scheduler).tasks@, final(memo)),
            old(self).group_index < old(memo).groups@.len() && old(scheduler).counter_value(old(self).ref_count) != 0
                ==> r == Ok::<ExploreGroupEvent, OptimizerError>(ExploreGroupEvent::Exploring)
                && *final(scheduler) == *old(scheduler) && final(self).last_explored_m_expr == old(self).last_explored_m_expr,
            r == Ok::<ExploreGroupEvent, OptimizerError>(ExploreGroupEvent::Exploring) && old(scheduler).counter_value(old(self).ref_count) == 0 ==> {
                let n = old(scheduler).tasks@.len();
                let start = old(self).last_explored_m_expr.unwrap_or(0);
                let num = old(memo).groups@[old(self).group_index as int].m_exprs@.len();
                &&& final(self).last_explored_m_expr == Some(num as usize)
                &&& start <= num ==> final(scheduler).counters@ == raised(old(scheduler).counters@, old(self).ref_count, num - start)
                &&& final(scheduler).tasks@.subrange(0, n as int) == old(scheduler).tasks@
                &&& start < num ==> final(scheduler).tasks@.len() == n + (num - start)
                &&& forall|k: int| 0 <= k < num - start ==> #[trigger] final(scheduler).tasks@[n + k] == Task::ExploreExpr(ExploreExprTask {
                    group_index: old(self).group_index,
                    m_expr_index: (start + k) as usize,
                    parent: Some(old(self).ref_count),
                })
            },
    {
        let gi = self.group_index;
        if gi >= memo.groups.len() {
            return Err(OptimizerError::IndexOutOfRange);
        }
        let ghost m0 = *memo;
        if self.ref_count < scheduler.counters.len() && scheduler.counters[self.ref_count] != 0 {
            assert(scheduler.tasks@.subrange(0, old(scheduler).tasks@.len() as int) =~= old(scheduler).tasks@);
            return Ok(ExploreGroupEvent::Exploring);
        }
        let num = memo.groups[gi].num_exprs();
        let start = match self.last_explored_m_expr {
            Some(i) => i,
            None => 0,
        };
        if start == num {
            let mut group = memo.groups.remove(gi);
            group.set_state(GroupState::Explored);
            memo.groups.insert(gi, group);
            proof {
                assert(memo.groups@ =~= m0.groups@.update(gi as int, memo.groups@[gi as int]));
                assert forall|g: int| 0 <= g < memo.groups@.len() implies (#[trigger] memo.groups@[g]).wf_at(g) by {
                    assert(m0.groups@[g].wf_at(g));
                }
                assert forall|g1: int, j1: int, g2: int, j2: int|
                    0 <= g1 < memo.groups@.len() && 0 <= g2 < memo.groups@.len()
                        && 0 <= j1 < memo.groups@[g1].m_exprs@.len()
                        && 0 <= j2 < memo.groups@[g2].m_exprs@.len()
                        && crate::memo::same_signature(
                        #[trigger] memo.groups@[g1].m_exprs@[j1],
                        #[trigger] memo.groups@[g2].m_exprs@[j2],
                    ) implies g1 == g2 && j1 == j2 by {
                    assert(m0.groups@[g1].m_exprs@[j1] == memo.groups@[g1].m_exprs@[j1]);
                    assert(m0.groups@[g2].m_exprs@[j2] == memo.groups@[g2].m_exprs@[j2]);
                }
            }
            scheduler.dec_opt(self.parent);
            proof {
                assert(scheduler.tasks@.subrange(0, old(scheduler).tasks@.len() as int) =~= old(scheduler).tasks@);
                if queue_valid(old(scheduler).tasks@, old(memo)) {
                    lemma_queue_valid_grows(old(scheduler).tasks@, old(memo), memo);
                }
            }
            return Ok(ExploreGroupEvent::Explored);
        }
        let mut j: usize = start;
        while j < num
            invariant
                scheduler.counters@.len() == old(scheduler).counters@.len(),
                start <= j <= num || (start > num && j == start),
                scheduler.tasks@.len() == old(scheduler).tasks@.len() + (j - start),
                scheduler.tasks@.subrange(0, old(scheduler).tasks@.len() as int) == old(scheduler).tasks@,
                forall|k: int| 0 <= k < j - start ==> #[trigger] scheduler.tasks@[old(scheduler).tasks@.len() + k] == Task::ExploreExpr(ExploreExprTask {
                    group_index: gi,
                    m_expr_index: (start + k) as usize,
                    parent: Some(self.ref_count),
                }),
                self.ref_count == old(self).ref_count,
                gi == old(self).group_index,
                start <= j ==> scheduler.counters@ == raised(old(scheduler).counters@, self.ref_count, j - start),
                *memo == m0,
                num == memo.groups@[gi as int].m_exprs@.len(),
                gi < memo.groups@.len(),
                queue_valid(old(scheduler).tasks@, old(memo)) ==> queue_valid(scheduler.tasks@, memo),
            decreases num - j,
        {
            scheduler.inc(self.ref_count);
            let ghost before = scheduler.tasks@;
            scheduler.add_task(Task::ExploreExpr(ExploreExprTask { group_index: gi, m_expr_index: j, parent: Some(self.ref_count) }));
            proof {
                assert(scheduler.tasks@.subrange(0, old(scheduler).tasks@.len() as int) =~= before.subrange(0, old(scheduler).tasks@.len() as int));
                if queue_valid(old(scheduler).tasks@, old(memo)) {
                    assert forall|i: int| 0 <= i < scheduler.tasks@.len() implies task_valid(#[trigger] scheduler.tasks@[i], memo) by {
                        if i < before.len() {
                            assert(scheduler.tasks@[i] == before[i]);
                        }
                    }
                }
            }
            j += 1;
        }
        self.last_explored_m_expr = Some(num);
        Ok(ExploreGroupEvent::Exploring)
    }

    /// Runs one step and puts the task back in the queue unless its group is explored. A task
    /// whose state is already Explored does nothing; the state only moves from Init to
    /// Explored, when no child runs and no multi-expression was added since the watermark.
    pub fn execute(self, memo: &mut Memo, scheduler: &mut Scheduler) -> (r: Result<(), OptimizerError>)
        requires
            old(memo).wf(),
        ensures
            memo_grows(old(memo), final(memo)),
            final(scheduler).counters@.len() == old(scheduler).counters@.len(),
            self.state == ExploreGroupState::Explored ==> r is Ok && *final(memo) == *old(memo)
                && *final(scheduler) == *old(scheduler),
            self.state == ExploreGroupState::Init && self.group_index < old(memo).groups@.len() ==> r is Ok,
            self.group_index >= old(memo).groups@.len() && self.state == ExploreGroupState::Init ==> r is Err,
            final(scheduler).tasks@.len() >= old(scheduler).tasks@.len(),
            final(scheduler).tasks@.subrange(0, old(scheduler).tasks@.len() as int) == old(scheduler).tasks@,
            self.state == ExploreGroupState::Init && r is Ok && old(scheduler).counter_value(self.ref_count) == 0
                && self.last_explored_m_expr.unwrap_or(0) == old(memo).groups@[self.group_index as int].m_exprs@.len() ==> {
                &&& final(memo).groups@[self.group_index as int].state == GroupState::Explored
                &&& final(scheduler).tasks@ == old(scheduler).tasks@
                &&& final(scheduler).counters@ == dec_counters(old(scheduler).counters@, self.parent)
            },
            self.state == ExploreGroupState::Init && r is Ok && !(old(scheduler).counter_value(self.ref_count) == 0
                && self.last_explored_m_expr.unwrap_or(0) == old(memo).groups@[self.group_index as int].m_exprs@.len()) ==> {
                &&& *final(memo) == *old(memo)
                &&& final(scheduler).tasks@.last() == Task::ExploreGroup(ExploreGroupTask {
                    state: ExploreGroupState::Init,
                    group_index: self.group_index,
                    last_explored_m_expr: if old(scheduler).counter_value(self.ref_count) != 0 {
                        self.last_explored_m_expr
                    } else {
                        Some(old(memo).groups@[self.group_index as int].m_exprs@.len() as usize)
                    },
                    ref_count: self.ref_count,
                    parent: self.parent,
                })
            },
            self.state == ExploreGroupState::Init && r is Ok && queue_valid(old(scheduler).tasks@, old(memo))
                ==> queue_valid(final(scheduler).tasks@, final(memo)),
    {
        let mut task = self;
        if task.state == ExploreGroupState::Explored {
            return Ok(());
        }
        let ghost q0 = scheduler.tasks@;
        let event = task.explore_group(memo, scheduler)?;
        task.transition_on(event);
        if task.state == ExploreGroupState::Init {
            let ghost q1 = scheduler.tasks@;
            let t = ExploreGroupTask {
                state: task.state,
                group_index: task.group_index,
                last_explored_m_expr: task.last_explored_m_expr,
                ref_count: task.ref_count,
                parent: task.parent,
            };
            scheduler.add_task(Task::ExploreGroup(t));
            proof {
                assert(q1.subrange(0, q0.len() as int) == q0);
                assert(scheduler.tasks@.subrange(0, q0.len() as int) =~= q1.subrange(0, q0.len() as int));
                assert forall|i: int| 0 <= i < scheduler.tasks@.len() && queue_valid(q1, memo)
                    implies task_valid(#[trigger] scheduler.tasks@[i], memo) by {
                    if i < q1.len() {
                        assert(scheduler.tasks@[i] == q1[i]);
                    }
                }
            }
        }
        Ok(())
    }
}

impl ExploreExprTask {
    /// Enqueues one rule application per rule, each counted on the parent counter.
    pub fn execute(self, memo: &Memo, scheduler: &mut Scheduler) -> (r: Result<(), OptimizerError>)
        ensures
            final(scheduler).counters@.len() == old(scheduler).counters@.len(),
            (self.group_index >= memo.groups@.len()
                || self.m_expr_index >= memo.groups@[self.group_index as int].m_exprs@.len())
                <==> r == Err::<(), OptimizerError>(OptimizerError::IndexOutOfRange),
            r is Err ==> r == Err::<(), OptimizerError>(OptimizerError::IndexOutOfRange),
            r is Ok ==> {
                let n = old(scheduler).tasks@.len();
                &&& final(scheduler).tasks@.len() == n + 3
                &&& final(scheduler).tasks@.subrange(0, n as int) == old(scheduler).tasks@
                &&& forall|k: int| 0 <= k < 3 ==> #[trigger] final(scheduler).tasks@[n + k] == Task::ApplyRule(ApplyRuleTask {
                    rule_id: seq![RuleID::CommuteJoin, RuleID::ImplementGet, RuleID::ImplementJoin][k],
                    target_group_index: self.group_index,
                    m_expr_index: self.m_expr_index,
                    parent: self.parent,
                })
            },
            r is Ok && queue_valid(old(scheduler).tasks@, memo) ==> queue_valid(final(scheduler).tasks@, memo),
    {
        let group = memo.group(self.group_index)?;
        let _ = group.m_expr(self.m_expr_index)?;
        let rules = all_rules();
        let mut i: usize = 0;
        while i < rules.len()
            invariant
                scheduler.counters@.len() == old(scheduler).counters@.len(),
                scheduler.tasks@.len() == old(scheduler).tasks@.len() + i,
                scheduler.tasks@.subrange(0, old(scheduler).tasks@.len() as int) == old(scheduler).tasks@,
                forall|k: int| 0 <= k < i ==> #[trigger] scheduler.tasks@[old(scheduler).tasks@.len() + k] == Task::ApplyRule(ApplyRuleTask {
                    rule_id: rules@[k],
                    target_group_index: self.group_index,
                    m_expr_index: self.m_expr_index,
                    parent: self.parent,
                }),
                i <= rules@.len(),
                rules@ == seq![RuleID::CommuteJoin, RuleID::ImplementGet, RuleID::ImplementJoin],
            decreases rules@.len() - i,
        {
            scheduler.inc_opt(self.parent);
            let ghost before = scheduler.tasks@;
            scheduler.add_task(Task::ApplyRule(ApplyRuleTask {
                rule_id: rules[i],
                target_group_index: self.group_index,
                m_expr_index: self.m_expr_index,
                parent: self.parent,
            }));
            proof {
                assert(scheduler.tasks@.subrange(0, old(scheduler).tasks@.len() as int) =~= before.subrange(0, old(scheduler).tasks@.len() as int));
            }
            i += 1;
        }
        scheduler.dec_opt(self.parent);
        proof {
            let n = old(scheduler).tasks@.len();
            if queue_valid(old(scheduler).tasks@, memo) {
                assert forall|j: int| 0 <= j < scheduler.tasks@.len() implies task_valid(#[trigger] scheduler.tasks@[j], memo) by {
                    if j < n {
                        assert(scheduler.tasks@[j] == scheduler.tasks@.subrange(0, n as int)[j]);
                    } else {
                        assert(scheduler.tasks@[n + (j - n)] == scheduler.tasks@[j]);
                    }
                }
            }
        }
        Ok(())
    }
}

impl ApplyRuleTask {
    pub fn new(rule_id: RuleID, target_group_index: usize, m_expr_index: usize) -> (r: ApplyRuleTask)
        ensures
            r.rule_id == rule_id,
            r.target_group_index == target_group_index,
            r.m_expr_index == m_expr_index,
            r.parent is None,
    {
        ApplyRuleTask { rule_id, target_group_index, m_expr_index, parent: None }
    }

    /// A task that its parent waits for: the parent's counter goes up by one.
    pub fn with_parent(rule_id: RuleID, target_group_index: usize, m_expr_index: usize, parent: usize, scheduler: &mut Scheduler) -> (r: ApplyRuleTask)
        ensures
            r.rule_id == rule_id,
            r.target_group_index == target_group_index,
            r.m_expr_index == m_expr_index,
            r.parent == Some(parent),
            final(scheduler).tasks@ == old(scheduler).tasks@,
            final(scheduler).counters@.len() == old(scheduler).counters@.len(),
    {
        scheduler.inc(parent);
        let mut task = Self::new(rule_id, target_group_index, m_expr_index);
        task.parent = Some(parent);
        task
    }

    /// Applies the rule; what it produces is inserted into the target group, deduplicated.
    pub fn execute(self, memo: &mut Memo, scheduler: &mut Scheduler) -> (r: Result<(), OptimizerError>)
        requires
            old(memo).wf(),
        ensures
            memo_grows(old(memo), final(memo)),
            final(scheduler).tasks@ == old(scheduler).tasks@,
            r is Ok ==> final(scheduler).counters@ == dec_counters(old(scheduler).counters@, self.parent),
            r is Err ==> *final(scheduler) == *old(scheduler) && *final(memo) == *old(memo),
            final(scheduler).counters@.len() == old(scheduler).counters@.len(),
            (self.target_group_index >= old(memo).groups@.len()
                || self.m_expr_index >= old(memo).groups@[self.target_group_index as int].m_exprs@.len())
                <==> r is Err,
            r is Ok ==> match spec_apply_rule(
                self.rule_id,
                old(memo).groups@[self.target_group_index as int].m_exprs@[self.m_expr_index as int].plan,
                old(memo).groups@[self.target_group_index as int].m_exprs@[self.m_expr_index as int].children@,
            ) {
                Some((p, c)) => final(memo).contains(p, c),
                None => final(memo).shape() == old(memo).shape(),
            },
    {
        let gi = self.target_group_index;
        let group = memo.group(gi)?;
        let m_expr = group.m_expr(self.m_expr_index)?;
        let produced = apply_rule(self.rule_id, m_expr);
        proof {
            assert(memo.groups@[gi as int].wf_at(gi as int));
            lemma_rule_keeps_children(self.rule_id, m_expr.plan, m_expr.children@, gi);
        }
        match produced {
            Some((plan, children)) => {
                let ghost m0 = *memo;
                let ghost ch = children@;
                let loc = memo.insert_m_expr(gi, plan, children);
                proof {
                    assert(memo.holds_at(plan, ch, loc.0 as int, loc.1 as int));
                    assert forall|g: int, j: int| 0 <= g < m0.groups@.len() && 0 <= j < m0.groups@[g].m_exprs@.len() implies
                        #[trigger] memo.groups@[g].m_exprs@[j] == m0.groups@[g].m_exprs@[j] by {
                        if g != gi {
                            assert(memo.groups@[g] == m0.groups@[g]);
                        }
                    }
                    assert forall|g: int| 0 <= g < m0.groups@.len() implies
                        (#[trigger] memo.groups@[g]).m_exprs@.len() >= m0.groups@[g].m_exprs@.len() by {
                        if g != gi {
                            assert(memo.groups@[g] == m0.groups@[g]);
                        }
                    }
                }
            },
            None => {},
        }
        scheduler.dec_opt(self.parent);
        Ok(())
    }
}

impl Task {
    /// Runs one task; a task that names what the memo holds always succeeds, and the tasks
    /// it queues name what the memo holds.
    pub fn execute(self, memo: &mut Memo, scheduler: &mut Scheduler) -> (r: Result<(), OptimizerError>)
        requires
            old(memo).wf(),
        ensures
            memo_grows(old(memo), final(memo)),
            final(scheduler).counters@.len() == old(scheduler).counters@.len(),
            task_valid(self, old(memo)) ==> r is Ok,
            task_valid(self, old(memo)) && queue_valid(old(scheduler).tasks@, old(memo))
                ==> queue_valid(final(scheduler).tasks@, final(memo)),
    {
        let ghost m0 = *memo;
        let ghost q0 = scheduler.tasks@;
        let ghost me = self;
        match self {
            Task::ExploreGroup(t) => {
                let ghost tt = t;
                let r = t.execute(memo, scheduler);
                proof {
                    assert(me == Task::ExploreGroup(tt));
                    if tt.state == ExploreGroupState::Explored {
                        assert(scheduler.tasks@ == q0);
                        assert(r is Ok);
                    } else {
                        assert(tt.state == ExploreGroupState::Init);
                        if task_valid(Task::ExploreGroup(tt), &m0) {
                            assert(tt.group_index < m0.groups@.len());
                            assert(r is Ok);
                        }
                    }

                }
                r
            },
            Task::ExploreExpr(t) => {
                let r = t.execute(memo, scheduler);
                proof {
                    assert(memo_grows(&m0, memo)) by {
                        assert forall|g: int| 0 <= g < memo.groups@.len() implies (#[trigger] memo.groups@[g]).wf_at(g) by {}
                    }
                }
                r
            },
            Task::ApplyRule(t) => {
                let r = t.execute(memo, scheduler);
                proof {
                    if queue_valid(q0, &m0) {
                        lemma_queue_valid_grows(q0, &m0, memo);
                    }
                }
                r
            },
        }
    }
}

/// Runs the queue until it is empty, taking at most `max_steps` tasks; returns how many it
/// ran. It fails only when the budget is spent with tasks still queued.
pub fn run_scheduler(memo: &mut Memo, scheduler: &mut Scheduler, max_steps: u64) -> (r: (u64, Result<(), OptimizerError>))
    requires
        old(memo).wf(),
        queue_valid(old(scheduler).tasks@, old(memo)),
    ensures
        memo_grows(old(memo), final(memo)),
        r.0 <= max_steps,
        old(scheduler).tasks@.len() == 0 ==> r.1 is Ok && r.0 == 0,
        r.1 is Ok ==> final(scheduler).tasks@.len() == 0,
        r.1 is Err ==> r.1 == Err::<(), OptimizerError>(OptimizerError::StepBudgetExhausted) && r.0 == max_steps
            && final(scheduler).tasks@.len() > 0,
{
    let mut steps: u64 = 0;
    loop
        invariant
            memo.wf(),
            memo_grows(old(memo), memo),
            queue_valid(scheduler.tasks@, memo),
            steps <= max_steps,
            steps == 0 ==> scheduler.tasks@ == old(scheduler).tasks@,
            old(scheduler).tasks@.len() == 0 ==> steps == 0,
        decreases max_steps - steps,
    {
        if scheduler.tasks.len() == 0 {
            return (steps, Ok(()));
        }
        if steps == max_steps {
            return (steps, Err(OptimizerError::StepBudgetExhausted));
        }
        let ghost q = scheduler.tasks@;
        let task = match scheduler.next_task() {
            Some(t) => t,
            None => {
                return (steps, Ok(()));
            },
        };
        proof {
            assert(task_valid(q[0], memo));
            assert forall|i: int| 0 <= i < scheduler.tasks@.len() implies task_valid(#[trigger] scheduler.tasks@[i], memo) by {
                assert(scheduler.tasks@[i] == q[i + 1]);
            }
        }
        let ghost before = *memo;
        let res = task.execute(memo, scheduler);
        proof {
            lemma_memo_grows_trans(old(memo), &before, memo);
        }
        steps = steps + 1;
    }
}

/// One pass over the memo: applies every rule to every multi-expression and inserts the
/// first result that the memo does not hold yet. Returns whether it inserted one; when it
/// did not, the memo is unchanged and closed under the rules.
pub fn closure_pass(memo: &mut Memo) -> (r: bool)
    requires
        old(memo).wf(),
    ensures
        memo_grows(old(memo), final(memo)),
        !r ==> *final(memo) == *old(memo) && closed_under_rules(final(memo)),
{
    let rules = all_rules();
    let mut g: usize = 0;
    while g < memo.groups.len()
        invariant
            *memo == *old(memo),
            memo.wf(),
            rules@ == seq![RuleID::CommuteJoin, RuleID::ImplementGet, RuleID::ImplementJoin],
            g <= memo.groups@.len(),
            forall|g2: int, j: int, rule: RuleID| 0 <= g2 < g && 0 <= j < memo.groups@[g2].m_exprs@.len() ==>
                (#[trigger] spec_apply_rule(rule, memo.groups@[g2].m_exprs@[j].plan, memo.groups@[g2].m_exprs@[j].children@)
                    matches Some((p, c)) ==> memo.contains(p, c)),
        decreases memo.groups@.len() - g,
    {
        let mut j: usize = 0;
        while j < memo.groups[g].m_exprs.len()
            invariant
                *memo == *old(memo),
                memo.wf(),
                rules@ == seq![RuleID::CommuteJoin, RuleID::ImplementGet, RuleID::ImplementJoin],
                g < memo.groups@.len(),
                j <= memo.groups@[g as int].m_exprs@.len(),
                forall|g2: int, j2: int, rule: RuleID| 0 <= g2 < g && 0 <= j2 < memo.groups@[g2].m_exprs@.len() ==>
                    (#[trigger] spec_apply_rule(rule, memo.groups@[g2].m_exprs@[j2].plan, memo.groups@[g2].m_exprs@[j2].children@)
                        matches Some((p, c)) ==> memo.contains(p, c)),
                forall|j2: int, rule: RuleID| 0 <= j2 < j ==>
                    (#[trigger] spec_apply_rule(rule, memo.groups@[g as int].m_exprs@[j2].plan, memo.groups@[g as int].m_exprs@[j2].children@)
                        matches Some((p, c)) ==> memo.contains(p, c)),
            decreases memo.groups@[g as int].m_exprs@.len() - j,
        {
            let mut k: usize = 0;
            while k < rules.len()
                invariant
                    *memo == *old(memo),
                    memo.wf(),
                    rules@ == seq![RuleID::CommuteJoin, RuleID::ImplementGet, RuleID::ImplementJoin],
                    g < memo.groups@.len(),
                    j < memo.groups@[g as int].m_exprs@.len(),
                    k <= 3,
                    forall|k2: int| 0 <= k2 < k ==>
                        (#[trigger] spec_apply_rule(rules@[k2], memo.groups@[g as int].m_exprs@[j as int].plan,
                            memo.groups@[g as int].m_exprs@[j as int].children@) matches Some((p, c)) ==> memo.contains(p, c)),
                decreases 3 - k,
            {
                let e = &memo.groups[g].m_exprs[j];
                let produced = apply_rule(rules[k], e);
                proof {
                    assert(memo.groups@[g as int].wf_at(g as int));
                    lemma_rule_keeps_children(rules@[k as int], e.plan, e.children@, g);
                }
                match produced {
                    Some((plan, children)) => {
                        if memo.lookup(plan, &children).is_none() {
                            let ghost m0 = *memo;
                            memo.insert_m_expr(g, plan, children);
                            proof {
                                assert forall|g2: int, j2: int| 0 <= g2 < m0.groups@.len() && 0 <= j2 < m0.groups@[g2].m_exprs@.len() implies
                                    #[trigger] memo.groups@[g2].m_exprs@[j2] == m0.groups@[g2].m_exprs@[j2] by {
                                    if g2 != g {
                                        assert(memo.groups@[g2] == m0.groups@[g2]);
                                    }
                                }
                                assert forall|g2: int| 0 <= g2 < m0.groups@.len() implies
                                    (#[trigger] memo.groups@[g2]).m_exprs@.len() >= m0.groups@[g2].m_exprs@.len() by {
                                    if g2 != g {
                                        assert(memo.groups@[g2] == m0.groups@[g2]);
                                    }
                                }
                            }
                            return true;
                        }
                    },
                    None => {},
                }
                k += 1;
            }
            proof {
                assert forall|rule: RuleID| (#[trigger] spec_apply_rule(rule, memo.groups@[g as int].m_exprs@[j as int].plan,
                    memo.groups@[g as int].m_exprs@[j as int].children@) matches Some((p, c)) ==> memo.contains(p, c)) by {
                    match rule {
                        RuleID::CommuteJoin => assert(rules@[0] == rule),
                        RuleID::ImplementGet => assert(rules@[1] == rule),
                        RuleID::ImplementJoin => assert(rules@[2] == rule),
                    }
                }
            }
            j += 1;
        }
        g += 1;
    }
    false
}

/// Repeats `closure_pass` until the memo is closed under the rules, at most `max_rounds`
/// times.
pub fn saturate(memo: &mut Memo, max_rounds: u64) -> (r: Result<(), OptimizerError>)
    requires
        old(memo).wf(),
    ensures
        memo_grows(old(memo), final(memo)),
        r is Ok ==> closed_under_rules(final(memo)),
        r is Err ==> r == Err::<(), OptimizerError>(OptimizerError::StepBudgetExhausted),
{
    let mut rounds: u64 = 0;
    while rounds < max_rounds
        invariant
            memo.wf(),
            memo_grows(old(memo), memo),
        decreases max_rounds - rounds,
    {
        let ghost before = *memo;
        let changed = closure_pass(memo);
        proof {
            lemma_memo_grows_trans(old(memo), &before, memo);
        }
        if !changed {
            return Ok(());
        }
        rounds = rounds + 1;
    }
    Err(OptimizerError::StepBudgetExhausted)
}

/// Explores every group of the memo with the rules, checks that the memo is closed under
/// them, then picks the cheapest physical multi-expression of every group. It fails only
/// when the step budget runs out, or when a group has no physical multi-expression.
pub fn optimize_memo(memo: &mut Memo, model: &CostModel, max_steps: u64) -> (r: Result<Vec<CostContext>, OptimizerError>)
    requires
        old(memo).wf(),
    ensures
        memo_grows(old(memo), final(memo)),
        r matches Ok(best) ==> closed_under_rules(final(memo)) && best@.len() == final(memo).groups@.len() && forall|g: int|
            0 <= g < final(memo).groups@.len() ==> is_best(final(memo), model, best@, g, #[trigger] best@[g]),
        r matches Err(e) ==> e == OptimizerError::StepBudgetExhausted || (e == OptimizerError::NoPhysicalExpr
            && exists|g: int| 0 <= g < final(memo).groups@.len() && !has_physical(final(memo), g)),
{
    let mut scheduler = Scheduler::new();
    let mut g: usize = 0;
    while g < memo.groups.len()
        invariant
            g <= memo.groups@.len(),
            forall|i: int| 0 <= i < scheduler.tasks@.len() ==> (#[trigger] scheduler.tasks@[i] matches Task::ExploreGroup(t)
                && t.group_index < g),
        decreases memo.groups@.len() - g,
    {
        let rc = scheduler.new_counter();
        scheduler.add_task(Task::ExploreGroup(ExploreGroupTask::new(g, rc)));
        g += 1;
    }
    proof {
        assert forall|i: int| 0 <= i < scheduler.tasks@.len() implies task_valid(#[trigger] scheduler.tasks@[i], memo) by {}
    }
    let (_, res) = run_scheduler(memo, &mut scheduler, max_steps);
    res?;
    let ghost explored = *memo;
    saturate(memo, max_steps)?;
    proof {
        lemma_memo_grows_trans(old(memo), &explored, memo);
    }
    derive_costs(memo, model)
}

} // verus!

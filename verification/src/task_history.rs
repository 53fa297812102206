//! Histories of a spawner: what holds after any sequence of spawns, endings and scopes,
//! in whatever order the tasks made their moves.

use crate::task::{Discipline, Outcome, SpawnerView};
use vstd::prelude::*;

verus! {

/// One operation on a spawner, as it took effect.
pub enum TaskOp {
    /// A task was spawned.
    Spawn { discipline: Discipline },
    /// `task`, still running, did something that others can see.
    Act { task: nat },
    /// `task` ended with `outcome`.
    Finish { task: nat, outcome: Outcome },
    /// A scope was opened.
    OpenScope,
    /// The caller tried to leave `scope`.
    CloseScope { scope: nat },
}

/// Whether `task` is among the tasks of `after` and was spawned after `before`, or was
/// still running in it.
pub open spec fn active_since(before: SpawnerView, after: SpawnerView, task: nat) -> bool {
    task < after.tasks.len() && (before.is_running(task) || before.tasks.len() <= task)
}

impl SpawnerView {
    /// Whether `op` can be made in this state: a task is spawned only into an open
    /// scope, only a running task acts or ends, and only an open scope is left.
    pub open spec fn enabled(self, op: TaskOp) -> bool {
        match op {
            TaskOp::Spawn { discipline } => discipline matches Discipline::Scoped { scope }
                ==> self.is_open(scope as nat),
            TaskOp::Act { task } => self.is_running(task),
            TaskOp::Finish { task, outcome } => self.is_running(task) && !(outcome is Running),
            TaskOp::OpenScope => true,
            TaskOp::CloseScope { scope } => self.is_open(scope),
        }
    }

    /// The state after `op`.
    pub open spec fn step(self, op: TaskOp) -> SpawnerView {
        match op {
            TaskOp::Spawn { discipline } => self.spawn(discipline),
            TaskOp::Act { .. } => self,
            TaskOp::Finish { task, outcome } => self.finish(task, outcome),
            TaskOp::OpenScope => self.open_scope(),
            TaskOp::CloseScope { scope } => self.close_scope(scope),
        }
    }

    /// The state after the operations of `ops`, in their order.
    pub open spec fn run(self, ops: Seq<TaskOp>) -> SpawnerView
        decreases ops.len(),
    {
        if ops.len() == 0 {
            self
        } else {
            self.run(ops.drop_last()).step(ops.last())
        }
    }

    /// Whether each operation of `ops` can be made when its turn comes.
    pub open spec fn legal(self, ops: Seq<TaskOp>) -> bool
        decreases ops.len(),
    {
        ops.len() > 0 ==> self.legal(ops.drop_last()) && self.run(ops.drop_last()).enabled(
            ops.last(),
        )
    }
}

/// One legal operation keeps a valid spawner valid.
pub proof fn lemma_step_valid(state: SpawnerView, op: TaskOp)
    requires
        state.valid(),
        state.enabled(op),
    ensures
        state.step(op).valid(),
{
    let after = state.step(op);
    assert forall|task: int, scope: nat| #[trigger] after.in_scope(task, scope) implies scope
        < after.scopes.len() && (after.scopes[scope as int] || !(after.tasks[task].outcome
        is Running)) by {
        if task < state.tasks.len() {
            assert(state.in_scope(task, scope));
        }
    }
}

/// A legal history keeps a valid spawner valid. In particular a scope that was left
/// stays quiet: none of its tasks runs, and none can be spawned into it any more.
pub proof fn lemma_run_valid(start: SpawnerView, ops: Seq<TaskOp>)
    requires
        start.valid(),
        start.legal(ops),
    ensures
        start.run(ops).valid(),
        forall|task: int, scope: nat|
            scope < start.run(ops).scopes.len() && !start.run(ops).is_open(scope)
                && #[trigger] start.run(ops).in_scope(task, scope) ==> !start.run(
                ops,
            ).is_running(task as nat),
    decreases ops.len(),
{
    if ops.len() > 0 {
        lemma_run_valid(start, ops.drop_last());
        lemma_step_valid(start.run(ops.drop_last()), ops.last());
    }
}

/// A task is found ended only after it has ended: if a task that was running at the
/// start, or was spawned since, is not running after a legal history, so that joining
/// it succeeds and its scope can be left, then the history holds the operation by which
/// it ended, and the outcome found is the one that the task reported.
pub proof fn lemma_ended_task_has_finished(start: SpawnerView, ops: Seq<TaskOp>, task: nat)
    requires
        start.legal(ops),
        active_since(start, start.run(ops), task),
        !start.run(ops).is_running(task),
    ensures
        exists|k: int|
            0 <= k < ops.len() && #[trigger] ops[k] == (TaskOp::Finish {
                task,
                outcome: start.run(ops).tasks[task as int].outcome,
            }),
    decreases ops.len(),
{
    if ops.len() > 0 {
        let earlier = ops.drop_last();
        let before = start.run(earlier);
        let after = start.run(ops);
        if ops.last() == (TaskOp::Finish { task, outcome: after.tasks[task as int].outcome }) {
            assert(ops[ops.len() - 1] == ops.last());
        } else {
            lemma_tasks_grow(start, earlier);
            lemma_ended_task_has_finished(start, earlier, task);
            let k = choose|k: int|
                0 <= k < earlier.len() && #[trigger] earlier[k] == (TaskOp::Finish {
                    task,
                    outcome: before.tasks[task as int].outcome,
                });
            assert(ops[k] == earlier[k]);
        }
    }
}

/// A legal history takes no task off the book.
pub proof fn lemma_tasks_grow(start: SpawnerView, ops: Seq<TaskOp>)
    requires
        start.legal(ops),
    ensures
        start.tasks.len() <= start.run(ops).tasks.len(),
    decreases ops.len(),
{
    if ops.len() > 0 {
        lemma_tasks_grow(start, ops.drop_last());
    }
}

/// The beginning of a legal history is a legal history.
pub proof fn lemma_legal_prefix(start: SpawnerView, ops: Seq<TaskOp>, moment: int)
    requires
        start.legal(ops),
        0 <= moment <= ops.len(),
    ensures
        start.legal(ops.take(moment)),
    decreases ops.len(),
{
    if moment < ops.len() {
        lemma_legal_prefix(start, ops.drop_last(), moment);
        assert(ops.drop_last().take(moment) =~= ops.take(moment));
    } else {
        assert(ops.take(moment) =~= ops);
    }
}

/// A history can be run in two parts, and the second part of a legal history is legal
/// where the first part ends.
pub proof fn lemma_run_split(start: SpawnerView, ops: Seq<TaskOp>, moment: int)
    requires
        0 <= moment <= ops.len(),
    ensures
        start.run(ops) == start.run(ops.take(moment)).run(ops.skip(moment)),
        start.legal(ops) ==> start.run(ops.take(moment)).legal(ops.skip(moment)),
    decreases ops.len(),
{
    if moment == ops.len() {
        assert(ops.take(moment) =~= ops);
    } else {
        lemma_run_split(start, ops.drop_last(), moment);
        assert(ops.drop_last().take(moment) =~= ops.take(moment));
        assert(ops.drop_last().skip(moment) =~= ops.skip(moment).drop_last());
    }
}

/// A join returns after the task has ended, never before: if at some moment of a legal
/// history a task is found ended, the operation by which it ended stands before that
/// moment, and with it everything that the task did.
pub proof fn lemma_join_returns_after_the_task_ended(
    start: SpawnerView,
    ops: Seq<TaskOp>,
    moment: int,
    task: nat,
)
    requires
        start.legal(ops),
        0 <= moment <= ops.len(),
        active_since(start, start.run(ops.take(moment)), task),
        !start.run(ops.take(moment)).is_running(task),
    ensures
        exists|k: int|
            0 <= k < moment && #[trigger] ops[k] == (TaskOp::Finish {
                task,
                outcome: start.run(ops.take(moment)).tasks[task as int].outcome,
            }),
{
    let seen = ops.take(moment);
    lemma_legal_prefix(start, ops, moment);
    lemma_ended_task_has_finished(start, seen, task);
    let k = choose|k: int|
        0 <= k < seen.len() && #[trigger] seen[k] == (TaskOp::Finish {
            task,
            outcome: start.run(seen).tasks[task as int].outcome,
        });
    assert(ops[k] == seen[k]);
}

/// A task that has ended stays as it ended through any legal history.
pub proof fn lemma_ended_stays_ended(state: SpawnerView, ops: Seq<TaskOp>, task: nat)
    requires
        state.legal(ops),
        task < state.tasks.len(),
        !state.is_running(task),
    ensures
        task < state.run(ops).tasks.len(),
        state.run(ops).tasks[task as int] == state.tasks[task as int],
    decreases ops.len(),
{
    if ops.len() > 0 {
        lemma_ended_stays_ended(state, ops.drop_last(), task);
    }
}

/// A task that was found ended does nothing any more: from the moment of a legal
/// history at which it is found ended, no later operation is an act of that task or
/// ends it again. So all that a task did lies before the moment at which its join
/// returned or its scope was left, and is there for the caller to see.
pub proof fn lemma_ended_task_acts_no_more(
    start: SpawnerView,
    ops: Seq<TaskOp>,
    moment: int,
    later: int,
    task: nat,
)
    requires
        start.legal(ops),
        0 <= moment <= later < ops.len(),
        task < start.run(ops.take(moment)).tasks.len(),
        !start.run(ops.take(moment)).is_running(task),
    ensures
        ops[later] != (TaskOp::Act { task }),
        !(ops[later] matches TaskOp::Finish { task: ended, .. } && ended == task),
{
    let upto = ops.take(later);
    let with_it = ops.take(later + 1);
    lemma_legal_prefix(start, ops, later);
    lemma_legal_prefix(start, ops, later + 1);
    assert(with_it.drop_last() =~= upto);
    lemma_run_split(start, upto, moment);
    assert(upto.take(moment) =~= ops.take(moment));
    lemma_ended_stays_ended(start.run(ops.take(moment)), upto.skip(moment), task);
    assert(start.run(upto).enabled(ops[later]));
}

/// A scope that was left is settled: through any legal history it stays left, no task
/// is added to it, and none of its tasks changes.
pub proof fn lemma_left_scope_is_settled(state: SpawnerView, ops: Seq<TaskOp>, scope: nat)
    requires
        state.valid(),
        state.legal(ops),
        scope < state.scopes.len(),
        !state.is_open(scope),
    ensures
        scope < state.run(ops).scopes.len(),
        !state.run(ops).is_open(scope),
        forall|task: int| #[trigger]
            state.run(ops).in_scope(task, scope) ==> state.in_scope(task, scope) && state.run(
                ops,
            ).tasks[task] == state.tasks[task],
    decreases ops.len(),
{
    if ops.len() > 0 {
        let before = state.run(ops.drop_last());
        let end = state.run(ops);
        lemma_left_scope_is_settled(state, ops.drop_last(), scope);
        lemma_run_valid(state, ops.drop_last());
        assert forall|task: int| #[trigger] end.in_scope(task, scope) implies state.in_scope(
            task,
            scope,
        ) && end.tasks[task] == state.tasks[task] by {
            if task < before.tasks.len() {
                assert(before.in_scope(task, scope));
            }
        }
    }
}

/// A scope is left after all its tasks have ended, never before: if at some moment of
/// a legal history a scope is left, every task that was ever spawned into it was
/// spawned before that moment, and the operation by which it ended stands before that
/// moment too.
pub proof fn lemma_scope_is_left_after_its_tasks_ended(
    start: SpawnerView,
    ops: Seq<TaskOp>,
    moment: int,
    scope: nat,
    task: nat,
)
    requires
        start.valid(),
        start.legal(ops),
        0 <= moment < ops.len(),
        ops[moment] == (TaskOp::CloseScope { scope }),
        !start.run(ops.take(moment + 1)).is_open(scope),
        start.run(ops).in_scope(task as int, scope),
        start.is_running(task) || start.tasks.len() <= task,
    ensures
        task < start.run(ops.take(moment)).tasks.len(),
        exists|k: int|
            0 <= k < moment && #[trigger] ops[k] == (TaskOp::Finish {
                task,
                outcome: start.run(ops).tasks[task as int].outcome,
            }),
{
    let seen = ops.take(moment);
    let upto = ops.take(moment + 1);
    let before = start.run(seen);
    let after = start.run(upto);
    assert(upto.drop_last() =~= seen);
    lemma_legal_prefix(start, ops, moment);
    lemma_legal_prefix(start, ops, moment + 1);
    lemma_run_valid(start, upto);
    lemma_run_split(start, ops, moment + 1);
    lemma_left_scope_is_settled(after, ops.skip(moment + 1), scope);
    assert(before.in_scope(task as int, scope));
    lemma_join_returns_after_the_task_ended(start, ops, moment, task);
}

/// A fault in a detached task stays with that task. Its record is the only thing that
/// changes: every other task stands as it stood, so no join finds anything else than
/// before; no scope has gained a running or a failed task, so every scope can be left
/// exactly as before; and the spawner goes on working.
pub proof fn lemma_detached_fault_is_contained(state: SpawnerView, task: nat, fault: Seq<char>)
    requires
        state.valid(),
        state.is_running(task),
        state.tasks[task as int].discipline is Detached,
    ensures
        ({
            let after = state.finish(task, Outcome::Failed { fault });
            &&& after.valid()
            &&& after.tasks.len() == state.tasks.len()
            &&& after.scopes == state.scopes
            &&& forall|other: int|
                0 <= other < state.tasks.len() && other != task ==> #[trigger] after.tasks[other]
                    == state.tasks[other]
            &&& forall|other: nat| #[trigger]
                after.is_joinable(other) ==> state.is_joinable(other) && after.tasks[other as int]
                    == state.tasks[other as int]
            &&& forall|scope: nat| #[trigger]
                after.scope_running(scope) == state.scope_running(scope)
            &&& forall|other: int, scope: nat| #[trigger]
                after.failed_in(other, scope) == state.failed_in(other, scope)
        }),
{
    let after = state.finish(task, Outcome::Failed { fault });
    lemma_step_valid(state, TaskOp::Finish { task, outcome: Outcome::Failed { fault } });
    assert forall|scope: nat| #[trigger] after.scope_running(scope) == state.scope_running(
        scope,
    ) by {
        if after.scope_running(scope) {
            let t = choose|t: int| #[trigger]
                after.in_scope(t, scope) && after.tasks[t].outcome is Running;
            assert(state.in_scope(t, scope));
        }
        if state.scope_running(scope) {
            let t = choose|t: int| #[trigger]
                state.in_scope(t, scope) && state.tasks[t].outcome is Running;
            assert(after.in_scope(t, scope));
        }
    }
}

} // verus!

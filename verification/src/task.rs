//! Tasks and the three ways to spawn one: detached, joinable, or inside a scope.
//!
//! A spawner keeps the book on every task it started: how it was spawned and whether
//! it still runs. The body of a task holds a [`Worker`] ticket and hands it in when it
//! ends, normally or with a fault. A detached task leaves nothing else behind; a
//! joinable one leaves a [`Handle`] to wait on; a scoped one belongs to a [`Scope`],
//! which cannot be left before all its tasks have ended.

use vstd::prelude::*;

verus! {

/// How a task was spawned.
#[derive(Clone, Copy, Debug, PartialEq, Eq)]
pub enum Discipline {
    /// Nobody waits for the task or hears of its end.
    Detached,
    /// The caller got a handle to join the task.
    Joinable,
    /// The task belongs to a scope, which waits for it.
    Scoped { scope: usize },
}

/// Where a task stands.
pub enum Outcome {
    /// The task has not ended yet.
    Running,
    /// The task ran to its end.
    Completed,
    /// The task ended with a fault, described by `fault`.
    Failed { fault: Seq<char> },
}

/// What the spawner knows of one task.
pub struct TaskView {
    pub discipline: Discipline,
    pub outcome: Outcome,
}

/// What a spawner is: its tasks, in the order in which they were spawned, and for each
/// scope whether it is still open.
pub struct SpawnerView {
    pub tasks: Seq<TaskView>,
    pub scopes: Seq<bool>,
}

impl SpawnerView {
    /// A spawner that has not started anything.
    pub open spec fn fresh() -> SpawnerView {
        SpawnerView { tasks: Seq::empty(), scopes: Seq::empty() }
    }

    /// Whether `task` was spawned into `scope`.
    pub open spec fn in_scope(self, task: int, scope: nat) -> bool {
        &&& 0 <= task < self.tasks.len()
        &&& self.tasks[task].discipline == (Discipline::Scoped { scope: scope as usize })
        &&& scope <= usize::MAX
    }

    /// Every scoped task belongs to a scope of this spawner, and a scope that was left
    /// has no running task.
    pub open spec fn valid(self) -> bool {
        forall|task: int, scope: nat| #[trigger]
            self.in_scope(task, scope) ==> scope < self.scopes.len() && (self.scopes[scope as int]
                || !(self.tasks[task].outcome is Running))
    }

    /// Whether `task` is a task of this spawner that has not ended.
    pub open spec fn is_running(self, task: nat) -> bool {
        task < self.tasks.len() && self.tasks[task as int].outcome is Running
    }

    /// Whether `task` is a task of this spawner that can be joined.
    pub open spec fn is_joinable(self, task: nat) -> bool {
        task < self.tasks.len() && self.tasks[task as int].discipline is Joinable
    }

    /// Whether `scope` is a scope of this spawner that was not left yet.
    pub open spec fn is_open(self, scope: nat) -> bool {
        scope < self.scopes.len() && self.scopes[scope as int]
    }

    /// Whether some task of `scope` has not ended.
    pub open spec fn scope_running(self, scope: nat) -> bool {
        exists|task: int| #[trigger] self.in_scope(task, scope) && self.tasks[task].outcome is Running
    }

    /// Whether `task` is a task of `scope` that ended with a fault.
    pub open spec fn failed_in(self, task: int, scope: nat) -> bool {
        self.in_scope(task, scope) && self.tasks[task].outcome is Failed
    }

    /// Whether `task` is the first task of `scope`, in the order of spawning, that
    /// ended with a fault.
    pub open spec fn first_failed_in(self, task: int, scope: nat) -> bool {
        &&& self.failed_in(task, scope)
        &&& forall|earlier: int| 0 <= earlier < task ==> !#[trigger] self.failed_in(earlier, scope)
    }

    /// The state after a task was spawned; the task is `self.tasks.len()`.
    pub open spec fn spawn(self, discipline: Discipline) -> SpawnerView {
        SpawnerView {
            tasks: self.tasks.push(TaskView { discipline, outcome: Outcome::Running }),
            ..self
        }
    }

    /// The state after `task` ended with `outcome`.
    pub open spec fn finish(self, task: nat, outcome: Outcome) -> SpawnerView {
        SpawnerView {
            tasks: self.tasks.update(
                task as int,
                TaskView { discipline: self.tasks[task as int].discipline, outcome },
            ),
            ..self
        }
    }

    /// The state after a scope was opened; the scope is `self.scopes.len()`.
    pub open spec fn open_scope(self) -> SpawnerView {
        SpawnerView { scopes: self.scopes.push(true), ..self }
    }

    /// The state after the caller tried to leave `scope`: it is left, unless one of its
    /// tasks still runs.
    pub open spec fn close_scope(self, scope: nat) -> SpawnerView {
        if self.scope_running(scope) {
            self
        } else {
            SpawnerView { scopes: self.scopes.update(scope as int, false), ..self }
        }
    }
}

/// A task ended with a fault. `detail` is the description that the task gave of it.
#[derive(Debug, PartialEq, Eq)]
pub struct TaskFailure {
    pub detail: String,
}

/// The ticket of a running task. The task hands it in when it ends.
#[derive(Debug)]
pub struct Worker {
    task: usize,
}

/// The right to join a joinable task, once.
#[derive(Debug)]
pub struct Handle {
    task: usize,
}

/// An open scope. Tasks can be spawned into it until it is left.
#[derive(Debug)]
pub struct Scope {
    id: usize,
}

/// What one attempt to join a task came to.
#[derive(Debug)]
pub enum JoinStep {
    /// The task still runs: the caller has to wait and try again with the handle.
    Pending(Handle),
    /// The task has ended, and this is how.
    Joined(Result<(), TaskFailure>),
}

/// What one attempt to leave a scope came to.
#[derive(Debug)]
pub enum ScopeStep {
    /// A task of the scope still runs: the caller has to wait and try again.
    Pending(Scope),
    /// The scope was left. The error is the fault of the first of its tasks that failed.
    Left(Result<(), TaskFailure>),
}

enum Status {
    Running,
    Completed,
    Failed(String),
}

struct TaskRecord {
    discipline: Discipline,
    status: Status,
}

impl TaskRecord {
    spec fn view(&self) -> TaskView {
        TaskView {
            discipline: self.discipline,
            outcome: match self.status {
                Status::Running => Outcome::Running,
                Status::Completed => Outcome::Completed,
                Status::Failed(fault) => Outcome::Failed { fault: fault@ },
            },
        }
    }

    fn is_running(&self) -> (running: bool)
        ensures
            running == (self.view().outcome is Running),
    {
        match &self.status {
            Status::Running => true,
            _ => false,
        }
    }

    fn in_scope(&self, id: usize) -> (inside: bool)
        ensures
            inside == (self.view().discipline == (Discipline::Scoped { scope: id })),
    {
        match self.discipline {
            Discipline::Scoped { scope } => scope == id,
            _ => false,
        }
    }

    fn failure(&self) -> (failure: Option<TaskFailure>)
        ensures
            match failure {
                Some(failure) => self.view().outcome == (Outcome::Failed {
                    fault: failure.detail@,
                }),
                None => !(self.view().outcome is Failed),
            },
    {
        match &self.status {
            Status::Failed(fault) => Some(TaskFailure { detail: fault.clone() }),
            _ => None,
        }
    }
}

/// The book of tasks and scopes.
pub struct Spawner {
    tasks: Vec<TaskRecord>,
    scopes: Vec<bool>,
}

impl View for Spawner {
    type V = SpawnerView;

    closed spec fn view(&self) -> SpawnerView {
        SpawnerView {
            tasks: Seq::new(self.tasks@.len(), |i: int| self.tasks@[i].view()),
            scopes: self.scopes@,
        }
    }
}

impl View for Worker {
    type V = nat;

    /// The task that holds the ticket.
    closed spec fn view(&self) -> nat {
        self.task as nat
    }
}

impl View for Handle {
    type V = nat;

    /// The task that the handle joins.
    closed spec fn view(&self) -> nat {
        self.task as nat
    }
}

impl View for Scope {
    type V = nat;

    /// The scope's place among the scopes of its spawner.
    closed spec fn view(&self) -> nat {
        self.id as nat
    }
}

impl Spawner {
    /// The book is consistent.
    pub closed spec fn wf(&self) -> bool {
        self@.valid()
    }

    /// A well-formed spawner is a valid one.
    pub proof fn lemma_view(&self)
        requires
            self.wf(),
        ensures
            self@.valid(),
    {
    }

    /// A spawner that has not started anything.
    pub fn new() -> (spawner: Spawner)
        ensures
            spawner.wf(),
            spawner@ == SpawnerView::fresh(),
    {
        let spawner = Spawner { tasks: Vec::new(), scopes: Vec::new() };
        proof {
            assert(spawner@.tasks =~= Seq::empty());
        }
        spawner
    }

    fn spawn(&mut self, discipline: Discipline) -> (task: usize)
        requires
            old(self).wf(),
            discipline matches Discipline::Scoped { scope } ==> old(self)@.is_open(scope as nat),
        ensures
            final(self).wf(),
            final(self)@ == old(self)@.spawn(discipline),
            task == old(self)@.tasks.len(),
    {
        let task = self.tasks.len();
        self.tasks.push(TaskRecord { discipline, status: Status::Running });
        proof {
            assert(self@.tasks =~= old(self)@.spawn(discipline).tasks);
            assert forall|t: int, scope: nat| #[trigger] self@.in_scope(t, scope) implies scope
                < self@.scopes.len() && (self@.scopes[scope as int] || !(self@.tasks[t].outcome
                is Running)) by {
                if t < task {
                    assert(old(self)@.in_scope(t, scope));
                }
            }
        }
        task
    }

    /// Starts a task that nobody waits for. The ticket is for the body of the task;
    /// the caller keeps nothing.
    pub fn spawn_detached(&mut self) -> (worker: Worker)
        requires
            old(self).wf(),
        ensures
            final(self).wf(),
            final(self)@ == old(self)@.spawn(Discipline::Detached),
            worker@ == old(self)@.tasks.len(),
    {
        Worker { task: self.spawn(Discipline::Detached) }
    }

    /// Starts a task that can be joined. The ticket is for the body of the task, the
    /// handle for the caller.
    pub fn spawn_joinable(&mut self) -> (started: (Worker, Handle))
        requires
            old(self).wf(),
        ensures
            final(self).wf(),
            final(self)@ == old(self)@.spawn(Discipline::Joinable),
            started.0@ == old(self)@.tasks.len(),
            started.1@ == old(self)@.tasks.len(),
    {
        let task = self.spawn(Discipline::Joinable);
        (Worker { task }, Handle { task })
    }

    /// Starts a task inside `scope`, which will not be left before the task has ended.
    pub fn spawn_scoped(&mut self, scope: &Scope) -> (worker: Worker)
        requires
            old(self).wf(),
            old(self)@.is_open(scope@),
        ensures
            final(self).wf(),
            final(self)@ == old(self)@.spawn(Discipline::Scoped { scope: scope@ as usize }),
            worker@ == old(self)@.tasks.len(),
    {
        Worker { task: self.spawn(Discipline::Scoped { scope: scope.id }) }
    }

    /// Opens a scope.
    pub fn open_scope(&mut self) -> (scope: Scope)
        requires
            old(self).wf(),
        ensures
            final(self).wf(),
            final(self)@ == old(self)@.open_scope(),
            scope@ == old(self)@.scopes.len(),
    {
        let id = self.scopes.len();
        self.scopes.push(true);
        proof {
            assert forall|t: int, scope: nat| #[trigger] self@.in_scope(t, scope) implies scope
                < self@.scopes.len() && (self@.scopes[scope as int] || !(self@.tasks[t].outcome
                is Running)) by {
                assert(old(self)@.in_scope(t, scope));
            }
        }
        Scope { id }
    }

    /// Whether the task of `worker` is a task of this spawner that has not ended.
    pub fn is_running(&self, worker: &Worker) -> (running: bool)
        ensures
            running == self@.is_running(worker@),
    {
        worker.task < self.tasks.len() && self.tasks[worker.task].is_running()
    }

    /// Whether `handle` joins a joinable task of this spawner.
    pub fn is_joinable(&self, handle: &Handle) -> (joinable: bool)
        ensures
            joinable == self@.is_joinable(handle@),
    {
        handle.task < self.tasks.len() && match self.tasks[handle.task].discipline {
            Discipline::Joinable => true,
            _ => false,
        }
    }

    /// Whether `scope` is a scope of this spawner that was not left yet.
    pub fn is_open(&self, scope: &Scope) -> (open: bool)
        ensures
            open == self@.is_open(scope@),
    {
        scope.id < self.scopes.len() && self.scopes[scope.id]
    }

    /// How many tasks were spawned so far.
    pub fn task_count(&self) -> (count: usize)
        ensures
            count == self@.tasks.len(),
    {
        self.tasks.len()
    }

    fn finish(&mut self, task: usize, status: Status)
        requires
            old(self).wf(),
            old(self)@.is_running(task as nat),
            !(status is Running),
        ensures
            final(self).wf(),
            final(self)@ == old(self)@.finish(
                task as nat,
                match status {
                    Status::Running => Outcome::Running,
                    Status::Completed => Outcome::Completed,
                    Status::Failed(fault) => Outcome::Failed { fault: fault@ },
                },
            ),
    {
        let discipline = self.tasks[task].discipline;
        self.tasks.set(task, TaskRecord { discipline, status });
        proof {
            assert(self@.tasks =~= old(self)@.tasks.update(task as int, self@.tasks[task as int]));
            assert forall|t: int, scope: nat| #[trigger] self@.in_scope(t, scope) implies scope
                < self@.scopes.len() && (self@.scopes[scope as int] || !(self@.tasks[t].outcome
                is Running)) by {
                assert(old(self)@.in_scope(t, scope));
            }
        }
    }
}

impl Worker {
    /// The task that holds the ticket.
    pub fn task(&self) -> (task: usize)
        ensures
            task == self@,
    {
        self.task
    }

    /// The task ran to its end.
    pub fn complete(self, spawner: &mut Spawner)
        requires
            old(spawner).wf(),
            old(spawner)@.is_running(self@),
        ensures
            final(spawner).wf(),
            final(spawner)@ == old(spawner)@.finish(self@, Outcome::Completed),
    {
        spawner.finish(self.task, Status::Completed);
    }

    /// The task ended with a fault, which `fault` describes. Only the record of this
    /// task changes.
    pub fn fail(self, spawner: &mut Spawner, fault: String)
        requires
            old(spawner).wf(),
            old(spawner)@.is_running(self@),
        ensures
            final(spawner).wf(),
            final(spawner)@ == old(spawner)@.finish(self@, Outcome::Failed { fault: fault@ }),
    {
        spawner.finish(self.task, Status::Failed(fault));
    }
}

impl Handle {
    /// The task that the handle joins.
    pub fn task(&self) -> (task: usize)
        ensures
            task == self@,
    {
        self.task
    }

    /// One attempt to join the task. While the task runs the handle comes back and the
    /// caller has to wait; once it has ended the handle is used up and the caller
    /// learns how it ended, with the description of the fault if there was one.
    pub fn join(self, spawner: &Spawner) -> (step: JoinStep)
        requires
            spawner.wf(),
            spawner@.is_joinable(self@),
        ensures
            match step {
                JoinStep::Pending(handle) => spawner@.is_running(self@) && handle@ == self@,
                JoinStep::Joined(Ok(())) => spawner@.tasks[self@ as int].outcome is Completed,
                JoinStep::Joined(Err(failure)) => spawner@.tasks[self@ as int].outcome == (
                Outcome::Failed { fault: failure.detail@ }),
            },
    {
        let record = &spawner.tasks[self.task];
        if record.is_running() {
            JoinStep::Pending(self)
        } else {
            match record.failure() {
                Some(failure) => JoinStep::Joined(Err(failure)),
                None => JoinStep::Joined(Ok(())),
            }
        }
    }
}

impl Scope {
    /// The scope's place among the scopes of its spawner.
    pub fn id(&self) -> (id: usize)
        ensures
            id == self@,
    {
        self.id
    }

    /// One attempt to leave the scope. While one of its tasks runs the scope comes
    /// back and the caller has to wait; once all have ended the scope is left, and the
    /// caller learns whether one of them failed.
    pub fn close(self, spawner: &mut Spawner) -> (step: ScopeStep)
        requires
            old(spawner).wf(),
            old(spawner)@.is_open(self@),
        ensures
            final(spawner).wf(),
            final(spawner)@ == old(spawner)@.close_scope(self@),
            match step {
                ScopeStep::Pending(scope) => old(spawner)@.scope_running(self@) && scope@
                    == self@,
                ScopeStep::Left(Ok(())) => !old(spawner)@.scope_running(self@) && forall|
                    task: int,
                | !#[trigger] old(spawner)@.failed_in(task, self@),
                ScopeStep::Left(Err(failure)) => !old(spawner)@.scope_running(self@) && exists|
                    task: int,
                | #[trigger]
                    old(spawner)@.first_failed_in(task, self@) && old(spawner)@.tasks[task].outcome
                        == (Outcome::Failed { fault: failure.detail@ }),
            },
    {
        let mut first: Option<TaskFailure> = None;
        let ghost mut first_at: int = 0;
        let mut at: usize = 0;
        while at < spawner.tasks.len()
            invariant
                spawner == old(spawner),
                spawner.wf(),
                at <= spawner.tasks.len(),
                forall|task: int|
                    0 <= task < at ==> !(#[trigger] spawner@.in_scope(task, self@)
                        && spawner@.tasks[task].outcome is Running),
                first is None ==> forall|task: int|
                    0 <= task < at ==> !#[trigger] spawner@.failed_in(task, self@),
                first matches Some(failure) ==> 0 <= first_at < at && spawner@.first_failed_in(
                    first_at,
                    self@,
                ) && spawner@.tasks[first_at].outcome == (Outcome::Failed {
                    fault: failure.detail@,
                }),
            decreases spawner.tasks.len() - at,
        {
            let record = &spawner.tasks[at];
            if record.in_scope(self.id) {
                if record.is_running() {
                    proof {
                        assert(spawner@.in_scope(at as int, self@));
                    }
                    return ScopeStep::Pending(self);
                }
                if first.is_none() {
                    first = record.failure();
                    proof {
                        first_at = at as int;
                    }
                }
            }
            at = at + 1;
        }
        spawner.scopes.set(self.id, false);
        proof {
            assert forall|t: int, scope: nat| #[trigger] spawner@.in_scope(t, scope) implies scope
                < spawner@.scopes.len() && (spawner@.scopes[scope as int] || !(
            spawner@.tasks[t].outcome is Running)) by {
                assert(old(spawner)@.in_scope(t, scope));
            }
            if first is None {
                assert forall|task: int| !#[trigger] old(spawner)@.failed_in(task, self@) by {}
            }
        }
        ScopeStep::Left(
            match first {
                Some(failure) => Err(failure),
                None => Ok(()),
            },
        )
    }
}

} // verus!

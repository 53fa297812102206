use coordination::task::{Handle, JoinStep, Scope, ScopeStep, Spawner, TaskFailure};

fn pending_handle(step: JoinStep) -> Handle {
    match step {
        JoinStep::Pending(handle) => handle,
        JoinStep::Joined(result) => panic!("the task has not ended, yet join gave {:?}", result),
    }
}

fn joined(step: JoinStep) -> Result<(), TaskFailure> {
    match step {
        JoinStep::Joined(result) => result,
        JoinStep::Pending(handle) => panic!("the task has ended, yet join gave back {:?}", handle),
    }
}

fn pending_scope(step: ScopeStep) -> Scope {
    match step {
        ScopeStep::Pending(scope) => scope,
        ScopeStep::Left(result) => panic!("a task still runs, yet the scope was left: {:?}", result),
    }
}

fn left(step: ScopeStep) -> Result<(), TaskFailure> {
    match step {
        ScopeStep::Left(result) => result,
        ScopeStep::Pending(scope) => panic!("all tasks ended, yet {:?} was not left", scope),
    }
}

#[test]
fn a_new_spawner_has_no_tasks() {
    let spawner = Spawner::new();
    assert_eq!(spawner.task_count(), 0);
}

#[test]
fn tasks_are_numbered_in_the_order_of_spawning() {
    let mut spawner = Spawner::new();
    let first = spawner.spawn_detached();
    let (second, handle) = spawner.spawn_joinable();
    let scope = spawner.open_scope();
    let third = spawner.spawn_scoped(&scope);
    assert_eq!(first.task(), 0);
    assert_eq!(second.task(), 1);
    assert_eq!(handle.task(), 1);
    assert_eq!(third.task(), 2);
    assert_eq!(scope.id(), 0);
    assert_eq!(spawner.task_count(), 3);
    assert!(spawner.is_running(&first));
    assert!(spawner.is_running(&second));
    assert!(spawner.is_running(&third));
    assert!(spawner.is_joinable(&handle));
    assert!(spawner.is_open(&scope));
}

#[test]
fn join_waits_until_the_task_has_ended() {
    let mut spawner = Spawner::new();
    let (worker, handle) = spawner.spawn_joinable();
    let handle = pending_handle(handle.join(&spawner));
    let handle = pending_handle(handle.join(&spawner));
    assert_eq!(handle.task(), 0);
    worker.complete(&mut spawner);
    assert_eq!(joined(handle.join(&spawner)), Ok(()));
}

#[test]
fn join_surfaces_the_fault_with_its_detail() {
    let mut spawner = Spawner::new();
    let (worker, handle) = spawner.spawn_joinable();
    worker.fail(&mut spawner, "index out of bounds".to_string());
    assert_eq!(
        joined(handle.join(&spawner)),
        Err(TaskFailure { detail: "index out of bounds".to_string() })
    );
}

#[test]
fn an_ended_task_is_no_longer_running() {
    let mut spawner = Spawner::new();
    let (done, _done_handle) = spawner.spawn_joinable();
    let (failed, _failed_handle) = spawner.spawn_joinable();
    let (running, _running_handle) = spawner.spawn_joinable();
    done.complete(&mut spawner);
    failed.fail(&mut spawner, "boom".to_string());
    assert!(spawner.is_running(&running));
    let (again, handle) = spawner.spawn_joinable();
    assert_eq!(again.task(), 3);
    assert!(spawner.is_running(&again));
    assert!(spawner.is_joinable(&handle));
}

#[test]
fn a_fault_in_a_detached_task_reaches_nobody() {
    let mut spawner = Spawner::new();
    let (joinable, handle) = spawner.spawn_joinable();
    let scope = spawner.open_scope();
    let scoped = spawner.spawn_scoped(&scope);
    let detached = spawner.spawn_detached();
    detached.fail(&mut spawner, "lost".to_string());
    assert!(spawner.is_running(&joinable));
    assert!(spawner.is_running(&scoped));
    let handle = pending_handle(handle.join(&spawner));
    let scope = pending_scope(scope.close(&mut spawner));
    joinable.complete(&mut spawner);
    scoped.complete(&mut spawner);
    assert_eq!(joined(handle.join(&spawner)), Ok(()));
    assert_eq!(left(scope.close(&mut spawner)), Ok(()));
    let later = spawner.spawn_detached();
    assert!(spawner.is_running(&later));
    assert_eq!(spawner.task_count(), 4);
}

#[test]
fn a_detached_task_is_not_joinable() {
    let mut spawner = Spawner::new();
    let detached = spawner.spawn_detached();
    let (_, handle) = spawner.spawn_joinable();
    assert!(spawner.is_joinable(&handle));
    assert_eq!(detached.task(), 0);
    let mut other = Spawner::new();
    let _ = other.spawn_detached();
    let (_, foreign) = other.spawn_joinable();
    assert!(spawner.is_joinable(&foreign));
    let mut third = Spawner::new();
    let (_, misplaced) = third.spawn_joinable();
    assert!(!spawner.is_joinable(&misplaced));
}

#[test]
fn a_scope_is_left_only_when_all_its_tasks_have_ended() {
    let mut spawner = Spawner::new();
    let scope = spawner.open_scope();
    let mut workers = Vec::new();
    for _ in 0..4 {
        workers.push(spawner.spawn_scoped(&scope));
    }
    let mut scope = pending_scope(scope.close(&mut spawner));
    for worker in workers {
        assert!(spawner.is_open(&scope));
        worker.complete(&mut spawner);
        scope = match scope.close(&mut spawner) {
            ScopeStep::Pending(scope) => scope,
            ScopeStep::Left(result) => {
                assert_eq!(result, Ok(()));
                assert_eq!(spawner.task_count(), 4);
                return;
            },
        };
    }
    panic!("the scope was not left after its last task ended");
}

#[test]
fn a_scope_leaves_at_the_last_ending_and_not_before() {
    let mut spawner = Spawner::new();
    let scope = spawner.open_scope();
    let first = spawner.spawn_scoped(&scope);
    let second = spawner.spawn_scoped(&scope);
    second.complete(&mut spawner);
    let scope = pending_scope(scope.close(&mut spawner));
    first.complete(&mut spawner);
    assert_eq!(left(scope.close(&mut spawner)), Ok(()));
}

#[test]
fn an_empty_scope_is_left_at_once() {
    let mut spawner = Spawner::new();
    let scope = spawner.open_scope();
    assert_eq!(left(scope.close(&mut spawner)), Ok(()));
}

#[test]
fn a_scope_waits_for_its_own_tasks_only() {
    let mut spawner = Spawner::new();
    let outer = spawner.open_scope();
    let inner = spawner.open_scope();
    assert_eq!(outer.id(), 0);
    assert_eq!(inner.id(), 1);
    let slow = spawner.spawn_scoped(&outer);
    let quick = spawner.spawn_scoped(&inner);
    let _detached = spawner.spawn_detached();
    let (_joinable, _handle) = spawner.spawn_joinable();
    quick.complete(&mut spawner);
    assert_eq!(left(inner.close(&mut spawner)), Ok(()));
    let outer = pending_scope(outer.close(&mut spawner));
    assert!(spawner.is_open(&outer));
    slow.complete(&mut spawner);
    assert_eq!(left(outer.close(&mut spawner)), Ok(()));
}

#[test]
fn a_scope_reports_the_first_of_its_tasks_that_failed() {
    let mut spawner = Spawner::new();
    let scope = spawner.open_scope();
    let fine = spawner.spawn_scoped(&scope);
    let early = spawner.spawn_scoped(&scope);
    let late = spawner.spawn_scoped(&scope);
    late.fail(&mut spawner, "late".to_string());
    let scope = pending_scope(scope.close(&mut spawner));
    early.fail(&mut spawner, "early".to_string());
    let scope = pending_scope(scope.close(&mut spawner));
    fine.complete(&mut spawner);
    assert_eq!(
        left(scope.close(&mut spawner)),
        Err(TaskFailure { detail: "early".to_string() })
    );
}

#[test]
fn a_left_scope_is_not_open() {
    let mut spawner = Spawner::new();
    let scope = spawner.open_scope();
    let id = scope.id();
    assert_eq!(left(scope.close(&mut spawner)), Ok(()));
    let next = spawner.open_scope();
    assert_ne!(next.id(), id);
    assert!(spawner.is_open(&next));
    let mut other = Spawner::new();
    let foreign = other.open_scope();
    assert_eq!(foreign.id(), id);
    assert!(!spawner.is_open(&foreign));
}

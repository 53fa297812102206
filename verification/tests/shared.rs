use coordination::counter::{make_counter, Counter};
use coordination::shared::{make_shared, Shared, SharedHandle};

fn add_one(shared: &mut Shared<Counter>, handle: &SharedHandle, task: usize) {
    let counter = handle.get_mut(shared);
    let guard = counter.lock(task).expect("the lock is free between tasks");
    guard.increment(counter);
    guard.release(counter);
}

fn read(shared: &mut Shared<Counter>, handle: &SharedHandle) -> i32 {
    let counter = handle.get_mut(shared);
    let guard = counter.lock(usize::MAX).expect("the lock is free between tasks");
    let value = guard.get(counter);
    guard.release(counter);
    value
}

#[test]
fn a_shared_value_starts_with_one_handle() {
    let (shared, first) = make_shared(7u32);
    assert_eq!(first.id(), 0);
    assert!(shared.has_handle(&first));
    assert_eq!(shared.handle_count(), 1);
    assert!(!shared.is_torn_down());
    assert_eq!(*first.get(&shared), 7);
}

#[test]
fn clones_count_and_get_fresh_identities() {
    let (mut shared, first) = make_shared("x".to_string());
    let second = first.clone_handle(&mut shared);
    let third = second.clone_handle(&mut shared);
    assert_eq!(second.id(), 1);
    assert_eq!(third.id(), 2);
    assert_eq!(shared.handle_count(), 3);
    assert_eq!(second.release(&mut shared), None);
    assert_eq!(shared.handle_count(), 2);
    let fourth = third.clone_handle(&mut shared);
    assert_eq!(fourth.id(), 3);
    assert_eq!(first.get(&shared), "x");
}

#[test]
fn the_value_outlives_the_first_handle() {
    let (mut shared, first) = make_shared(make_counter(0));
    let clone = first.clone_handle(&mut shared);
    add_one(&mut shared, &first, 0);
    assert!(first.release(&mut shared).is_none());
    assert!(!shared.is_torn_down());
    assert!(shared.has_handle(&clone));
    assert_eq!(shared.handle_count(), 1);
    add_one(&mut shared, &clone, 1);
    assert_eq!(read(&mut shared, &clone), 2);
}

#[test]
fn the_last_release_tears_the_value_down_and_returns_it() {
    let (mut shared, first) = make_shared(vec![1, 2, 3]);
    let second = first.clone_handle(&mut shared);
    assert_eq!(second.release(&mut shared), None);
    assert_eq!(first.release(&mut shared), Some(vec![1, 2, 3]));
    assert!(shared.is_torn_down());
    assert_eq!(shared.handle_count(), 0);
}

#[test]
fn a_change_made_through_one_handle_is_seen_through_another() {
    let (mut shared, first) = make_shared(1u64);
    let second = first.clone_handle(&mut shared);
    *first.get_mut(&mut shared) = 10;
    assert_eq!(*second.get(&shared), 10);
    *second.get_mut(&mut shared) += 5;
    assert_eq!(*first.get(&shared), 15);
}

#[test]
fn ten_tasks_with_a_handle_each_give_ten() {
    let (mut shared, first) = make_shared(make_counter(0));
    let mut handles = Vec::new();
    for _ in 0..10 {
        handles.push(first.clone_handle(&mut shared));
    }
    assert_eq!(shared.handle_count(), 11);
    for (task, handle) in handles.into_iter().enumerate() {
        add_one(&mut shared, &handle, task);
        assert!(handle.release(&mut shared).is_none());
    }
    assert_eq!(shared.handle_count(), 1);
    assert_eq!(read(&mut shared, &first), 10);
    let mut counter = first.release(&mut shared).expect("the last handle gets the counter");
    assert!(shared.is_torn_down());
    let guard = counter.lock(0).expect("the lock is free");
    assert_eq!(guard.get(&counter), 10);
    guard.release(&mut counter);
}

#[test]
fn a_released_handle_is_no_handle_any_more() {
    let (mut shared, first) = make_shared(0u8);
    let second = first.clone_handle(&mut shared);
    assert!(second.release(&mut shared).is_none());
    let (mut other, foreign) = make_shared(0u8);
    let foreign_clone = foreign.clone_handle(&mut other);
    assert_eq!(foreign_clone.id(), 1);
    assert!(!shared.has_handle(&foreign_clone));
    assert!(shared.has_handle(&first));
}

use coordination::counter::Counter;
use coordination::crew::{Crew, Phase, Progress};

fn read(mut counter: Counter) -> i32 {
    let guard = counter.lock(usize::MAX).expect("nobody holds the lock once all are done");
    let value = guard.get(&counter);
    guard.release(&mut counter);
    value
}

#[test]
fn members_one_after_the_other() {
    let mut crew = Crew::new(10, 0);
    let mut turns = Vec::new();
    for member in 0..10 {
        turns.push(member);
        turns.push(member);
        turns.push(member);
    }
    crew.run(&turns);
    assert!(crew.is_done());
    assert_eq!(read(crew.into_counter()), 10);
}

#[test]
fn members_in_reverse_order() {
    let mut crew = Crew::new(10, 0);
    let mut turns = Vec::new();
    for member in (0..10).rev() {
        turns.push(member);
        turns.push(member);
        turns.push(member);
    }
    crew.run(&turns);
    assert!(crew.is_done());
    assert_eq!(read(crew.into_counter()), 10);
}

#[test]
fn round_robin_with_blocked_turns() {
    let mut crew = Crew::new(10, 0);
    let mut rounds = 0;
    while !crew.is_done() {
        let turns: Vec<usize> = (0..10).collect();
        crew.run(&turns);
        rounds += 1;
        assert!(rounds <= 30);
    }
    assert_eq!(read(crew.into_counter()), 10);
}

#[test]
fn a_scrambled_schedule_gives_the_same_total() {
    let mut crew = Crew::new(10, 0);
    let mut state: u64 = 2024;
    let mut turns = 0;
    while !crew.is_done() {
        state = (state * 1103515245 + 12345) % 2147483648;
        crew.step((state / 65536 % 10) as usize);
        turns += 1;
        assert!(turns <= 100000);
    }
    assert_eq!(read(crew.into_counter()), 10);
}

#[test]
fn the_total_starts_from_the_initial_value() {
    let mut crew = Crew::new(4, -20);
    crew.run(&vec![2, 2, 2, 0, 0, 0, 3, 3, 3, 1, 1, 1]);
    assert!(crew.is_done());
    assert_eq!(read(crew.into_counter()), -16);
}

#[test]
fn a_member_waits_while_another_holds_the_lock() {
    let mut crew = Crew::new(2, 0);
    assert_eq!(crew.step(0), Progress::Advanced);
    assert_eq!(crew.phase(0), Some(Phase::Holding));
    assert_eq!(crew.step(1), Progress::Blocked);
    assert_eq!(crew.phase(1), Some(Phase::Waiting));
    assert_eq!(crew.step(0), Progress::Advanced);
    assert_eq!(crew.phase(0), Some(Phase::Updated));
    assert_eq!(crew.step(1), Progress::Blocked);
    assert_eq!(crew.step(0), Progress::Advanced);
    assert_eq!(crew.phase(0), Some(Phase::Done));
    assert_eq!(crew.step(0), Progress::Idle);
    assert_eq!(crew.step(1), Progress::Advanced);
    assert_eq!(crew.step(1), Progress::Advanced);
    assert!(!crew.is_done());
    assert_eq!(crew.step(1), Progress::Advanced);
    assert!(crew.is_done());
    assert_eq!(read(crew.into_counter()), 2);
}

#[test]
fn the_counter_of_an_unfinished_crew_shows_the_updates_made() {
    let mut crew = Crew::new(3, 0);
    crew.run(&vec![1, 1, 1, 0, 2, 0]);
    assert_eq!(crew.phase(0), Some(Phase::Updated));
    assert_eq!(crew.phase(1), Some(Phase::Done));
    assert_eq!(crew.phase(2), Some(Phase::Waiting));
    let mut counter = crew.into_counter();
    assert!(counter.is_locked());
    assert!(counter.lock(7).is_none());
}

#[test]
fn a_turn_for_nobody_is_idle() {
    let mut crew = Crew::new(2, 0);
    assert_eq!(crew.size(), 2);
    assert_eq!(crew.step(2), Progress::Idle);
    assert_eq!(crew.step(usize::MAX), Progress::Idle);
    assert_eq!(crew.phase(2), None);
    assert_eq!(crew.phase(0), Some(Phase::Waiting));
    assert_eq!(crew.phase(1), Some(Phase::Waiting));
}

#[test]
fn an_empty_crew_is_done_at_once() {
    let crew = Crew::new(0, 7);
    assert!(crew.is_done());
    assert_eq!(read(crew.into_counter()), 7);
}

#[test]
fn a_crew_fills_the_counter_to_its_limit() {
    let mut crew = Crew::new(2, i32::MAX - 2);
    crew.run(&vec![0, 0, 0, 1, 1, 1]);
    assert!(crew.is_done());
    assert_eq!(read(crew.into_counter()), i32::MAX);
}

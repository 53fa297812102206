//! An integer behind a mutual-exclusion lock.
//!
//! The integer can be read or written only through a [`Guard`], and a guard exists only
//! while its task holds the lock. A guard is given back with [`Guard::release`], on the
//! normal path and on a fault alike: the lock is never poisoned, so the next task to ask
//! finds it free and sees whatever the last holder stored.

use vstd::prelude::*;

verus! {

/// What a counter is: its integer, and the task that holds its lock, if one does.
pub struct CounterView {
    pub value: int,
    pub holder: Option<nat>,
}

impl CounterView {
    /// The state after `task` asked for the lock: it holds the lock if the lock was free.
    pub open spec fn acquire(self, task: nat) -> CounterView {
        if self.holder is None {
            CounterView { value: self.value, holder: Some(task) }
        } else {
            self
        }
    }

    /// The state after the holder gave the lock back.
    pub open spec fn release(self) -> CounterView {
        CounterView { value: self.value, holder: None }
    }

    /// The state after the holder stored `value`.
    pub open spec fn store(self, value: int) -> CounterView {
        CounterView { value, holder: self.holder }
    }
}

/// An integer and its lock.
pub struct Counter {
    value: i32,
    holder: Option<usize>,
}

/// Proof that a task holds the lock of a counter. It cannot be copied.
#[derive(Debug)]
pub struct Guard {
    task: usize,
}

impl View for Counter {
    type V = CounterView;

    closed spec fn view(&self) -> CounterView {
        CounterView {
            value: self.value as int,
            holder: match self.holder {
                Some(task) => Some(task as nat),
                None => None,
            },
        }
    }
}

impl View for Guard {
    type V = nat;

    /// The task the guard was handed to.
    closed spec fn view(&self) -> nat {
        self.task as nat
    }
}

/// A counter that holds `initial`, with its lock free.
pub fn make_counter(initial: i32) -> (counter: Counter)
    ensures
        counter@ == (CounterView { value: initial as int, holder: None }),
{
    Counter { value: initial, holder: None }
}

impl Counter {
    /// One attempt of `task` to take the lock. `None` means that another guard is live:
    /// the task has to wait and ask again.
    pub fn lock(&mut self, task: usize) -> (guard: Option<Guard>)
        ensures
            final(self)@ == old(self)@.acquire(task as nat),
            guard is Some <==> old(self)@.holder is None,
            guard is Some ==> guard.unwrap()@ == task,
    {
        if self.holder.is_none() {
            self.holder = Some(task);
            Some(Guard { task })
        } else {
            None
        }
    }

    /// Whether the lock is held.
    pub fn is_locked(&self) -> (locked: bool)
        ensures
            locked == (self@.holder is Some),
    {
        self.holder.is_some()
    }

    /// Whether `guard` is the live guard of this counter.
    pub fn is_held_by(&self, guard: &Guard) -> (held: bool)
        ensures
            held == (self@.holder == Some(guard@)),
    {
        match self.holder {
            Some(task) => task == guard.task,
            None => false,
        }
    }
}

impl Guard {
    /// The task that holds the lock through this guard.
    pub fn task(&self) -> (task: usize)
        ensures
            task == self@,
    {
        self.task
    }

    /// Reads the integer.
    pub fn get(&self, counter: &Counter) -> (value: i32)
        requires
            counter@.holder == Some(self@),
        ensures
            value == counter@.value,
    {
        counter.value
    }

    /// Stores `value`.
    pub fn set(&self, counter: &mut Counter, value: i32)
        requires
            old(counter)@.holder == Some(self@),
        ensures
            final(counter)@ == old(counter)@.store(value as int),
    {
        counter.value = value;
    }

    /// Adds one to the integer.
    pub fn increment(&self, counter: &mut Counter)
        requires
            old(counter)@.holder == Some(self@),
            old(counter)@.value < i32::MAX,
        ensures
            final(counter)@ == old(counter)@.store(old(counter)@.value + 1),
    {
        counter.value = counter.value + 1;
    }

    /// Gives the lock back and ends the guard.
    pub fn release(self, counter: &mut Counter)
        requires
            old(counter)@.holder == Some(self@),
        ensures
            final(counter)@ == old(counter)@.release(),
    {
        counter.holder = None;
    }
}

} // verus!

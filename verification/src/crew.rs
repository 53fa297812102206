//! A crew of tasks that each add one to the same counter, under any schedule.
//!
//! Each member takes the lock, adds one, and gives the lock back: three steps, between
//! which any other member may be given a turn. A member that finds the lock held makes
//! no progress on that turn. The schedule, the order of the turns, is arbitrary; what
//! is proved here holds for every one of them.

use crate::counter::{make_counter, Counter, CounterView, Guard};
use vstd::prelude::*;

verus! {

/// How far a member of the crew has come.
#[derive(Clone, Copy, Debug, PartialEq, Eq)]
pub enum Phase {
    /// It has not got the lock yet.
    Waiting,
    /// It holds the lock and has not added yet.
    Holding,
    /// It has added and still holds the lock.
    Updated,
    /// It has given the lock back.
    Done,
}

/// What a turn did for the member that was given it.
#[derive(Clone, Copy, Debug, PartialEq, Eq)]
pub enum Progress {
    /// The member went on to its next phase.
    Advanced,
    /// The member found the lock held and has to wait.
    Blocked,
    /// The member had finished before, or is no member of the crew.
    Idle,
}

/// Whether a member in `phase` has added its one.
pub open spec fn has_updated(phase: Phase) -> bool {
    phase is Updated || phase is Done
}

/// Whether a member in `phase` holds the lock.
pub open spec fn in_critical_section(phase: Phase) -> bool {
    phase is Holding || phase is Updated
}

/// How many members have added their one.
pub open spec fn count_updated(phases: Seq<Phase>) -> nat
    decreases phases.len(),
{
    if phases.len() == 0 {
        0
    } else {
        count_updated(phases.drop_last()) + if has_updated(phases.last()) { 1nat } else { 0nat }
    }
}

/// What a crew is: the value the counter started from, the counter, and the phase of
/// each member.
pub struct CrewView {
    pub base: int,
    pub counter: CounterView,
    pub phases: Seq<Phase>,
}

impl CrewView {
    /// A crew of `size` members in front of a counter that holds `initial`.
    pub open spec fn start(size: nat, initial: int) -> CrewView {
        CrewView {
            base: initial,
            counter: CounterView { value: initial, holder: None },
            phases: Seq::new(size, |member: int| Phase::Waiting),
        }
    }

    /// The lock is held by exactly the member that is in its critical section, if any
    /// is, and the counter holds one for each member that has added.
    pub open spec fn valid(self) -> bool {
        &&& forall|member: int|
            0 <= member < self.phases.len() ==> (in_critical_section(#[trigger] self.phases[member])
                <==> self.counter.holder == Some(member as nat))
        &&& self.counter.holder matches Some(member) ==> member < self.phases.len()
        &&& self.counter.value == self.base + count_updated(self.phases)
    }

    /// Whether every member has finished.
    pub open spec fn all_done(self) -> bool {
        forall|member: int| 0 <= member < self.phases.len() ==> #[trigger] self.phases[member] is Done
    }

    /// What a turn does for `member` in this state.
    pub open spec fn progress(self, member: nat) -> Progress {
        if member >= self.phases.len() {
            Progress::Idle
        } else {
            match self.phases[member as int] {
                Phase::Waiting => if self.counter.holder is None {
                    Progress::Advanced
                } else {
                    Progress::Blocked
                },
                Phase::Holding => Progress::Advanced,
                Phase::Updated => Progress::Advanced,
                Phase::Done => Progress::Idle,
            }
        }
    }

    /// The state after `member` was given a turn.
    pub open spec fn step(self, member: nat) -> CrewView {
        if self.progress(member) is Advanced {
            match self.phases[member as int] {
                Phase::Waiting => CrewView {
                    counter: self.counter.acquire(member),
                    phases: self.phases.update(member as int, Phase::Holding),
                    ..self
                },
                Phase::Holding => CrewView {
                    counter: self.counter.store(self.counter.value + 1),
                    phases: self.phases.update(member as int, Phase::Updated),
                    ..self
                },
                _ => CrewView {
                    counter: self.counter.release(),
                    phases: self.phases.update(member as int, Phase::Done),
                    ..self
                },
            }
        } else {
            self
        }
    }

    /// The state after the turns of `schedule`, in their order.
    pub open spec fn run(self, schedule: Seq<nat>) -> CrewView
        decreases schedule.len(),
    {
        if schedule.len() == 0 {
            self
        } else {
            self.run(schedule.drop_last()).step(schedule.last())
        }
    }
}

proof fn lemma_count_update(phases: Seq<Phase>, member: int, phase: Phase)
    requires
        0 <= member < phases.len(),
    ensures
        count_updated(phases.update(member, phase)) + (if has_updated(phases[member]) {
            1nat
        } else {
            0nat
        }) == count_updated(phases) + (if has_updated(phase) {
            1nat
        } else {
            0nat
        }),
    decreases phases.len(),
{
    let changed = phases.update(member, phase);
    if member == phases.len() - 1 {
        assert(changed.drop_last() =~= phases.drop_last());
    } else {
        lemma_count_update(phases.drop_last(), member, phase);
        assert(changed.drop_last() =~= phases.drop_last().update(member, phase));
    }
}

proof fn lemma_count_bounds(phases: Seq<Phase>)
    ensures
        count_updated(phases) <= phases.len(),
        (forall|member: int| 0 <= member < phases.len() ==> has_updated(#[trigger] phases[member]))
            ==> count_updated(phases) == phases.len(),
        (forall|member: int| 0 <= member < phases.len() ==> !has_updated(#[trigger] phases[member]))
            ==> count_updated(phases) == 0,
    decreases phases.len(),
{
    if phases.len() > 0 {
        let front = phases.drop_last();
        lemma_count_bounds(front);
        assert forall|member: int| 0 <= member < front.len() implies front[member]
            == phases[member] by {}
    }
}

/// A crew that has not moved yet is valid.
pub proof fn lemma_start_valid(size: nat, initial: int)
    ensures
        CrewView::start(size, initial).valid(),
{
    lemma_count_bounds(CrewView::start(size, initial).phases);
}

/// One turn keeps a valid crew valid, whoever gets it: the lock stays with one member
/// at most, and the counter changes only by the one that its holder adds.
pub proof fn lemma_step_valid(state: CrewView, member: nat)
    requires
        state.valid(),
    ensures
        state.step(member).valid(),
        state.step(member).base == state.base,
        state.step(member).phases.len() == state.phases.len(),
{
    if state.progress(member) is Advanced {
        let after = state.step(member);
        lemma_count_update(state.phases, member as int, after.phases[member as int]);
        assert forall|other: int| 0 <= other < after.phases.len() implies (in_critical_section(
            #[trigger] after.phases[other],
        ) <==> after.counter.holder == Some(other as nat)) by {}
    }
}

/// No update is lost, whatever the schedule: after any sequence of turns the counter
/// holds its first value plus one for each member that has added, at most one member is
/// in its critical section, and once all members are done the counter holds its first
/// value plus the size of the crew.
pub proof fn lemma_no_update_is_lost(size: nat, initial: int, schedule: Seq<nat>)
    ensures
        ({
            let end = CrewView::start(size, initial).run(schedule);
            &&& end.valid()
            &&& end.phases.len() == size
            &&& end.counter.value == initial + count_updated(end.phases)
            &&& initial <= end.counter.value <= initial + size
            &&& forall|one: int, other: int|
                0 <= one < size && 0 <= other < size && in_critical_section(
                    #[trigger] end.phases[one],
                ) && in_critical_section(#[trigger] end.phases[other]) ==> one == other
            &&& end.all_done() ==> end.counter.value == initial + size && end.counter.holder
                is None
        }),
    decreases schedule.len(),
{
    let start = CrewView::start(size, initial);
    let end = start.run(schedule);
    if schedule.len() == 0 {
        lemma_start_valid(size, initial);
    } else {
        lemma_no_update_is_lost(size, initial, schedule.drop_last());
        lemma_step_valid(start.run(schedule.drop_last()), schedule.last());
    }
    lemma_count_bounds(end.phases);
    if end.all_done() {
        assert forall|member: int| 0 <= member < end.phases.len() implies has_updated(
            #[trigger] end.phases[member],
        ) by {}
        if end.counter.holder is Some {
            let holder = end.counter.holder.unwrap();
            assert(in_critical_section(end.phases[holder as int]));
        }
    }
}

/// A crew is never stuck: as long as a member is not done, some member advances when
/// it is given a turn.
pub proof fn lemma_some_member_can_advance(state: CrewView)
    requires
        state.valid(),
        !state.all_done(),
    ensures
        exists|member: nat| #[trigger] state.progress(member) is Advanced,
{
    match state.counter.holder {
        Some(holder) => {
            assert(state.progress(holder) is Advanced);
        },
        None => {
            let member = choose|member: int|
                0 <= member < state.phases.len() && !(#[trigger] state.phases[member] is Done);
            assert(state.progress(member as nat) is Advanced);
        },
    }
}

/// The schedule that `turns` spells out.
pub open spec fn schedule_of(turns: Seq<usize>) -> Seq<nat> {
    Seq::new(turns.len(), |at: int| turns[at] as nat)
}

/// A crew at work: the counter, the phase of each member, and the guard of the member
/// that holds the lock.
pub struct Crew {
    base: i32,
    counter: Counter,
    phases: Vec<Phase>,
    guard: Option<Guard>,
}

impl View for Crew {
    type V = CrewView;

    closed spec fn view(&self) -> CrewView {
        CrewView { base: self.base as int, counter: self.counter@, phases: self.phases@ }
    }
}

impl Crew {
    /// The crew is valid, the guard it keeps is the live one, and the counter has room
    /// for the one of each member.
    pub closed spec fn wf(&self) -> bool {
        &&& self@.valid()
        &&& self.base + self.phases@.len() <= i32::MAX
        &&& match self.guard {
            Some(guard) => self.counter@.holder == Some(guard@),
            None => self.counter@.holder is None,
        }
    }

    /// A well-formed crew is a valid one.
    pub proof fn lemma_view(&self)
        requires
            self.wf(),
        ensures
            self@.valid(),
    {
    }

    /// A crew of `size` members in front of a new counter that holds `initial`.
    pub fn new(size: usize, initial: i32) -> (crew: Crew)
        requires
            initial + size <= i32::MAX,
        ensures
            crew.wf(),
            crew@ == CrewView::start(size as nat, initial as int),
    {
        let mut phases: Vec<Phase> = Vec::new();
        while phases.len() < size
            invariant
                phases@.len() <= size,
                forall|member: int| 0 <= member < phases@.len() ==> phases@[member] is Waiting,
            decreases size - phases@.len(),
        {
            phases.push(Phase::Waiting);
        }
        let crew = Crew { base: initial, counter: make_counter(initial), phases, guard: None };
        proof {
            assert(crew@.phases =~= CrewView::start(size as nat, initial as int).phases);
            lemma_start_valid(size as nat, initial as int);
        }
        crew
    }

    /// How many members the crew has.
    pub fn size(&self) -> (size: usize)
        ensures
            size == self@.phases.len(),
    {
        self.phases.len()
    }

    /// The phase of `member`, if the crew has such a member.
    pub fn phase(&self, member: usize) -> (phase: Option<Phase>)
        ensures
            phase == if member < self@.phases.len() {
                Some(self@.phases[member as int])
            } else {
                None
            },
    {
        if member < self.phases.len() {
            Some(self.phases[member])
        } else {
            None
        }
    }

    /// Gives `member` one turn, and says what it did with it.
    pub fn step(&mut self, member: usize) -> (progress: Progress)
        requires
            old(self).wf(),
        ensures
            final(self).wf(),
            final(self)@ == old(self)@.step(member as nat),
            progress == old(self)@.progress(member as nat),
    {
        if member >= self.phases.len() {
            return Progress::Idle;
        }
        proof {
            lemma_step_valid(self@, member as nat);
        }
        match self.phases[member] {
            Phase::Waiting => {
                match self.counter.lock(member) {
                    Some(guard) => {
                        self.guard = Some(guard);
                        self.phases.set(member, Phase::Holding);
                        Progress::Advanced
                    },
                    None => Progress::Blocked,
                }
            },
            Phase::Holding => {
                proof {
                    lemma_count_update(self@.phases, member as int, Phase::Updated);
                    lemma_count_bounds(self@.phases.update(member as int, Phase::Updated));
                }
                match &self.guard {
                    Some(guard) => {
                        guard.increment(&mut self.counter);
                    },
                    None => {},
                }
                self.phases.set(member, Phase::Updated);
                Progress::Advanced
            },
            Phase::Updated => {
                match self.guard.take() {
                    Some(guard) => {
                        guard.release(&mut self.counter);
                    },
                    None => {},
                }
                self.phases.set(member, Phase::Done);
                Progress::Advanced
            },
            Phase::Done => Progress::Idle,
        }
    }

    /// Gives the members their turns in the order of `turns`.
    pub fn run(&mut self, turns: &Vec<usize>)
        requires
            old(self).wf(),
        ensures
            final(self).wf(),
            final(self)@ == old(self)@.run(schedule_of(turns@)),
    {
        let ghost schedule = schedule_of(turns@);
        let mut at: usize = 0;
        while at < turns.len()
            invariant
                self.wf(),
                at <= turns.len(),
                schedule == schedule_of(turns@),
                self@ == old(self)@.run(schedule.take(at as int)),
            decreases turns.len() - at,
        {
            self.step(turns[at]);
            proof {
                let taken = schedule.take(at + 1);
                assert(taken.drop_last() =~= schedule.take(at as int));
            }
            at = at + 1;
        }
        proof {
            assert(schedule.take(at as int) =~= schedule);
        }
    }

    /// Whether every member has finished.
    pub fn is_done(&self) -> (done: bool)
        ensures
            done == self@.all_done(),
    {
        let mut at: usize = 0;
        while at < self.phases.len()
            invariant
                at <= self.phases.len(),
                forall|member: int| 0 <= member < at ==> #[trigger] self@.phases[member] is Done,
            decreases self.phases.len() - at,
        {
            match self.phases[at] {
                Phase::Done => {},
                _ => {
                    return false;
                },
            }
            at = at + 1;
        }
        true
    }

    /// Ends the crew and hands its counter over, for the caller to lock and read.
    pub fn into_counter(self) -> (counter: Counter)
        ensures
            counter@ == self@.counter,
    {
        self.counter
    }
}

} // verus!

//! The live holders of a shared resource, counted.
//!
//! A roster hands out identities in order, one per holder, and remembers which of them
//! are still live. The senders of a channel and the handles of a shared value are both
//! kept in one: the resource closes, or is torn down, when the roster becomes empty.

use vstd::prelude::*;

verus! {

/// What a roster is: the identities that are live, and how many were handed out so far.
pub struct RosterView {
    pub live: Set<nat>,
    pub minted: nat,
}

impl RosterView {
    /// Only identities that were handed out can be live.
    pub open spec fn valid(self) -> bool {
        &&& self.live.finite()
        &&& forall|id: nat| self.live.contains(id) ==> id < self.minted
    }

    /// The roster of a new resource: its first holder, `0`, is live.
    pub open spec fn first() -> RosterView {
        RosterView { live: Set::empty().insert(0nat), minted: 1 }
    }

    /// The roster after one more holder joined; its identity is `self.minted`.
    pub open spec fn enroll(self) -> RosterView {
        RosterView { live: self.live.insert(self.minted), minted: self.minted + 1 }
    }

    /// The roster after holder `id` left.
    pub open spec fn dismiss(self, id: nat) -> RosterView {
        RosterView { live: self.live.remove(id), minted: self.minted }
    }

    /// Whether no holder is left.
    pub open spec fn is_empty(self) -> bool {
        self.live.len() == 0
    }
}

/// How many of `flags` are set.
pub open spec fn count_set(flags: Seq<bool>) -> nat
    decreases flags.len(),
{
    if flags.len() == 0 {
        0
    } else {
        count_set(flags.drop_last()) + if flags.last() { 1nat } else { 0nat }
    }
}

/// The identities below `bound` whose flag is set.
pub open spec fn set_below(flags: Seq<bool>, bound: nat) -> Set<nat> {
    Set::new(|id: nat| id < bound && id < flags.len() && flags[id as int])
}

proof fn lemma_count_push(flags: Seq<bool>, flag: bool)
    ensures
        count_set(flags.push(flag)) == count_set(flags) + if flag { 1nat } else { 0nat },
{
    assert(flags.push(flag).drop_last() =~= flags);
}

proof fn lemma_count_bounds(flags: Seq<bool>)
    ensures
        count_set(flags) <= flags.len(),
        count_set(flags) == 0 <==> forall|i: int| 0 <= i < flags.len() ==> !flags[i],
    decreases flags.len(),
{
    if flags.len() > 0 {
        let front = flags.drop_last();
        lemma_count_bounds(front);
        if count_set(flags) == 0 {
            assert forall|i: int| 0 <= i < flags.len() implies !flags[i] by {
                if i < front.len() {
                    assert(front[i] == flags[i]);
                }
            }
        } else if forall|i: int| 0 <= i < flags.len() ==> !flags[i] {
            assert forall|i: int| 0 <= i < front.len() implies !front[i] by {}
        }
    }
}

proof fn lemma_count_clear(flags: Seq<bool>, at: int)
    requires
        0 <= at < flags.len(),
        flags[at],
    ensures
        count_set(flags.update(at, false)) + 1 == count_set(flags),
    decreases flags.len(),
{
    let cleared = flags.update(at, false);
    if at == flags.len() - 1 {
        assert(cleared.drop_last() =~= flags.drop_last());
    } else {
        lemma_count_clear(flags.drop_last(), at);
        assert(cleared.drop_last() =~= flags.drop_last().update(at, false));
    }
}

proof fn lemma_set_below_counts(flags: Seq<bool>, bound: nat)
    requires
        bound <= flags.len(),
    ensures
        set_below(flags, bound).finite(),
        set_below(flags, bound).len() == count_set(flags.take(bound as int)),
    decreases bound,
{
    if bound == 0 {
        assert(set_below(flags, bound) =~= Set::empty());
    } else {
        let below = (bound - 1) as nat;
        lemma_set_below_counts(flags, below);
        assert(flags.take(bound as int).drop_last() =~= flags.take(below as int));
        if flags[below as int] {
            assert(set_below(flags, bound) =~= set_below(flags, below).insert(below));
        } else {
            assert(set_below(flags, bound) =~= set_below(flags, below));
        }
    }
}

/// A roster: one flag per identity handed out, and the number of flags still set.
pub struct Roster {
    alive: Vec<bool>,
    count: usize,
}

impl View for Roster {
    type V = RosterView;

    closed spec fn view(&self) -> RosterView {
        RosterView {
            live: set_below(self.alive@, self.alive@.len()),
            minted: self.alive@.len(),
        }
    }
}

impl Roster {
    /// The count that the roster keeps agrees with its flags.
    pub closed spec fn wf(&self) -> bool {
        self.count == count_set(self.alive@)
    }

    /// A well-formed roster describes a valid set of holders, finite and counted.
    pub proof fn lemma_view(&self)
        requires
            self.wf(),
        ensures
            self@.valid(),
            self@.live.finite(),
            self@.live.len() <= self@.minted,
    {
        lemma_set_below_counts(self.alive@, self.alive@.len());
        assert(self.alive@.take(self.alive@.len() as int) =~= self.alive@);
        lemma_count_bounds(self.alive@);
    }

    /// A roster with its first holder, whose identity is `0`.
    pub fn first() -> (roster: Roster)
        ensures
            roster.wf(),
            roster@ == RosterView::first(),
    {
        let mut alive: Vec<bool> = Vec::new();
        alive.push(true);
        proof {
            lemma_count_push(Seq::<bool>::empty(), true);
            assert(set_below(alive@, alive@.len()) =~= Set::empty().insert(0nat));
        }
        Roster { alive, count: 1 }
    }

    /// Enrolls one more holder and returns its identity.
    pub fn enroll(&mut self) -> (id: usize)
        requires
            old(self).wf(),
        ensures
            final(self).wf(),
            final(self)@ == old(self)@.enroll(),
            id == old(self)@.minted,
    {
        let id: usize = self.alive.len();
        self.alive.push(true);
        proof {
            assert(self.alive.len() == self.alive@.len());
            lemma_count_push(old(self).alive@, true);
            lemma_count_bounds(old(self).alive@);
            assert(set_below(self.alive@, self.alive@.len()) =~= set_below(
                old(self).alive@,
                old(self).alive@.len(),
            ).insert(id as nat));
        }
        self.count = self.count + 1;
        id
    }

    /// Whether holder `id` is live.
    pub fn contains(&self, id: usize) -> (live: bool)
        ensures
            live == self@.live.contains(id as nat),
    {
        id < self.alive.len() && self.alive[id]
    }

    /// Lets holder `id` go.
    pub fn dismiss(&mut self, id: usize)
        requires
            old(self).wf(),
            old(self)@.live.contains(id as nat),
        ensures
            final(self).wf(),
            final(self)@ == old(self)@.dismiss(id as nat),
    {
        proof {
            lemma_count_clear(self.alive@, id as int);
        }
        self.alive.set(id, false);
        self.count = self.count - 1;
        proof {
            assert(set_below(self.alive@, self.alive@.len()) =~= set_below(
                old(self).alive@,
                old(self).alive@.len(),
            ).remove(id as nat));
        }
    }

    /// How many holders are live.
    pub fn len(&self) -> (count: usize)
        requires
            self.wf(),
        ensures
            count == self@.live.len(),
    {
        proof {
            lemma_set_below_counts(self.alive@, self.alive@.len());
            assert(self.alive@.take(self.alive@.len() as int) =~= self.alive@);
        }
        self.count
    }

    /// Whether no holder is left.
    pub fn is_empty(&self) -> (empty: bool)
        requires
            self.wf(),
        ensures
            empty == self@.is_empty(),
    {
        proof {
            lemma_set_below_counts(self.alive@, self.alive@.len());
            assert(self.alive@.take(self.alive@.len() as int) =~= self.alive@);
        }
        self.count == 0
    }
}

} // verus!

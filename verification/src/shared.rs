//! A value owned by all the handles that refer to it.
//!
//! The value lives while at least one handle does, whichever handle that is: the first
//! one may be released while clones of it are still in use. It is torn down when the
//! last handle is released, and handed to whoever released it.

use crate::roster::{Roster, RosterView};
use vstd::prelude::*;

verus! {

/// What a shared value is: the value, as long as it was not torn down, and its handles.
pub struct SharedView<T> {
    pub value: Option<T>,
    pub handles: RosterView,
}

impl<T> SharedView<T> {
    /// A value that was just shared: it has one handle.
    pub open spec fn fresh(value: T) -> SharedView<T> {
        SharedView { value: Some(value), handles: RosterView::first() }
    }

    /// The value is there exactly as long as a handle is live.
    pub open spec fn valid(self) -> bool {
        &&& self.handles.valid()
        &&& self.value is Some <==> !self.handles.is_empty()
    }

    /// The state after a handle was cloned; the clone is `self.handles.minted`.
    pub open spec fn clone_handle(self) -> SharedView<T> {
        SharedView { handles: self.handles.enroll(), ..self }
    }

    /// The state after `value` was stored through a handle.
    pub open spec fn store(self, value: T) -> SharedView<T> {
        SharedView { value: Some(value), ..self }
    }

    /// The state after `handle` was released: the value goes with the last handle.
    pub open spec fn release(self, handle: nat) -> SharedView<T> {
        let handles = self.handles.dismiss(handle);
        SharedView { value: if handles.is_empty() { None } else { self.value }, handles }
    }
}

/// A shared value and the count of its handles.
pub struct Shared<T> {
    value: Option<T>,
    handles: Roster,
}

/// A handle to a shared value. It is cloned with [`SharedHandle::clone_handle`] and
/// ended with [`SharedHandle::release`].
#[derive(Debug)]
pub struct SharedHandle {
    id: usize,
}

impl<T> View for Shared<T> {
    type V = SharedView<T>;

    closed spec fn view(&self) -> SharedView<T> {
        SharedView { value: self.value, handles: self.handles@ }
    }
}

impl View for SharedHandle {
    type V = nat;

    /// The handle's identity among the handles of its value.
    closed spec fn view(&self) -> nat {
        self.id as nat
    }
}

/// Shares `value`, and returns its first handle.
pub fn make_shared<T>(value: T) -> (made: (Shared<T>, SharedHandle))
    ensures
        made.0.wf(),
        made.0@ == SharedView::fresh(value),
        made.1@ == 0,
{
    let shared = Shared { value: Some(value), handles: Roster::first() };
    proof {
        shared.handles.lemma_view();
    }
    (shared, SharedHandle { id: 0 })
}

impl<T> Shared<T> {
    /// The count of handles is right, and the value is there while it is not zero.
    pub closed spec fn wf(&self) -> bool {
        &&& self.handles.wf()
        &&& self.value is Some <==> !self.handles@.is_empty()
    }

    /// A well-formed shared value is a valid one, with finitely many handles.
    pub proof fn lemma_view(&self)
        requires
            self.wf(),
        ensures
            self@.valid(),
            self@.handles.live.finite(),
    {
        self.handles.lemma_view();
    }

    /// Whether `handle` is a live handle of this value.
    pub fn has_handle(&self, handle: &SharedHandle) -> (live: bool)
        ensures
            live == self@.handles.live.contains(handle@),
    {
        self.handles.contains(handle.id)
    }

    /// How many handles are live.
    pub fn handle_count(&self) -> (count: usize)
        requires
            self.wf(),
        ensures
            count == self@.handles.live.len(),
    {
        self.handles.len()
    }

    /// Whether the value was torn down.
    pub fn is_torn_down(&self) -> (gone: bool)
        ensures
            gone == (self@.value is None),
    {
        self.value.is_none()
    }
}

impl SharedHandle {
    /// The handle's identity among the handles of its value.
    pub fn id(&self) -> (id: usize)
        ensures
            id == self@,
    {
        self.id
    }

    /// One more handle to the same value.
    pub fn clone_handle<T>(&self, shared: &mut Shared<T>) -> (clone: SharedHandle)
        requires
            old(shared).wf(),
            old(shared)@.handles.live.contains(self@),
        ensures
            final(shared).wf(),
            final(shared)@ == old(shared)@.clone_handle(),
            clone@ == old(shared)@.handles.minted,
    {
        let id = shared.handles.enroll();
        proof {
            old(shared).handles.lemma_view();
            shared.handles.lemma_view();
        }
        SharedHandle { id }
    }

    /// The value.
    pub fn get<'a, T>(&self, shared: &'a Shared<T>) -> (value: &'a T)
        requires
            shared.wf(),
            shared@.handles.live.contains(self@),
        ensures
            shared@.value == Some(*value),
    {
        proof {
            shared.handles.lemma_view();
        }
        shared.value.as_ref().unwrap()
    }

    /// The value, to be changed in place.
    pub fn get_mut<'a, T>(&self, shared: &'a mut Shared<T>) -> (value: &'a mut T)
        requires
            old(shared).wf(),
            old(shared)@.handles.live.contains(self@),
        ensures
            old(shared)@.value == Some(*value),
            final(shared).wf(),
            final(shared)@ == old(shared)@.store(*final(value)),
    {
        proof {
            shared.handles.lemma_view();
        }
        shared.value.as_mut().unwrap()
    }

    /// Ends this handle. If it was the last one the value is torn down and returned.
    pub fn release<T>(self, shared: &mut Shared<T>) -> (torn_down: Option<T>)
        requires
            old(shared).wf(),
            old(shared)@.handles.live.contains(self@),
        ensures
            final(shared).wf(),
            final(shared)@ == old(shared)@.release(self@),
            torn_down == if final(shared)@.handles.is_empty() {
                old(shared)@.value
            } else {
                None
            },
    {
        shared.handles.dismiss(self.id);
        proof {
            shared.handles.lemma_view();
        }
        if shared.handles.is_empty() {
            shared.value.take()
        } else {
            None
        }
    }
}

} // verus!

//! Histories of a shared value: what holds after any sequence of operations on its
//! handles, in whatever order the tasks that hold them made their moves.

use crate::shared::SharedView;
use vstd::prelude::*;

verus! {

/// One operation on a shared value, as it took effect.
pub enum SharedOp<T> {
    /// `handle` was cloned.
    CloneHandle { handle: nat },
    /// `value` was stored through `handle`.
    Store { handle: nat, value: T },
    /// `handle` was released.
    Release { handle: nat },
}

/// The value that is current after `ops`: the last one stored, or `initial` if none was.
pub open spec fn last_stored<T>(initial: T, ops: Seq<SharedOp<T>>) -> T
    decreases ops.len(),
{
    if ops.len() == 0 {
        initial
    } else {
        match ops.last() {
            SharedOp::Store { value, .. } => value,
            _ => last_stored(initial, ops.drop_last()),
        }
    }
}

/// Whether some operation of `ops` released `handle`.
pub open spec fn releases<T>(ops: Seq<SharedOp<T>>, handle: nat) -> bool {
    exists|k: int|
        0 <= k < ops.len() && #[trigger] ops[k] == (SharedOp::<T>::Release { handle })
}

impl<T> SharedView<T> {
    /// Whether `op` can be made in this state: only a live handle acts.
    pub open spec fn enabled(self, op: SharedOp<T>) -> bool {
        match op {
            SharedOp::CloneHandle { handle } => self.handles.live.contains(handle),
            SharedOp::Store { handle, .. } => self.handles.live.contains(handle),
            SharedOp::Release { handle } => self.handles.live.contains(handle),
        }
    }

    /// The state after `op`.
    pub open spec fn step(self, op: SharedOp<T>) -> SharedView<T> {
        match op {
            SharedOp::CloneHandle { .. } => self.clone_handle(),
            SharedOp::Store { value, .. } => self.store(value),
            SharedOp::Release { handle } => self.release(handle),
        }
    }

    /// The state after the operations of `ops`, in their order.
    pub open spec fn run(self, ops: Seq<SharedOp<T>>) -> SharedView<T>
        decreases ops.len(),
    {
        if ops.len() == 0 {
            self
        } else {
            self.run(ops.drop_last()).step(ops.last())
        }
    }

    /// Whether each operation of `ops` can be made when its turn comes.
    pub open spec fn legal(self, ops: Seq<SharedOp<T>>) -> bool
        decreases ops.len(),
    {
        ops.len() > 0 ==> self.legal(ops.drop_last()) && self.run(ops.drop_last()).enabled(
            ops.last(),
        )
    }
}

/// The value lives exactly as long as a handle does, and stays consistent: after a
/// legal history it is the last value stored if any handle is left, whichever handles
/// were released on the way, and it is gone if none is left.
pub proof fn lemma_value_lives_while_a_handle_does<T>(start: SharedView<T>, ops: Seq<SharedOp<T>>)
    requires
        start.valid(),
        start.value is Some,
        start.legal(ops),
    ensures
        start.run(ops).valid(),
        start.run(ops).value == if start.run(ops).handles.is_empty() {
            None
        } else {
            Some(last_stored(start.value.unwrap(), ops))
        },
    decreases ops.len(),
{
    if ops.len() > 0 {
        lemma_value_lives_while_a_handle_does(start, ops.drop_last());
    }
}

/// A handle stays live until it is released itself: neither the release of another
/// handle, the first one included, nor a clone or a store takes it away.
pub proof fn lemma_handle_lives_until_released<T>(
    start: SharedView<T>,
    ops: Seq<SharedOp<T>>,
    handle: nat,
)
    requires
        start.handles.live.contains(handle),
        !releases(ops, handle),
    ensures
        start.run(ops).handles.live.contains(handle),
    decreases ops.len(),
{
    if ops.len() > 0 {
        let earlier = ops.drop_last();
        assert(!releases(earlier, handle)) by {
            if releases(earlier, handle) {
                let k = choose|k: int|
                    0 <= k < earlier.len() && #[trigger] earlier[k] == (SharedOp::<
                        T,
                    >::Release { handle });
                assert(ops[k] == earlier[k]);
            }
        }
        lemma_handle_lives_until_released(start, earlier, handle);
        assert(ops[ops.len() - 1] != (SharedOp::<T>::Release { handle }));
    }
}

/// A handle that nobody released keeps the value alive and current through any legal
/// history.
pub proof fn lemma_value_outlives_other_handles<T>(
    start: SharedView<T>,
    ops: Seq<SharedOp<T>>,
    handle: nat,
)
    requires
        start.valid(),
        start.legal(ops),
        start.handles.live.contains(handle),
        !releases(ops, handle),
    ensures
        start.run(ops).handles.live.contains(handle),
        start.run(ops).value == Some(last_stored(start.value.unwrap(), ops)),
{
    lemma_handle_lives_until_released(start, ops, handle);
    lemma_value_lives_while_a_handle_does(start, ops);
}

} // verus!

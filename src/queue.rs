//! The manager's outbound queue, held in a `SmallVec` as the directives are few.

use crate::manager::PeerManagerEvent;
use smallvec::SmallVec;
use vstd::prelude::*;

verus! {

/// A FIFO of directives kept in a `SmallVec`; its contents are known through
/// `queued` alone.
#[verifier::external_body]
pub struct EventQueue {
    inner: SmallVec<[PeerManagerEvent; 16]>,
}

/// The directives a queue holds, front first.
pub uninterp spec fn queued(q: EventQueue) -> Seq<PeerManagerEvent>;

/// Relies on `SmallVec::new`: the new vector is empty.
#[verifier::external_body]
pub(crate) fn queue_new() -> (r: EventQueue)
    ensures
        queued(r) == Seq::<PeerManagerEvent>::empty(),
{
    EventQueue { inner: SmallVec::new() }
}

/// Relies on `SmallVec::len`: the number of elements stored.
#[verifier::external_body]
pub(crate) fn queue_len(q: &EventQueue) -> (r: usize)
    ensures
        r == queued(*q).len(),
{
    q.inner.len()
}

/// Relies on `SmallVec::push`: the item is appended at the back.
#[verifier::external_body]
pub(crate) fn queue_push(q: &mut EventQueue, e: PeerManagerEvent)
    ensures
        queued(*final(q)) == queued(*old(q)).push(e),
{
    q.inner.push(e);
}

/// Relies on `SmallVec::remove`: removes and returns the element at the index,
/// shifting the rest to the left (it panics on an index out of bounds).
#[verifier::external_body]
pub(crate) fn queue_remove(q: &mut EventQueue, index: usize) -> (r:
    PeerManagerEvent)
    requires
        index < queued(*old(q)).len(),
    ensures
        r == queued(*old(q))[index as int],
        queued(*final(q)) == queued(*old(q)).remove(index as int),
{
    q.inner.remove(index)
}

} // verus!

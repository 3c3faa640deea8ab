//! Trusted boundary to the `queues` crate: the FIFO queue that carries the
//! candidate positions of one backtracking level, oldest first.

use vstd::prelude::*;
use queues::IsQueue;

verus! {

#[verifier::external_type_specification]
#[verifier::external_body]
#[verifier::reject_recursive_types(T)]
pub struct ExQueue<T: Clone>(queues::Queue<T>);

/// The positions a candidate queue holds, oldest (next to leave) first.
pub uninterp spec fn queue_vals(q: queues::Queue<u8>) -> Seq<u8>;

/// Relies on queues::Queue::new: the new queue is empty.
#[verifier::external_body]
pub(crate) fn queue_new() -> (q: queues::Queue<u8>)
    ensures
        queue_vals(q) == Seq::<u8>::empty(),
{
    queues::Queue::new()
}

/// Relies on queues::IsQueue::add for Queue: pushes the value at the back
/// and always succeeds.
#[verifier::external_body]
pub(crate) fn queue_add(q: &mut queues::Queue<u8>, val: u8)
    ensures
        queue_vals(*final(q)) == queue_vals(*old(q)).push(val),
{
    let _ = q.add(val);
}

/// Relies on queues::IsQueue::size for Queue: the number of elements held.
#[verifier::external_body]
pub(crate) fn queue_size(q: &queues::Queue<u8>) -> (n: usize)
    ensures
        n == queue_vals(*q).len(),
{
    q.size()
}

/// Relies on queues::IsQueue::peek for Queue: a copy of the oldest element,
/// or an error on an empty queue.
#[verifier::external_body]
pub(crate) fn queue_peek(q: &queues::Queue<u8>) -> (r: Option<u8>)
    ensures
        queue_vals(*q).len() > 0 ==> r == Some(queue_vals(*q)[0]),
        queue_vals(*q).len() == 0 ==> r is None,
{
    q.peek().ok()
}

/// Relies on queues::IsQueue::remove for Queue: takes the oldest element
/// out, or reports an error and leaves an empty queue unchanged.
#[verifier::external_body]
pub(crate) fn queue_remove(q: &mut queues::Queue<u8>) -> (r: Option<u8>)
    ensures
        queue_vals(*old(q)).len() > 0 ==> r == Some(queue_vals(*old(q))[0]) && queue_vals(
            *final(q),
        ) == queue_vals(*old(q)).drop_first(),
        queue_vals(*old(q)).len() == 0 ==> r is None && queue_vals(*final(q)) == queue_vals(
            *old(q),
        ),
{
    q.remove().ok()
}

} // verus!

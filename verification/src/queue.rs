//! The bounded lock-free queue (crossbeam's `ArrayQueue`) the control
//! thread and the audio thread talk through.
//!
//! Both ends may run on other threads at any moment, so nothing is stated of
//! what a pop returns; a push that fails hands its value back unchanged.
use vstd::prelude::*;
use crossbeam_queue::ArrayQueue;

verus! {

#[verifier::external_type_specification]
#[verifier::external_body]
#[verifier::reject_recursive_types(T)]
pub struct ExArrayQueue<T>(ArrayQueue<T>);

/// Calls `ArrayQueue::new`. Its source asserts a non-zero capacity and
/// panics when the capacity cannot be rounded up to a power of two, hence
/// the bound. Nothing else is claimed.
#[verifier::external_body]
pub(crate) fn queue_new<T>(capacity: usize) -> ArrayQueue<T>
    requires
        0 < capacity <= 65536,
{
    ArrayQueue::new(capacity)
}

/// Calls `ArrayQueue::push`. Claimed: when the queue is full the value comes
/// back as the error, unchanged (its source returns `Err(value)`). Whether
/// it is full depends on the other threads, so success is not claimed.
#[verifier::external_body]
pub(crate) fn queue_push<T>(queue: &ArrayQueue<T>, value: T) -> (r: Result<(), T>)
    ensures
        r matches Err(v) ==> v == value,
{
    queue.push(value)
}

/// Calls `ArrayQueue::pop`. What comes out depends on every thread that
/// pushes, so nothing is claimed of it.
#[verifier::external_body]
pub(crate) fn queue_pop<T>(queue: &ArrayQueue<T>) -> Option<T> {
    queue.pop()
}

} // verus!

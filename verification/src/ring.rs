//! Bounded ring buffer of the most recent notifications.
//!
//! The buffer itself comes from the `circular_queue` crate; the items it
//! holds, in arrival order, and the bound it was created with are named by
//! [`ring_items`] and [`ring_capacity`], and every operation the
//! application state calls is given a contract over those names.

use vstd::prelude::*;

use crate::notification::Notification;
use crate::notification::NotificationView;

verus! {

#[verifier::external_type_specification]
#[verifier::external_body]
#[verifier::reject_recursive_types(T)]
pub struct ExCircularQueue<T>(circular_queue::CircularQueue<T>);

/// The notifications the buffer holds, oldest first.
pub uninterp spec fn ring_items(q: circular_queue::CircularQueue<Notification>) -> Seq<
    NotificationView,
>;

/// The fixed bound the buffer was created with.
pub uninterp spec fn ring_capacity(q: circular_queue::CircularQueue<Notification>) -> nat;

/// Relies on `CircularQueue::with_capacity`: a new, empty queue with the
/// requested capacity.
#[verifier::external_body]
pub(crate) fn ring_with_capacity(capacity: usize) -> (q: circular_queue::CircularQueue<
    Notification,
>)
    ensures
        ring_items(q) == Seq::<NotificationView>::empty(),
        ring_capacity(q) == capacity,
{
    circular_queue::CircularQueue::with_capacity(capacity)
}

/// Relies on `CircularQueue::push`: appends the item, overwriting and
/// returning the oldest one once the capacity is reached; a queue of
/// capacity zero stays empty.
#[verifier::external_body]
pub(crate) fn ring_push(
    q: &mut circular_queue::CircularQueue<Notification>,
    item: Notification,
) -> (popped: Option<Notification>)
    ensures
        ring_capacity(*final(q)) == ring_capacity(*old(q)),
        ring_items(*final(q)) == if ring_capacity(*old(q)) == 0 {
            ring_items(*old(q))
        } else if ring_items(*old(q)).len() < ring_capacity(*old(q)) {
            ring_items(*old(q)).push(item@)
        } else {
            ring_items(*old(q)).drop_first().push(item@)
        },
        match popped {
            Some(x) => ring_capacity(*old(q)) > 0 && ring_items(*old(q)).len() >= ring_capacity(
                *old(q),
            ) && x@ == ring_items(*old(q))[0],
            None => ring_capacity(*old(q)) == 0 || ring_items(*old(q)).len() < ring_capacity(
                *old(q),
            ),
        },
{
    q.push(item)
}

/// Relies on `CircularQueue::asc_iter`: the items in arrival order, oldest
/// first.
#[verifier::external_body]
pub(crate) fn ring_to_vec(q: &circular_queue::CircularQueue<Notification>) -> (r: Vec<
    Notification,
>)
    ensures
        r@.len() == ring_items(*q).len(),
        forall|i: int| 0 <= i < r@.len() ==> r@[i]@ == ring_items(*q)[i],
{
    q.asc_iter().cloned().collect()
}

} // verus!

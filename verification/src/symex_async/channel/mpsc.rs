//! A bounded multi-producer, single-consumer channel.
use vstd::prelude::*;

verus! {

/// The channel is closed.
#[derive(Debug, Clone, Copy, PartialEq, Eq, Structural)]
pub struct SendError;

/// What polling a send gives.
#[derive(Debug, Clone, Copy)]
pub enum SendPoll {
    Ready(Result<(), SendError>),
    Pending,
}

/// What polling a receive gives.
#[derive(Debug)]
pub enum RecvPoll<T> {
    Ready(Option<T>),
    Pending,
}

/// The state senders and the receiver share: the queued values (oldest
/// first), the capacity, whether a sender went away, the receiver's waker
/// and the wakers of senders waiting for room (oldest first).
#[derive(Debug)]
pub struct Inner<T, W> {
    pub q: Vec<T>,
    pub cap: usize,
    pub closed: bool,
    pub recv_waker: Option<W>,
    pub send_waiters: Vec<W>,
}

/// A fresh channel holding at most `cap` values (at least one).
pub fn channel<T, W>(cap: usize) -> (r: Inner<T, W>)
    ensures
        r.q@.len() == 0,
        r.cap == (if cap == 0 { 1 } else { cap }),
        !r.closed,
        r.recv_waker is None,
        r.send_waiters@.len() == 0,
{
    Inner { q: Vec::new(), cap: if cap == 0 { 1 } else { cap }, closed: false, recv_waker: None, send_waiters: Vec::new() }
}

impl<T, W> Inner<T, W> {
    /// A sender goes away: the channel closes, and the receiver's waker, if
    /// any, is handed back to be woken.
    pub fn close(&mut self) -> (wake: Option<W>)
        ensures
            final(self).closed,
            wake == old(self).recv_waker,
            final(self).recv_waker is None,
            final(self).q == old(self).q,
            final(self).cap == old(self).cap,
            final(self).send_waiters == old(self).send_waiters,
    {
        self.closed = true;
        self.recv_waker.take()
    }

    /// Polls a send of `value` (taken from the slot when it is queued) with
    /// the sender's waker: refused when closed, queued when there is room
    /// (handing back the receiver's waker to wake), else the waker waits.
    pub fn poll_send(&mut self, value: &mut Option<T>, waker: W) -> (r: (SendPoll, Option<W>))
        requires
            !old(self).closed && old(self).q@.len() < old(self).cap ==> (*old(value)) is Some,
        ensures
            final(self).cap == old(self).cap,
            final(self).closed == old(self).closed,
            old(self).closed ==> r == (SendPoll::Ready(Err(SendError)), None::<W>) && *final(self) == *old(self)
                && *final(value) == *old(value),
            !old(self).closed && old(self).q@.len() < old(self).cap ==> r.0 == SendPoll::Ready(Ok(()))
                && r.1 == old(self).recv_waker && final(self).recv_waker is None
                && final(self).q@ == old(self).q@.push((*old(value))->0) && *final(value) is None
                && final(self).send_waiters == old(self).send_waiters,
            !old(self).closed && old(self).q@.len() >= old(self).cap ==> r == (SendPoll::Pending, None::<W>)
                && final(self).send_waiters@ == old(self).send_waiters@.push(waker) && final(self).q
                == old(self).q && final(self).recv_waker == old(self).recv_waker && *final(value) == *old(value),
    {
        if self.closed {
            return (SendPoll::Ready(Err(SendError)), None);
        }
        if self.q.len() < self.cap {
            let v = value.take().unwrap();
            self.q.push(v);
            return (SendPoll::Ready(Ok(())), self.recv_waker.take());
        }
        self.send_waiters.push(waker);
        (SendPoll::Pending, None)
    }

    /// Polls the receiver with its waker: the oldest value (handing back the
    /// oldest waiting sender's waker to wake), else the end when closed,
    /// else the waker waits.
    pub fn poll_recv(&mut self, waker: W) -> (r: (RecvPoll<T>, Option<W>))
        ensures
            final(self).cap == old(self).cap,
            final(self).closed == old(self).closed,
            old(self).q@.len() > 0 ==> r.0 == RecvPoll::Ready(Some(old(self).q@[0])) && final(self).q@
                == old(self).q@.drop_first() && final(self).recv_waker == old(self).recv_waker && (if old(
                self,
            ).send_waiters@.len() > 0 {
                r.1 == Some(old(self).send_waiters@[0]) && final(self).send_waiters@ == old(
                    self,
                ).send_waiters@.drop_first()
            } else {
                r.1 is None && final(self).send_waiters == old(self).send_waiters
            }),
            old(self).q@.len() == 0 && old(self).closed ==> r.0 == RecvPoll::<T>::Ready(None) && r.1 is None
                && *final(self) == *old(self),
            old(self).q@.len() == 0 && !old(self).closed ==> r.0 is Pending && r.1 is None
                && final(self).recv_waker == Some(waker) && final(self).q == old(self).q
                && final(self).send_waiters == old(self).send_waiters,
    {
        if self.q.len() > 0 {
            let v = self.q.remove(0);
            let wake = if self.send_waiters.len() > 0 {
                Some(self.send_waiters.remove(0))
            } else {
                None
            };
            return (RecvPoll::Ready(Some(v)), wake);
        }
        if self.closed {
            return (RecvPoll::Ready(None), None);
        }
        self.recv_waker = Some(waker);
        (RecvPoll::Pending, None)
    }
}

/// A channel delivers values in the order they were sent: a value queued
/// behind others comes out after them, and into an empty queue it comes
/// out first.
pub proof fn lemma_delivery_in_order<T>(q: Seq<T>, x: T)
    ensures
        q.len() == 0 ==> q.push(x)[0] == x && q.push(x).drop_first() == Seq::<T>::empty(),
        q.len() > 0 ==> q.push(x)[0] == q[0] && q.push(x).drop_first() == q.drop_first().push(x),
{
    if q.len() > 0 {
        assert(q.push(x).drop_first() =~= q.drop_first().push(x));
    } else {
        assert(q.push(x).drop_first() =~= Seq::<T>::empty());
    }
}

} // verus!

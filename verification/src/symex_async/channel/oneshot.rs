//! A channel for one value.
use vstd::prelude::*;

verus! {

/// The sender went away without sending.
#[derive(Debug, Clone, Copy, PartialEq, Eq, Structural)]
pub struct Canceled;

/// What polling a receiver gives.
#[derive(Debug)]
pub enum RecvPoll<T> {
    Ready(Result<T, Canceled>),
    Pending,
}

/// The state a sender and its receiver share: the value, whether the sender
/// is gone, and the receiver's waker.
#[derive(Debug)]
pub struct Inner<T, W> {
    pub value: Option<T>,
    pub closed: bool,
    pub recv_waker: Option<W>,
}

/// A fresh channel.
pub fn channel<T, W>() -> (r: Inner<T, W>)
    ensures
        r.value is None,
        !r.closed,
        r.recv_waker is None,
{
    Inner { value: None, closed: false, recv_waker: None }
}

impl<T, W> Inner<T, W> {
    /// The sender goes away: the channel closes and the receiver's waker, if
    /// any, is handed back to be woken.
    pub fn close(&mut self) -> (wake: Option<W>)
        ensures
            old(self).closed ==> wake is None && *final(self) == *old(self),
            !old(self).closed ==> final(self).closed && wake == old(self).recv_waker
                && final(self).recv_waker is None && final(self).value == old(self).value,
    {
        if self.closed {
            return None;
        }
        self.closed = true;
        self.recv_waker.take()
    }

    /// Sends a value, which consumes the sender: refused (the value handed
    /// back) when the channel is closed or holds a value; either way the
    /// sender is then gone. Hands back the receiver's waker to wake.
    pub fn send(&mut self, value: T) -> (r: (Result<(), T>, Option<W>))
        ensures
            final(self).closed,
            !old(self).closed ==> final(self).recv_waker is None,
            old(self).closed ==> final(self).recv_waker == old(self).recv_waker,
            (old(self).closed || old(self).value is Some) ==> r.0 == Err::<(), T>(value) && final(self).value
                == old(self).value,
            !(old(self).closed || old(self).value is Some) ==> r.0 is Ok && final(self).value == Some(value),
            old(self).closed ==> r.1 is None,
            !old(self).closed ==> r.1 == old(self).recv_waker,
    {
        let result = if self.closed || self.value.is_some() {
            Err(value)
        } else {
            self.value = Some(value);
            Ok(())
        };
        let first = if result.is_ok() { self.recv_waker.take() } else { None };
        let second = self.close();
        (result, if first.is_some() { first } else { second })
    }

    /// Polls the receiver with its current waker.
    pub fn poll_recv(&mut self, waker: W) -> (r: RecvPoll<T>)
        ensures
            old(self).value matches Some(v) ==> r == RecvPoll::<T>::Ready(Ok(v)) && final(self).value is None
                && final(self).closed && final(self).recv_waker == old(self).recv_waker,
            old(self).value is None && old(self).closed ==> r == RecvPoll::<T>::Ready(Err(Canceled)) && *final(self)
                == *old(self),
            old(self).value is None && !old(self).closed ==> r is Pending && final(self).recv_waker == Some(waker)
                && final(self).value is None && !final(self).closed,
    {
        match self.value.take() {
            Some(v) => {
                self.closed = true;
                RecvPoll::Ready(Ok(v))
            },
            None => {
                if self.closed {
                    RecvPoll::Ready(Err(Canceled))
                } else {
                    self.recv_waker = Some(waker);
                    RecvPoll::Pending
                }
            },
        }
    }
}

} // verus!

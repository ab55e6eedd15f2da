//! The decisions of a single-consumer, coalescing wakeup channel. The
//! channel carries no terminal bytes: only whether something changed and
//! whether the service closed. Locking and task wakers live outside the
//! library; each operation here runs under the channel's lock.
use vstd::prelude::*;

verus! {

/// The shared state of the channel.
#[derive(Clone, Copy, Debug, Default, PartialEq, Eq, Structural)]
pub struct WakeState {
    /// A change arrived that the consumer has not seen.
    pub pending: bool,
    /// The service or the consumer is gone.
    pub closed: bool,
    /// The consumer registered a waker and sleeps.
    pub waiting: bool,
}

/// What one poll of the consumer yields.
#[derive(Clone, Copy, Debug, PartialEq, Eq, Structural)]
pub enum Poll {
    /// Inspect the latest state.
    Changed,
    /// The service closed; nothing more will change.
    Closed,
    /// Nothing yet; the waker is registered.
    Pending,
}

/// A change: marks it pending and wakes a sleeping consumer, unless closed.
pub open spec fn notify_spec(s: WakeState) -> (WakeState, bool) {
    if s.closed {
        (s, false)
    } else {
        (WakeState { pending: true, waiting: false, ..s }, s.waiting)
    }
}

/// Closing: marks the channel closed and wakes a sleeping consumer.
pub open spec fn close_spec(s: WakeState) -> (WakeState, bool) {
    (WakeState { closed: true, waiting: false, ..s }, s.waiting)
}

/// A poll: a pending change is taken first, then closing is reported, and
/// otherwise the consumer registers to be woken.
pub open spec fn poll_spec(s: WakeState) -> (WakeState, Poll) {
    if s.pending {
        (WakeState { pending: false, ..s }, Poll::Changed)
    } else if s.closed {
        (s, Poll::Closed)
    } else {
        (WakeState { waiting: true, ..s }, Poll::Pending)
    }
}

impl WakeState {
    /// A fresh channel: nothing pending, open, nobody waiting.
    pub fn new() -> (r: Self)
        ensures
            !r.pending && !r.closed && !r.waiting,
    {
        WakeState { pending: false, closed: false, waiting: false }
    }

    /// Records a change; returns whether to wake the registered waker, which
    /// is then released.
    pub fn notify(&mut self) -> (wake: bool)
        ensures
            (*final(self), wake) == notify_spec(*old(self)),
    {
        if self.closed {
            return false;
        }
        self.pending = true;
        let wake = self.waiting;
        self.waiting = false;
        wake
    }

    /// Closes the channel; returns whether to wake the registered waker.
    pub fn close(&mut self) -> (wake: bool)
        ensures
            (*final(self), wake) == close_spec(*old(self)),
    {
        self.closed = true;
        let wake = self.waiting;
        self.waiting = false;
        wake
    }

    /// One poll of the consumer; `Pending` means the caller stores its waker.
    pub fn poll(&mut self) -> (r: Poll)
        ensures
            (*final(self), r) == poll_spec(*old(self)),
    {
        if self.pending {
            self.pending = false;
            Poll::Changed
        } else if self.closed {
            Poll::Closed
        } else {
            self.waiting = true;
            Poll::Pending
        }
    }

    /// The consumer is gone: later changes are ignored and its waker released.
    pub fn release(&mut self)
        ensures
            final(self).closed && !final(self).waiting && final(self).pending == old(self).pending,
    {
        self.closed = true;
        self.waiting = false;
    }
}

/// A burst of changes wakes a sleeping consumer once: after one change, the
/// next wakes nobody.
pub proof fn law_burst_wakes_once(s: WakeState)
    ensures
        !notify_spec(notify_spec(s).0).1,
        notify_spec(notify_spec(s).0).0 == notify_spec(s).0,
{
}

/// A change is never lost: after a change on an open channel, the next poll
/// reports it.
pub proof fn law_change_is_seen(s: WakeState)
    requires
        !s.closed,
    ensures
        poll_spec(notify_spec(s).0).1 == Poll::Changed,
{
}

/// A consumer that registered is woken by the next change or by closing.
pub proof fn law_waiter_is_woken(s: WakeState)
    requires
        !s.pending && !s.closed,
    ensures
        poll_spec(s).1 == Poll::Pending,
        notify_spec(poll_spec(s).0).1,
        close_spec(poll_spec(s).0).1,
{
}

/// Closing keeps a change already made: the consumer sees it before it
/// learns of the close, and then learns of the close on every later poll.
pub proof fn law_close_keeps_final_change(s: WakeState)
    requires
        !s.closed,
    ensures
        ({
            let closed = close_spec(notify_spec(s).0).0;
            let (after, first) = poll_spec(closed);
            &&& first == Poll::Changed
            &&& poll_spec(after).1 == Poll::Closed
            &&& poll_spec(poll_spec(after).0).1 == Poll::Closed
        }),
{
}

/// Once closed, changes are ignored and wake nobody.
pub proof fn law_closed_ignores_changes(s: WakeState)
    requires
        s.closed,
    ensures
        notify_spec(s) == (s, false),
{
}

} // verus!

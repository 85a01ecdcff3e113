use vstd::prelude::*;
use crate::json::JsonValue;

verus! {

/// A message for the UI thread.
#[derive(Debug)]
pub enum CoreMsg {
    /// A notification from the core.
    Notification { method: String, params: JsonValue },
    /// A deferred task, named by the token its scheduler gave it.
    Idle(u64),
}

/// The queue between the threads that produce messages and the one thread
/// that runs them, with the flag that says whether a wake-up is pending.
pub struct Channel<T> {
    queue: Vec<T>,
    wake_pending: bool,
}

pub ghost struct ChannelState<T> {
    pub queue: Seq<T>,
    pub wake_pending: bool,
}

/// A queued message always has a wake-up pending.
pub open spec fn channel_wf<T>(s: ChannelState<T>) -> bool {
    s.queue.len() > 0 ==> s.wake_pending
}

pub open spec fn after_push<T>(s: ChannelState<T>, m: T) -> ChannelState<T> {
    ChannelState { queue: s.queue.push(m), wake_pending: true }
}

pub open spec fn after_drain<T>(s: ChannelState<T>) -> ChannelState<T> {
    ChannelState { queue: Seq::empty(), wake_pending: false }
}

impl<T> View for Channel<T> {
    type V = ChannelState<T>;

    closed spec fn view(&self) -> ChannelState<T> {
        ChannelState { queue: self.queue@, wake_pending: self.wake_pending }
    }
}

impl<T> Channel<T> {
    pub fn new() -> (r: Channel<T>)
        ensures
            r@ == (ChannelState { queue: Seq::<T>::empty(), wake_pending: false }),
            channel_wf(r@),
    {
        Channel { queue: Vec::new(), wake_pending: false }
    }

    /// Queues a message; returns whether the consumer must be woken, which is
    /// so exactly when no wake-up was pending.
    pub fn push(&mut self, m: T) -> (wake: bool)
        requires
            channel_wf(old(self)@),
        ensures
            channel_wf(final(self)@),
            final(self)@ == after_push(old(self)@, m),
            wake == !old(self)@.wake_pending,
    {
        self.queue.push(m);
        let wake = !self.wake_pending;
        self.wake_pending = true;
        wake
    }

    /// Hands out every queued message, oldest first, and clears the wake-up.
    pub fn drain(&mut self) -> (r: Vec<T>)
        requires
            channel_wf(old(self)@),
        ensures
            channel_wf(final(self)@),
            r@ == old(self)@.queue,
            final(self)@ == after_drain(old(self)@),
    {
        let r = self.queue.split_off(0);
        self.wake_pending = false;
        assert(self@.queue =~= Seq::<T>::empty());
        r
    }

    pub fn len(&self) -> (r: usize)
        ensures
            r == self@.queue.len(),
    {
        self.queue.len()
    }
}

/// Queues a notification from the core for the UI thread; returns whether the
/// UI thread must be woken.
pub fn forward_notification(chan: &mut Channel<CoreMsg>, method: &str, params: JsonValue) -> (wake: bool)
    requires
        channel_wf(old(chan)@),
    ensures
        channel_wf(final(chan)@),
        final(chan)@.queue.len() == old(chan)@.queue.len() + 1,
        final(chan)@.queue.drop_last() == old(chan)@.queue,
        final(chan)@.queue.last() matches CoreMsg::Notification { method: m, params: p } && m@ == method@ && p == params,
        final(chan)@.wake_pending,
        wake == !old(chan)@.wake_pending,
{
    let msg = CoreMsg::Notification { method: method.to_owned(), params };
    let wake = chan.push(msg);
    assert(chan@.queue.drop_last() =~= old(chan)@.queue);
    wake
}

/// One thing that happens at the channel: a producer queues a message, or the
/// consumer drains the queue.
pub ghost enum ChannelEvent<T> {
    Push(T),
    Drain,
}

/// The channel's state, and every message drained so far in drain order,
/// after a run of events.
pub open spec fn run_events<T>(s: ChannelState<T>, events: Seq<ChannelEvent<T>>) -> (ChannelState<T>, Seq<T>)
    decreases events.len(),
{
    if events.len() == 0 {
        (s, Seq::empty())
    } else {
        let (t, delivered) = run_events(s, events.drop_last());
        match events.last() {
            ChannelEvent::Push(m) => (after_push(t, m), delivered),
            ChannelEvent::Drain => (after_drain(t), delivered + t.queue),
        }
    }
}

/// The messages that a run of events queues, in order.
pub open spec fn pushed<T>(events: Seq<ChannelEvent<T>>) -> Seq<T>
    decreases events.len(),
{
    if events.len() == 0 {
        Seq::empty()
    } else {
        match events.last() {
            ChannelEvent::Push(m) => pushed(events.drop_last()).push(m),
            ChannelEvent::Drain => pushed(events.drop_last()),
        }
    }
}

/// However pushes and drains interleave, every message queued is drained once,
/// in the order it was queued, or is still waiting with a wake-up pending.
pub proof fn lemma_delivery_in_order<T>(s: ChannelState<T>, events: Seq<ChannelEvent<T>>)
    requires
        channel_wf(s),
    ensures
        run_events(s, events).1 + run_events(s, events).0.queue == s.queue + pushed(events),
        channel_wf(run_events(s, events).0),
    decreases events.len(),
{
    if events.len() > 0 {
        lemma_delivery_in_order(s, events.drop_last());
        let (t, delivered) = run_events(s, events.drop_last());
        match events.last() {
            ChannelEvent::Push(m) => {
                assert(delivered + t.queue.push(m) =~= (delivered + t.queue).push(m));
                assert(s.queue + pushed(events.drop_last()).push(m) =~= (s.queue + pushed(events.drop_last())).push(m));
            },
            ChannelEvent::Drain => {
                assert(delivered + t.queue + Seq::<T>::empty() =~= delivered + t.queue);
            },
        }
    } else {
        assert(Seq::<T>::empty() + s.queue =~= s.queue + Seq::<T>::empty());
    }
}

} // verus!

use crate::button::ButtonDirection;
use crate::fault::Fault;
use crate::future::{OurFuture, Poll, Resumed};
use crate::queue::{enqueue_result, enqueued, WakeQueue};
use crate::runtime::{Runtime, RuntimeView};
use core::marker::PhantomData;
use vstd::prelude::*;

verus! {

/// A mailbox with room for one item. A new item replaces one that was not
/// read yet. One task can be registered as waiting for the next item.
pub struct Channel<T> {
    /// The item that was sent last and not received yet.
    pub item: Option<T>,
    /// The task to wake when an item arrives.
    pub task_id: Option<usize>,
}

/// The sending end of a [`Channel`].
pub struct Sender<T> {
    marker: PhantomData<T>,
}

/// The receiving end of a [`Channel`].
pub struct Receiver<T> {
    marker: PhantomData<T>,
}

impl<T> Channel<T> {
    /// The channel after `item` was sent: it holds `item`, whatever it held
    /// before.
    pub open spec fn sent(self, item: T) -> Self {
        Channel { item: Some(item), task_id: self.task_id }
    }

    /// The channel after `task_id` asked for an item: the task is the
    /// registered waiter and the item, if there was one, is gone.
    pub open spec fn received(self, task_id: usize) -> Self {
        Channel { item: None, task_id: Some(task_id) }
    }

    /// What a receiver gets from the channel: the pending item, or nothing
    /// yet.
    pub open spec fn offer(self) -> Poll<T> {
        match self.item {
            Some(item) => Poll::Ready(item),
            None => Poll::Pending,
        }
    }

    /// The wake queue after a send on this channel: the waiter, if one is
    /// registered and the queue has room, is queued.
    pub open spec fn woken(self, ready: Seq<usize>) -> Seq<usize> {
        match self.task_id {
            Some(waiter) => enqueued(ready, waiter),
            None => ready,
        }
    }

    /// What a send on this channel answers: a fault if a waiter is
    /// registered and the wake queue is full.
    pub open spec fn wake_result(self, ready: Seq<usize>) -> Result<(), Fault> {
        match self.task_id {
            Some(waiter) => enqueue_result(ready, waiter),
            None => Ok(()),
        }
    }

    /// An empty channel with no waiter.
    pub fn new() -> (c: Self)
        ensures
            c.item is None,
            c.task_id is None,
    {
        Channel { item: None, task_id: None }
    }

    /// A sending end for this channel.
    pub fn get_sender(&self) -> Sender<T> {
        Sender { marker: PhantomData }
    }

    /// A receiving end for this channel.
    pub fn get_receiver(&self) -> Receiver<T> {
        Receiver { marker: PhantomData }
    }

    /// Stores `item`, replacing an unread one, and wakes the registered
    /// waiter. The item is stored even when the wake fails.
    pub fn send(&mut self, item: T, ready: &mut WakeQueue) -> (r: Result<(), Fault>)
        ensures
            *final(self) == old(self).sent(item),
            final(ready)@ == old(self).woken(old(ready)@),
            r == old(self).wake_result(old(ready)@),
    {
        self.item = Some(item);
        match self.task_id {
            Some(waiter) => ready.enqueue(waiter),
            None => Ok(()),
        }
    }

    /// Makes `task_id` the task that the next send wakes.
    pub fn register(&mut self, task_id: usize)
        ensures
            final(self).item == old(self).item,
            final(self).task_id == Some(task_id),
    {
        self.task_id = Some(task_id);
    }

    /// Registers `task_id` as the waiter, then takes the pending item if
    /// there is one.
    pub fn receive(&mut self, task_id: usize) -> (r: Poll<T>)
        ensures
            *final(self) == old(self).received(task_id),
            r == old(self).offer(),
    {
        self.register(task_id);
        match self.item.take() {
            Some(item) => Poll::Ready(item),
            None => Poll::Pending,
        }
    }
}

impl<T> Sender<T> {
    /// Sends `item` on `channel`; see [`Channel::send`].
    pub fn send(&self, channel: &mut Channel<T>, item: T, ready: &mut WakeQueue) -> (r: Result<
        (),
        Fault,
    >)
        ensures
            *final(channel) == old(channel).sent(item),
            final(ready)@ == old(channel).woken(old(ready)@),
            r == old(channel).wake_result(old(ready)@),
    {
        channel.send(item, ready)
    }
}

impl<T> Receiver<T> {
    /// Asks `channel` for an item on behalf of `task_id`; see
    /// [`Channel::receive`].
    pub fn receive(&self, channel: &mut Channel<T>, task_id: usize) -> (r: Poll<T>)
        ensures
            *final(channel) == old(channel).received(task_id),
            r == old(channel).offer(),
    {
        channel.receive(task_id)
    }
}

impl OurFuture for Receiver<ButtonDirection> {
    type Output = ButtonDirection;

    open spec fn wf(&self) -> bool {
        true
    }

    /// The task becomes the waiter of the runtime's mailbox and gets the
    /// direction that is pending there, if one is.
    open spec fn resumed(self, task_id: usize, rt: RuntimeView) -> Resumed<Self, ButtonDirection> {
        Resumed {
            task: self,
            rt: RuntimeView { mailbox: rt.mailbox.received(task_id), ..rt },
            result: Ok(rt.mailbox.offer()),
        }
    }

    proof fn lemma_resumed_valid(self, task_id: usize, rt: RuntimeView) {
    }

    fn poll(&mut self, task_id: usize, rt: &mut Runtime) -> (r: Result<
        Poll<ButtonDirection>,
        Fault,
    >) {
        let ghost expected = self.resumed(task_id, rt@);
        let ghost before = rt@;
        let answer = self.receive(&mut rt.mailbox, task_id);
        assert(rt@ =~= RuntimeView { mailbox: before.mailbox.received(task_id), ..before });
        Ok(answer)
    }
}

/// The last send wins. Of two items sent before any receive, the receiver
/// gets the second; the first is lost, and a receive after that finds
/// nothing.
pub proof fn lemma_last_send_wins<T>(channel: Channel<T>, first: T, second: T, task_id: usize)
    ensures
        channel.sent(first).sent(second).offer() == Poll::Ready(second),
        channel.sent(first).sent(second).received(task_id).offer() == Poll::<T>::Pending,
        channel.sent(first).sent(second) == channel.sent(second),
{
}

/// Asking makes the asker the waiter: whoever asked last is the task that
/// the next send wakes, whether or not the ask found an item.
pub proof fn lemma_receiver_is_woken<T>(channel: Channel<T>, task_id: usize, ready: Seq<usize>)
    ensures
        channel.received(task_id).woken(ready) == enqueued(ready, task_id),
        channel.received(task_id).wake_result(ready) == enqueue_result(ready, task_id),
{
}

} // verus!

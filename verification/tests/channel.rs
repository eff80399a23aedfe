use blinky_rt::button::ButtonDirection;
use blinky_rt::channel::Channel;
use blinky_rt::fault::Fault;
use blinky_rt::future::{OurFuture, Poll};
use blinky_rt::queue::WakeQueue;
use blinky_rt::runtime::Runtime;

#[test]
fn a_new_channel_is_empty() {
    let mut channel: Channel<u8> = Channel::new();
    assert_eq!(channel.item, None);
    assert_eq!(channel.task_id, None);
    assert_eq!(channel.receive(0), Poll::Pending);
}

#[test]
fn the_second_send_replaces_the_first() {
    let mut ready = WakeQueue::new();
    let mut channel: Channel<char> = Channel::new();
    let sender = channel.get_sender();
    let receiver = channel.get_receiver();
    assert_eq!(sender.send(&mut channel, 'x', &mut ready), Ok(()));
    assert_eq!(sender.send(&mut channel, 'y', &mut ready), Ok(()));
    assert_eq!(receiver.receive(&mut channel, 3), Poll::Ready('y'));
    assert_eq!(receiver.receive(&mut channel, 3), Poll::Pending);
    assert_eq!(ready.dequeue(), None);
}

#[test]
fn a_send_wakes_the_task_that_asked_last() {
    let mut ready = WakeQueue::new();
    let mut channel: Channel<u32> = Channel::new();
    assert_eq!(channel.receive(1), Poll::Pending);
    assert_eq!(channel.receive(2), Poll::Pending);
    assert_eq!(channel.task_id, Some(2));
    assert_eq!(channel.send(10, &mut ready), Ok(()));
    assert_eq!(ready.dequeue(), Some(2));
    assert_eq!(ready.dequeue(), None);
    assert_eq!(channel.receive(2), Poll::Ready(10));
    // The waiter stays registered: the next send wakes it again.
    assert_eq!(channel.send(11, &mut ready), Ok(()));
    assert_eq!(ready.dequeue(), Some(2));
}

#[test]
fn register_alone_leaves_the_item() {
    let mut ready = WakeQueue::new();
    let mut channel: Channel<u32> = Channel::new();
    channel.send(4, &mut ready).unwrap();
    channel.register(9);
    assert_eq!(channel.item, Some(4));
    assert_eq!(channel.task_id, Some(9));
}

#[test]
fn a_send_that_cannot_wake_is_a_fault_and_keeps_the_item() {
    let mut ready = WakeQueue::new();
    for id in 0..4 {
        ready.enqueue(id).unwrap();
    }
    let mut channel: Channel<u32> = Channel::new();
    assert_eq!(channel.send(1, &mut ready), Ok(()));
    channel.register(6);
    assert_eq!(channel.send(2, &mut ready), Err(Fault::QueueFull(6)));
    assert_eq!(channel.item, Some(2));
}

#[test]
fn the_receiver_of_the_mailbox_is_a_future() {
    let mut rt = Runtime::new();
    let mut receiver = rt.mailbox.get_receiver();
    assert_eq!(receiver.poll(1, &mut rt), Ok(Poll::Pending));
    assert_eq!(rt.mailbox.task_id, Some(1));
    rt.mailbox.send(ButtonDirection::Left, &mut rt.ready).unwrap();
    assert_eq!(rt.ready.dequeue(), Some(1));
    assert_eq!(receiver.poll(1, &mut rt), Ok(Poll::Ready(ButtonDirection::Left)));
    assert_eq!(receiver.poll(1, &mut rt), Ok(Poll::Pending));
}

use blinky_rt::fault::Fault;
use blinky_rt::future::{OurFuture, Poll};
use blinky_rt::gpiote::{edge_interrupt, InputChannel, PinState, INVALID_TASK_ID, MAX_CHANNELS};
use blinky_rt::runtime::Runtime;

#[test]
fn pin_states() {
    assert_eq!(PinState::from_high(true), PinState::High);
    assert_eq!(PinState::from_high(false), PinState::Low);
    assert_eq!(PinState::High.toggled(), PinState::Low);
    assert_eq!(PinState::Low.toggled(), PinState::High);
}

#[test]
fn channels_are_claimed_in_order_until_none_is_left() {
    let mut rt = Runtime::new();
    assert_eq!(MAX_CHANNELS, 2);
    let first = InputChannel::new(&mut rt);
    assert_eq!(first.channel_id, 0);
    assert_eq!(first.ready_state, PinState::Low);
    let second = InputChannel::try_new(&mut rt);
    assert_eq!(second, Some(InputChannel { channel_id: 1, ready_state: PinState::Low }));
    assert_eq!(InputChannel::try_new(&mut rt), None);
    assert_eq!(rt.edges.next, 2);
}

#[test]
fn waiting_for_the_level_that_the_pin_has_is_ready_at_once() {
    let mut rt = Runtime::new();
    let mut input = InputChannel::new(&mut rt);
    assert_eq!(input.wait_for(PinState::High, 5, &mut rt), Poll::Ready(()));
    assert_eq!(rt.edges.waiters, [INVALID_TASK_ID, INVALID_TASK_ID]);
    rt.sample_pin(0, PinState::Low);
    assert_eq!(input.wait_for(PinState::Low, 5, &mut rt), Poll::Ready(()));
    assert_eq!(rt.edges.waiters, [INVALID_TASK_ID, INVALID_TASK_ID]);
    assert_eq!(rt.ready.dequeue(), None);
}

#[test]
fn waiting_for_the_other_level_registers_the_task() {
    let mut rt = Runtime::new();
    let _first = InputChannel::new(&mut rt);
    let mut input = InputChannel::new(&mut rt);
    assert_eq!(input.wait_for(PinState::Low, 5, &mut rt), Poll::Pending);
    assert_eq!(rt.edges.waiters, [INVALID_TASK_ID, 5]);
    input.set_ready_state(PinState::High);
    assert_eq!(input.poll(6, &mut rt), Ok(Poll::Ready(())));
    input.set_ready_state(PinState::Low);
    assert_eq!(input.poll(6, &mut rt), Ok(Poll::Pending));
    assert_eq!(rt.edges.waiters, [INVALID_TASK_ID, 6]);
}

#[test]
fn an_edge_wakes_the_waiter_once() {
    let mut rt = Runtime::new();
    let mut left = InputChannel::new(&mut rt);
    let mut right = InputChannel::new(&mut rt);
    assert_eq!(left.wait_for(PinState::Low, 1, &mut rt), Poll::Pending);
    assert_eq!(right.wait_for(PinState::Low, 2, &mut rt), Poll::Pending);
    assert_eq!(edge_interrupt(&mut rt, [false, true]), Ok(()));
    assert_eq!(rt.edges.waiters, [1, INVALID_TASK_ID]);
    assert_eq!(rt.ready.dequeue(), Some(2));
    assert_eq!(rt.ready.dequeue(), None);
    // A burst of further edges on the same pin wakes nobody.
    assert_eq!(edge_interrupt(&mut rt, [false, true]), Ok(()));
    assert_eq!(edge_interrupt(&mut rt, [false, true]), Ok(()));
    assert_eq!(rt.ready.dequeue(), None);
    assert_eq!(edge_interrupt(&mut rt, [false, false]), Ok(()));
    assert_eq!(rt.edges.waiters, [1, INVALID_TASK_ID]);
}

#[test]
fn edges_on_both_channels_wake_in_channel_order() {
    let mut rt = Runtime::new();
    let mut left = InputChannel::new(&mut rt);
    let mut right = InputChannel::new(&mut rt);
    assert_eq!(right.wait_for(PinState::Low, 1, &mut rt), Poll::Pending);
    assert_eq!(left.wait_for(PinState::Low, 2, &mut rt), Poll::Pending);
    assert_eq!(edge_interrupt(&mut rt, [true, true]), Ok(()));
    assert_eq!(rt.ready.dequeue(), Some(2));
    assert_eq!(rt.ready.dequeue(), Some(1));
    assert_eq!(rt.edges.waiters, [INVALID_TASK_ID, INVALID_TASK_ID]);
}

#[test]
fn an_edge_that_cannot_wake_is_a_fault() {
    let mut rt = Runtime::new();
    let mut left = InputChannel::new(&mut rt);
    assert_eq!(left.wait_for(PinState::Low, 3, &mut rt), Poll::Pending);
    for id in 0..4 {
        rt.ready.enqueue(id).unwrap();
    }
    assert_eq!(edge_interrupt(&mut rt, [true, false]), Err(Fault::QueueFull(3)));
    assert_eq!(rt.edges.waiters, [INVALID_TASK_ID, INVALID_TASK_ID]);
    assert_eq!(Fault::QueueFull(3).task_id(), 3);
    assert_eq!(Fault::DeadlineDropped(4).task_id(), 4);
}

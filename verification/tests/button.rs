use blinky_rt::button::{ButtonDirection, ButtonState, ButtonTask, DEBOUNCE_MS};
use blinky_rt::channel::Channel;
use blinky_rt::fault::Fault;
use blinky_rt::future::{OurFuture, Poll};
use blinky_rt::gpiote::{edge_interrupt, PinState, INVALID_TASK_ID};
use blinky_rt::runtime::Runtime;
use blinky_rt::time::TickInstant;
use blinky_rt::timer::{Timer, TimerState};

fn button(rt: &mut Runtime, direction: ButtonDirection) -> ButtonTask {
    let sender = Channel::<ButtonDirection>::new().get_sender();
    ButtonTask::new(direction, sender, rt)
}

fn debouncing(end: u64) -> ButtonState {
    ButtonState::Debounce(Timer { end_time: TickInstant::from_ticks(end), state: TimerState::Wait })
}

#[test]
fn a_new_button_task_waits_for_a_press() {
    let mut rt = Runtime::new();
    let left = button(&mut rt, ButtonDirection::Left);
    let right = button(&mut rt, ButtonDirection::Right);
    assert_eq!(left.input.channel_id, 0);
    assert_eq!(right.input.channel_id, 1);
    assert_eq!(left.state, ButtonState::WaitForPress);
    assert_eq!(right.direction, ButtonDirection::Right);
    assert_eq!(DEBOUNCE_MS, 100);
}

#[test]
fn with_the_button_up_the_task_waits_for_an_edge() {
    let mut rt = Runtime::new();
    let mut task = button(&mut rt, ButtonDirection::Left);
    assert_eq!(task.poll(4, &mut rt), Ok(Poll::Pending));
    assert_eq!(task.state, ButtonState::WaitForPress);
    assert_eq!(rt.edges.waiters, [4, INVALID_TASK_ID]);
    assert_eq!(rt.mailbox.item, None);
    assert!(rt.deadlines.is_empty());
}

#[test]
fn a_clean_press_and_release_sends_one_event() {
    let mut rt = Runtime::new();
    let mut task = button(&mut rt, ButtonDirection::Right);
    assert_eq!(task.poll(1, &mut rt), Ok(Poll::Pending));

    // The button goes down at tick 1000.
    rt.sample_time(TickInstant::from_ticks(1000));
    rt.sample_pin(0, PinState::Low);
    edge_interrupt(&mut rt, [true, false]).unwrap();
    assert_eq!(rt.ready.dequeue(), Some(1));
    assert_eq!(task.poll(1, &mut rt), Ok(Poll::Pending));
    assert_eq!(rt.mailbox.item, Some(ButtonDirection::Right));
    assert_eq!(task.state, debouncing(4276));
    assert_eq!(rt.deadlines.peek(), Some((4276, 1)));
    assert_eq!(rt.compare, Some(4276));
    rt.mailbox.item = None;

    // It goes up again inside the debounce window. Nobody waits for the
    // edge, so the interrupt wakes nobody; a resume would do nothing.
    rt.sample_time(TickInstant::from_ticks(2000));
    rt.sample_pin(0, PinState::High);
    edge_interrupt(&mut rt, [true, false]).unwrap();
    assert_eq!(rt.ready.dequeue(), None);
    assert_eq!(task.poll(1, &mut rt), Ok(Poll::Pending));
    assert_eq!(task.state, debouncing(4276));
    assert_eq!(rt.mailbox.item, None);

    // The debounce timer fires; the release has happened, so the task
    // waits for the next press.
    assert_eq!(rt.clock_interrupt(false, 4276), Ok(()));
    assert_eq!(rt.ready.dequeue(), Some(1));
    assert_eq!(task.poll(1, &mut rt), Ok(Poll::Pending));
    assert_eq!(task.state, ButtonState::WaitForPress);
    assert_eq!(rt.edges.waiters, [1, INVALID_TASK_ID]);
    assert_eq!(rt.mailbox.item, None);
    assert!(rt.deadlines.is_empty());
}

#[test]
fn a_bounce_burst_sends_one_event() {
    let mut rt = Runtime::new();
    let mut task = button(&mut rt, ButtonDirection::Left);
    assert_eq!(task.poll(2, &mut rt), Ok(Poll::Pending));
    rt.sample_time(TickInstant::from_ticks(50));
    rt.sample_pin(0, PinState::Low);
    edge_interrupt(&mut rt, [true, false]).unwrap();
    assert_eq!(rt.ready.dequeue(), Some(2));
    assert_eq!(task.poll(2, &mut rt), Ok(Poll::Pending));
    assert_eq!(rt.mailbox.item, Some(ButtonDirection::Left));
    rt.mailbox.item = None;

    let mut events = 1;
    let levels = [PinState::High, PinState::Low, PinState::High, PinState::Low, PinState::Low];
    for (i, level) in levels.iter().enumerate() {
        rt.sample_time(TickInstant::from_ticks(60 + 10 * i as u64));
        rt.sample_pin(0, *level);
        edge_interrupt(&mut rt, [true, false]).unwrap();
        // No wake comes from the edges; resume the task all the same.
        assert_eq!(rt.ready.dequeue(), None);
        assert_eq!(task.poll(2, &mut rt), Ok(Poll::Pending));
        if rt.mailbox.item.is_some() {
            events += 1;
        }
        assert_eq!(task.state, debouncing(3326));
    }
    assert_eq!(events, 1);
    assert_eq!(rt.deadlines.pop(), Some((3326, 2)));
    assert_eq!(rt.deadlines.pop(), None);
}

#[test]
fn a_held_button_is_not_reported_again() {
    let mut rt = Runtime::new();
    let mut task = button(&mut rt, ButtonDirection::Left);
    rt.sample_pin(0, PinState::Low);
    assert_eq!(task.poll(0, &mut rt), Ok(Poll::Pending));
    assert_eq!(rt.mailbox.item, Some(ButtonDirection::Left));
    rt.mailbox.item = None;
    assert_eq!(rt.clock_interrupt(false, 3276), Ok(()));
    assert_eq!(rt.ready.dequeue(), Some(0));
    assert_eq!(task.poll(0, &mut rt), Ok(Poll::Pending));
    assert_eq!(task.state, ButtonState::WaitForRelease);
    assert_eq!(rt.edges.waiters, [0, INVALID_TASK_ID]);
    rt.sample_time(TickInstant::from_ticks(1_000_000));
    assert_eq!(task.poll(0, &mut rt), Ok(Poll::Pending));
    assert_eq!(task.state, ButtonState::WaitForRelease);
    assert_eq!(rt.mailbox.item, None);

    // Released, and pressed again later: a second event.
    rt.sample_pin(0, PinState::High);
    edge_interrupt(&mut rt, [true, false]).unwrap();
    assert_eq!(rt.ready.dequeue(), Some(0));
    assert_eq!(task.poll(0, &mut rt), Ok(Poll::Pending));
    assert_eq!(task.state, ButtonState::WaitForPress);
    rt.sample_pin(0, PinState::Low);
    edge_interrupt(&mut rt, [true, false]).unwrap();
    assert_eq!(rt.ready.dequeue(), Some(0));
    assert_eq!(task.poll(0, &mut rt), Ok(Poll::Pending));
    assert_eq!(rt.mailbox.item, Some(ButtonDirection::Left));
    assert_eq!(task.state, debouncing(1_003_276));
}

#[test]
fn a_press_wakes_the_task_that_waits_at_the_mailbox() {
    let mut rt = Runtime::new();
    let mut task = button(&mut rt, ButtonDirection::Right);
    assert_eq!(rt.mailbox.receive(7), Poll::Pending);
    rt.sample_pin(0, PinState::Low);
    assert_eq!(task.poll(1, &mut rt), Ok(Poll::Pending));
    assert_eq!(rt.ready.dequeue(), Some(7));
    assert_eq!(rt.ready.dequeue(), None);
}

#[test]
fn a_second_resume_with_nothing_changed_does_nothing() {
    let mut rt = Runtime::new();
    let mut task = button(&mut rt, ButtonDirection::Right);
    rt.sample_pin(0, PinState::Low);
    assert_eq!(task.poll(1, &mut rt), Ok(Poll::Pending));
    let state = task.state;
    rt.mailbox.item = None;
    assert_eq!(task.poll(1, &mut rt), Ok(Poll::Pending));
    assert_eq!(task.state, state);
    assert_eq!(rt.mailbox.item, None);
    assert_eq!(rt.deadlines.pop(), Some((3276, 1)));
    assert_eq!(rt.deadlines.pop(), None);
    assert_eq!(rt.ready.dequeue(), None);
}

#[test]
fn a_press_with_a_full_wake_queue_is_a_fault() {
    let mut rt = Runtime::new();
    let mut task = button(&mut rt, ButtonDirection::Right);
    assert_eq!(rt.mailbox.receive(7), Poll::Pending);
    for id in 0..4 {
        rt.ready.enqueue(id).unwrap();
    }
    rt.sample_pin(0, PinState::Low);
    assert_eq!(task.poll(1, &mut rt), Err(Fault::QueueFull(7)));
    assert_eq!(rt.mailbox.item, Some(ButtonDirection::Right));
    assert_eq!(task.state, ButtonState::WaitForPress);
}

#[test]
fn a_press_with_no_room_for_the_deadline_is_a_fault() {
    let mut rt = Runtime::new();
    let mut task = button(&mut rt, ButtonDirection::Right);
    for i in 0..8u64 {
        rt.deadlines.insert(0x80_00_00 + i, 0).unwrap();
    }
    rt.sample_pin(0, PinState::Low);
    assert_eq!(task.poll(1, &mut rt), Err(Fault::DeadlineDropped(1)));
}

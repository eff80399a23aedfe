use blinky_rt::deadline::{is_due, schedule_wakeup, Deadlines};
use blinky_rt::fault::Fault;
use blinky_rt::future::{OurFuture, Poll};
use blinky_rt::runtime::Runtime;
use blinky_rt::time::{TickDuration, TickInstant, Ticker};
use blinky_rt::timer::{delay, Timer, TimerState};

fn drain(rt: &mut Runtime) -> Vec<usize> {
    let mut ids = Vec::new();
    while let Some(id) = rt.ready.dequeue() {
        ids.push(id);
    }
    ids
}

#[test]
fn deadlines_come_out_earliest_first() {
    let mut pending = Deadlines::new();
    assert!(pending.is_empty());
    assert_eq!(pending.peek(), None);
    assert_eq!(pending.insert(30, 1), Ok(()));
    assert_eq!(pending.insert(10, 2), Ok(()));
    assert_eq!(pending.insert(20, 3), Ok(()));
    assert_eq!(pending.insert(10, 1), Ok(()));
    assert!(!pending.is_empty());
    assert_eq!(pending.peek(), Some((10, 1)));
    assert_eq!(pending.pop(), Some((10, 1)));
    assert_eq!(pending.pop(), Some((10, 2)));
    assert_eq!(pending.pop(), Some((20, 3)));
    assert_eq!(pending.pop(), Some((30, 1)));
    assert_eq!(pending.pop(), None);
}

#[test]
fn a_ninth_deadline_is_a_fault() {
    let mut pending = Deadlines::new();
    for i in 0..8u64 {
        assert_eq!(pending.insert(100 - i, 0), Ok(()));
    }
    assert_eq!(pending.insert(1, 5), Err(Fault::DeadlineDropped(5)));
    assert_eq!(pending.peek(), Some((93, 0)));
}

#[test]
fn due_means_past_or_at_most_one_tick_ahead() {
    let now = TickInstant::from_ticks(100);
    assert!(is_due(0, now));
    assert!(is_due(100, now));
    assert!(is_due(101, now));
    assert!(!is_due(102, now));
    assert!(is_due(u64::MAX, TickInstant::from_ticks(u64::MAX)));
    assert!(is_due(u64::MAX, TickInstant::from_ticks(u64::MAX - 1)));
    assert!(!is_due(u64::MAX, TickInstant::from_ticks(u64::MAX - 2)));
}

#[test]
fn scheduling_with_nothing_pending_turns_the_event_off() {
    let mut rt = Runtime::new();
    rt.compare = Some(77);
    assert_eq!(schedule_wakeup(&mut rt), Ok(()));
    assert_eq!(rt.compare, None);
    assert_eq!(drain(&mut rt), Vec::<usize>::new());
}

#[test]
fn the_earliest_deadline_of_this_epoch_goes_to_the_compare_event() {
    let mut rt = Runtime::new();
    rt.sample_time(TickInstant::from_ticks(0x2_00_00_10));
    rt.deadlines.insert(0x2_00_50_00, 1).unwrap();
    rt.deadlines.insert(0x2_00_40_00, 2).unwrap();
    assert_eq!(schedule_wakeup(&mut rt), Ok(()));
    assert_eq!(rt.compare, Some(0x40_00));
    assert_eq!(rt.deadlines.peek(), Some((0x2_00_40_00, 2)));
    assert_eq!(drain(&mut rt), Vec::<usize>::new());
}

#[test]
fn a_deadline_of_a_later_epoch_waits_for_its_epoch() {
    let mut rt = Runtime::new();
    rt.sample_time(TickInstant::from_ticks(0x10));
    rt.compare = Some(5);
    rt.deadlines.insert(0x1_00_00_20, 1).unwrap();
    assert_eq!(schedule_wakeup(&mut rt), Ok(()));
    assert_eq!(rt.compare, Some(5));
    assert_eq!(rt.deadlines.peek(), Some((0x1_00_00_20, 1)));
    assert_eq!(drain(&mut rt), Vec::<usize>::new());
}

#[test]
fn due_deadlines_wake_their_tasks_earliest_first() {
    let mut rt = Runtime::new();
    rt.sample_time(TickInstant::from_ticks(1000));
    rt.deadlines.insert(900, 3).unwrap();
    rt.deadlines.insert(5000, 0).unwrap();
    rt.deadlines.insert(1001, 1).unwrap();
    rt.deadlines.insert(100, 2).unwrap();
    rt.deadlines.insert(1002, 4).unwrap();
    assert_eq!(schedule_wakeup(&mut rt), Ok(()));
    assert_eq!(drain(&mut rt), vec![2, 3, 1]);
    assert_eq!(rt.compare, Some(1002));
    assert_eq!(rt.deadlines.pop(), Some((1002, 4)));
    assert_eq!(rt.deadlines.pop(), Some((5000, 0)));
    assert_eq!(rt.deadlines.pop(), None);
}

#[test]
fn equal_deadlines_both_wake_once() {
    let mut rt = Runtime::new();
    rt.sample_time(TickInstant::from_ticks(500));
    rt.deadlines.insert(400, 2).unwrap();
    rt.deadlines.insert(400, 1).unwrap();
    assert_eq!(schedule_wakeup(&mut rt), Ok(()));
    assert_eq!(drain(&mut rt), vec![1, 2]);
    assert!(rt.deadlines.is_empty());
    assert_eq!(rt.compare, None);
    assert_eq!(schedule_wakeup(&mut rt), Ok(()));
    assert_eq!(drain(&mut rt), Vec::<usize>::new());
}

#[test]
fn a_deadline_of_a_past_epoch_is_due() {
    let mut rt = Runtime::new();
    rt.sample_time(TickInstant::from_ticks(0x1_00_00_05));
    rt.deadlines.insert(0xFF_FF_F0, 6).unwrap();
    assert_eq!(schedule_wakeup(&mut rt), Ok(()));
    assert_eq!(drain(&mut rt), vec![6]);
    assert_eq!(rt.compare, None);
}

#[test]
fn a_full_wake_queue_stops_the_serving() {
    let mut rt = Runtime::new();
    rt.sample_time(TickInstant::from_ticks(1000));
    for id in 0..3 {
        rt.ready.enqueue(id).unwrap();
    }
    rt.deadlines.insert(10, 7).unwrap();
    rt.deadlines.insert(20, 8).unwrap();
    rt.compare = Some(9);
    assert_eq!(schedule_wakeup(&mut rt), Err(Fault::QueueFull(8)));
    assert_eq!(rt.deadlines.peek(), Some((20, 8)));
    assert_eq!(rt.compare, Some(9));
    assert_eq!(drain(&mut rt), vec![0, 1, 2, 7]);
}

#[test]
fn a_new_timer_ends_after_its_duration() {
    let timer = Timer::new(TickDuration::millis(100), TickInstant::from_ticks(1000));
    assert_eq!(timer.end_time.ticks(), 4276);
    assert_eq!(timer.state, TimerState::Init);
    assert!(!timer.is_ready(TickInstant::from_ticks(4275)));
    assert!(timer.is_ready(TickInstant::from_ticks(4276)));
    assert_eq!(delay(TickDuration::millis(100), TickInstant::from_ticks(1000)), timer);
    let ticker = Ticker { ovf_count: 1 };
    let later = ticker.get_timer(TickDuration::from_ticks(10), 5);
    assert_eq!(later.end_time.ticks(), 0x1_00_00_0F);
}

#[test]
fn registering_the_earliest_deadline_sets_the_compare_event() {
    let mut rt = Runtime::new();
    rt.sample_time(TickInstant::from_ticks(100));
    let late = Timer::new(TickDuration::from_ticks(5000), rt.now);
    assert_eq!(late.register(1, &mut rt), Ok(()));
    assert_eq!(rt.compare, Some(5100));
    let later = Timer::new(TickDuration::from_ticks(9000), rt.now);
    rt.compare = Some(1);
    assert_eq!(later.register(2, &mut rt), Ok(()));
    assert_eq!(rt.compare, Some(1));
    let soon = Timer::new(TickDuration::from_ticks(50), rt.now);
    assert_eq!(soon.register(3, &mut rt), Ok(()));
    assert_eq!(rt.compare, Some(150));
    assert_eq!(rt.deadlines.pop(), Some((150, 3)));
    assert_eq!(rt.deadlines.pop(), Some((5100, 1)));
    assert_eq!(rt.deadlines.pop(), Some((9100, 2)));
}

#[test]
fn registering_a_deadline_that_is_too_close_wakes_at_once() {
    let mut rt = Runtime::new();
    rt.sample_time(TickInstant::from_ticks(100));
    let now = Timer::new(TickDuration::from_ticks(1), rt.now);
    assert_eq!(now.register(4, &mut rt), Ok(()));
    assert_eq!(drain(&mut rt), vec![4]);
    assert!(rt.deadlines.is_empty());
    assert_eq!(rt.compare, None);
}

#[test]
fn registering_with_eight_deadlines_pending_is_a_fault() {
    let mut rt = Runtime::new();
    for i in 0..8u64 {
        rt.deadlines.insert(1000 + i, 0).unwrap();
    }
    let timer = Timer::new(TickDuration::from_ticks(10), rt.now);
    assert_eq!(timer.register(3, &mut rt), Err(Fault::DeadlineDropped(3)));
    assert_eq!(rt.deadlines.peek(), Some((1000, 0)));
    let mut timer = timer;
    assert_eq!(timer.poll(3, &mut rt), Err(Fault::DeadlineDropped(3)));
    assert_eq!(timer.state, TimerState::Init);
}

#[test]
fn a_timer_registers_once_and_is_ready_at_its_end() {
    let mut rt = Runtime::new();
    let mut timer = Timer::new(TickDuration::millis(500), rt.now);
    assert_eq!(timer.poll(2, &mut rt), Ok(Poll::Pending));
    assert_eq!(timer.state, TimerState::Wait);
    assert_eq!(rt.compare, Some(16384));
    assert_eq!(timer.poll(2, &mut rt), Ok(Poll::Pending));
    assert_eq!(rt.deadlines.pop(), Some((16384, 2)));
    assert_eq!(rt.deadlines.pop(), None);
    rt.sample_time(TickInstant::from_ticks(16383));
    assert_eq!(timer.poll(2, &mut rt), Ok(Poll::Pending));
    rt.sample_time(TickInstant::from_ticks(16384));
    assert_eq!(timer.poll(2, &mut rt), Ok(Poll::Ready(())));
}

#[test]
fn the_clock_interrupt_counts_the_wrap_and_serves_the_due() {
    let mut rt = Runtime::new();
    rt.deadlines.insert(0xFF_FF_FF, 1).unwrap();
    rt.deadlines.insert(0x1_00_00_40, 2).unwrap();
    rt.deadlines.insert(0x2_00_00_00, 3).unwrap();
    assert_eq!(rt.clock_interrupt(false, 0x10), Ok(()));
    assert_eq!(rt.ticker.ovf_count(), 0);
    assert_eq!(rt.now.ticks(), 0x10);
    assert_eq!(rt.compare, Some(0xFF_FF_FF));
    assert_eq!(drain(&mut rt), Vec::<usize>::new());
    assert_eq!(rt.clock_interrupt(true, 2), Ok(()));
    assert_eq!(rt.ticker.ovf_count(), 1);
    assert_eq!(rt.now.ticks(), 0x1_00_00_02);
    assert_eq!(drain(&mut rt), vec![1]);
    assert_eq!(rt.compare, Some(0x40));
    assert_eq!(rt.clock_interrupt(false, 0x40), Ok(()));
    assert_eq!(drain(&mut rt), vec![2]);
    assert_eq!(rt.compare, Some(0x40));
    assert_eq!(rt.deadlines.peek(), Some((0x2_00_00_00, 3)));
}

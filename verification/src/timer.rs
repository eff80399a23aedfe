use crate::deadline::{
    inserted, lemma_inserted_ascending, lemma_wake_due_frame, lemma_wake_due_keeps_valid,
    same_but_schedule, schedule_wakeup, wake_due, MAX_DEADLINES,
};
use crate::fault::Fault;
use crate::future::{OurFuture, Poll, Resumed};
use crate::runtime::{Runtime, RuntimeView, Step};
use crate::time::{after, compose, reached, TickDuration, TickInstant, Ticker};
use vstd::prelude::*;

verus! {

/// Whether a timer has put its deadline among the pending ones.
#[derive(Clone, Copy, Debug, PartialEq, Eq, Structural)]
pub enum TimerState {
    /// Not yet: the first resume registers the deadline.
    Init,
    /// The deadline is registered; the timer waits for it.
    Wait,
}

/// A wait until a point in time.
#[derive(Clone, Copy, Debug, PartialEq, Eq, Structural)]
pub struct Timer {
    /// The instant at which the wait is over.
    pub end_time: TickInstant,
    /// Whether the deadline is registered.
    pub state: TimerState,
}

/// The runtime after task `task_id` registered a deadline.
///
/// Without room among the pending deadlines this is a fault. Otherwise the
/// deadline is pending, and if it is earlier than all that were pending
/// before, the due deadlines are served and the compare event is set anew.
pub open spec fn register_deadline(rt: RuntimeView, deadline: u64, task_id: usize) -> Step {
    if rt.deadlines.len() >= MAX_DEADLINES {
        Step { rt, result: Err(Fault::DeadlineDropped(task_id)) }
    } else {
        let pending = RuntimeView { deadlines: inserted(rt.deadlines, (deadline, task_id)), ..rt };
        if rt.deadlines.len() == 0 || deadline < rt.deadlines[0].0 {
            wake_due(pending)
        } else {
            Step { rt: pending, result: Ok(()) }
        }
    }
}

impl Timer {
    /// A timer that ends `duration` after `now`.
    pub fn new(duration: TickDuration, now: TickInstant) -> (t: Self)
        ensures
            t.end_time.ticks == after(now.ticks, duration.ticks),
            t.state == TimerState::Init,
    {
        Timer { end_time: now.plus(duration), state: TimerState::Init }
    }

    /// Whether the timer's end has been reached at `now`.
    pub fn is_ready(&self, now: TickInstant) -> (r: bool)
        ensures
            r == reached(now.ticks, self.end_time.ticks),
    {
        now.has_reached(self.end_time)
    }

    /// Puts the timer's end among the pending deadlines, for task
    /// `task_id`, and sets the compare event anew if this deadline is now
    /// the earliest.
    pub fn register(&self, task_id: usize, rt: &mut Runtime) -> (r: Result<(), Fault>)
        ensures
            final(rt)@ == register_deadline(old(rt)@, self.end_time.ticks, task_id).rt,
            r == register_deadline(old(rt)@, self.end_time.ticks, task_id).result,
            old(rt)@.valid() ==> final(rt)@.valid(),
    {
        proof {
            if rt@.valid() {
                lemma_register_keeps_valid(rt@, self.end_time.ticks, task_id);
            }
        }
        let new_deadline: u64 = self.end_time.ticks();
        let is_earliest = match rt.deadlines.peek() {
            Some(next) => new_deadline < next.0,
            None => true,
        };
        let ghost before = rt@;
        match rt.deadlines.insert(new_deadline, task_id) {
            Err(fault) => {
                assert(rt@ =~= before);
                Err(fault)
            },
            Ok(()) => {
                assert(rt@ =~= RuntimeView {
                    deadlines: inserted(before.deadlines, (new_deadline, task_id)),
                    ..before
                });
                if is_earliest {
                    schedule_wakeup(rt)
                } else {
                    Ok(())
                }
            },
        }
    }
}

impl OurFuture for Timer {
    type Output = ();

    open spec fn wf(&self) -> bool {
        true
    }

    /// The first resume registers the deadline and waits. Every later
    /// resume looks at the time: the timer is done once its end is reached.
    open spec fn resumed(self, task_id: usize, rt: RuntimeView) -> Resumed<Self, ()> {
        match self.state {
            TimerState::Init => {
                let step = register_deadline(rt, self.end_time.ticks, task_id);
                match step.result {
                    Ok(()) => Resumed {
                        task: Timer { state: TimerState::Wait, ..self },
                        rt: step.rt,
                        result: Ok(Poll::Pending),
                    },
                    Err(fault) => Resumed { task: self, rt: step.rt, result: Err(fault) },
                }
            },
            TimerState::Wait => Resumed {
                task: self,
                rt,
                result: Ok(
                    if reached(rt.now, self.end_time.ticks) {
                        Poll::Ready(())
                    } else {
                        Poll::Pending
                    },
                ),
            },
        }
    }

    proof fn lemma_resumed_valid(self, task_id: usize, rt: RuntimeView) {
        if self.state == TimerState::Init {
            lemma_register_keeps_valid(rt, self.end_time.ticks, task_id);
        }
    }

    fn poll(&mut self, task_id: usize, rt: &mut Runtime) -> (r: Result<Poll<()>, Fault>) {
        proof {
            if rt@.valid() {
                self.lemma_resumed_valid(task_id, rt@);
            }
        }
        match self.state {
            TimerState::Init => {
                match self.register(task_id, rt) {
                    Err(fault) => Err(fault),
                    Ok(()) => {
                        self.state = TimerState::Wait;
                        Ok(Poll::Pending)
                    },
                }
            },
            TimerState::Wait => {
                if self.is_ready(rt.now) {
                    Ok(Poll::Ready(()))
                } else {
                    Ok(Poll::Pending)
                }
            },
        }
    }
}

impl Ticker {
    /// A timer that ends `duration` after the instant that the counter
    /// value `counter` stands for in the current epoch.
    pub fn get_timer(&self, duration: TickDuration, counter: u32) -> (t: Timer)
        ensures
            t.end_time.ticks == after(compose(self.ovf_count, counter), duration.ticks),
            t.state == TimerState::Init,
    {
        Timer::new(duration, self.instant(counter))
    }
}

/// A wait of `duration`, starting at `now`. Resume it until it is ready.
pub fn delay(duration: TickDuration, now: TickInstant) -> (t: Timer)
    ensures
        t.end_time.ticks == after(now.ticks, duration.ticks),
        t.state == TimerState::Init,
{
    Timer::new(duration, now)
}

/// Resuming a timer touches nothing but the pending deadlines, the wake
/// queue and the compare event.
pub proof fn lemma_timer_frame(timer: Timer, task_id: usize, rt: RuntimeView)
    ensures
        same_but_schedule(timer.resumed(task_id, rt).rt, rt),
{
    if timer.state == TimerState::Init && rt.deadlines.len() < MAX_DEADLINES {
        lemma_wake_due_frame(
            RuntimeView {
                deadlines: inserted(rt.deadlines, (timer.end_time.ticks, task_id)),
                ..rt
            },
        );
    }
}

/// A timer that was started at `now` for a span of less than 2^63 ticks
/// and more than none has not ended at `now`.
pub proof fn lemma_fresh_timer_runs(now: u64, span: u64)
    requires
        0 < span < 0x8000_0000_0000_0000,
    ensures
        !reached(now, after(now, span)),
{
}

/// Registering a deadline leaves the runtime in a state that it can
/// reach.
pub proof fn lemma_register_keeps_valid(rt: RuntimeView, deadline: u64, task_id: usize)
    requires
        rt.valid(),
    ensures
        register_deadline(rt, deadline, task_id).rt.valid(),
{
    if rt.deadlines.len() < MAX_DEADLINES {
        lemma_inserted_ascending(rt.deadlines, (deadline, task_id));
        lemma_wake_due_keeps_valid(
            RuntimeView { deadlines: inserted(rt.deadlines, (deadline, task_id)), ..rt },
        );
    }
}

} // verus!

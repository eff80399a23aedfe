use crate::channel::Sender;
use crate::fault::Fault;
use crate::future::{done, idle, waits, OurFuture, Poll, Resumed};
use crate::gpiote::{awaited, InputChannel, PinState, MAX_CHANNELS};
use crate::runtime::{Runtime, RuntimeView};
use crate::time::{after, millis_to_ticks, reached, TickDuration, TickInstant};
use crate::timer::{lemma_fresh_timer_runs, lemma_timer_frame, Timer, TimerState};
use vstd::prelude::*;

verus! {

/// How long a button is left alone after a press, in milliseconds.
pub const DEBOUNCE_MS: u64 = 100;

/// The direction that a button stands for.
#[derive(Clone, Copy, Debug, PartialEq, Eq, Structural)]
pub enum ButtonDirection {
    /// Towards column 0.
    Left,
    /// Towards the last column.
    Right,
}

/// Where a button task stands.
#[derive(Clone, Copy, Debug, PartialEq, Eq, Structural)]
pub enum ButtonState {
    /// The button is up; the task waits for the pin to go low.
    WaitForPress,
    /// A press was reported; the task sits out the bounce.
    Debounce(Timer),
    /// The bounce is over; the task waits for the pin to go high.
    WaitForRelease,
}

/// The task that watches one button and sends the button's direction once
/// for every press.
pub struct ButtonTask {
    /// The button's pin with its edge-detect channel.
    pub input: InputChannel,
    /// What a press of this button means.
    pub direction: ButtonDirection,
    /// Where the task stands.
    pub state: ButtonState,
    /// The way to the mailbox.
    pub sender: Sender<ButtonDirection>,
}

impl ButtonTask {
    /// How many more states a resume can pass through from this one.
    pub open spec fn rank(self) -> nat {
        match self.state {
            ButtonState::Debounce(timer) => if timer.state == TimerState::Wait {
                4
            } else {
                1
            },
            ButtonState::WaitForRelease => 3,
            ButtonState::WaitForPress => 2,
        }
    }

    /// Whether the task is in a state in which a resume can leave it: a
    /// debounce timer that exists between two resumes has registered its
    /// deadline.
    pub open spec fn settled(self) -> bool {
        match self.state {
            ButtonState::Debounce(timer) => timer.state == TimerState::Wait,
            _ => true,
        }
    }

    /// The task with another state.
    pub open spec fn at(self, state: ButtonState) -> Self {
        ButtonTask { state, ..self }
    }

    /// The task with its input waiting for `level`.
    pub open spec fn watching(self, level: PinState) -> Self {
        ButtonTask { input: InputChannel { ready_state: level, ..self.input }, ..self }
    }

    /// A task for the button on the next free edge-detect channel. It
    /// waits for a press.
    pub fn new(direction: ButtonDirection, sender: Sender<ButtonDirection>, rt: &mut Runtime) -> (t:
        Self)
        requires
            old(rt).edges.next < MAX_CHANNELS,
        ensures
            t.wf(),
            t.settled(),
            t.input.channel_id == old(rt).edges.next,
            t.input.ready_state == PinState::Low,
            t.direction == direction,
            t.state == ButtonState::WaitForPress,
            t.sender == sender,
            final(rt)@ == (RuntimeView { next_channel: (old(rt).edges.next + 1) as usize, ..old(rt)@ }),
    {
        ButtonTask {
            input: InputChannel::new(rt),
            direction,
            state: ButtonState::WaitForPress,
            sender,
        }
    }
}

impl OurFuture for ButtonTask {
    type Output = ();

    open spec fn wf(&self) -> bool {
        self.input.channel_id < MAX_CHANNELS
    }

    /// One resume of the button task. The task never finishes.
    ///
    /// Waiting for a press, with the pin low: the direction is sent, a
    /// debounce timer is started at the time of the last sample, and the
    /// task waits for it. With the pin high the task waits for an edge.
    ///
    /// Sitting out the bounce: once the timer's end is reached, the task
    /// waits for the release; a release that has happened already takes it
    /// straight on to waiting for the next press.
    ///
    /// Waiting for the release, with the pin high: the task waits for the
    /// next press. With the pin low it waits for an edge.
    open spec fn resumed(self, task_id: usize, rt: RuntimeView) -> Resumed<Self, ()>
        decreases self.rank(),
    {
        match self.state {
            ButtonState::WaitForPress => {
                let task = self.watching(PinState::Low);
                let (waiting, answer) = awaited(rt, self.input.channel_id, PinState::Low, task_id);
                if answer is Ready {
                    let sent = RuntimeView {
                        mailbox: rt.mailbox.sent(self.direction),
                        ready: rt.mailbox.woken(rt.ready),
                        ..rt
                    };
                    match rt.mailbox.wake_result(rt.ready) {
                        Err(fault) => Resumed { task, rt: sent, result: Err(fault) },
                        Ok(()) => {
                            let timer = Timer {
                                end_time: TickInstant {
                                    ticks: after(rt.now, millis_to_ticks(DEBOUNCE_MS) as u64),
                                },
                                state: TimerState::Init,
                            };
                            task.at(ButtonState::Debounce(timer)).resumed(task_id, sent)
                        },
                    }
                } else {
                    Resumed { task, rt: waiting, result: Ok(Poll::Pending) }
                }
            },
            ButtonState::Debounce(timer) => {
                let timed = timer.resumed(task_id, rt);
                let task = self.at(ButtonState::Debounce(timed.task));
                match timed.result {
                    Err(fault) => Resumed { task, rt: timed.rt, result: Err(fault) },
                    Ok(Poll::Pending) => Resumed { task, rt: timed.rt, result: Ok(Poll::Pending) },
                    // Only a timer that has registered its deadline is ever ready.
                    Ok(Poll::Ready(())) => if timer.state == TimerState::Wait {
                        self.at(ButtonState::WaitForRelease).resumed(task_id, timed.rt)
                    } else {
                        Resumed { task, rt: timed.rt, result: Ok(Poll::Pending) }
                    },
                }
            },
            ButtonState::WaitForRelease => {
                let task = self.watching(PinState::High);
                let (waiting, answer) = awaited(rt, self.input.channel_id, PinState::High, task_id);
                if answer is Ready {
                    task.at(ButtonState::WaitForPress).resumed(task_id, rt)
                } else {
                    Resumed { task, rt: waiting, result: Ok(Poll::Pending) }
                }
            },
        }
    }

    proof fn lemma_resumed_valid(self, task_id: usize, rt: RuntimeView) {
        lemma_resume_keeps_valid(self, task_id, rt);
    }

    fn poll(&mut self, task_id: usize, rt: &mut Runtime) -> (r: Result<Poll<()>, Fault>) {
        proof {
            if rt@.valid() {
                lemma_resume_keeps_valid(*self, task_id, rt@);
            }
        }
        loop
            invariant
                self.wf(),
                self.resumed(task_id, rt@) == old(self).resumed(task_id, old(rt)@),
                old(rt)@.valid() ==> old(self).resumed(task_id, old(rt)@).rt.valid(),
            decreases self.rank(),
        {
            match self.state {
                ButtonState::WaitForPress => {
                    self.input.set_ready_state(PinState::Low);
                    let ghost before = rt@;
                    let answer = self.input.poll(task_id, rt)?;
                    if answer.is_ready() {
                        let sent = self.sender.send(&mut rt.mailbox, self.direction, &mut rt.ready);
                        assert(rt@ =~= RuntimeView {
                            mailbox: before.mailbox.sent(self.direction),
                            ready: before.mailbox.woken(before.ready),
                            ..before
                        });
                        match sent {
                            Err(fault) => {
                                return Err(fault);
                            },
                            Ok(()) => {},
                        }
                        self.state = ButtonState::Debounce(
                            Timer::new(TickDuration::millis(DEBOUNCE_MS), rt.now),
                        );
                    } else {
                        return Ok(Poll::Pending);
                    }
                },
                ButtonState::Debounce(timer) => {
                    let mut timer: Timer = timer;
                    let timed = timer.poll(task_id, rt);
                    self.state = ButtonState::Debounce(timer);
                    match timed {
                        Err(fault) => {
                            return Err(fault);
                        },
                        Ok(Poll::Pending) => {
                            return Ok(Poll::Pending);
                        },
                        Ok(Poll::Ready(())) => {
                            self.state = ButtonState::WaitForRelease;
                        },
                    }
                },
                ButtonState::WaitForRelease => {
                    self.input.set_ready_state(PinState::High);
                    let answer = self.input.poll(task_id, rt)?;
                    if answer.is_ready() {
                        self.state = ButtonState::WaitForPress;
                    } else {
                        return Ok(Poll::Pending);
                    }
                },
            }
        }
    }
}

/// A resume leaves the button task in a valid state and the runtime in a
/// state that it can reach.
pub proof fn lemma_resume_keeps_valid(task: ButtonTask, task_id: usize, rt: RuntimeView)
    requires
        task.wf(),
        rt.valid(),
    ensures
        task.resumed(task_id, rt).task.wf(),
        task.resumed(task_id, rt).rt.valid(),
    decreases task.rank(),
{
    match task.state {
        ButtonState::WaitForPress => {
            let (waiting, answer) = awaited(rt, task.input.channel_id, PinState::Low, task_id);
            if answer is Ready && rt.mailbox.wake_result(rt.ready) is Ok {
                let sent = RuntimeView {
                    mailbox: rt.mailbox.sent(task.direction),
                    ready: rt.mailbox.woken(rt.ready),
                    ..rt
                };
                let timer = Timer {
                    end_time: TickInstant {
                        ticks: after(rt.now, millis_to_ticks(DEBOUNCE_MS) as u64),
                    },
                    state: TimerState::Init,
                };
                lemma_resume_keeps_valid(
                    task.watching(PinState::Low).at(ButtonState::Debounce(timer)),
                    task_id,
                    sent,
                );
            }
        },
        ButtonState::Debounce(timer) => {
            timer.lemma_resumed_valid(task_id, rt);
            let timed = timer.resumed(task_id, rt);
            if timed.result == done() && timer.state == TimerState::Wait {
                lemma_resume_keeps_valid(task.at(ButtonState::WaitForRelease), task_id, timed.rt);
            }
        },
        ButtonState::WaitForRelease => {
            if rt.levels[task.input.channel_id as int] == PinState::High {
                lemma_resume_keeps_valid(
                    task.watching(PinState::High).at(ButtonState::WaitForPress),
                    task_id,
                    rt,
                );
            }
        },
    }
}

/// A button task keeps its hands off the LEDs, the clock and the samples:
/// a resume changes none of them.
pub proof fn lemma_resume_leaves_leds(task: ButtonTask, task_id: usize, rt: RuntimeView)
    ensures
        task.resumed(task_id, rt).rt.leds == rt.leds,
        task.resumed(task_id, rt).rt.levels == rt.levels,
        task.resumed(task_id, rt).rt.now == rt.now,
        task.resumed(task_id, rt).rt.ovf_count == rt.ovf_count,
        task.resumed(task_id, rt).rt.next_channel == rt.next_channel,
    decreases task.rank(),
{
    match task.state {
        ButtonState::WaitForPress => {
            let (waiting, answer) = awaited(rt, task.input.channel_id, PinState::Low, task_id);
            if answer is Ready && rt.mailbox.wake_result(rt.ready) is Ok {
                let sent = RuntimeView {
                    mailbox: rt.mailbox.sent(task.direction),
                    ready: rt.mailbox.woken(rt.ready),
                    ..rt
                };
                let timer = Timer {
                    end_time: TickInstant {
                        ticks: after(rt.now, millis_to_ticks(DEBOUNCE_MS) as u64),
                    },
                    state: TimerState::Init,
                };
                lemma_resume_leaves_leds(
                    task.watching(PinState::Low).at(ButtonState::Debounce(timer)),
                    task_id,
                    sent,
                );
            }
        },
        ButtonState::Debounce(timer) => {
            lemma_timer_frame(timer, task_id, rt);
            let timed = timer.resumed(task_id, rt);
            if timed.result == done() && timer.state == TimerState::Wait {
                lemma_resume_leaves_leds(task.at(ButtonState::WaitForRelease), task_id, timed.rt);
            }
        },
        ButtonState::WaitForRelease => {
            if rt.levels[task.input.channel_id as int] == PinState::High {
                lemma_resume_leaves_leds(
                    task.watching(PinState::High).at(ButtonState::WaitForPress),
                    task_id,
                    rt,
                );
            }
        },
    }
}

/// What is read from the hardware before a resume: the time and the level
/// of the button's pin.
pub struct Sample {
    /// The tick count that was read from the clock.
    pub now: u64,
    /// The level that was read from the pin.
    pub level: PinState,
}

/// The runtime after `sample` was taken for the pin of `channel`.
pub open spec fn sampled(rt: RuntimeView, channel: usize, sample: Sample) -> RuntimeView {
    RuntimeView { now: sample.now, levels: rt.levels.update(channel as int, sample.level), ..rt }
}

/// The task and the runtime after one resume for each of `samples`, each
/// taken just before its resume. A fault ends it.
pub open spec fn replayed(task: ButtonTask, task_id: usize, rt: RuntimeView, samples: Seq<Sample>)
    -> Resumed<ButtonTask, ()>
    decreases samples.len(),
{
    if samples.len() == 0 {
        Resumed { task, rt, result: Ok(Poll::Pending) }
    } else {
        let step = task.resumed(task_id, sampled(rt, task.input.channel_id, samples[0]));
        if step.result is Ok {
            replayed(step.task, task_id, step.rt, samples.drop_first())
        } else {
            step
        }
    }
}

/// A press is reported once, when it is seen. A task that waits for a
/// press and is resumed with the pin low sends its direction, so the
/// mailbox holds it, and goes on to sit out the bounce until the debounce
/// time after the sample has passed.
pub proof fn lemma_press_is_sent(task: ButtonTask, task_id: usize, rt: RuntimeView)
    requires
        task.wf(),
        rt.levels.len() == MAX_CHANNELS,
        task.state == ButtonState::WaitForPress,
        rt.levels[task.input.channel_id as int] == PinState::Low,
        task.resumed(task_id, rt).result is Ok,
    ensures
        task.resumed(task_id, rt).rt.mailbox == rt.mailbox.sent(task.direction),
        task.resumed(task_id, rt).task.state == ButtonState::Debounce(
            Timer {
                end_time: TickInstant { ticks: after(rt.now, millis_to_ticks(DEBOUNCE_MS) as u64) },
                state: TimerState::Wait,
            },
        ),
        task.resumed(task_id, rt).rt.now == rt.now,
{
    let sent = RuntimeView {
        mailbox: rt.mailbox.sent(task.direction),
        ready: rt.mailbox.woken(rt.ready),
        ..rt
    };
    let timer = Timer {
        end_time: TickInstant { ticks: after(rt.now, millis_to_ticks(DEBOUNCE_MS) as u64) },
        state: TimerState::Init,
    };
    lemma_timer_frame(timer, task_id, sent);
    let debouncing = task.watching(PinState::Low).at(ButtonState::Debounce(timer));
    assert(task.resumed(task_id, rt) == debouncing.resumed(task_id, sent));
}

/// Only a press sends. Unless the task waits for a press and finds the pin
/// low, a resume leaves the mailbox as it is: while the task sits out the
/// bounce, while it waits for the release, and while the button is up,
/// nothing is sent, however often the task is resumed.
pub proof fn lemma_only_a_press_sends(task: ButtonTask, task_id: usize, rt: RuntimeView)
    requires
        task.settled(),
        !(task.state == ButtonState::WaitForPress && rt.levels[task.input.channel_id as int]
            == PinState::Low),
    ensures
        task.resumed(task_id, rt).rt.mailbox == rt.mailbox,
        task.resumed(task_id, rt).rt.deadlines == rt.deadlines,
        task.resumed(task_id, rt).rt.ready == rt.ready,
        task.resumed(task_id, rt).result == waits(),
    decreases task.rank(),
{
    match task.state {
        ButtonState::WaitForPress => {},
        ButtonState::Debounce(timer) => {
            if timer.resumed(task_id, rt).result == done() {
                lemma_only_a_press_sends(task.at(ButtonState::WaitForRelease), task_id, rt);
            }
        },
        ButtonState::WaitForRelease => {
            if rt.levels[task.input.channel_id as int] == PinState::High {
                lemma_only_a_press_sends(
                    task.watching(PinState::High).at(ButtonState::WaitForPress),
                    task_id,
                    rt,
                );
            }
        },
    }
}

/// Inside the debounce window nothing happens. A task that sits out the
/// bounce and is resumed before its timer's end is reached stays as it is
/// and leaves the runtime as it is, whatever the pin's level: it sends
/// nothing, wakes nobody and registers nothing.
pub proof fn lemma_debounce_is_quiet(task: ButtonTask, task_id: usize, rt: RuntimeView)
    requires
        task.state is Debounce,
        task.state->Debounce_0.state == TimerState::Wait,
        !reached(rt.now, task.state->Debounce_0.end_time.ticks),
    ensures
        task.resumed(task_id, rt) == idle(task, rt),
{
}

/// A burst of bounces inside the debounce window sends nothing more.
/// However often the task is resumed while it sits out the bounce, and
/// whatever level each sample finds on the pin, the task stays as it is,
/// and the mailbox, the wake queue and the pending deadlines stay as they
/// are. Together with [`lemma_press_is_sent`]: one press, one event.
pub proof fn lemma_burst_is_quiet(
    task: ButtonTask,
    task_id: usize,
    rt: RuntimeView,
    samples: Seq<Sample>,
)
    requires
        task.state is Debounce,
        task.state->Debounce_0.state == TimerState::Wait,
        forall|i: int|
            0 <= i < samples.len() ==> !reached(
                (#[trigger] samples[i]).now,
                task.state->Debounce_0.end_time.ticks,
            ),
    ensures
        replayed(task, task_id, rt, samples).task == task,
        replayed(task, task_id, rt, samples).result == waits(),
        replayed(task, task_id, rt, samples).rt.mailbox == rt.mailbox,
        replayed(task, task_id, rt, samples).rt.ready == rt.ready,
        replayed(task, task_id, rt, samples).rt.deadlines == rt.deadlines,
        replayed(task, task_id, rt, samples).rt.waiters == rt.waiters,
        replayed(task, task_id, rt, samples).rt.compare == rt.compare,
    decreases samples.len(),
{
    if samples.len() > 0 {
        let first = sampled(rt, task.input.channel_id, samples[0]);
        lemma_debounce_is_quiet(task, task_id, first);
        let rest = samples.drop_first();
        assert forall|i: int| 0 <= i < rest.len() implies !reached(
            (#[trigger] rest[i]).now,
            task.state->Debounce_0.end_time.ticks,
        ) by {
            assert(rest[i] == samples[i + 1]);
        }
        lemma_burst_is_quiet(task, task_id, first, rest);
    }
}

/// A resume ends in a state in which a resume can leave a task.
pub proof fn lemma_resume_settles(task: ButtonTask, task_id: usize, rt: RuntimeView)
    requires
        task.settled(),
        task.resumed(task_id, rt).result is Ok,
    ensures
        task.resumed(task_id, rt).task.settled(),
        task.resumed(task_id, rt).result == waits(),
        task.resumed(task_id, rt).task.input.channel_id == task.input.channel_id,
    decreases task.rank(),
{
    match task.state {
        ButtonState::WaitForPress => {
            let (waiting, answer) = awaited(rt, task.input.channel_id, PinState::Low, task_id);
            if answer is Ready {
                let sent = RuntimeView {
                    mailbox: rt.mailbox.sent(task.direction),
                    ready: rt.mailbox.woken(rt.ready),
                    ..rt
                };
                let timer = Timer {
                    end_time: TickInstant {
                        ticks: after(rt.now, millis_to_ticks(DEBOUNCE_MS) as u64),
                    },
                    state: TimerState::Init,
                };
                let debouncing = task.watching(PinState::Low).at(ButtonState::Debounce(timer));
                assert(task.resumed(task_id, rt) == debouncing.resumed(task_id, sent));
            }
        },
        ButtonState::Debounce(timer) => {
            let timed = timer.resumed(task_id, rt);
            if timed.result == done() {
                lemma_resume_settles(task.at(ButtonState::WaitForRelease), task_id, timed.rt);
            }
        },
        ButtonState::WaitForRelease => {
            let (waiting, answer) = awaited(rt, task.input.channel_id, PinState::High, task_id);
            if answer is Ready {
                lemma_resume_settles(
                    task.watching(PinState::High).at(ButtonState::WaitForPress),
                    task_id,
                    rt,
                );
            }
        },
    }
}

/// A second wake is harmless. If a task is resumed again with nothing
/// changed since its last resume (it was queued twice, say), the second
/// resume changes neither the task nor the runtime: nothing is sent again,
/// no deadline is registered again, nobody is woken.
pub proof fn lemma_second_resume_is_idle(task: ButtonTask, task_id: usize, rt: RuntimeView)
    requires
        task.wf(),
        task.settled(),
        rt.waiters.len() == MAX_CHANNELS,
        task.resumed(task_id, rt).result is Ok,
    ensures
        task.resumed(task_id, rt).task.resumed(task_id, task.resumed(task_id, rt).rt) == idle(
            task.resumed(task_id, rt).task,
            task.resumed(task_id, rt).rt,
        ),
    decreases task.rank(),
{
    let first = task.resumed(task_id, rt);
    match task.state {
        ButtonState::WaitForPress => {
            let watching = task.watching(PinState::Low);
            let (waiting, answer) = awaited(rt, task.input.channel_id, PinState::Low, task_id);
            if answer is Ready {
                let sent = RuntimeView {
                    mailbox: rt.mailbox.sent(task.direction),
                    ready: rt.mailbox.woken(rt.ready),
                    ..rt
                };
                let timer = Timer {
                    end_time: TickInstant {
                        ticks: after(rt.now, millis_to_ticks(DEBOUNCE_MS) as u64),
                    },
                    state: TimerState::Init,
                };
                lemma_timer_frame(timer, task_id, sent);
                lemma_fresh_timer_runs(rt.now, millis_to_ticks(DEBOUNCE_MS) as u64);
                let debouncing = watching.at(ButtonState::Debounce(timer));
                assert(first == debouncing.resumed(task_id, sent));
                assert(first.task.resumed(task_id, first.rt) == idle(first.task, first.rt));
            } else {
                assert(waiting.waiters.update(task.input.channel_id as int, task_id)
                    =~= waiting.waiters);
                assert(first.task.resumed(task_id, first.rt) == idle(first.task, first.rt));
            }
        },
        ButtonState::Debounce(timer) => {
            let timed = timer.resumed(task_id, rt);
            if timed.result == done() {
                lemma_second_resume_is_idle(
                    task.at(ButtonState::WaitForRelease),
                    task_id,
                    timed.rt,
                );
            } else {
                assert(first.task.resumed(task_id, first.rt) == idle(first.task, first.rt));
            }
        },
        ButtonState::WaitForRelease => {
            let watching = task.watching(PinState::High);
            let (waiting, answer) = awaited(rt, task.input.channel_id, PinState::High, task_id);
            if answer is Ready {
                lemma_second_resume_is_idle(watching.at(ButtonState::WaitForPress), task_id, rt);
            } else {
                assert(waiting.waiters.update(task.input.channel_id as int, task_id)
                    =~= waiting.waiters);
                assert(first.task.resumed(task_id, first.rt) == idle(first.task, first.rt));
            }
        },
    }
}

} // verus!

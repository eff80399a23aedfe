use crate::button::ButtonDirection;
use crate::channel::Receiver;
use crate::fault::Fault;
use crate::future::{done, idle, waits, OurFuture, Poll, Resumed};
use crate::gpiote::PinState;
use crate::runtime::{Runtime, RuntimeView, NUM_COLS};
use crate::time::{after, millis_to_ticks, reached, TickDuration, TickInstant};
use crate::timer::{lemma_fresh_timer_runs, lemma_timer_frame, Timer, TimerState};
use vstd::prelude::*;

verus! {

/// How long the active LED stays on, and then off, in milliseconds.
pub const BLINK_MS: u64 = 500;

/// The column that is `direction` of `col`, in a row whose ends meet.
pub open spec fn shifted(col: usize, direction: ButtonDirection) -> usize {
    match direction {
        ButtonDirection::Left => if col == 0 {
            (NUM_COLS - 1) as usize
        } else {
            (col - 1) as usize
        },
        ButtonDirection::Right => ((col + 1) % (NUM_COLS as int)) as usize,
    }
}

/// The row of LED columns, one of which is active. A column is lit while
/// its pin is low.
#[derive(Clone, Copy, Debug, PartialEq, Eq, Structural)]
pub struct LedRow {
    /// The index of the active column.
    pub active_col: usize,
}

impl LedRow {
    /// Whether the active column exists.
    pub open spec fn wf(&self) -> bool {
        self.active_col < NUM_COLS
    }

    /// A row with column 0 active.
    pub fn new() -> (row: Self)
        ensures
            row.active_col == 0,
    {
        LedRow { active_col: 0 }
    }

    /// Moves the active column one step in `direction`. The column that
    /// was active and the one that is active now are both driven high, so
    /// the next toggle lights the new one.
    pub fn shift(&mut self, direction: ButtonDirection, leds: &mut [PinState; NUM_COLS])
        requires
            old(self).wf(),
        ensures
            final(self).wf(),
            final(self).active_col == shifted(old(self).active_col, direction),
            final(leds)@ == old(leds)@.update(old(self).active_col as int, PinState::High).update(
                final(self).active_col as int,
                PinState::High,
            ),
    {
        leds[self.active_col] = PinState::High;
        self.active_col = match direction {
            ButtonDirection::Left => if self.active_col == 0 {
                NUM_COLS - 1
            } else {
                self.active_col - 1
            },
            ButtonDirection::Right => (self.active_col + 1) % NUM_COLS,
        };
        leds[self.active_col] = PinState::High;
    }

    /// Turns the active column on if it is off, and off if it is on.
    pub fn toggle(&mut self, leds: &mut [PinState; NUM_COLS])
        requires
            old(self).wf(),
        ensures
            *final(self) == *old(self),
            final(leds)@ == old(leds)@.update(
                old(self).active_col as int,
                old(leds)@[old(self).active_col as int].flipped(),
            ),
    {
        let level: PinState = leds[self.active_col];
        leds[self.active_col] = level.toggled();
    }
}

/// Where the LED task stands.
#[derive(Clone, Copy, Debug, PartialEq, Eq, Structural)]
pub enum LedState {
    /// The active column is to be toggled.
    Toggle,
    /// The task waits for the blink timer or for a button.
    Wait(Timer),
}

/// The task that blinks the active LED and moves it when a button was
/// pressed.
pub struct LedTask {
    /// The row with its active column.
    pub row: LedRow,
    /// Where the task stands.
    pub state: LedState,
    /// The way from the mailbox.
    pub receiver: Receiver<ButtonDirection>,
}

impl LedTask {
    /// How many more states a resume can pass through from this one
    /// before it takes an item from the mailbox.
    pub open spec fn rank(self) -> nat {
        match self.state {
            LedState::Wait(timer) => if timer.state == TimerState::Wait {
                3
            } else {
                1
            },
            LedState::Toggle => 2,
        }
    }

    /// Whether the task is in a state in which a resume can leave it: a
    /// blink timer that exists between two resumes has registered its
    /// deadline.
    pub open spec fn settled(self) -> bool {
        match self.state {
            LedState::Wait(timer) => timer.state == TimerState::Wait,
            LedState::Toggle => true,
        }
    }

    /// The task with another state.
    pub open spec fn at(self, state: LedState) -> Self {
        LedTask { state, ..self }
    }

    /// A task with column 0 active, about to light it.
    pub fn new(receiver: Receiver<ButtonDirection>) -> (t: Self)
        ensures
            t.wf(),
            t.settled(),
            t.row.active_col == 0,
            t.state == LedState::Toggle,
            t.receiver == receiver,
    {
        LedTask { row: LedRow::new(), state: LedState::Toggle, receiver }
    }
}

/// The LED levels after a move of the active column from `from` to `to`:
/// both columns are driven high.
pub open spec fn darkened(leds: Seq<PinState>, from: usize, to: usize) -> Seq<PinState> {
    leds.update(from as int, PinState::High).update(to as int, PinState::High)
}

impl OurFuture for LedTask {
    type Output = ();

    open spec fn wf(&self) -> bool {
        self.row.wf()
    }

    /// One resume of the LED task. The task never finishes.
    ///
    /// About to toggle: the active column is toggled, a blink timer is
    /// started at the time of the last sample, and the task waits.
    ///
    /// Waiting: once the timer's end is reached, the task toggles again.
    /// Before that the task asks the mailbox, which makes it the mailbox's
    /// waiter; if a direction is pending there, the active column moves
    /// that way, the old and the new column go dark, and the task toggles
    /// at once, so the new column is lit when the resume ends.
    open spec fn resumed(self, task_id: usize, rt: RuntimeView) -> Resumed<Self, ()>
        decreases
                (if rt.mailbox.item is Some {
                    1nat
                } else {
                    0nat
                }),
                self.rank(),
    {
        match self.state {
            LedState::Toggle => {
                let col = self.row.active_col as int;
                let blinked = RuntimeView { leds: rt.leds.update(col, rt.leds[col].flipped()), ..rt };
                let timer = Timer {
                    end_time: TickInstant { ticks: after(rt.now, millis_to_ticks(BLINK_MS) as u64) },
                    state: TimerState::Init,
                };
                self.at(LedState::Wait(timer)).resumed(task_id, blinked)
            },
            LedState::Wait(timer) => {
                let timed = timer.resumed(task_id, rt);
                let task = self.at(LedState::Wait(timed.task));
                match timed.result {
                    Err(fault) => Resumed { task, rt: timed.rt, result: Err(fault) },
                    // Only a timer that has registered its deadline is ever ready.
                    Ok(Poll::Ready(())) => if timer.state == TimerState::Wait {
                        self.at(LedState::Toggle).resumed(task_id, rt)
                    } else {
                        Resumed { task, rt: timed.rt, result: Ok(Poll::Pending) }
                    },
                    Ok(Poll::Pending) => {
                        let asked = RuntimeView {
                            mailbox: rt.mailbox.received(task_id),
                            ..timed.rt
                        };
                        match rt.mailbox.offer() {
                            Poll::Ready(direction) => {
                                let to = shifted(self.row.active_col, direction);
                                let moved = RuntimeView {
                                    leds: darkened(asked.leds, self.row.active_col, to),
                                    ..asked
                                };
                                LedTask {
                                    row: LedRow { active_col: to },
                                    state: LedState::Toggle,
                                    ..task
                                }.resumed(task_id, moved)
                            },
                            Poll::Pending => Resumed { task, rt: asked, result: Ok(Poll::Pending) },
                        }
                    },
                }
            },
        }
    }

    proof fn lemma_resumed_valid(self, task_id: usize, rt: RuntimeView) {
        lemma_resume_keeps_valid(self, task_id, rt);
    }

    fn poll(&mut self, task_id: usize, rt: &mut Runtime) -> (r: Result<Poll<()>, Fault>) {
        proof {
            if rt@.valid() {
                lemma_resume_keeps_valid(*self, task_id, rt@);
            }
        }
        loop
            invariant
                self.wf(),
                self.resumed(task_id, rt@) == old(self).resumed(task_id, old(rt)@),
                old(rt)@.valid() ==> old(self).resumed(task_id, old(rt)@).rt.valid(),
            decreases
                    (if rt.mailbox.item is Some {
                        1nat
                    } else {
                        0nat
                    }),
                    self.rank(),
        {
            match self.state {
                LedState::Toggle => {
                    let ghost before = rt@;
                    self.row.toggle(&mut rt.leds);
                    assert(rt@ =~= RuntimeView {
                        leds: before.leds.update(
                            self.row.active_col as int,
                            before.leds[self.row.active_col as int].flipped(),
                        ),
                        ..before
                    });
                    self.state = LedState::Wait(Timer::new(TickDuration::millis(BLINK_MS), rt.now));
                },
                LedState::Wait(timer) => {
                    let ghost before = rt@;
                    let ghost started = timer;
                    let mut timer: Timer = timer;
                    let timed = timer.poll(task_id, rt);
                    self.state = LedState::Wait(timer);
                    proof {
                        lemma_timer_frame(started, task_id, before);
                    }
                    match timed {
                        Err(fault) => {
                            return Err(fault);
                        },
                        Ok(Poll::Ready(())) => {
                            self.state = LedState::Toggle;
                        },
                        Ok(Poll::Pending) => {
                            let ghost timed_rt = rt@;
                            let from: usize = self.row.active_col;
                            match self.receiver.receive(&mut rt.mailbox, task_id) {
                                Poll::Ready(direction) => {
                                    self.row.shift(direction, &mut rt.leds);
                                    self.state = LedState::Toggle;
                                    assert(rt@ =~= RuntimeView {
                                        leds: darkened(timed_rt.leds, from, self.row.active_col),
                                        mailbox: before.mailbox.received(task_id),
                                        ..timed_rt
                                    });
                                },
                                Poll::Pending => {
                                    assert(rt@ =~= RuntimeView {
                                        mailbox: before.mailbox.received(task_id),
                                        ..timed_rt
                                    });
                                    return Ok(Poll::Pending);
                                },
                            }
                        },
                    }
                },
            }
        }
    }
}

/// A resume leaves the LED task in a valid state and the runtime in a
/// state that it can reach.
pub proof fn lemma_resume_keeps_valid(task: LedTask, task_id: usize, rt: RuntimeView)
    requires
        task.wf(),
        rt.valid(),
    ensures
        task.resumed(task_id, rt).task.wf(),
        task.resumed(task_id, rt).rt.valid(),
    decreases
            (if rt.mailbox.item is Some {
                1nat
            } else {
                0nat
            }),
            task.rank(),
{
    match task.state {
        LedState::Toggle => {
            let col = task.row.active_col as int;
            let blinked = RuntimeView { leds: rt.leds.update(col, rt.leds[col].flipped()), ..rt };
            let timer = Timer {
                end_time: TickInstant { ticks: after(rt.now, millis_to_ticks(BLINK_MS) as u64) },
                state: TimerState::Init,
            };
            lemma_resume_keeps_valid(task.at(LedState::Wait(timer)), task_id, blinked);
        },
        LedState::Wait(timer) => {
            timer.lemma_resumed_valid(task_id, rt);
            let timed = timer.resumed(task_id, rt);
            let waiting = task.at(LedState::Wait(timed.task));
            if timed.result == done() {
                if timer.state == TimerState::Wait {
                    lemma_resume_keeps_valid(task.at(LedState::Toggle), task_id, rt);
                }
            } else if timed.result is Ok {
                let asked = RuntimeView { mailbox: rt.mailbox.received(task_id), ..timed.rt };
                match rt.mailbox.offer() {
                    Poll::Ready(direction) => {
                        lemma_shift_wraps(task.row.active_col);
                        let to = shifted(task.row.active_col, direction);
                        let moved = RuntimeView {
                            leds: darkened(asked.leds, task.row.active_col, to),
                            ..asked
                        };
                        lemma_resume_keeps_valid(
                            LedTask {
                                row: LedRow { active_col: to },
                                state: LedState::Toggle,
                                ..waiting
                            },
                            task_id,
                            moved,
                        );
                    },
                    Poll::Pending => {},
                }
            }
        },
    }
}

/// Whether every column but `col` is dark.
pub open spec fn dark_elsewhere(leds: Seq<PinState>, col: usize) -> bool {
    forall|i: int| 0 <= i < leds.len() && i != col ==> leds[i] == PinState::High
}

/// Whether column `col` is lit and no other.
pub open spec fn lit_only(leds: Seq<PinState>, col: usize) -> bool {
    leds[col as int] == PinState::Low && dark_elsewhere(leds, col)
}

/// The column `steps` steps in `direction` from `col`.
pub open spec fn shifted_by(col: usize, direction: ButtonDirection, steps: nat) -> usize
    decreases steps,
{
    if steps == 0 {
        col
    } else {
        shifted_by(shifted(col, direction), direction, (steps - 1) as nat)
    }
}

/// The ends of the row meet: left of the first column is the last, right
/// of the last is the first. A shift stays in the row, and a shift back
/// undoes a shift.
pub proof fn lemma_shift_wraps(col: usize)
    requires
        col < NUM_COLS,
    ensures
        shifted(0, ButtonDirection::Left) == NUM_COLS - 1,
        shifted((NUM_COLS - 1) as usize, ButtonDirection::Right) == 0,
        shifted(col, ButtonDirection::Left) < NUM_COLS,
        shifted(col, ButtonDirection::Right) < NUM_COLS,
        shifted(shifted(col, ButtonDirection::Left), ButtonDirection::Right) == col,
        shifted(shifted(col, ButtonDirection::Right), ButtonDirection::Left) == col,
{
}

/// As many shifts in one direction as the row has columns lead back to
/// the column where they began.
pub proof fn lemma_full_circle(col: usize, direction: ButtonDirection)
    requires
        col < NUM_COLS,
    ensures
        shifted_by(col, direction, NUM_COLS as nat) == col,
{
    reveal_with_fuel(shifted_by, 6);
}

/// What every resume of the LED task does, whatever state it starts in.
proof fn lemma_resume_shape(task: LedTask, task_id: usize, rt: RuntimeView)
    requires
        task.wf(),
        rt.leds.len() == NUM_COLS,
        task.state is Wait && task.state->Wait_0.state == TimerState::Init ==> !reached(
            rt.now,
            task.state->Wait_0.end_time.ticks,
        ),
        task.resumed(task_id, rt).result is Ok,
    ensures
        task.resumed(task_id, rt).result == waits(),
        task.resumed(task_id, rt).task.wf(),
        task.resumed(task_id, rt).task.state is Wait,
        task.resumed(task_id, rt).task.state->Wait_0.state == TimerState::Wait,
        !reached(rt.now, task.resumed(task_id, rt).task.state->Wait_0.end_time.ticks),
        task.resumed(task_id, rt).rt.now == rt.now,
        task.resumed(task_id, rt).rt.leds.len() == NUM_COLS,
        task.resumed(task_id, rt).rt.mailbox == rt.mailbox.received(task_id),
        task.resumed(task_id, rt).task.row.active_col == (match rt.mailbox.item {
            Some(direction) => shifted(task.row.active_col, direction),
            None => task.row.active_col,
        }),
        dark_elsewhere(rt.leds, task.row.active_col) ==> dark_elsewhere(
            task.resumed(task_id, rt).rt.leds,
            task.resumed(task_id, rt).task.row.active_col,
        ),
        dark_elsewhere(rt.leds, task.row.active_col) && rt.mailbox.item is Some ==> lit_only(
            task.resumed(task_id, rt).rt.leds,
            task.resumed(task_id, rt).task.row.active_col,
        ),
    decreases
            (if rt.mailbox.item is Some {
                1nat
            } else {
                0nat
            }),
            task.rank(),
{
    match task.state {
        LedState::Toggle => {
            let col = task.row.active_col as int;
            let blinked = RuntimeView { leds: rt.leds.update(col, rt.leds[col].flipped()), ..rt };
            let timer = Timer {
                end_time: TickInstant { ticks: after(rt.now, millis_to_ticks(BLINK_MS) as u64) },
                state: TimerState::Init,
            };
            lemma_fresh_timer_runs(rt.now, millis_to_ticks(BLINK_MS) as u64);
            let waiting = task.at(LedState::Wait(timer));
            assert(task.resumed(task_id, rt) == waiting.resumed(task_id, blinked));
            lemma_resume_shape(waiting, task_id, blinked);
            if dark_elsewhere(rt.leds, task.row.active_col) && rt.mailbox.item is None {
                assert(dark_elsewhere(blinked.leds, task.row.active_col));
            }
        },
        LedState::Wait(timer) => {
            let timed = timer.resumed(task_id, rt);
            lemma_timer_frame(timer, task_id, rt);
            let waiting = task.at(LedState::Wait(timed.task));
            if timed.result == done() {
                lemma_resume_shape(task.at(LedState::Toggle), task_id, rt);
            } else {
                let asked = RuntimeView { mailbox: rt.mailbox.received(task_id), ..timed.rt };
                match rt.mailbox.offer() {
                    Poll::Ready(direction) => {
                        lemma_shift_wraps(task.row.active_col);
                        let to = shifted(task.row.active_col, direction);
                        let moved = RuntimeView {
                            leds: darkened(asked.leds, task.row.active_col, to),
                            ..asked
                        };
                        let next = LedTask {
                            row: LedRow { active_col: to },
                            state: LedState::Toggle,
                            ..waiting
                        };
                        assert(task.resumed(task_id, rt) == next.resumed(task_id, moved));
                        lemma_resume_shape(next, task_id, moved);
                        lemma_lights_up(next, task_id, moved);
                    },
                    Poll::Pending => {},
                }
            }
        },
    }
}

/// A task that is about to toggle, with every column dark and nothing in
/// the mailbox, ends its resume with the active column lit and no other.
proof fn lemma_lights_up(task: LedTask, task_id: usize, rt: RuntimeView)
    requires
        task.wf(),
        rt.leds.len() == NUM_COLS,
        task.state == LedState::Toggle,
        rt.mailbox.item is None,
        task.resumed(task_id, rt).result is Ok,
    ensures
        (forall|i: int| 0 <= i < NUM_COLS ==> rt.leds[i] == PinState::High) ==> lit_only(
            task.resumed(task_id, rt).rt.leds,
            task.row.active_col,
        ),
        dark_elsewhere(rt.leds, task.row.active_col) ==> dark_elsewhere(
            task.resumed(task_id, rt).rt.leds,
            task.row.active_col,
        ),
        task.resumed(task_id, rt).task.row.active_col == task.row.active_col,
{
    let col = task.row.active_col as int;
    let blinked = RuntimeView { leds: rt.leds.update(col, rt.leds[col].flipped()), ..rt };
    let timer = Timer {
        end_time: TickInstant { ticks: after(rt.now, millis_to_ticks(BLINK_MS) as u64) },
        state: TimerState::Init,
    };
    let waiting = task.at(LedState::Wait(timer));
    assert(task.resumed(task_id, rt) == waiting.resumed(task_id, blinked));
    lemma_timer_frame(timer, task_id, blinked);
}

/// A resume leaves the LED task waiting, in a valid state in which a
/// resume can leave it, as the mailbox's waiter, and with at most one
/// column lit: if every column but the active one was dark before the
/// resume, then so it is after it.
pub proof fn lemma_resume_keeps_rest_dark(task: LedTask, task_id: usize, rt: RuntimeView)
    requires
        task.wf(),
        task.settled(),
        rt.leds.len() == NUM_COLS,
        dark_elsewhere(rt.leds, task.row.active_col),
        task.resumed(task_id, rt).result is Ok,
    ensures
        task.resumed(task_id, rt).result == waits(),
        task.resumed(task_id, rt).task.wf(),
        task.resumed(task_id, rt).task.settled(),
        task.resumed(task_id, rt).rt.leds.len() == NUM_COLS,
        task.resumed(task_id, rt).rt.mailbox.task_id == Some(task_id),
        dark_elsewhere(
            task.resumed(task_id, rt).rt.leds,
            task.resumed(task_id, rt).task.row.active_col,
        ),
{
    lemma_resume_shape(task, task_id, rt);
}

/// After a shift exactly one column is lit. If a direction is pending in
/// the mailbox and every column but the active one is dark, then the
/// resume moves the active column one step in that direction, round the
/// ends of the row, takes the direction out of the mailbox, and ends with
/// the new active column lit and every other column dark.
pub proof fn lemma_one_lit_after_shift(
    task: LedTask,
    task_id: usize,
    rt: RuntimeView,
    direction: ButtonDirection,
)
    requires
        task.wf(),
        task.settled(),
        rt.leds.len() == NUM_COLS,
        dark_elsewhere(rt.leds, task.row.active_col),
        rt.mailbox.item == Some(direction),
        task.resumed(task_id, rt).result is Ok,
    ensures
        task.resumed(task_id, rt).task.row.active_col == shifted(task.row.active_col, direction),
        lit_only(task.resumed(task_id, rt).rt.leds, shifted(task.row.active_col, direction)),
        task.resumed(task_id, rt).rt.mailbox.item is None,
{
    lemma_resume_shape(task, task_id, rt);
}

/// A second wake is harmless. If the LED task is resumed again with
/// nothing changed since its last resume, the second resume changes
/// neither the task nor the runtime: no LED is toggled, no deadline is
/// registered again.
pub proof fn lemma_second_resume_is_idle(task: LedTask, task_id: usize, rt: RuntimeView)
    requires
        task.wf(),
        task.settled(),
        rt.leds.len() == NUM_COLS,
        task.resumed(task_id, rt).result is Ok,
    ensures
        task.resumed(task_id, rt).task.resumed(task_id, task.resumed(task_id, rt).rt) == idle(
            task.resumed(task_id, rt).task,
            task.resumed(task_id, rt).rt,
        ),
{
    lemma_resume_shape(task, task_id, rt);
    let first = task.resumed(task_id, rt);
    let timer = first.task.state->Wait_0;
    assert(timer.resumed(task_id, first.rt).rt == first.rt);
    assert(first.rt =~= RuntimeView {
        mailbox: first.rt.mailbox.received(task_id),
        ..first.rt
    });
}

} // verus!

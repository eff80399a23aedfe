use crate::button::ButtonDirection;
use crate::channel::Channel;
use crate::deadline::{
    ascending, lemma_wake_due_keeps_valid, schedule_wakeup, wake_due, Deadlines, Entry,
    MAX_DEADLINES,
};
use crate::fault::Fault;
use crate::gpiote::{EdgeSlots, PinState, MAX_CHANNELS};
use crate::queue::{WakeQueue, MAX_READY};
use crate::time::{compose, next_epoch, TickInstant, Ticker};
use vstd::prelude::*;

verus! {

/// How many LED columns the board has.
pub const NUM_COLS: usize = 5;

/// The state that the tasks and the interrupt handlers share, together
/// with the runtime's picture of the hardware: what was sampled from it
/// last, and what is to be written to it.
pub struct Runtime {
    /// The time at the last sample.
    pub now: TickInstant,
    /// The wide clock.
    pub ticker: Ticker,
    /// The deadlines that tasks wait for.
    pub deadlines: Deadlines,
    /// The compare event of the hardware counter: the counter value at
    /// which it is to fire, or `None` if it is to be off.
    pub compare: Option<u32>,
    /// The tasks that are ready to be resumed.
    pub ready: WakeQueue,
    /// The edge-detect channels of the buttons.
    pub edges: EdgeSlots,
    /// The levels to which the LED columns are driven. A column is lit
    /// while it is low.
    pub leds: [PinState; NUM_COLS],
    /// The mailbox from the button tasks to the LED task.
    pub mailbox: Channel<ButtonDirection>,
}

/// The runtime as a mathematical value.
pub struct RuntimeView {
    /// The tick count at the last sample.
    pub now: u64,
    /// The number of counter wraps that the clock has counted.
    pub ovf_count: u32,
    /// The pending deadlines with their tasks, earliest first.
    pub deadlines: Seq<Entry>,
    /// The counter value at which the compare event is to fire, if it is
    /// to fire at all.
    pub compare: Option<u32>,
    /// The ids of the ready tasks, oldest first.
    pub ready: Seq<usize>,
    /// The number of edge-detect channels that have been claimed.
    pub next_channel: usize,
    /// For each edge-detect channel the waiting task, or the value that
    /// stands for none.
    pub waiters: Seq<usize>,
    /// For each edge-detect channel the level of its pin at the last
    /// sample.
    pub levels: Seq<PinState>,
    /// The level of each LED column.
    pub leds: Seq<PinState>,
    /// The mailbox from the button tasks to the LED task.
    pub mailbox: Channel<ButtonDirection>,
}

impl RuntimeView {
    /// Whether the runtime is in a state that it can reach: the pending
    /// deadlines are listed earliest first, neither they nor the ready
    /// tasks are more than there is room for, and every channel and every
    /// column has its level.
    pub open spec fn valid(self) -> bool {
        &&& ascending(self.deadlines)
        &&& self.deadlines.len() <= MAX_DEADLINES
        &&& self.ready.len() <= MAX_READY
        &&& self.waiters.len() == MAX_CHANNELS
        &&& self.levels.len() == MAX_CHANNELS
        &&& self.leds.len() == NUM_COLS
    }
}

impl View for Runtime {
    type V = RuntimeView;

    open spec fn view(&self) -> RuntimeView {
        RuntimeView {
            now: self.now.ticks,
            ovf_count: self.ticker.ovf_count,
            deadlines: self.deadlines@,
            compare: self.compare,
            ready: self.ready@,
            next_channel: self.edges.next,
            waiters: self.edges.waiters@,
            levels: self.edges.levels@,
            leds: self.leds@,
            mailbox: self.mailbox,
        }
    }
}

impl Runtime {
    /// The runtime at startup: time zero, nothing pending, nothing ready,
    /// no channel claimed, every button pin high, every LED column high
    /// (dark), the mailbox empty.
    pub fn new() -> (rt: Self)
        ensures
            rt@ == (RuntimeView {
                now: 0,
                ovf_count: 0,
                deadlines: Seq::empty(),
                compare: None,
                ready: Seq::empty(),
                next_channel: 0,
                waiters: seq![crate::gpiote::INVALID_TASK_ID, crate::gpiote::INVALID_TASK_ID],
                levels: seq![PinState::High, PinState::High],
                leds: seq![
                    PinState::High,
                    PinState::High,
                    PinState::High,
                    PinState::High,
                    PinState::High,
                ],
                mailbox: Channel { item: None, task_id: None },
            }),
            rt@.valid(),
    {
        let rt = Runtime {
            now: TickInstant::from_ticks(0),
            ticker: Ticker::new(),
            deadlines: Deadlines::new(),
            compare: None,
            ready: WakeQueue::new(),
            edges: EdgeSlots::new(),
            leds: [PinState::High, PinState::High, PinState::High, PinState::High, PinState::High],
            mailbox: Channel::new(),
        };
        assert(rt.leds@ =~= seq![
            PinState::High,
            PinState::High,
            PinState::High,
            PinState::High,
            PinState::High,
        ]);
        rt
    }

    /// Records the time that was read from the clock.
    pub fn sample_time(&mut self, now: TickInstant)
        ensures
            final(self)@ == (RuntimeView { now: now.ticks, ..old(self)@ }),
            old(self)@.valid() ==> final(self)@.valid(),
    {
        self.now = now;
    }

    /// Records the level that was read from the pin of edge-detect channel
    /// `channel`.
    pub fn sample_pin(&mut self, channel: usize, level: PinState)
        requires
            channel < MAX_CHANNELS,
        ensures
            final(self)@ == (RuntimeView {
                levels: old(self)@.levels.update(channel as int, level),
                ..old(self)@
            }),
            old(self)@.valid() ==> final(self)@.valid(),
    {
        self.edges.levels[channel] = level;
    }

    /// The handler of the clock interrupt. `overflow` tells whether the
    /// counter has wrapped since the last call, `counter` is the value
    /// read from the counter now. A wrap is counted; the time of the last
    /// sample becomes what the overflow count and `counter` stand for; the
    /// deadlines that are due then are served and the compare event is set
    /// anew.
    pub fn clock_interrupt(&mut self, overflow: bool, counter: u32) -> (r: Result<(), Fault>)
        ensures
            final(self)@ == wake_due(clock_read(old(self)@, overflow, counter)).rt,
            r == wake_due(clock_read(old(self)@, overflow, counter)).result,
            old(self)@.valid() ==> final(self)@.valid(),
    {
        proof {
            if self@.valid() {
                lemma_wake_due_keeps_valid(clock_read(self@, overflow, counter));
            }
        }
        if overflow {
            self.ticker.overflow();
        }
        self.now = self.ticker.instant(counter);
        schedule_wakeup(self)
    }
}

/// The runtime after the clock interrupt has looked at the clock: a wrap
/// is counted, and the time is what the count and the counter stand for.
pub open spec fn clock_read(rt: RuntimeView, overflow: bool, counter: u32) -> RuntimeView {
    let ovf_count = if overflow {
        next_epoch(rt.ovf_count)
    } else {
        rt.ovf_count
    };
    RuntimeView { ovf_count, now: compose(ovf_count, counter), ..rt }
}

/// The runtime after a step, with the step's answer. After a fault the
/// runtime is as it was when the fault was found.
pub struct Step {
    /// The runtime after the step.
    pub rt: RuntimeView,
    /// Whether the step went through.
    pub result: Result<(), Fault>,
}

} // verus!

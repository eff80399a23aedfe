use crate::fault::Fault;
use crate::future::{OurFuture, Poll, Resumed};
use crate::queue::MAX_READY;
use crate::runtime::{Runtime, RuntimeView, Step};
use vstd::prelude::*;

verus! {

/// How many edge-detect channels the runtime uses.
pub const MAX_CHANNELS: usize = 2;

/// The value of a channel's slot while no task waits for its pin.
pub const INVALID_TASK_ID: usize = 0xFFFF_FFFF;

/// The level of a digital pin.
#[derive(Clone, Copy, Debug, PartialEq, Eq, Structural)]
pub enum PinState {
    /// The pin is at ground. A pressed button reads low; a column that is
    /// driven low is lit.
    Low,
    /// The pin is at the supply voltage.
    High,
}

impl PinState {
    /// The level of a pin that reads high (`true`) or low (`false`).
    pub fn from_high(high: bool) -> (s: Self)
        ensures
            s == (if high {
                PinState::High
            } else {
                PinState::Low
            }),
    {
        if high {
            PinState::High
        } else {
            PinState::Low
        }
    }

    /// The other level.
    pub fn toggled(self) -> (s: Self)
        ensures
            s == self.flipped(),
    {
        match self {
            PinState::Low => PinState::High,
            PinState::High => PinState::Low,
        }
    }

    /// The other level.
    pub open spec fn flipped(self) -> Self {
        match self {
            PinState::Low => PinState::High,
            PinState::High => PinState::Low,
        }
    }
}

/// The edge-detect channels: for each, the level that its pin had when it
/// was last sampled and the task that waits for the pin to change.
pub struct EdgeSlots {
    /// The number of channels that have been claimed.
    pub next: usize,
    /// For each channel the waiting task, or [`INVALID_TASK_ID`].
    pub waiters: [usize; MAX_CHANNELS],
    /// For each channel the level of its pin at the last sample.
    pub levels: [PinState; MAX_CHANNELS],
}

impl EdgeSlots {
    /// No channel claimed, nobody waiting, every pin high (a button that
    /// is not pressed).
    pub fn new() -> (e: Self)
        ensures
            e.next == 0,
            e.waiters@ == seq![INVALID_TASK_ID, INVALID_TASK_ID],
            e.levels@ == seq![PinState::High, PinState::High],
    {
        let e = EdgeSlots {
            next: 0,
            waiters: [INVALID_TASK_ID, INVALID_TASK_ID],
            levels: [PinState::High, PinState::High],
        };
        assert(e.waiters@ =~= seq![INVALID_TASK_ID, INVALID_TASK_ID]);
        assert(e.levels@ =~= seq![PinState::High, PinState::High]);
        e
    }
}

/// A button pin with its edge-detect channel. A task waits on it for the
/// pin to be at a level.
#[derive(Clone, Copy, Debug, PartialEq, Eq, Structural)]
pub struct InputChannel {
    /// The edge-detect channel that watches the pin.
    pub channel_id: usize,
    /// The level that [`OurFuture::poll`] waits for.
    pub ready_state: PinState,
}

/// The runtime and the answer after task `task_id` asked on `channel` for
/// the pin to be at `level`: if the pin was at that level at the last
/// sample, the task goes on and nothing changes; otherwise the task is the
/// channel's waiter.
pub open spec fn awaited(rt: RuntimeView, channel: usize, level: PinState, task_id: usize) -> (
    RuntimeView,
    Poll<()>,
) {
    if rt.levels[channel as int] == level {
        (rt, Poll::Ready(()))
    } else {
        (RuntimeView { waiters: rt.waiters.update(channel as int, task_id), ..rt }, Poll::Pending)
    }
}

impl InputChannel {
    /// Claims the next free edge-detect channel. The channel waits for a
    /// low pin until told otherwise.
    ///
    /// There must be a free channel; [`InputChannel::try_new`] asks first.
    pub fn new(rt: &mut Runtime) -> (c: Self)
        requires
            old(rt).edges.next < MAX_CHANNELS,
        ensures
            c.channel_id == old(rt).edges.next,
            c.ready_state == PinState::Low,
            final(rt)@ == (RuntimeView { next_channel: (old(rt).edges.next + 1) as usize, ..old(rt)@ }),
            old(rt)@.valid() ==> final(rt)@.valid(),
    {
        let channel_id: usize = rt.edges.next;
        rt.edges.next = channel_id + 1;
        InputChannel { channel_id, ready_state: PinState::Low }
    }

    /// Claims the next free edge-detect channel, or returns `None` and
    /// leaves the runtime as it is when all are taken.
    pub fn try_new(rt: &mut Runtime) -> (c: Option<Self>)
        ensures
            c == (if old(rt).edges.next < MAX_CHANNELS {
                Some(InputChannel { channel_id: old(rt).edges.next, ready_state: PinState::Low })
            } else {
                None
            }),
            final(rt)@ == (if old(rt).edges.next < MAX_CHANNELS {
                RuntimeView { next_channel: (old(rt).edges.next + 1) as usize, ..old(rt)@ }
            } else {
                old(rt)@
            }),
    {
        if rt.edges.next < MAX_CHANNELS {
            Some(InputChannel::new(rt))
        } else {
            None
        }
    }

    /// Sets the level that [`OurFuture::poll`] waits for.
    pub fn set_ready_state(&mut self, ready_state: PinState)
        ensures
            final(self).channel_id == old(self).channel_id,
            final(self).ready_state == ready_state,
    {
        self.ready_state = ready_state;
    }

    /// Waits for the pin to be at `pin_state`, on behalf of task
    /// `task_id`. If the pin was at that level at the last sample, this is
    /// ready at once, and no interrupt is needed. Otherwise the task becomes
    /// the channel's waiter, to be woken at the pin's next edge.
    pub fn wait_for(&mut self, pin_state: PinState, task_id: usize, rt: &mut Runtime) -> (r: Poll<
        (),
    >)
        requires
            old(self).channel_id < MAX_CHANNELS,
        ensures
            final(self).channel_id == old(self).channel_id,
            final(self).ready_state == pin_state,
            final(rt)@ == awaited(old(rt)@, old(self).channel_id, pin_state, task_id).0,
            r == awaited(old(rt)@, old(self).channel_id, pin_state, task_id).1,
            old(rt)@.levels[old(self).channel_id as int] == pin_state ==> r is Ready && final(rt)@
                == old(rt)@,
            old(rt)@.valid() ==> final(rt)@.valid(),
    {
        self.ready_state = pin_state;
        if rt.edges.levels[self.channel_id] == pin_state {
            Poll::Ready(())
        } else {
            rt.edges.waiters[self.channel_id] = task_id;
            Poll::Pending
        }
    }
}

impl OurFuture for InputChannel {
    type Output = ();

    open spec fn wf(&self) -> bool {
        self.channel_id < MAX_CHANNELS
    }

    /// Ready if the pin was at the awaited level at the last sample;
    /// otherwise the task becomes the channel's waiter.
    open spec fn resumed(self, task_id: usize, rt: RuntimeView) -> Resumed<Self, ()> {
        Resumed {
            task: self,
            rt: awaited(rt, self.channel_id, self.ready_state, task_id).0,
            result: Ok(awaited(rt, self.channel_id, self.ready_state, task_id).1),
        }
    }

    proof fn lemma_resumed_valid(self, task_id: usize, rt: RuntimeView) {
    }

    fn poll(&mut self, task_id: usize, rt: &mut Runtime) -> (r: Result<Poll<()>, Fault>) {
        assert(self.wf());
        let ghost expected = self.resumed(task_id, rt@);
        let level: PinState = self.ready_state;
        Ok(self.wait_for(level, task_id, rt))
    }
}

/// The runtime after an edge was seen on `channel`: the channel's slot is
/// empty, and the task that waited there, if any, is queued for
/// resumption. A full wake queue is a fault; the slot is empty all the
/// same.
pub open spec fn edge_seen(rt: RuntimeView, channel: int) -> Step {
    let waiter = rt.waiters[channel];
    let cleared = RuntimeView { waiters: rt.waiters.update(channel, INVALID_TASK_ID), ..rt };
    if waiter == INVALID_TASK_ID {
        Step { rt: cleared, result: Ok(()) }
    } else if rt.ready.len() < MAX_READY {
        Step { rt: RuntimeView { ready: rt.ready.push(waiter), ..cleared }, result: Ok(()) }
    } else {
        Step { rt: cleared, result: Err(Fault::QueueFull(waiter)) }
    }
}

/// The runtime after the channels from `from` on were looked at, in
/// order, where `events` tells which of them saw an edge. The first fault
/// ends it.
pub open spec fn edges_served(rt: RuntimeView, events: Seq<bool>, from: int) -> Step
    decreases MAX_CHANNELS - from,
{
    if from < 0 || from >= MAX_CHANNELS {
        Step { rt, result: Ok(()) }
    } else if !events[from] {
        edges_served(rt, events, from + 1)
    } else {
        let step = edge_seen(rt, from);
        if step.result is Ok {
            edges_served(step.rt, events, from + 1)
        } else {
            step
        }
    }
}

/// The handler of the edge interrupt. `events[c]` tells whether channel
/// `c` has seen an edge since the last call. Each such channel wakes its
/// waiter once and forgets it, so that further edges wake nobody until
/// the task waits again.
pub fn edge_interrupt(rt: &mut Runtime, events: [bool; MAX_CHANNELS]) -> (r: Result<(), Fault>)
    ensures
        final(rt)@ == edges_served(old(rt)@, events@, 0).rt,
        r == edges_served(old(rt)@, events@, 0).result,
        old(rt)@.valid() ==> final(rt)@.valid(),
{
    let mut channel: usize = 0;
    while channel < MAX_CHANNELS
        invariant
            channel <= MAX_CHANNELS,
            edges_served(rt@, events@, channel as int) == edges_served(old(rt)@, events@, 0),
            old(rt)@.valid() ==> rt@.valid(),
        decreases MAX_CHANNELS - channel,
    {
        if events[channel] {
            let ghost before = rt@;
            let task_id: usize = rt.edges.waiters[channel];
            rt.edges.waiters[channel] = INVALID_TASK_ID;
            if task_id != INVALID_TASK_ID {
                match rt.ready.enqueue(task_id) {
                    Err(fault) => {
                        assert(rt@ =~= edge_seen(before, channel as int).rt);
                        return Err(fault);
                    },
                    Ok(()) => {},
                }
            }
            assert(rt@ =~= edge_seen(before, channel as int).rt);
        }
        channel = channel + 1;
    }
    Ok(())
}

/// One wait, one wake. After an edge on a channel a further edge on it
/// wakes nobody, until a task waits on the channel again: the wake queue
/// stays as the first edge left it.
pub proof fn lemma_edge_wakes_once(rt: RuntimeView, channel: int)
    requires
        0 <= channel < rt.waiters.len(),
    ensures
        edge_seen(edge_seen(rt, channel).rt, channel).rt == edge_seen(rt, channel).rt,
        edge_seen(edge_seen(rt, channel).rt, channel).result is Ok,
        edge_seen(rt, channel).rt.ready.len() <= rt.ready.len() + 1,
{
    let once = edge_seen(rt, channel).rt;
    assert(once.waiters.update(channel, INVALID_TASK_ID) =~= once.waiters);
}

/// A task that waits for the level that the pin has goes on without an
/// interrupt: it is ready at once, and the runtime is left as it was.
pub proof fn lemma_level_met_is_ready(
    rt: RuntimeView,
    channel: usize,
    level: PinState,
    task_id: usize,
)
    requires
        rt.levels[channel as int] == level,
    ensures
        awaited(rt, channel, level, task_id) == (rt, Poll::Ready(())),
{
}

/// The edge interrupt touches nothing but the channels' slots and the wake
/// queue.
pub proof fn lemma_edges_frame(rt: RuntimeView, events: Seq<bool>, from: int)
    ensures
        edges_served(rt, events, from).rt.leds == rt.leds,
        edges_served(rt, events, from).rt.levels == rt.levels,
        edges_served(rt, events, from).rt.deadlines == rt.deadlines,
        edges_served(rt, events, from).rt.compare == rt.compare,
        edges_served(rt, events, from).rt.mailbox == rt.mailbox,
        edges_served(rt, events, from).rt.now == rt.now,
        edges_served(rt, events, from).rt.ovf_count == rt.ovf_count,
        edges_served(rt, events, from).rt.next_channel == rt.next_channel,
    decreases MAX_CHANNELS - from,
{
    if 0 <= from < MAX_CHANNELS {
        if !events[from] {
            lemma_edges_frame(rt, events, from + 1);
        } else if edge_seen(rt, from).result is Ok {
            lemma_edges_frame(edge_seen(rt, from).rt, events, from + 1);
        }
    }
}

/// The edge interrupt leaves the runtime in a state that it can reach.
pub proof fn lemma_edges_keep_valid(rt: RuntimeView, events: Seq<bool>, from: int)
    requires
        rt.valid(),
    ensures
        edges_served(rt, events, from).rt.valid(),
    decreases MAX_CHANNELS - from,
{
    if 0 <= from < MAX_CHANNELS {
        if !events[from] {
            lemma_edges_keep_valid(rt, events, from + 1);
        } else if edge_seen(rt, from).result is Ok {
            lemma_edges_keep_valid(edge_seen(rt, from).rt, events, from + 1);
        }
    }
}

} // verus!

use fugit::{Duration, ExtU64, Instant};
use vstd::prelude::*;

verus! {

/// How many bits the hardware counter has. One wrap of the counter is one
/// epoch.
pub const COUNTER_BITS: u64 = 24;

/// The number of ticks in one epoch.
pub const EPOCH_TICKS: u64 = 0x100_0000;

/// A point in time: ticks of the 32768 Hz counter since startup.
#[derive(Clone, Copy, Debug, PartialEq, Eq, Structural)]
pub struct TickInstant {
    /// The ticks since startup.
    pub ticks: u64,
}

/// A span of time in ticks of the 32768 Hz counter.
#[derive(Clone, Copy, Debug, PartialEq, Eq, Structural)]
pub struct TickDuration {
    /// The length of the span in ticks.
    pub ticks: u64,
}

/// The ticks from `since` to `now` on a clock that wraps at 2^64.
pub open spec fn elapsed(now: u64, since: u64) -> int {
    (now as int - since as int) % 0x1_0000_0000_0000_0000
}

/// Whether `now` is at or after `end`. Two instants are compared by the
/// shorter way round the 2^64 circle, so an instant up to 2^63 - 1 ticks
/// ahead of `end` counts as after it, and one further ahead as before it.
pub open spec fn reached(now: u64, end: u64) -> bool {
    elapsed(now, end) < 0x8000_0000_0000_0000
}

/// The instant `span` ticks after `at`, wrapping at 2^64.
pub open spec fn after(at: u64, span: u64) -> u64 {
    ((at as int + span as int) % 0x1_0000_0000_0000_0000) as u64
}

/// The whole ticks that `ms` milliseconds last: 32768 ticks per second,
/// rounded down.
pub open spec fn millis_to_ticks(ms: u64) -> int {
    ms as int * 4096 / 125
}

/// `fugit::ExtU64::millis` for a duration in 1/32768 s: the milliseconds are
/// multiplied by 4096 and divided by 125, rounding down. The product must
/// fit in 64 bits.
#[verifier::external_body]
fn fugit_millis(ms: u64) -> (ticks: u64)
    requires
        ms * 4096 <= u64::MAX,
    ensures
        ticks == millis_to_ticks(ms),
{
    let span: Duration<u64, 1, 32768> = ms.millis();
    span.ticks()
}

/// `Instant + Duration` of fugit, both in 1/32768 s: the ticks are added
/// and wrap at 2^64.
#[verifier::external_body]
fn fugit_add(at: u64, span: u64) -> (end: u64)
    ensures
        end == after(at, span),
{
    let end: Instant<u64, 1, 32768> = Instant::<u64, 1, 32768>::from_ticks(at)
        + Duration::<u64, 1, 32768>::from_ticks(span);
    end.ticks()
}

/// `>=` on two `fugit::Instant`s: true when the first is the second or at
/// most 2^63 - 1 ticks after it, counted on the 2^64 circle.
#[verifier::external_body]
fn fugit_reached(now: u64, end: u64) -> (r: bool)
    ensures
        r == reached(now, end),
{
    Instant::<u64, 1, 32768>::from_ticks(now) >= Instant::<u64, 1, 32768>::from_ticks(end)
}

impl TickDuration {
    /// A duration of `ticks` ticks.
    pub fn from_ticks(ticks: u64) -> (d: Self)
        ensures
            d.ticks == ticks,
    {
        TickDuration { ticks }
    }

    /// A duration of `ms` milliseconds, rounded down to whole ticks.
    pub fn millis(ms: u64) -> (d: Self)
        requires
            ms * 4096 <= u64::MAX,
        ensures
            d.ticks == millis_to_ticks(ms),
    {
        TickDuration { ticks: fugit_millis(ms) }
    }

    /// The number of ticks.
    pub fn ticks(&self) -> (t: u64)
        ensures
            t == self.ticks,
    {
        self.ticks
    }
}

impl TickInstant {
    /// The instant `ticks` ticks after startup.
    pub fn from_ticks(ticks: u64) -> (i: Self)
        ensures
            i.ticks == ticks,
    {
        TickInstant { ticks }
    }

    /// The number of ticks since startup.
    pub fn ticks(&self) -> (t: u64)
        ensures
            t == self.ticks,
    {
        self.ticks
    }

    /// The instant `span` later.
    pub fn plus(&self, span: TickDuration) -> (end: Self)
        ensures
            end.ticks == after(self.ticks, span.ticks),
    {
        TickInstant { ticks: fugit_add(self.ticks, span.ticks) }
    }

    /// Whether this instant is at or after `end`.
    pub fn has_reached(&self, end: TickInstant) -> (r: bool)
        ensures
            r == reached(self.ticks, end.ticks),
    {
        fugit_reached(self.ticks, end.ticks)
    }

    /// The number of counter wraps before this instant.
    pub fn epoch(&self) -> (e: u64)
        ensures
            e == self.ticks / EPOCH_TICKS,
    {
        self.ticks / EPOCH_TICKS
    }

    /// The value of the hardware counter at this instant.
    pub fn counter(&self) -> (c: u32)
        ensures
            c == self.ticks % EPOCH_TICKS,
    {
        (self.ticks % EPOCH_TICKS) as u32
    }
}

/// The tick count that an overflow count and a counter value stand for: the
/// overflow count in the high bits, the counter in the low 24.
pub open spec fn compose(ovf_count: u32, counter: u32) -> u64 {
    ((ovf_count as u64) << 24) | (counter as u64)
}

/// For a counter value of 24 bits, composing is plain arithmetic.
pub proof fn lemma_compose_arith(ovf_count: u32, counter: u32)
    requires
        counter < EPOCH_TICKS,
    ensures
        compose(ovf_count, counter) == ovf_count * EPOCH_TICKS + counter,
        compose(ovf_count, counter) / EPOCH_TICKS == ovf_count,
        compose(ovf_count, counter) % EPOCH_TICKS == counter,
{
    let o: u64 = ovf_count as u64;
    let c: u64 = counter as u64;
    assert(c < 0x100_0000 && o <= 0xffff_ffff ==> ((o << 24) | c) == o * 0x100_0000 + c)
        by (bit_vector);
    assert(c < 0x100_0000 && o <= 0xffff_ffff ==> ((o << 24) | c) / 0x100_0000 == o)
        by (bit_vector);
    assert(c < 0x100_0000 && o <= 0xffff_ffff ==> ((o << 24) | c) % 0x100_0000 == c)
        by (bit_vector);
}

/// The overflow count after one more wrap; the count itself wraps at 2^32.
pub open spec fn next_epoch(ovf_count: u32) -> u32 {
    if ovf_count == u32::MAX {
        0
    } else {
        (ovf_count + 1) as u32
    }
}

/// The wide clock: it counts the wraps of the 24-bit hardware counter and
/// joins that count with the counter's value.
#[derive(Clone, Copy, Debug, PartialEq, Eq, Structural)]
pub struct Ticker {
    /// The number of counter wraps counted so far.
    pub ovf_count: u32,
}

impl Ticker {
    /// A clock that has seen no wrap yet.
    pub fn new() -> (t: Self)
        ensures
            t.ovf_count == 0,
    {
        Ticker { ovf_count: 0 }
    }

    /// The number of wraps counted so far.
    pub fn ovf_count(&self) -> (n: u32)
        ensures
            n == self.ovf_count,
    {
        self.ovf_count
    }

    /// Counts one wrap of the hardware counter. The count itself wraps at
    /// 2^32.
    pub fn overflow(&mut self)
        ensures
            final(self).ovf_count == next_epoch(old(self).ovf_count),
    {
        self.ovf_count = self.ovf_count.wrapping_add(1);
    }

    /// The instant that the counter value `counter` stands for in the
    /// current epoch.
    pub fn instant(&self, counter: u32) -> (t: TickInstant)
        ensures
            t.ticks == compose(self.ovf_count, counter),
    {
        TickInstant { ticks: ((self.ovf_count as u64) << 24) | (counter as u64) }
    }

    /// One attempt to read the time. The caller reads the overflow count,
    /// then the hardware counter, then the overflow count again, and hands
    /// in the three values. The attempt succeeds when the two overflow
    /// counts agree: no wrap came between them, so count and counter belong
    /// to the same epoch. Otherwise the caller reads again.
    pub fn now(ovf_before: u32, counter: u32, ovf_after: u32) -> (t: Option<TickInstant>)
        ensures
            t == stable_read(ovf_before, counter, ovf_after),
    {
        if ovf_before == ovf_after {
            Some(TickInstant { ticks: ((ovf_after as u64) << 24) | (counter as u64) })
        } else {
            None
        }
    }
}

/// What one attempt to read the time gives: the composed tick count if the
/// overflow count was the same before and after the counter was read, and
/// nothing otherwise.
pub open spec fn stable_read(ovf_before: u32, counter: u32, ovf_after: u32) -> Option<TickInstant> {
    if ovf_before == ovf_after {
        Some(TickInstant { ticks: compose(ovf_after, counter) })
    } else {
        None
    }
}

/// The number of wraps that the hardware counter has made when `ticks`
/// ticks have passed since startup.
pub open spec fn wraps_at(ticks: nat) -> nat {
    ticks / (EPOCH_TICKS as nat)
}

/// The value of the hardware counter when `ticks` ticks have passed since
/// startup.
pub open spec fn counter_at(ticks: nat) -> nat {
    ticks % (EPOCH_TICKS as nat)
}

/// A read of the time is never torn. Let the overflow count be read when
/// `first` ticks have passed, the counter when `second` ticks have passed
/// and the overflow count again when `third` ticks have passed, and let the
/// overflow count be up to date at both of its reads. Then the attempt
/// succeeds exactly if no wrap lies between the first and the third read,
/// and what it gives is the tick count at the moment at which the counter
/// was read: never a count that joins the counter of one epoch with the
/// overflow count of another.
pub proof fn lemma_read_is_never_torn(first: nat, second: nat, third: nat)
    requires
        first <= second <= third,
        wraps_at(third) <= u32::MAX,
    ensures
        stable_read(wraps_at(first) as u32, counter_at(second) as u32, wraps_at(third) as u32) == (
        if wraps_at(first) == wraps_at(third) {
            Some(TickInstant { ticks: second as u64 })
        } else {
            None
        }),
{
    if wraps_at(first) == wraps_at(third) {
        assert(wraps_at(second) == wraps_at(first)) by (nonlinear_arith)
            requires
                first <= second <= third,
                wraps_at(first) == wraps_at(third),
        ;
        lemma_compose_arith(wraps_at(third) as u32, counter_at(second) as u32);
    }
}

/// What can happen to the clock between two reads.
pub enum ClockEvent {
    /// The hardware counter advances by one tick, and wraps if it was at
    /// its last value.
    Tick,
    /// The interrupt handler counts a wrap.
    Overflow,
}

/// The clock as a whole: the ticks that have passed since startup, which
/// nothing in the machine holds as one number, and the overflow count that
/// the interrupt handler has reached.
pub struct Clock {
    /// The ticks that have passed since startup.
    pub ticks: nat,
    /// The wraps that the interrupt handler has counted.
    pub ovf_count: nat,
}

impl Clock {
    /// Whether the interrupt handler has counted every wrap of the counter
    /// so far. This holds whenever interrupts are enabled: the handler
    /// runs as soon as the counter wraps.
    pub open spec fn caught_up(self) -> bool {
        self.ovf_count == wraps_at(self.ticks)
    }

    /// The clock after `events` have happened, in their order.
    pub open spec fn after(self, events: Seq<ClockEvent>) -> Clock
        decreases events.len(),
    {
        if events.len() == 0 {
            self
        } else {
            let before = self.after(events.drop_last());
            match events.last() {
                ClockEvent::Tick => Clock { ticks: before.ticks + 1, ..before },
                ClockEvent::Overflow => Clock { ovf_count: before.ovf_count + 1, ..before },
            }
        }
    }

    /// What an attempt to read the time gives that reads the overflow
    /// count on this clock, the counter after `first` has happened, and
    /// the overflow count again after `then` has happened as well.
    pub open spec fn read(self, first: Seq<ClockEvent>, then: Seq<ClockEvent>) -> Option<
        TickInstant,
    > {
        stable_read(
            self.ovf_count as u32,
            counter_at(self.after(first).ticks) as u32,
            self.after(first).after(then).ovf_count as u32,
        )
    }
}

/// Time does not go back, and neither does the overflow count.
pub proof fn lemma_clock_advances(clock: Clock, events: Seq<ClockEvent>)
    ensures
        clock.after(events).ticks >= clock.ticks,
        clock.after(events).ovf_count >= clock.ovf_count,
    decreases events.len(),
{
    if events.len() > 0 {
        lemma_clock_advances(clock, events.drop_last());
    }
}

/// However ticks and overflow interrupts fall between the three reads of
/// an attempt, the attempt is never torn. If the handler has caught up
/// when the overflow count is read, both times, then the attempt succeeds
/// exactly if the count has not changed in between, and it gives the tick
/// count at the moment at which the counter was read.
pub proof fn lemma_read_is_exact(clock: Clock, first: Seq<ClockEvent>, then: Seq<ClockEvent>)
    requires
        clock.caught_up(),
        clock.after(first).after(then).caught_up(),
        clock.after(first).after(then).ovf_count <= u32::MAX,
    ensures
        clock.read(first, then) == (if clock.ovf_count == clock.after(first).after(then).ovf_count {
            Some(TickInstant { ticks: clock.after(first).ticks as u64 })
        } else {
            None
        }),
{
    lemma_clock_advances(clock, first);
    lemma_clock_advances(clock.after(first), then);
    lemma_read_is_never_torn(
        clock.ticks,
        clock.after(first).ticks,
        clock.after(first).after(then).ticks,
    );
}

/// The time never runs backwards. Of two attempts that succeed, one after
/// the other with anything happening in between, the later gives the later
/// or the same instant.
pub proof fn lemma_now_is_monotonic(
    clock: Clock,
    first: Seq<ClockEvent>,
    then: Seq<ClockEvent>,
    between: Seq<ClockEvent>,
    again: Seq<ClockEvent>,
    last: Seq<ClockEvent>,
)
    requires
        clock.caught_up(),
        clock.after(first).after(then).caught_up(),
        clock.after(first).after(then).after(between).caught_up(),
        clock.after(first).after(then).after(between).after(again).after(last).caught_up(),
        clock.after(first).after(then).after(between).after(again).after(last).ovf_count
            <= u32::MAX,
        clock.read(first, then) is Some,
        clock.after(first).after(then).after(between).read(again, last) is Some,
    ensures
        clock.read(first, then)->Some_0.ticks <= clock.after(first).after(then).after(
            between,
        ).read(again, last)->Some_0.ticks,
{
    let second = clock.after(first).after(then).after(between);
    lemma_clock_advances(clock.after(first), then);
    lemma_clock_advances(clock.after(first).after(then), between);
    lemma_clock_advances(second, again);
    lemma_clock_advances(second.after(again), last);
    lemma_read_is_exact(clock, first, then);
    lemma_read_is_exact(second, again, last);
}

/// For instants less than 2^63 ticks apart, "reached" is the plain order
/// of the tick counts.
pub proof fn lemma_reached_is_order(now: u64, end: u64)
    requires
        now - end < 0x8000_0000_0000_0000,
        end - now <= 0x8000_0000_0000_0000,
    ensures
        reached(now, end) == (now >= end),
{
}

} // verus!

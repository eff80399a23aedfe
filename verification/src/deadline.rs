use crate::fault::Fault;
use crate::queue::MAX_READY;
use crate::runtime::{Runtime, RuntimeView, Step};
use crate::time::{TickInstant, EPOCH_TICKS};
use heapless::binary_heap::{BinaryHeap, Min};
use vstd::prelude::*;

verus! {

/// How many deadlines can be pending at once.
pub const MAX_DEADLINES: usize = 8;

/// A pending deadline: the tick count at which it is due and the task to
/// wake then.
pub type Entry = (u64, usize);

/// `heapless::binary_heap::Min`, the marker that makes a heap a min-heap.
#[verifier::external_type_specification]
#[verifier::external_body]
pub struct ExMin(Min);

/// `heapless::binary_heap::BinaryHeap`, a bounded priority queue. Nothing
/// is known of its fields; what it holds is named by [`heap_entries`].
#[verifier::external_type_specification]
#[verifier::external_body]
#[verifier::reject_recursive_types(T)]
#[verifier::reject_recursive_types(K)]
pub struct ExBinaryHeap<T, K, const N: usize>(BinaryHeap<T, K, N>);

/// The entries that a heap holds, listed in the order in which the heap
/// gives them out: smallest first, where entries are ordered by deadline
/// and entries with one deadline by task id.
pub uninterp spec fn heap_entries(h: BinaryHeap<(u64, usize), Min, 8>) -> Seq<(u64, usize)>;

/// Whether `a` comes out of the heap before `b`: tuples are ordered by
/// their first field, then by their second.
pub open spec fn entry_before(a: Entry, b: Entry) -> bool {
    a.0 < b.0 || (a.0 == b.0 && a.1 < b.1)
}

/// How many of `entries` come out before `e`.
pub open spec fn rank(entries: Seq<Entry>, e: Entry) -> int
    decreases entries.len(),
{
    if entries.len() == 0 {
        0
    } else {
        rank(entries.drop_last(), e) + if entry_before(entries.last(), e) {
            1int
        } else {
            0int
        }
    }
}

/// `entries` with `e` put in after all that come out before it.
pub open spec fn inserted(entries: Seq<Entry>, e: Entry) -> Seq<Entry> {
    entries.insert(rank(entries, e), e)
}

/// Whether no entry is listed after one that it comes out before.
pub open spec fn ascending(entries: Seq<Entry>) -> bool {
    forall|i: int, j: int|
        #![trigger entries[i], entries[j]]
        0 <= i < j < entries.len() ==> !entry_before(entries[j], entries[i])
}

/// `BinaryHeap::new`: the new heap holds nothing.
#[verifier::external_body]
fn heap_new() -> (h: BinaryHeap<(u64, usize), Min, 8>)
    ensures
        heap_entries(h) == Seq::<(u64, usize)>::empty(),
{
    BinaryHeap::new()
}

/// `BinaryHeap::push`: with fewer than eight entries in the heap the entry
/// is added, and takes its place in the order; with eight the heap stays as
/// it is and the entry comes back.
#[verifier::external_body]
fn heap_push(h: &mut BinaryHeap<(u64, usize), Min, 8>, e: (u64, usize)) -> (r: Result<
    (),
    (u64, usize),
>)
    ensures
        r is Ok <==> heap_entries(*old(h)).len() < 8,
        r is Ok ==> heap_entries(*final(h)) == inserted(heap_entries(*old(h)), e),
        r is Err ==> heap_entries(*final(h)) == heap_entries(*old(h)) && r->Err_0 == e,
{
    h.push(e)
}

/// `BinaryHeap::peek`: a copy of the smallest entry, or `None` when the
/// heap holds nothing.
#[verifier::external_body]
fn heap_peek(h: &BinaryHeap<(u64, usize), Min, 8>) -> (r: Option<(u64, usize)>)
    ensures
        r is Some <==> heap_entries(*h).len() > 0,
        r is Some ==> r->Some_0 == heap_entries(*h)[0],
{
    h.peek().copied()
}

/// `BinaryHeap::pop`: the smallest entry leaves the heap and is returned,
/// or `None` when the heap holds nothing.
#[verifier::external_body]
fn heap_pop(h: &mut BinaryHeap<(u64, usize), Min, 8>) -> (r: Option<(u64, usize)>)
    ensures
        r is Some <==> heap_entries(*old(h)).len() > 0,
        r is Some ==> r->Some_0 == heap_entries(*old(h))[0] && heap_entries(*final(h))
            == heap_entries(*old(h)).drop_first(),
        r is None ==> heap_entries(*final(h)) == heap_entries(*old(h)),
{
    h.pop()
}

/// `BinaryHeap::is_empty`: whether the heap holds nothing.
#[verifier::external_body]
fn heap_is_empty(h: &BinaryHeap<(u64, usize), Min, 8>) -> (r: bool)
    ensures
        r == (heap_entries(*h).len() == 0),
{
    h.is_empty()
}

/// The pending deadlines, kept so that the earliest is at hand.
pub struct Deadlines {
    heap: BinaryHeap<(u64, usize), Min, 8>,
}

impl View for Deadlines {
    type V = Seq<Entry>;

    /// The pending entries, earliest first.
    closed spec fn view(&self) -> Seq<Entry> {
        heap_entries(self.heap)
    }
}

impl Deadlines {
    /// No pending deadline.
    pub fn new() -> (d: Self)
        ensures
            d@ == Seq::<Entry>::empty(),
    {
        Deadlines { heap: heap_new() }
    }

    /// Adds a deadline for `task_id`, or reports that there is no room and
    /// leaves the deadlines as they are.
    pub fn insert(&mut self, deadline: u64, task_id: usize) -> (r: Result<(), Fault>)
        ensures
            r == insert_result(old(self)@, task_id),
            final(self)@ == (if old(self)@.len() < MAX_DEADLINES {
                inserted(old(self)@, (deadline, task_id))
            } else {
                old(self)@
            }),
            ascending(old(self)@) ==> ascending(final(self)@),
    {
        proof {
            if ascending(self@) {
                lemma_inserted_ascending(self@, (deadline, task_id));
            }
        }
        match heap_push(&mut self.heap, (deadline, task_id)) {
            Ok(()) => Ok(()),
            Err(_) => Err(Fault::DeadlineDropped(task_id)),
        }
    }

    /// The earliest pending deadline and its task.
    pub fn peek(&self) -> (r: Option<Entry>)
        ensures
            r == (if self@.len() > 0 {
                Some(self@[0])
            } else {
                None
            }),
    {
        heap_peek(&self.heap)
    }

    /// Removes and returns the earliest pending deadline and its task.
    pub fn pop(&mut self) -> (r: Option<Entry>)
        ensures
            r == (if old(self)@.len() > 0 {
                Some(old(self)@[0])
            } else {
                None
            }),
            final(self)@ == (if old(self)@.len() > 0 {
                old(self)@.drop_first()
            } else {
                old(self)@
            }),
            ascending(old(self)@) ==> ascending(final(self)@),
    {
        heap_pop(&mut self.heap)
    }

    /// Whether no deadline is pending.
    pub fn is_empty(&self) -> (r: bool)
        ensures
            r == (self@.len() == 0),
    {
        heap_is_empty(&self.heap)
    }
}

/// What [`Deadlines::insert`] answers for `task_id` when `entries` are
/// pending.
pub open spec fn insert_result(entries: Seq<Entry>, task_id: usize) -> Result<(), Fault> {
    if entries.len() < MAX_DEADLINES {
        Ok(())
    } else {
        Err(Fault::DeadlineDropped(task_id))
    }
}

/// Whether a deadline is due at `now`: it has passed, or it is so close
/// (at the next tick at the latest) that the compare event could miss it.
pub open spec fn due(deadline: u64, now: u64) -> bool {
    deadline <= now + 1
}

/// Whether a deadline falls into the epoch of `now`, so that the compare
/// event can be set for it.
pub open spec fn same_epoch(deadline: u64, now: u64) -> bool {
    deadline / EPOCH_TICKS == now / EPOCH_TICKS
}

/// The runtime after the due deadlines were served at the time `rt.now`.
///
/// As long as the earliest pending deadline is due, its task is queued for
/// resumption and the deadline is dropped; a full wake queue stops this
/// with a fault. Then, if nothing is pending, the compare event is off; if
/// the earliest pending deadline falls into the current epoch, the compare
/// event is set to the deadline's low 24 bits; otherwise the compare event
/// stays as it was, and the deadline waits for its epoch.
pub open spec fn wake_due(rt: RuntimeView) -> Step
    decreases rt.deadlines.len(),
{
    if rt.deadlines.len() == 0 {
        Step { rt: RuntimeView { compare: None, ..rt }, result: Ok(()) }
    } else {
        let deadline = rt.deadlines[0].0;
        let task_id = rt.deadlines[0].1;
        if due(deadline, rt.now) {
            if rt.ready.len() < MAX_READY {
                wake_due(
                    RuntimeView {
                        deadlines: rt.deadlines.drop_first(),
                        ready: rt.ready.push(task_id),
                        ..rt
                    },
                )
            } else {
                Step { rt, result: Err(Fault::QueueFull(task_id)) }
            }
        } else if same_epoch(deadline, rt.now) {
            Step {
                rt: RuntimeView { compare: Some((deadline % EPOCH_TICKS) as u32), ..rt },
                result: Ok(()),
            }
        } else {
            Step { rt, result: Ok(()) }
        }
    }
}

/// Whether `deadline` is due at `now`.
pub fn is_due(deadline: u64, now: TickInstant) -> (r: bool)
    ensures
        r == due(deadline, now.ticks),
{
    deadline <= now.ticks || deadline - now.ticks <= 1
}

/// Serves the deadlines that are due at the time of the last sample and
/// decides what the compare event is to do next.
///
/// The counter is not read again while the due deadlines are served: the
/// decision goes by `rt.now`.
pub fn schedule_wakeup(rt: &mut Runtime) -> (r: Result<(), Fault>)
    ensures
        final(rt)@ == wake_due(old(rt)@).rt,
        r == wake_due(old(rt)@).result,
        old(rt)@.valid() ==> final(rt)@.valid(),
{
    proof {
        if rt@.valid() {
            lemma_wake_due_keeps_valid(rt@);
        }
    }
    let ghost start = rt@;
    loop
        invariant
            start == old(rt)@,
            wake_due(rt@) == wake_due(start),
            start.valid() ==> wake_due(start).rt.valid(),
        decreases rt.deadlines@.len(),
    {
        match rt.deadlines.peek() {
            None => {
                let ghost before = rt@;
                rt.compare = None;
                assert(rt@ =~= wake_due(before).rt);
                return Ok(());
            },
            Some(entry) => {
                let deadline: u64 = entry.0;
                let task_id: usize = entry.1;
                if is_due(deadline, rt.now) {
                    let ghost before = rt@;
                    match rt.ready.enqueue(task_id) {
                        Err(fault) => {
                            assert(rt@ =~= before);
                            return Err(fault);
                        },
                        Ok(()) => {
                            let _ = rt.deadlines.pop();
                            assert(rt@ =~= RuntimeView {
                                deadlines: before.deadlines.drop_first(),
                                ready: before.ready.push(task_id),
                                ..before
                            });
                        },
                    }
                } else if deadline / EPOCH_TICKS == rt.now.ticks / EPOCH_TICKS {
                    let ghost before = rt@;
                    rt.compare = Some((deadline % EPOCH_TICKS) as u32);
                    assert(rt@ =~= wake_due(before).rt);
                    return Ok(());
                } else {
                    return Ok(());
                }
            },
        }
    }
}

/// Whether two runtimes agree in all but the pending deadlines, the wake
/// queue and the compare event.
pub open spec fn same_but_schedule(a: RuntimeView, b: RuntimeView) -> bool {
    &&& a.now == b.now
    &&& a.ovf_count == b.ovf_count
    &&& a.next_channel == b.next_channel
    &&& a.waiters == b.waiters
    &&& a.levels == b.levels
    &&& a.leds == b.leds
    &&& a.mailbox == b.mailbox
}

/// Serving the due deadlines touches nothing but the pending deadlines,
/// the wake queue and the compare event.
pub proof fn lemma_wake_due_frame(rt: RuntimeView)
    ensures
        same_but_schedule(wake_due(rt).rt, rt),
    decreases rt.deadlines.len(),
{
    if rt.deadlines.len() > 0 && due(rt.deadlines[0].0, rt.now) && rt.ready.len() < MAX_READY {
        lemma_wake_due_frame(
            RuntimeView {
                deadlines: rt.deadlines.drop_first(),
                ready: rt.ready.push(rt.deadlines[0].1),
                ..rt
            },
        );
    }
}

/// In an ascending list, the entries that come out before `e` are the
/// first `rank` ones.
pub proof fn lemma_rank_splits(entries: Seq<Entry>, e: Entry)
    requires
        ascending(entries),
    ensures
        0 <= rank(entries, e) <= entries.len(),
        forall|i: int| 0 <= i < rank(entries, e) ==> entry_before(#[trigger] entries[i], e),
        forall|i: int|
            rank(entries, e) <= i < entries.len() ==> !entry_before(#[trigger] entries[i], e),
    decreases entries.len(),
{
    if entries.len() > 0 {
        let front = entries.drop_last();
        lemma_rank_splits(front, e);
        assert(forall|i: int| 0 <= i < front.len() ==> front[i] == entries[i]);
        if entry_before(entries.last(), e) {
            if rank(front, e) < front.len() {
                let i = rank(front, e);
                assert(!entry_before(front[i], e));
                assert(!entry_before(entries[entries.len() - 1], entries[i]));
            }
        }
    }
}

/// Putting a deadline among the pending ones keeps them in order, earliest
/// first.
pub proof fn lemma_inserted_ascending(entries: Seq<Entry>, e: Entry)
    requires
        ascending(entries),
    ensures
        ascending(inserted(entries, e)),
        inserted(entries, e).len() == entries.len() + 1,
{
    lemma_rank_splits(entries, e);
    let at = rank(entries, e);
    let longer = inserted(entries, e);
    assert forall|i: int, j: int| 0 <= i < j < longer.len() implies !entry_before(
        longer[j],
        longer[i],
    ) by {
        if j < at {
            assert(longer[i] == entries[i] && longer[j] == entries[j]);
        } else if j == at {
            assert(longer[i] == entries[i]);
        } else if i < at {
            assert(longer[i] == entries[i] && longer[j] == entries[j - 1]);
        } else if i == at {
            assert(longer[j] == entries[j - 1]);
        } else {
            assert(longer[i] == entries[i - 1] && longer[j] == entries[j - 1]);
        }
    }
}

/// In an ascending list no deadline is later than one listed after it.
pub proof fn lemma_ascending_deadlines(entries: Seq<Entry>, i: int, j: int)
    requires
        ascending(entries),
        0 <= i <= j < entries.len(),
    ensures
        entries[i].0 <= entries[j].0,
{
    if i < j {
        assert(!entry_before(entries[j], entries[i]));
    }
}

/// How many deadlines are served when the due ones are served: those at
/// the head of the list that are due, as far as the wake queue has room.
pub open spec fn served(rt: RuntimeView) -> nat
    decreases rt.deadlines.len(),
{
    if rt.deadlines.len() > 0 && due(rt.deadlines[0].0, rt.now) && rt.ready.len() < MAX_READY {
        1 + served(
            RuntimeView {
                deadlines: rt.deadlines.drop_first(),
                ready: rt.ready.push(rt.deadlines[0].1),
                ..rt
            },
        )
    } else {
        0
    }
}

/// The tasks of the given entries, in the entries' order.
pub open spec fn tasks_of(entries: Seq<Entry>) -> Seq<usize> {
    Seq::new(entries.len(), |i: int| entries[i].1)
}

/// Deadlines are served in the order of the list, each once. The served
/// entries are the first `served(rt)` of the list: their tasks are queued
/// behind what was queued before, in the list's order, and exactly these
/// entries are gone from the pending ones. Every served entry was due.
/// Without a fault no entry that remains at the head is due; a fault names
/// the task of the first entry that could not be served.
pub proof fn lemma_served_in_order(rt: RuntimeView)
    ensures
        served(rt) <= rt.deadlines.len(),
        wake_due(rt).rt.deadlines == rt.deadlines.skip(served(rt) as int),
        wake_due(rt).rt.ready == rt.ready + tasks_of(rt.deadlines.take(served(rt) as int)),
        forall|i: int| 0 <= i < served(rt) ==> due((#[trigger] rt.deadlines[i]).0, rt.now),
        wake_due(rt).result is Ok ==> served(rt) == rt.deadlines.len() || !due(
            rt.deadlines[served(rt) as int].0,
            rt.now,
        ),
        wake_due(rt).result is Err ==> served(rt) < rt.deadlines.len() && wake_due(
            rt,
        ).result->Err_0 == Fault::QueueFull(rt.deadlines[served(rt) as int].1),
    decreases rt.deadlines.len(),
{
    if rt.deadlines.len() > 0 && due(rt.deadlines[0].0, rt.now) && rt.ready.len() < MAX_READY {
        let next = RuntimeView {
            deadlines: rt.deadlines.drop_first(),
            ready: rt.ready.push(rt.deadlines[0].1),
            ..rt
        };
        lemma_served_in_order(next);
        let k = served(rt) as int;
        assert(next.deadlines.skip(k - 1) =~= rt.deadlines.skip(k));
        assert(next.ready + tasks_of(next.deadlines.take(k - 1)) =~= rt.ready + tasks_of(
            rt.deadlines.take(k),
        ));
        assert forall|i: int| 0 <= i < k implies due((#[trigger] rt.deadlines[i]).0, rt.now) by {
            if i > 0 {
                assert(rt.deadlines[i] == next.deadlines[i - 1]);
            }
        }
        if k < rt.deadlines.len() {
            assert(rt.deadlines[k] == next.deadlines[k - 1]);
        }
    } else {
        assert(rt.deadlines.skip(0) =~= rt.deadlines);
        assert(rt.ready + tasks_of(rt.deadlines.take(0)) =~= rt.ready);
    }
}

/// The earliest deadline wakes first, and every due deadline wakes. If
/// the pending deadlines are in order and no fault occurs, then of two
/// served entries the one that was queued first has the earlier or equal
/// deadline, and every entry that is due is served, whether or not others
/// share its deadline.
pub proof fn lemma_earliest_wakes_first(rt: RuntimeView)
    requires
        ascending(rt.deadlines),
        wake_due(rt).result is Ok,
    ensures
        forall|i: int, j: int|
            0 <= i <= j < served(rt) ==> rt.deadlines[i].0 <= rt.deadlines[j].0,
        forall|i: int|
            0 <= i < rt.deadlines.len() && due(rt.deadlines[i].0, rt.now) ==> i < served(rt),
        ascending(wake_due(rt).rt.deadlines),
{
    lemma_served_in_order(rt);
    let k = served(rt) as int;
    assert forall|i: int, j: int| 0 <= i <= j < k implies rt.deadlines[i].0
        <= rt.deadlines[j].0 by {
        lemma_ascending_deadlines(rt.deadlines, i, j);
    }
    assert forall|i: int| 0 <= i < rt.deadlines.len() && due(rt.deadlines[i].0, rt.now) implies i
        < k by {
        if i >= k {
            lemma_ascending_deadlines(rt.deadlines, k, i);
        }
    }
}

/// Serving the due deadlines leaves the runtime in a state that it can
/// reach.
pub proof fn lemma_wake_due_keeps_valid(rt: RuntimeView)
    requires
        rt.valid(),
    ensures
        wake_due(rt).rt.valid(),
    decreases rt.deadlines.len(),
{
    if rt.deadlines.len() > 0 && due(rt.deadlines[0].0, rt.now) && rt.ready.len() < MAX_READY {
        let next = RuntimeView {
            deadlines: rt.deadlines.drop_first(),
            ready: rt.ready.push(rt.deadlines[0].1),
            ..rt
        };
        assert forall|i: int, j: int| 0 <= i < j < next.deadlines.len() implies !entry_before(
            #[trigger] next.deadlines[j],
            #[trigger] next.deadlines[i],
        ) by {
            assert(next.deadlines[i] == rt.deadlines[i + 1]);
            assert(next.deadlines[j] == rt.deadlines[j + 1]);
        }
        lemma_wake_due_keeps_valid(next);
    }
}

/// Serving the due deadlines once is enough: serving them again at the
/// same time serves nothing more and decides the same. No deadline wakes
/// its task twice.
pub proof fn lemma_wake_due_settles(rt: RuntimeView)
    ensures
        wake_due(wake_due(rt).rt) == wake_due(rt),
    decreases rt.deadlines.len(),
{
    if rt.deadlines.len() == 0 {
        let off = RuntimeView { compare: None, ..rt };
        assert(wake_due(off).rt =~= off);
    } else if due(rt.deadlines[0].0, rt.now) {
        if rt.ready.len() < MAX_READY {
            lemma_wake_due_settles(
                RuntimeView {
                    deadlines: rt.deadlines.drop_first(),
                    ready: rt.ready.push(rt.deadlines[0].1),
                    ..rt
                },
            );
        }
    } else if same_epoch(rt.deadlines[0].0, rt.now) {
        let set = RuntimeView {
            compare: Some((rt.deadlines[0].0 % EPOCH_TICKS) as u32),
            ..rt
        };
        assert(wake_due(set).rt =~= set);
    }
}

/// How many of the entries come out before `e` does not depend on where
/// another entry is put in.
pub proof fn lemma_rank_counts(entries: Seq<Entry>, at: int, other: Entry, e: Entry)
    requires
        0 <= at <= entries.len(),
    ensures
        rank(entries.insert(at, other), e) == rank(entries, e) + if entry_before(other, e) {
            1int
        } else {
            0int
        },
    decreases entries.len(),
{
    let longer = entries.insert(at, other);
    if at == entries.len() {
        assert(longer.drop_last() =~= entries);
    } else {
        assert(longer.drop_last() =~= entries.drop_last().insert(at, other));
        assert(longer.last() == entries.last());
        lemma_rank_counts(entries.drop_last(), at, other, e);
    }
}

/// The order in which deadlines are registered does not matter: the same
/// deadlines are pending, in the same order, whichever of two was put in
/// first.
pub proof fn lemma_inserted_commutes(entries: Seq<Entry>, a: Entry, b: Entry)
    requires
        ascending(entries),
    ensures
        inserted(inserted(entries, a), b) == inserted(inserted(entries, b), a),
{
    lemma_rank_splits(entries, a);
    lemma_rank_splits(entries, b);
    let ra = rank(entries, a);
    let rb = rank(entries, b);
    lemma_rank_counts(entries, ra, a, b);
    lemma_rank_counts(entries, rb, b, a);
    if a != b {
        if entry_before(a, b) {
            if rb < ra {
                assert(entry_before(entries[rb], a));
                assert(!entry_before(entries[rb], b));
            }
        } else {
            assert(entry_before(b, a));
            if ra < rb {
                assert(entry_before(entries[ra], b));
                assert(!entry_before(entries[ra], a));
            }
        }
    }
    assert(inserted(inserted(entries, a), b) =~= inserted(inserted(entries, b), a));
}

} // verus!

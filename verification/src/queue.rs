use crate::fault::Fault;
use heapless::mpmc::MpMcQueue;
use vstd::prelude::*;

verus! {

/// How many task ids the wake queue holds at most.
pub const MAX_READY: usize = 4;

/// `heapless::mpmc::MpMcQueue`, a bounded lock-free queue. Nothing is known
/// of its fields; what it holds is named by [`queue_ids`].
#[verifier::external_type_specification]
#[verifier::external_body]
#[verifier::reject_recursive_types(T)]
pub struct ExMpMcQueue<T, const N: usize>(MpMcQueue<T, N>);

/// The task ids that a queue holds, oldest first.
pub uninterp spec fn queue_ids(q: MpMcQueue<usize, 4>) -> Seq<usize>;

/// `MpMcQueue::new`: the new queue holds nothing.
#[verifier::external_body]
fn queue_new() -> (q: MpMcQueue<usize, 4>)
    ensures
        queue_ids(q) == Seq::<usize>::empty(),
{
    MpMcQueue::new()
}

/// `MpMcQueue::enqueue`: with fewer than four ids in the queue the id goes
/// to the back; with four the queue stays as it is and the id comes back.
#[verifier::external_body]
fn queue_enqueue(q: &mut MpMcQueue<usize, 4>, id: usize) -> (r: Result<(), usize>)
    ensures
        r is Ok <==> queue_ids(*old(q)).len() < 4,
        r is Ok ==> queue_ids(*final(q)) == queue_ids(*old(q)).push(id),
        r is Err ==> queue_ids(*final(q)) == queue_ids(*old(q)) && r->Err_0 == id,
{
    q.enqueue(id)
}

/// `MpMcQueue::dequeue`: the oldest id leaves the queue and is returned, or
/// `None` when the queue holds nothing.
#[verifier::external_body]
fn queue_dequeue(q: &mut MpMcQueue<usize, 4>) -> (r: Option<usize>)
    ensures
        r is Some <==> queue_ids(*old(q)).len() > 0,
        r is Some ==> r->Some_0 == queue_ids(*old(q))[0]
            && queue_ids(*final(q)) == queue_ids(*old(q)).drop_first(),
        r is None ==> queue_ids(*final(q)) == queue_ids(*old(q)),
{
    q.dequeue()
}

/// The bounded first-in first-out queue of tasks that are ready to be
/// resumed. An id may be queued more than once.
pub struct WakeQueue {
    ids: MpMcQueue<usize, 4>,
}

impl View for WakeQueue {
    type V = Seq<usize>;

    /// The queued task ids, oldest first.
    closed spec fn view(&self) -> Seq<usize> {
        queue_ids(self.ids)
    }
}

impl WakeQueue {
    /// An empty queue.
    pub fn new() -> (q: Self)
        ensures
            q@ == Seq::<usize>::empty(),
    {
        WakeQueue { ids: queue_new() }
    }

    /// Appends `task_id`, or reports that the queue is full and leaves it
    /// as it is.
    pub fn enqueue(&mut self, task_id: usize) -> (r: Result<(), Fault>)
        ensures
            r == enqueue_result(old(self)@, task_id),
            final(self)@ == enqueued(old(self)@, task_id),
    {
        match queue_enqueue(&mut self.ids, task_id) {
            Ok(()) => Ok(()),
            Err(_) => Err(Fault::QueueFull(task_id)),
        }
    }

    /// Removes and returns the oldest id.
    pub fn dequeue(&mut self) -> (r: Option<usize>)
        ensures
            r == (if old(self)@.len() > 0 {
                Some(old(self)@[0])
            } else {
                None
            }),
            final(self)@ == (if old(self)@.len() > 0 {
                old(self)@.drop_first()
            } else {
                old(self)@
            }),
    {
        queue_dequeue(&mut self.ids)
    }
}

/// What [`WakeQueue::enqueue`] answers on a queue that holds `ids`.
pub open spec fn enqueue_result(ids: Seq<usize>, task_id: usize) -> Result<(), Fault> {
    if ids.len() < MAX_READY {
        Ok(())
    } else {
        Err(Fault::QueueFull(task_id))
    }
}

/// What a queue that held `ids` holds after [`WakeQueue::enqueue`].
pub open spec fn enqueued(ids: Seq<usize>, task_id: usize) -> Seq<usize> {
    if ids.len() < MAX_READY {
        ids.push(task_id)
    } else {
        ids
    }
}

/// Marks `task_id` ready for resumption. Waking a task that is already
/// queued queues it once more.
///
/// A full queue is fatal, so the caller must know that there is room; where
/// it cannot know, it calls [`WakeQueue::enqueue`] and halts on the fault.
pub fn wake_task(task_id: usize, ready: &mut WakeQueue)
    requires
        old(ready)@.len() < MAX_READY,
    ensures
        final(ready)@ == old(ready)@.push(task_id),
{
    let _ = ready.enqueue(task_id);
}

} // verus!

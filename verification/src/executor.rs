use crate::button::ButtonTask;
use crate::fault::Fault;
use crate::deadline::{lemma_wake_due_frame, lemma_wake_due_keeps_valid, wake_due};
use crate::future::{idle, OurFuture, Poll, Resumed};
use crate::gpiote::{edges_served, lemma_edges_frame, lemma_edges_keep_valid};
use crate::led::{dark_elsewhere, LedTask};
use crate::queue::{enqueued, WakeQueue, MAX_READY};
use crate::runtime::{clock_read, Runtime, RuntimeView};
use vstd::prelude::*;

verus! {

/// What identifies the task that a waker wakes.
pub trait ExtWaker {
    /// The id of the task that this waker wakes.
    spec fn id(&self) -> usize;

    /// The id of the task that this waker wakes.
    fn task_id(&self) -> (id: usize)
        ensures
            id == self.id(),
    ;
}

/// A waker is nothing but the id of the task that it wakes: the task's
/// index in the array of tasks.
#[derive(Clone, Copy, Debug, PartialEq, Eq, Structural)]
pub struct TaskWaker {
    /// The id of the task.
    pub id: usize,
}

impl ExtWaker for TaskWaker {
    open spec fn id(&self) -> usize {
        self.id
    }

    fn task_id(&self) -> (id: usize) {
        self.id
    }
}

/// The waker of task `task_id`.
pub fn get_waker(task_id: usize) -> (w: TaskWaker)
    ensures
        w.id == task_id,
{
    TaskWaker { id: task_id }
}

/// One of the tasks of the firmware.
pub enum Task {
    /// The task that blinks and moves the light.
    Led(LedTask),
    /// The task of one button.
    Button(ButtonTask),
}

impl OurFuture for Task {
    type Output = ();

    open spec fn wf(&self) -> bool {
        match *self {
            Task::Led(task) => task.wf(),
            Task::Button(task) => task.wf(),
        }
    }

    open spec fn resumed(self, task_id: usize, rt: RuntimeView) -> Resumed<Self, ()> {
        match self {
            Task::Led(task) => {
                let r = task.resumed(task_id, rt);
                Resumed { task: Task::Led(r.task), rt: r.rt, result: r.result }
            },
            Task::Button(task) => {
                let r = task.resumed(task_id, rt);
                Resumed { task: Task::Button(r.task), rt: r.rt, result: r.result }
            },
        }
    }

    proof fn lemma_resumed_valid(self, task_id: usize, rt: RuntimeView) {
        match self {
            Task::Led(task) => task.lemma_resumed_valid(task_id, rt),
            Task::Button(task) => task.lemma_resumed_valid(task_id, rt),
        }
    }

    fn poll(&mut self, task_id: usize, rt: &mut Runtime) -> (r: Result<Poll<()>, Fault>) {
        assert(self.wf());
        let ghost expected = self.resumed(task_id, rt@);
        match self {
            Task::Led(task) => task.poll(task_id, rt),
            Task::Button(task) => task.poll(task_id, rt),
        }
    }
}

impl Task {
    /// Whether the task is in a state in which a resume can leave it.
    pub open spec fn settled(self) -> bool {
        match self {
            Task::Led(task) => task.settled(),
            Task::Button(task) => task.settled(),
        }
    }
}

/// Waking a task that is queued already is harmless. The wake queues the
/// task once more, so it is resumed once more; and a task that is resumed
/// again with nothing changed since its last resume changes neither itself
/// nor the runtime.
pub proof fn lemma_second_wake_is_harmless(task: Task, task_id: usize, rt: RuntimeView)
    requires
        task.wf(),
        task.settled(),
        rt.valid(),
        task.resumed(task_id, rt).result is Ok,
    ensures
        rt.ready.len() < MAX_READY ==> enqueued(rt.ready, task_id) == rt.ready.push(task_id),
        task.resumed(task_id, rt).task.resumed(task_id, task.resumed(task_id, rt).rt) == idle(
            task.resumed(task_id, rt).task,
            task.resumed(task_id, rt).rt,
        ),
{
    match task {
        Task::Led(led) => {
            crate::led::lemma_second_resume_is_idle(led, task_id, rt);
        },
        Task::Button(button) => {
            crate::button::lemma_second_resume_is_idle(button, task_id, rt);
        },
    }
}

/// The wake queue after the ids from `from` up to `count` were queued in
/// order, each once, and what that answered: the first id that found the
/// queue full is a fault.
pub open spec fn seeded(ready: Seq<usize>, from: usize, count: usize) -> (Seq<usize>, Result<
    (),
    Fault,
>)
    decreases count - from,
{
    if from >= count {
        (ready, Ok(()))
    } else if ready.len() < MAX_READY {
        seeded(ready.push(from), (from + 1) as usize, count)
    } else {
        (ready, Err(Fault::QueueFull(from)))
    }
}

/// The ids from `from` up to `count`, in order.
pub open spec fn ids(from: usize, count: usize) -> Seq<usize> {
    Seq::new((count - from) as nat, |i: int| (from + i) as usize)
}

/// With room for all of them, seeding queues every id once, in order,
/// behind what was queued before.
pub proof fn lemma_seeded_all(ready: Seq<usize>, from: usize, count: usize)
    requires
        from <= count,
        ready.len() + (count - from) <= MAX_READY,
    ensures
        seeded(ready, from, count).0 == ready + ids(from, count),
        seeded(ready, from, count).1 is Ok,
    decreases count - from,
{
    if from < count {
        lemma_seeded_all(ready.push(from), (from + 1) as usize, count);
        assert(ready.push(from) + ids((from + 1) as usize, count) =~= ready + ids(from, count));
    } else {
        assert(ready + ids(from, count) =~= ready);
    }
}

/// Queues every task once, in the order of the ids, so that each gets a
/// first run.
pub fn seed_tasks(count: usize, ready: &mut WakeQueue) -> (r: Result<(), Fault>)
    ensures
        final(ready)@ == seeded(old(ready)@, 0, count).0,
        r == seeded(old(ready)@, 0, count).1,
{
    let mut task_id: usize = 0;
    while task_id < count
        invariant
            task_id <= count,
            seeded(ready@, task_id, count) == seeded(old(ready)@, 0, count),
        decreases count - task_id,
    {
        match ready.enqueue(task_id) {
            Err(fault) => {
                return Err(fault);
            },
            Ok(()) => {},
        }
        task_id = task_id + 1;
    }
    Ok(())
}

/// The tasks and the runtime after a run, with the run's answer.
pub struct Ran<F> {
    /// The tasks after the run.
    pub tasks: Seq<F>,
    /// The runtime after the run.
    pub rt: RuntimeView,
    /// Whether the run found the wake queue empty, or the fault that
    /// ended it.
    pub result: Result<bool, Fault>,
}

/// What a run of at most `budget` resumes does.
///
/// As long as the budget lasts, the oldest id leaves the wake queue and
/// the task with that id is resumed once, under that id; an id that no
/// task has is dropped. The run ends with `Ok(true)` when it finds the
/// queue empty, with `Ok(false)` when the budget is used up, and with the
/// fault of the resume that met one.
pub open spec fn ran<F: OurFuture<Output = ()>>(tasks: Seq<F>, rt: RuntimeView, budget: nat) -> Ran<
    F,
>
    decreases budget,
{
    if budget == 0 {
        Ran { tasks, rt, result: Ok(false) }
    } else if rt.ready.len() == 0 {
        Ran { tasks, rt, result: Ok(true) }
    } else {
        let task_id = rt.ready[0];
        let taken = RuntimeView { ready: rt.ready.drop_first(), ..rt };
        if task_id >= tasks.len() {
            ran(tasks, taken, (budget - 1) as nat)
        } else {
            let resumed = tasks[task_id as int].resumed(task_id, taken);
            let tasks = tasks.update(task_id as int, resumed.task);
            match resumed.result {
                Err(fault) => Ran { tasks, rt: resumed.rt, result: Err(fault) },
                Ok(_) => ran(tasks, resumed.rt, (budget - 1) as nat),
            }
        }
    }
}

/// Whether every task is in a valid state.
pub open spec fn all_wf<F: OurFuture<Output = ()>>(tasks: Seq<F>) -> bool {
    forall|i: int| 0 <= i < tasks.len() ==> (#[trigger] tasks[i]).wf()
}

/// Resumes ready tasks in the order in which they were woken, at most
/// `budget` of them. A task that is queued twice is resumed twice.
///
/// Returns `Ok(true)` when the wake queue is empty and the processor may
/// sleep until the next interrupt, `Ok(false)` when the budget is used up.
pub fn run_tasks<F: OurFuture<Output = ()>>(tasks: &mut [F], rt: &mut Runtime, budget: usize) -> (r:
    Result<bool, Fault>)
    requires
        all_wf(old(tasks)@),
    ensures
        all_wf(final(tasks)@),
        final(tasks)@ == ran(old(tasks)@, old(rt)@, budget as nat).tasks,
        final(rt)@ == ran(old(tasks)@, old(rt)@, budget as nat).rt,
        r == ran(old(tasks)@, old(rt)@, budget as nat).result,
        old(rt)@.valid() ==> final(rt)@.valid(),
{
    let mut left: usize = budget;
    while left > 0
        invariant
            all_wf(tasks@),
            ran(tasks@, rt@, left as nat) == ran(old(tasks)@, old(rt)@, budget as nat),
            old(rt)@.valid() ==> rt@.valid(),
        decreases left,
    {
        let ghost before = rt@;
        match rt.ready.dequeue() {
            None => {
                assert(rt@ =~= before);
                return Ok(true);
            },
            Some(task_id) => {
                assert(rt@ =~= RuntimeView { ready: before.ready.drop_first(), ..before });
                if task_id < tasks.len() {
                    let ghost waiting = tasks@;
                    let resumed = tasks[task_id].poll(task_id, rt);
                    assert(tasks@ =~= waiting.update(task_id as int, tasks@[task_id as int]));
                    match resumed {
                        Err(fault) => {
                            return Err(fault);
                        },
                        Ok(_) => {},
                    }
                }
            },
        }
        left = left - 1;
    }
    Ok(false)
}

/// A run leaves every task in a valid state and the runtime in a state
/// that it can reach.
pub proof fn lemma_ran_keeps_valid<F: OurFuture<Output = ()>>(
    tasks: Seq<F>,
    rt: RuntimeView,
    budget: nat,
)
    requires
        all_wf(tasks),
        rt.valid(),
    ensures
        all_wf(ran(tasks, rt, budget).tasks),
        ran(tasks, rt, budget).tasks.len() == tasks.len(),
        ran(tasks, rt, budget).rt.valid(),
    decreases budget,
{
    if budget > 0 && rt.ready.len() > 0 {
        let task_id = rt.ready[0];
        let taken = RuntimeView { ready: rt.ready.drop_first(), ..rt };
        if task_id >= tasks.len() {
            lemma_ran_keeps_valid(tasks, taken, (budget - 1) as nat);
        } else {
            tasks[task_id as int].lemma_resumed_valid(task_id, taken);
            let resumed = tasks[task_id as int].resumed(task_id, taken);
            if resumed.result is Ok {
                lemma_ran_keeps_valid(
                    tasks.update(task_id as int, resumed.task),
                    resumed.rt,
                    (budget - 1) as nat,
                );
            }
        }
    }
}

/// Whether the tasks are the board's: the LED task first, then button
/// tasks only, each in a valid state in which a resume can leave it, with
/// the runtime in a state that it can reach and every LED column but the
/// active one dark.
pub open spec fn one_light(tasks: Seq<Task>, rt: RuntimeView) -> bool {
    &&& tasks.len() >= 1
    &&& tasks[0] is Led
    &&& forall|i: int| 1 <= i < tasks.len() ==> (#[trigger] tasks[i]) is Button
    &&& all_wf(tasks)
    &&& forall|i: int| 0 <= i < tasks.len() ==> (#[trigger] tasks[i]).settled()
    &&& rt.valid()
    &&& dark_elsewhere(rt.leds, tasks[0]->Led_0.row.active_col)
}

/// At most one light, always. Whichever tasks are woken, in whatever
/// order and however often, a run that meets no fault leaves every LED
/// column but the active one dark, and the tasks and the runtime in states
/// from which the next run can start.
pub proof fn lemma_run_keeps_one_light(tasks: Seq<Task>, rt: RuntimeView, budget: nat)
    requires
        one_light(tasks, rt),
        ran(tasks, rt, budget).result is Ok,
    ensures
        one_light(ran(tasks, rt, budget).tasks, ran(tasks, rt, budget).rt),
        ran(tasks, rt, budget).tasks.len() == tasks.len(),
    decreases budget,
{
    if budget > 0 && rt.ready.len() > 0 {
        let task_id = rt.ready[0];
        let taken = RuntimeView { ready: rt.ready.drop_first(), ..rt };
        if task_id >= tasks.len() {
            lemma_run_keeps_one_light(tasks, taken, (budget - 1) as nat);
        } else {
            let task = tasks[task_id as int];
            let resumed = task.resumed(task_id, taken);
            let next = tasks.update(task_id as int, resumed.task);
            assert(task.wf() && task.settled());
            task.lemma_resumed_valid(task_id, taken);
            match task {
                Task::Led(led) => {
                    assert(task_id == 0);
                    crate::led::lemma_resume_keeps_rest_dark(led, task_id, taken);
                },
                Task::Button(button) => {
                    assert(task_id != 0);
                    crate::button::lemma_resume_leaves_leds(button, task_id, taken);
                    crate::button::lemma_resume_settles(button, task_id, taken);
                },
            }
            assert(one_light(next, resumed.rt));
            lemma_run_keeps_one_light(next, resumed.rt, (budget - 1) as nat);
        }
    }
}

/// The interrupt handlers light nothing: after the clock interrupt and
/// after the edge interrupt every LED column but the active one is as dark
/// as before, and the next run can start.
pub proof fn lemma_interrupts_keep_one_light(
    tasks: Seq<Task>,
    rt: RuntimeView,
    overflow: bool,
    counter: u32,
    events: Seq<bool>,
)
    requires
        one_light(tasks, rt),
    ensures
        one_light(tasks, wake_due(clock_read(rt, overflow, counter)).rt),
        one_light(tasks, edges_served(rt, events, 0).rt),
{
    lemma_wake_due_frame(clock_read(rt, overflow, counter));
    lemma_wake_due_keeps_valid(clock_read(rt, overflow, counter));
    lemma_edges_frame(rt, events, 0);
    lemma_edges_keep_valid(rt, events, 0);
}

} // verus!

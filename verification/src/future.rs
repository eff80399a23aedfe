use crate::fault::Fault;
use crate::runtime::{Runtime, RuntimeView};
use vstd::prelude::*;

verus! {

/// The outcome of resuming a suspended computation once.
#[derive(Debug, PartialEq, Eq, Structural)]
pub enum Poll<T> {
    /// No progress is possible until the computation is woken again.
    Pending,
    /// The computation has produced its value.
    Ready(T),
}

impl<T> Poll<T> {
    /// Whether the computation has produced its value.
    pub fn is_ready(&self) -> (r: bool)
        ensures
            r == (*self is Ready),
    {
        match self {
            Poll::Pending => false,
            Poll::Ready(_) => true,
        }
    }
}

/// A task and the runtime after the task was resumed once, with what the
/// resume answered. After a fault both are as they were when the fault was
/// found.
pub struct Resumed<S, T> {
    /// The task after the resume.
    pub task: S,
    /// The runtime after the resume.
    pub rt: RuntimeView,
    /// What the resume answered.
    pub result: Result<Poll<T>, Fault>,
}

/// A computation that is advanced by resuming it. A resume runs until the
/// computation has its value or cannot go on; in the second case the
/// computation has arranged to be woken, under the task id that it was
/// resumed with, once it can go on.
pub trait OurFuture: Sized {
    /// The value that the computation produces.
    type Output;

    /// Whether the computation is in a valid state.
    spec fn wf(&self) -> bool;

    /// What one resume does to the computation and to the runtime.
    spec fn resumed(self, task_id: usize, rt: RuntimeView) -> Resumed<Self, Self::Output>;

    /// A resume leaves the computation in a valid state and the runtime
    /// in a state that it can reach.
    proof fn lemma_resumed_valid(self, task_id: usize, rt: RuntimeView)
        requires
            self.wf(),
            rt.valid(),
        ensures
            self.resumed(task_id, rt).task.wf(),
            self.resumed(task_id, rt).rt.valid(),
    ;

    /// Resumes the computation on behalf of task `task_id`.
    fn poll(&mut self, task_id: usize, rt: &mut Runtime) -> (r: Result<Poll<Self::Output>, Fault>)
        requires
            old(self).wf(),
        ensures
            final(self).wf(),
            (Resumed { task: *final(self), rt: final(rt)@, result: r }) == old(self).resumed(
                task_id,
                old(rt)@,
            ),
            old(rt)@.valid() ==> final(rt)@.valid(),
    ;
}

/// The answer of a resume after which the task waits to be woken.
pub open spec fn waits() -> Result<Poll<()>, Fault> {
    Ok(Poll::Pending)
}

/// The answer of a resume after which the computation is done.
pub open spec fn done() -> Result<Poll<()>, Fault> {
    Ok(Poll::Ready(()))
}

/// The outcome of a resume that changes nothing and leaves the task
/// waiting.
pub open spec fn idle<S>(task: S, rt: RuntimeView) -> Resumed<S, ()> {
    Resumed { task, rt, result: Ok(Poll::Pending) }
}

} // verus!

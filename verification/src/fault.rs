use vstd::prelude::*;

verus! {

/// A condition from which the runtime cannot recover. The firmware halts
/// when it sees one: a lost wake or a lost deadline would leave a task
/// suspended for ever.
#[derive(Clone, Copy, Debug, PartialEq, Eq, Structural)]
pub enum Fault {
    /// The wake queue was full when the given task had to be woken.
    QueueFull(usize),
    /// The deadline heap was full when the given task registered a timer.
    DeadlineDropped(usize),
}

impl Fault {
    /// The task that was being served when the fault occurred.
    pub fn task_id(&self) -> (id: usize)
        ensures
            id == match *self {
                Fault::QueueFull(t) => t,
                Fault::DeadlineDropped(t) => t,
            },
    {
        match *self {
            Fault::QueueFull(t) => t,
            Fault::DeadlineDropped(t) => t,
        }
    }
}

} // verus!

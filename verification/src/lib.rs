//! A small cooperative task runtime for a board with two buttons and a row
//! of LEDs.
//!
//! A fixed set of tasks is resumed by an executor in the order in which
//! they were woken. A task that cannot go on arranges to be woken (by a
//! deadline, by an edge on a button's pin, or by an item in the mailbox)
//! and answers "pending". Two tasks ship with the runtime: one that
//! debounces a button and reports each press once, and one that blinks an
//! LED and moves it along the row when a press is reported.
//!
//! Every piece of shared state lives in one [`runtime::Runtime`] value: the
//! wake queue, the tick clock, the pending deadlines, the edge-event slots
//! and the mailbox between the button tasks and the LED task. Hardware
//! never appears here. The firmware samples the counter and the pins into
//! the runtime before it resumes a task, and afterwards copies the compare
//! event and the LED levels that the runtime holds back to the
//! peripherals. The interrupt handlers of the firmware call
//! [`runtime::Runtime::clock_interrupt`] and [`gpiote::edge_interrupt`].
//!
//! Every function states what it does over a mathematical model of that
//! state, [`runtime::RuntimeView`]. A condition that nothing can be done
//! about (a full wake queue, a full deadline heap) is reported as a
//! [`fault::Fault`], on which the firmware halts.
//!
//! - [`time`]: instants, durations and the wide clock.
//! - [`deadline`]: the pending deadlines and the compare event.
//! - [`timer`]: a wait until a point in time.
//! - [`queue`]: the wake queue.
//! - [`channel`]: the single-slot mailbox.
//! - [`gpiote`]: waiting for a pin level, and the edge interrupt.
//! - [`button`], [`led`]: the two tasks.
//! - [`executor`]: running the tasks.

pub mod button;
pub mod channel;
pub mod deadline;
pub mod executor;
pub mod fault;
pub mod future;
pub mod gpiote;
pub mod led;
pub mod queue;
pub mod runtime;
pub mod time;
pub mod timer;

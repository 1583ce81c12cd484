//! A discrete-event, cycle-level simulation kernel for synchronous designs.
//!
//! A design is a fixed set of modules that talk through latched registers and FIFO
//! channels. The kernel drives them with a global clock: in every cycle it evaluates the
//! modules that are due, then commits what they buffered, so that no module ever sees an
//! effect issued in the same cycle. A run ends when its cycle budget is used up or when no
//! module has fired for too long.
//!
//! - [`timing`]: cycle boundaries and settle points.
//! - [`register`], [`queue`], [`schedule`]: the timed register file, the timed queue and
//!   the event schedule, each with its model and the laws of its commit.
//! - [`kernel`]: the simulator, the interface of a design, and the cycle.
//! - [`laws`]: what holds of every run.
//! - [`simple_counter`], [`counter_system`], [`processor_system`]: the bundled designs.

pub mod counter_system;
pub mod filters;
pub mod kernel;
pub mod laws;
pub mod processor_system;
pub mod queue;
pub mod register;
pub mod schedule;
pub mod simple_counter;
pub mod timing;

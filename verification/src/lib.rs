//! A multi-level feedback queue scheduler, modelled as a deterministic
//! accounting simulation that an external driver advances call by call.
//!
//! The scheduler is [`MLFQ`]. It keeps one FIFO queue of [`Process`]es per
//! priority level, runs the front of a level for one quantum at most, moves a
//! process one level down when its quantum expires, and lifts every process
//! back to the highest level when the clock is advanced to a multiple of the
//! boost interval.
//!
//! What each operation does is a function on the mathematical state of
//! [`model`]. What holds of one operation is proved in [`laws`]; what holds
//! of any sequence of them, written as the commands of [`trace`], is proved
//! in [`lifetime`] and [`identity`].

pub mod event;
pub mod identity;
pub mod laws;
pub mod lifetime;
pub mod mlfq;
pub mod model;
pub mod process;
pub mod seq_facts;
pub mod trace;

pub use event::{ConfigError, Event, ExecutionOutcome, Transition};
pub use mlfq::MLFQ;
pub use process::Process;

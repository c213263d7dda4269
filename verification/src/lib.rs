//! Job execution on an acquired processing element of a hardware
//! accelerator: the arguments of a call are given device memory, written to
//! the device and bound to registers, the element is set running, and on
//! release the results are read back, the memory is freed and the element
//! goes back to its scheduler.
//!
//! The allocator, the DMA engine, the processing element and the scheduler
//! are reached through the traits of [`collaborators`]. A [`job::Job`]
//! makes each call to them through its [`record::Record`], which notes the
//! call and its answer in the same step. The contracts of the job's methods
//! say, over what is noted there, which calls there are, in which order and
//! with what, and how the result follows from the answers.

pub mod chain;
pub mod collaborators;
pub mod error;
pub mod job;
pub mod laws;
pub mod parameter;
pub mod record;
pub mod script;

//! A write channel with a one-way open → closed lifecycle, meant to sit
//! behind an asynchronous lock and be shared by several holders.
//!
//! The channel never performs I/O itself. Each operation decides what is to
//! be done with the sink and hands that decision to the caller, who holds the
//! lock for as long as the work takes.
//!
//! - [`channel`] is the executable state machine.
//! - [`trace`] is the mathematical account of what a sink receives when
//!   calls are served one at a time, with the laws that follow from it.
//! - [`shared`] shows that a lock is enough for that: calls whose writes go
//!   through piece by piece, under mutual exclusion, leave the sink as if
//!   each had been served in one go.

pub mod channel;
pub mod shared;
pub mod trace;

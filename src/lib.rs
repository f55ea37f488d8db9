//! The ingestion-and-rotation engine of a durable message logger.
//!
//! - `naming`: partition dates and the names of output files.
//! - `clock`: the UTC date of an instant.
//! - `rotator`: the strict-create search for a fresh output file.
//! - `meter`: periodic throughput reports.
//! - `engine`: what each broker event asks for, as a state machine.
//! - `trace`: the output files over a run of events, and what holds of them.
use vstd::prelude::*;

pub mod clock;
pub mod engine;
pub mod meter;
pub mod naming;
pub mod rotator;
pub mod trace;

verus! {

} // verus!

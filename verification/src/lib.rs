//! Codec for a fixed-layout binary container of cinematic event scripts.
//!
//! A file groups named events; an event owns actors, an actor owns an
//! ordered list of steps, and a step carries typed parameter data and at
//! most one dependency on another step of the same event.  The library
//! decodes such a file into a logical graph, re-encodes the graph byte for
//! byte, and offers a mutation API that keeps the dependency edges
//! consistent when steps are inserted or removed.

#![verifier::loop_isolation(false)]

pub mod bytes;
pub mod decode;
pub mod dot;
pub mod encode;
pub mod errors;
pub mod laws;
pub mod layout;
pub mod model;
pub mod mutate;
pub mod raw;

pub use errors::{FileReason, HeaderReason, MutationError, ZevParseError, ZevWriteError};
pub use decode::parse_zev;
pub use encode::write_zev;
pub use model::{Actor, Event, Step, StepData, StepDataValues, StepRef, WaitFor};

//! A system-call tracer core: page-wise remote memory reads, the
//! entry/exit state machine of a traced process, and a decoder that turns
//! raw registers into typed system-call records.

pub mod arch;
pub mod decode;
pub mod page;
mod sys;
pub mod syscall;
pub mod tracee;

pub use page::PageIter;
pub use tracee::{Notification, OsTraceError, Phase, TraceEvent, Tracee, traceme};

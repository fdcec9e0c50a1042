//! Crash diagnostics for a long-running workload: a one-shot termination
//! latch observed by a watchdog, a report of the captured call stack, and the
//! plan of signal registrations that wires them together.
pub mod registrar;
pub mod report;
pub mod watchdog;

//! A monotonic 64-bit clock and a small pool of one-shot alarms, driven by a
//! free-running 64-bit hardware counter and its 32-bit comparators.

pub mod regs;
pub mod driver;

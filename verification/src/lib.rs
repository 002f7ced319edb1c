//! The decisions of a headless emulator runner, and the texts it reads and writes.
//!
//! A run boots a machine with a pinned clock, moves keys at fixed emulated times, records the
//! screen at regular intervals and lists what the CPU did last. What the runner reads (key
//! presses, vectors, a date), when it acts and what it writes stand here, with their contracts;
//! the emulator itself, files and the command line are left to the program around it.

pub mod clock;
pub mod hexnum;
pub mod history;
pub mod keys;
pub mod observe;
pub mod regs;
pub mod run;
pub mod screenshot;
pub mod script;
pub mod setup;
pub mod text;
pub mod vectors;

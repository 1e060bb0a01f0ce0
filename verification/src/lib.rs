//! An adaptive regulator for a kernel memory-deduplication subsystem. The
//! library holds the verified core: a breakpoint table sorted by memory
//! usage threshold, a lower-bound lookup over it, the choice between
//! disabling the subsystem, applying a configured sleep value directly and
//! interpolating between two bracketing breakpoints, and the control-loop
//! state machine that drives sampling, writing and sleeping until
//! cancellation. Numbers are carried as IEEE 754 bit patterns; the
//! floating-point arithmetic itself, like all I/O, belongs to the
//! unverified shell around the library.

pub mod control;
pub mod table;

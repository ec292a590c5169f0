//! A throughput harness for an x86-64 instruction decoder.
//!
//! The core is the decode-and-advance loop: a code buffer is scanned from
//! offset zero, each successfully decoded instruction moves the cursor by its
//! length, and each decode failure moves it by exactly one byte. The scan is
//! repeated a given number of times inside one timed region.
pub mod bench;
pub mod number;
pub mod scan;

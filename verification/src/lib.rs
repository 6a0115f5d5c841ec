//! An interpreter for an eight-instruction tape language.
//!
//! [`tape`] holds the storage: a byte tape without bounds in either direction
//! and a cursor on it. [`scan`] finds where a loop ends. [`machine`] runs a
//! program one instruction at a time and leaves input and output to its host.
//! [`run`] runs a program on input that is already at hand.

pub mod machine;
pub mod run;
pub mod scan;
pub mod tape;

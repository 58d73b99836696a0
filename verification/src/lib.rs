//! Recording what a process consumes: snapshots of its memory, CPU, I/O and
//! network counters, the log they are kept in, the loop that takes them and
//! the coordinator that stops the loops.
//!
//! Nothing in this library waits, asks the operating system for a process or
//! touches a file. The sampling loop and the shutdown coordinator are state
//! machines that are told what happened and answer what to do next; the record
//! log works on bytes in memory.

pub mod buffer;
pub mod codec;
pub mod data;
pub mod draw;
pub mod monitor;
pub mod shutdown_notify;
pub mod store;
pub mod varint;

//! Decision engine of a watchdog that restarts an application once it holds
//! too many connections to the X11 server.
//!
//! The library decides; its caller acts. The caller reads the process table,
//! the links of descriptors, the socket listing, the inotify instance and the
//! clock, hands what it read to the functions of this library, and carries out
//! what they answer.

pub mod cli;
pub mod config;
pub mod display;
pub mod guard;
pub mod log;
pub mod procs;
pub mod restart;
pub mod sockets;
pub mod sys;
pub mod text;
pub mod watch;

//! A supervisor for a set of concurrently running shell commands: it
//! multiplexes their output under per-command prefixes and applies
//! restart, kill-propagation and shutdown policy from a single
//! coordinating state machine.

pub mod cli;
pub mod colors;
pub mod command;
pub mod config;
pub mod event_loop;
pub mod laws;
pub mod text;
pub mod trace;

//! A process-presence watcher: it looks for a trigger process in the host's
//! process table and, while the trigger runs, keeps a target process running
//! beside it.
//!
//! The library holds the rules; the program around it does the work on the
//! host. `config` reads the configuration, `table` looks the two processes up
//! in the process table, `decision` says what a look calls for, and `watch`
//! is the cycle of looking, spawning and sleeping, taken one step at a time:
//! a driver performs each step's task and reports back.

pub mod config;
pub mod decision;
pub mod path;
pub mod platform;
pub mod table;
pub mod text;
pub mod watch;

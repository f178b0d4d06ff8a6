//! An effect-command runtime: side effects issued as data, with typed
//! continuations that turn the shell's encoded responses back into events.
pub mod codec;
pub mod command;
pub mod time;
pub mod effect;
pub mod executor;
pub mod testing;

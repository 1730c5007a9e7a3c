//! A small key-value store driven by text commands: `GET key`, `SET key value`
//! and `DEL key`, with double quotes around keys or values that hold spaces.
//!
//! `parser` turns a line into a `Command`, `inmem` runs it against the store,
//! and `connection` formats the answer sent back to a client. `laws` states
//! what holds across several commands.

pub mod command;
pub mod connection;
pub mod inmem;
pub mod laws;
pub mod parser;
pub mod text;

pub use command::Command;
pub use inmem::InMem;
pub use parser::parse;

//! The pure data of the command layer: argument values and kinds, and
//! flag definitions.  The command table, token parsing and dispatch sit
//! in the shell layer around this crate and consume these types.

pub mod args;
pub mod flags;

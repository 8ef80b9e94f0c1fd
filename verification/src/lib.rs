//! A small interactive shell: command-line parsing, builtin commands,
//! the background job table and the I/O plan of each pipeline stage.
//! Everything here is verified; process creation, files and the
//! terminal are driven by the binary around this library.

pub mod text;
pub mod parser;
pub mod builtins;
pub mod job;
pub mod os;
pub mod plan;
pub mod parse_laws;

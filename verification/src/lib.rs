//! Normalization of human-friendly memory and duration strings into the wire
//! formats expected by a cluster job scheduler, and deterministic rendering of
//! the submission script built from those normalized values.
//!
//! The library is organized around three verified cores:
//! - duration normalization (`parse_time` and the `SlurmTime` trait),
//! - memory-size normalization (`parse_memory`),
//! - submission-script rendering (`make_submission_script`).
//!
//! Everything that talks to the outside world (argument parsing, shell
//! detection, launching the scheduler's commands) lives in the surrounding
//! binary, which calls into these functions with plain strings.

pub mod cli;
pub mod digits;
pub mod memory;
pub mod script;
pub mod text;
pub mod time_format;
pub mod time_parse;

pub use cli::Cli;
pub use memory::parse_memory;
pub use script::make_submission_script;
pub use time_format::Duration;
pub use time_format::SlurmTime;
pub use time_parse::parse_time;

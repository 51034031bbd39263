//! The command line: its commands and their arguments.
pub mod args;

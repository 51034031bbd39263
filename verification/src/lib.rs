//! Bear notes from the command line: reading notes, tags and statistics
//! from Bear's database, and asking Bear through its x-callback-url API to
//! create, change, tag, trash and archive notes. The library holds what
//! these computations decide; the program around it does the input, output
//! and database access.
pub mod api;
pub mod cli;
pub mod commands;
pub mod db;
pub mod health;
pub mod models;
pub mod output;
pub mod text;

//! Core logic of `mgfy`, a command line tool for quick inspection of MongoDB:
//! saved connections, command classification, size formatting and output lines.

pub mod errors;
pub mod numfmt;
pub mod sizes;
pub mod cli;
pub mod connections;
pub mod commands;

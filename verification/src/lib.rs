//! Verified core of a terminal document reader: configuration editing,
//! path handling, command-line parsing, document classification and the
//! reader's state machine.

pub mod text;
pub mod paths;
pub mod config;
pub mod command;
pub mod context;
pub mod listing;
pub mod reader;
pub mod layout;
pub mod document;

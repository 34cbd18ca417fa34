//! Ferret core: a verified filter-and-traversal engine for file discovery.
//!
//! The library compiles a search pattern (glob or regular expression) into a
//! matcher, parses human-friendly size expressions, composes independent
//! filter dimensions into one predicate over filesystem entries, drives a
//! depth-first, name-sorted directory traversal as an explicit state machine,
//! and renders matches or builds the command line for a per-match action.
//! All filesystem reads, process spawning and terminal output live outside
//! the library; it works on plain values handed in by its caller.

pub mod text;
pub mod size;
pub mod glob;
pub mod pattern;
pub mod filter;
pub mod walk;
pub mod sink;
pub mod perms;

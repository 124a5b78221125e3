//! Configuration and command-line resolution for a small note-taking tool.
//!
//! The crate centres on three hand-written character-level lexers and the
//! layered lookup built on them:
//!
//! * [`env`] — expands `$VAR` / `${VAR}` references inside configuration
//!   strings, recursively, against an explicit variable table;
//! * [`parse`] — tokenizes a `key value` configuration file, tracking line
//!   numbers for diagnostics;
//! * [`sh`] — splits a command line into argv-style words, honouring
//!   single/double quoting and backslash escapes;
//! * [`config`] — the typed configuration record and the resolution order
//!   (explicit override, then config file, then candidate locations);
//! * [`error`] — parse and resolution errors, each carrying the 1-based
//!   line at which it was detected.
//!
//! All filesystem probing, process spawning and environment reading is left
//! to the embedding program, which hands the results in as plain values.

pub mod cli;
pub mod config;
pub mod env;
pub mod error;
pub mod notes_dir;
pub mod parse;
pub mod sh;
pub mod text;
pub mod util;

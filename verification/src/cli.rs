//! Command-line options and their resolution into a configuration.
//!
//! Argument parsing itself is the embedding program's business; this
//! module holds the typed options and the rule for merging them with a
//! parsed configuration file: an explicit `--notes-dir` or `--editor`
//! override wins over whatever the file set.

use vstd::prelude::*;

use crate::config::{resolve, spec_parse_config, spec_with_path, Config, SpecConfig, spec_default_config};
use crate::error::Error;

verus! {

/// Subcommand.
#[derive(Debug, Clone)]
pub enum Command {
    /// Create a new note.  Default if no other command is specified.
    New {
        /// File name for the created note.  A unique name is generated by
        /// default.
        name: Option<String>,
    },
    /// List current notes.
    List,
    /// View a note in the configured pager program.
    View {
        /// Index of the file, as displayed by the list command.
        index: usize,
    },
    /// Print a note's contents to stdout.
    Cat {
        /// Index of the file, as displayed by the list command.
        index: usize,
    },
    /// Edit a note in the configured editor.
    Edit {
        /// Index of the file, as displayed by the list command.
        index: usize,
    },
    /// Print the canonicalized path to the configured notes directory.
    NotesDir,
}

impl Default for Command {
    /// With no subcommand given, a new note is created.
    fn default() -> (r: Command)
        ensures
            r matches Command::New { name: None },
    {
        Command::New { name: None }
    }
}

/// Quick notetaking with minimal fuss.
#[derive(Debug, Clone)]
pub struct Options {
    /// Configuration file path.
    pub config: Option<String>,
    /// The directory in which to store notes.
    pub notes_dir: Option<String>,
    /// The editor command to invoke for editing notes.
    pub editor: Option<String>,
    /// Print verbose debugging output.
    pub verbose: bool,
    /// Subcommand.
    pub command: Option<Command>,
}

/// `base` with these options' overrides applied: `notes_dir` and `editor`
/// replaced where the command line set them.
pub open spec fn spec_merged(opts: &Options, base: SpecConfig) -> SpecConfig {
    SpecConfig {
        notes_dir: match &opts.notes_dir {
            Some(v) => Some(v@),
            None => base.notes_dir,
        },
        editor: match &opts.editor {
            Some(v) => Some(v@),
            None => base.editor,
        },
        pager: base.pager,
    }
}

/// A copy of an optional string.
fn opt_clone(o: &Option<String>) -> (r: Option<String>)
    ensures
        match (&r, o) {
            (Some(a), Some(b)) => a@ == b@,
            (None, None) => true,
            _ => false,
        },
{
    match o {
        Some(s) => Some(s.clone()),
        None => None,
    }
}

impl Options {
    /// Resolve the configuration for these options.
    ///
    /// `file` is the configuration file the embedding program read — the
    /// path the `-f` option names, or the first existing candidate of
    /// [`crate::config::conf_file_candidates`] — or `None` when there is
    /// none.  The parsed (or default) configuration is merged with the
    /// command-line overrides.
    pub fn config(&self, file: Option<(&str, &str)>) -> (r: Result<Config, Error>)
        requires
            file matches Some(f) ==> f.1@.len() < usize::MAX,
        ensures
            match file {
                None => r matches Ok(c) && c@ == spec_merged(self, spec_default_config()),
                Some(f) => match spec_parse_config(f.1@) {
                    Ok(sc) => r matches Ok(c) && c@ == spec_merged(self, sc),
                    Err(e) => r matches Err(err) && err@ == spec_with_path(e, f.0@),
                },
            },
    {
        match resolve(file) {
            Err(e) => Err(e),
            Ok(c) => Ok(
                c.with_notes_dir(opt_clone(&self.notes_dir)).with_editor(opt_clone(&self.editor)),
            ),
        }
    }
}

} // verus!

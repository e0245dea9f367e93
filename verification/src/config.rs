//! Where the list is kept, and what to do when that is not on record.

use std::path::PathBuf;
use vstd::prelude::*;

verus! {

/// `std::path::PathBuf`, a path of the file system. Nothing is said of what
/// a path holds: the library carries paths and never looks into them.
#[verifier::external_type_specification]
#[verifier::external_body]
pub struct ExPathBuf(PathBuf);

/// The settings: the path of the file that holds the list.
#[derive(Debug)]
pub struct TodoListLocation {
    pub file_path: PathBuf,
}

/// Why the stored settings could not be had.
#[derive(Debug, Clone, Copy, PartialEq, Eq)]
pub enum LoadFailure {
    /// There is no settings file.
    Missing,
    /// The settings file could not be read.
    Unreadable,
    /// The settings file does not hold settings.
    Malformed,
}

impl LoadFailure {
    /// The text of the warning that this failure calls for.
    pub open spec fn text(self) -> Seq<char> {
        match self {
            LoadFailure::Missing => "Warning: Config file not found. Using default configuration."@,
            LoadFailure::Unreadable => "Error: Failed to read config file. Using default configuration."@,
            LoadFailure::Malformed => "Error: Failed to parse config file. Using default configuration."@,
        }
    }

    /// The warning that this failure calls for.
    pub fn message(&self) -> (r: String)
        ensures
            r@ == self.text(),
    {
        match self {
            LoadFailure::Missing => "Warning: Config file not found. Using default configuration.".to_owned(),
            LoadFailure::Unreadable => "Error: Failed to read config file. Using default configuration.".to_owned(),
            LoadFailure::Malformed => "Error: Failed to parse config file. Using default configuration.".to_owned(),
        }
    }
}

impl TodoListLocation {
    /// The settings to work with. Stored settings are taken as they are.
    /// Without them the work goes on with `fallback`, and the failure comes
    /// back beside it so that the caller can warn of it: no failure to load
    /// the settings is fatal.
    pub fn load(stored: Result<TodoListLocation, LoadFailure>, fallback: TodoListLocation) -> (r: (
        TodoListLocation,
        Option<LoadFailure>,
    ))
        ensures
            r == (match stored {
                Ok(location) => (location, None),
                Err(failure) => (fallback, Some(failure)),
            }),
    {
        match stored {
            Ok(location) => (location, None),
            Err(failure) => (fallback, Some(failure)),
        }
    }

    /// Points the settings at another file.
    pub fn update_file_path(&mut self, path: PathBuf)
        ensures
            final(self).file_path == path,
    {
        self.file_path = path;
    }
}

} // verus!

//! The failures that resolution can report. Every failure aborts the current
//! resolution immediately; none is retried.

use vstd::prelude::*;

verus! {

/// A terminal, user-reported resolution failure.
#[derive(Debug)]
pub enum LauncherError {
    /// An alias points at a target that cannot be used.
    InvalidAlias(String, String),
    /// A configuration value is malformed, with an optional reason.
    InvalidConfig(Option<String>),
    /// An app definition is malformed: the path concerned and an optional
    /// reason.
    InvalidApp(String, Option<String>),
    /// No configuration file exists at the named path.
    ConfigNotFound(String),
    /// No app definition matches the query.
    AppNotFound(String),
    /// The named alias does not exist.
    AliasNotFound(String),
    /// Alias or runner resolution revisited a name; the chain walked so far,
    /// ending with the repeated name.
    CircularAlias(Vec<String>),
    /// Several apps match the query and no interactive choice is possible:
    /// the query and every candidate path.
    AmbiguousQuery(String, Vec<String>),
    /// The command line named no command to run.
    NoCommandGiven,
    /// Any other failure, described in words.
    Other(String),
}

} // verus!

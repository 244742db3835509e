//! The commands of the command line.
use vstd::prelude::*;

verus! {

/// A subcommand of `wally`.
pub enum Commands {
    /// Start a project from a template.
    New { project_name: Option<String>, template: Option<String> },
    /// Write `info/context.md`.
    Context,
    /// List the templates.
    List,
    /// Choose files to stage.
    Add,
    /// Commit with a conventional message.
    Commit,
    /// Push to the remote.
    Push,
    /// Manage branches.
    Branch,
    /// Stash, pull with rebase, and restore.
    Update,
    /// Undo recent actions or reset to a commit.
    Reset,
    /// Show activity statistics.
    Stats,
    /// Create a version tag.
    Tag,
    /// Install a template from a JSON file.
    Install { path: String },
    /// Remove an installed template.
    Uninstall { template_name: String },
}

/// The parsed command line: the subcommand, if one was given.
pub struct Cli {
    pub command: Option<Commands>,
}

} // verus!

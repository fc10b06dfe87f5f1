use vstd::prelude::*;

verus! {

/// The parsed command line: a subcommand, or none to show the help.
#[derive(Debug, Clone)]
pub struct Cli {
    pub command: Option<Command>,
}

/// The subcommands of the command line.
#[derive(Debug, Clone)]
pub enum Command {
    /// Initialize .be directory in current path
    Init,
    /// Open TUI manager
    Manager,
    /// List all saved commands
    List,
    /// Add a new command
    Add {
        /// Tag name (alphanumeric, underscore, hyphen)
        tag: String,
        /// Shell command to execute
        cmd: String,
        /// Description of the command
        desc: String,
    },
    /// Remove a command by tag
    Remove {
        /// Tag name to remove
        tag: String,
    },
    /// Edit an existing command
    Edit {
        /// Tag name to edit
        tag: String,
        /// New shell command
        cmd: Option<String>,
        /// New description
        desc: Option<String>,
    },
    /// Run a command by tag (catch-all for `be <tag>`)
    Run(Vec<String>),
}

} // verus!

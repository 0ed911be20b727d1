use vstd::prelude::*;

verus! {

/// The command line: an optional subcommand; none opens the editor on the
/// directory's todo file.
#[derive(Debug)]
pub struct Cli {
    pub command: Option<Commands>,
}

/// The subcommands of the tool.
#[derive(Debug)]
pub enum Commands {
    /// Create a hard link to this directory's todo file in the current
    /// directory.
    Sync,
    /// Undo the sync command.
    Unsync,
    /// List the todos for the current directory.
    List(ListArgs),
    /// Interactive configuration.
    Config(ConfigArgs),
    /// Delete todo files.
    Delete(DeleteArgs),
    /// Update the tool itself.
    Update,
    /// Fuzzily find todos.
    Search { query: Option<String> },
    /// Fuzzily find todos and check them.
    Check { query: Option<String>, all: bool },
    /// Fuzzily find todos and uncheck them.
    Uncheck { query: Option<String>, all: bool },
    /// Fuzzily find todos and remove them.
    Remove { query: Option<String>, all: bool },
    /// Count todos.
    Count(CountArgs),
}

/// Arguments of `list`.
#[derive(Debug, Clone, Copy, PartialEq, Eq, Structural)]
pub struct ListArgs {
    /// Print the file as it is.
    pub raw: bool,
    pub filter: Option<ListSubcommand>,
}

/// The `list` filters.
#[derive(Debug, Clone, Copy, PartialEq, Eq, Structural)]
pub enum ListSubcommand {
    Checked,
    Unchecked,
}

/// Arguments of `count`.
#[derive(Debug, Clone, Copy, PartialEq, Eq, Structural)]
pub struct CountArgs {
    pub filter: Option<CountSubcommand>,
}

/// The `count` filters.
#[derive(Debug, Clone, Copy, PartialEq, Eq, Structural)]
pub enum CountSubcommand {
    Checked,
    Unchecked,
}

/// Arguments of `delete`: at most one of the two modes.
#[derive(Debug, Clone, Copy, PartialEq, Eq, Structural)]
pub struct DeleteArgs {
    /// Remove all todos.
    pub all: bool,
    /// Remove todos of this directory and its subdirectories.
    pub recurse: bool,
}

/// Arguments of `config`.
#[derive(Debug, Clone, Copy, PartialEq, Eq, Structural)]
pub struct ConfigArgs {
    pub action: Option<ConfigSubcommand>,
}

/// The `config` subcommands.
#[derive(Debug, Clone, Copy, PartialEq, Eq, Structural)]
pub enum ConfigSubcommand {
    /// Show the current config.
    List,
}

} // verus!

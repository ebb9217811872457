//! The command-line surface as plain data. Argument parsing and the
//! derive-based flag definitions live with the binary; the library
//! fixes only the shape of a parsed invocation.

use vstd::prelude::*;

verus! {

/// A parsed invocation: the command and an optional path to the
/// configuration file.
pub struct Cli {
    pub command: Commands,
    pub config: Option<String>,
}

/// The top-level commands.
pub enum Commands {
    /// Start the API server.
    Serve,
    /// Project management.
    Project(ProjectCommands),
    /// Environment variable management.
    Env(EnvCommands),
}

/// Project management subcommands.
pub enum ProjectCommands {
    Add { name: String, description: Option<String> },
    List,
    Get { name: String },
    Delete { name: String },
}

/// Environment variable subcommands. The environment defaults to
/// `development` and the export format to `dotenv`; the argument
/// parser fills those in.
pub enum EnvCommands {
    SetVar { project: String, key: String, value: String, env: String, encrypted: bool },
    Get { project: String, key: String, env: String },
    List { project: String, env: String },
    Delete { project: String, key: String, env: String },
    Export { project: String, env: String, format: String },
}

} // verus!

//! The command line, as values: which command was given and its options.
use vstd::prelude::*;

verus! {

/// The global options and the command.
#[derive(Debug, Clone)]
pub struct NebulaArgs {
    /// Path to a configuration file.
    pub config_file: Option<String>,
    /// Log level override.
    pub log_level: Option<String>,
    /// Verbose output.
    pub verbose: bool,
    pub command: Commands,
}

/// The commands.
#[derive(Debug, Clone)]
pub enum Commands {
    /// Start a node.
    Start { port: u16, storage: Option<String>, address: String, daemon: bool },
    /// Store a file.
    Put { file: String, storage: Option<String>, format: String },
    /// Retrieve a file.
    Get { file_id: String, output: String, storage: Option<String> },
    /// List stored content.
    List { storage: Option<String>, verbose: bool },
    /// List registered files.
    ListFiles { storage: Option<String>, verbose: bool },
    /// Show storage statistics.
    Stats { storage: Option<String> },
    /// Show node status.
    Status { storage: Option<String> },
    /// Display the configuration.
    Config { storage: Option<String>, show: bool },
    /// Stop a running node.
    Stop { storage: Option<String> },
}

impl Commands {
    /// The storage directory that the command names, if any.
    pub open spec fn storage_spec(&self) -> Option<String> {
        match self {
            Commands::Start { storage, .. } => *storage,
            Commands::Put { storage, .. } => *storage,
            Commands::Get { storage, .. } => *storage,
            Commands::List { storage, .. } => *storage,
            Commands::ListFiles { storage, .. } => *storage,
            Commands::Stats { storage } => *storage,
            Commands::Status { storage } => *storage,
            Commands::Config { storage, .. } => *storage,
            Commands::Stop { storage } => *storage,
        }
    }

    /// The storage directory that the command names, if any.
    pub fn storage(&self) -> (r: &Option<String>)
        ensures
            *r == self.storage_spec(),
    {
        match self {
            Commands::Start { storage, .. } => storage,
            Commands::Put { storage, .. } => storage,
            Commands::Get { storage, .. } => storage,
            Commands::List { storage, .. } => storage,
            Commands::ListFiles { storage, .. } => storage,
            Commands::Stats { storage } => storage,
            Commands::Status { storage } => storage,
            Commands::Config { storage, .. } => storage,
            Commands::Stop { storage } => storage,
        }
    }
}

} // verus!

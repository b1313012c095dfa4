//! Log levels, node states, and the node configuration with its layering:
//! command line over configuration file over defaults.
use vstd::prelude::*;
use crate::args::{Commands, NebulaArgs};
use crate::text::{join, join_path, str_eq};

verus! {

/// The lowercase form of a string, as `str::to_lowercase` gives it.
pub uninterp spec fn lower_of(s: Seq<char>) -> Seq<char>;

/// Relies on str::to_lowercase: the result depends on the characters alone.
#[verifier::external_body]
fn lowercase(s: &str) -> (r: String)
    ensures
        r@ == lower_of(s@),
{
    s.to_lowercase()
}

/// Relies on dirs::data_dir: the platform's user data directory, if one can
/// be found; nothing is known of its value.
#[verifier::external_body]
pub(crate) fn data_dir() -> (r: Option<String>) {
    dirs::data_dir().map(|p| p.to_string_lossy().into_owned())
}

/// Log level.
#[derive(Debug, Clone, Copy, PartialEq, Eq, Structural)]
pub enum LogLevel {
    Error,
    Warn,
    Info,
    Debug,
    Trace,
}

/// The lowercase name of a level.
pub open spec fn level_name(l: LogLevel) -> Seq<char> {
    match l {
        LogLevel::Error => "error"@,
        LogLevel::Warn => "warn"@,
        LogLevel::Info => "info"@,
        LogLevel::Debug => "debug"@,
        LogLevel::Trace => "trace"@,
    }
}

/// The level whose name is exactly `s`.
pub open spec fn level_of_name(s: Seq<char>) -> Option<LogLevel> {
    if s == level_name(LogLevel::Error) {
        Some(LogLevel::Error)
    } else if s == level_name(LogLevel::Warn) {
        Some(LogLevel::Warn)
    } else if s == level_name(LogLevel::Info) {
        Some(LogLevel::Info)
    } else if s == level_name(LogLevel::Debug) {
        Some(LogLevel::Debug)
    } else if s == level_name(LogLevel::Trace) {
        Some(LogLevel::Trace)
    } else {
        None
    }
}

impl Default for LogLevel {
    fn default() -> (r: Self)
        ensures
            r == LogLevel::Info,
    {
        LogLevel::Info
    }
}

impl LogLevel {
    /// The lowercase name.
    pub fn as_str(&self) -> (r: &'static str)
        ensures
            r@ == level_name(*self),
    {
        match self {
            LogLevel::Error => "error",
            LogLevel::Warn => "warn",
            LogLevel::Info => "info",
            LogLevel::Debug => "debug",
            LogLevel::Trace => "trace",
        }
    }

    /// The lowercase name, as an owned string.
    pub fn to_string(&self) -> (r: String)
        ensures
            r@ == level_name(*self),
    {
        self.as_str().to_owned()
    }

    /// The level named exactly `name` (lowercase).
    pub fn level_named(name: &str) -> (r: Option<LogLevel>)
        ensures
            r == level_of_name(name@),
    {
        proof {
            reveal_strlit("error");
            reveal_strlit("warn");
            reveal_strlit("info");
            reveal_strlit("debug");
            reveal_strlit("trace");
        }
        if str_eq(name, "error") {
            Some(LogLevel::Error)
        } else if str_eq(name, "warn") {
            Some(LogLevel::Warn)
        } else if str_eq(name, "info") {
            Some(LogLevel::Info)
        } else if str_eq(name, "debug") {
            Some(LogLevel::Debug)
        } else if str_eq(name, "trace") {
            Some(LogLevel::Trace)
        } else {
            None
        }
    }

    /// Parse a level name in any case; the error names the input.
    pub fn parse_level(s: &str) -> (r: Result<LogLevel, String>)
        ensures
            match level_of_name(lower_of(s@)) {
                Some(l) => r == Ok::<LogLevel, String>(l),
                None => r matches Err(m) && m@ == "Invalid log level: "@ + s@,
            },
    {
        let lower = lowercase(s);
        match Self::level_named(lower.as_str()) {
            Some(l) => Ok(l),
            None => {
                let mut m = "Invalid log level: ".to_owned();
                m.append(s);
                Err(m)
            },
        }
    }
}

impl std::str::FromStr for LogLevel {
    type Err = String;

    fn from_str(s: &str) -> Result<Self, Self::Err> {
        LogLevel::parse_level(s)
    }
}

/// Node state.
#[derive(Debug, Clone, Copy, PartialEq, Eq, Structural)]
pub enum NodeState {
    Stopped,
    Starting,
    Running,
    Stopping,
    Error,
}

impl Default for NodeState {
    fn default() -> (r: Self)
        ensures
            r == NodeState::Stopped,
    {
        NodeState::Stopped
    }
}

/// The lowercase name of a state.
pub open spec fn state_name(s: NodeState) -> Seq<char> {
    match s {
        NodeState::Stopped => "stopped"@,
        NodeState::Starting => "starting"@,
        NodeState::Running => "running"@,
        NodeState::Stopping => "stopping"@,
        NodeState::Error => "error"@,
    }
}

impl NodeState {
    /// The lowercase name.
    pub fn as_str(&self) -> (r: &'static str)
        ensures
            r@ == state_name(*self),
    {
        match self {
            NodeState::Stopped => "stopped",
            NodeState::Starting => "starting",
            NodeState::Running => "running",
            NodeState::Stopping => "stopping",
            NodeState::Error => "error",
        }
    }
}

/// Node configuration.
#[derive(Debug, Clone)]
pub struct Config {
    pub listen_port: u16,
    pub listen_address: String,
    pub storage_dir: String,
    pub log_level: LogLevel,
    pub daemon_mode: bool,
    pub verbose: bool,
}

impl Default for Config {
    /// Port 4001 on every interface, info logging, in the foreground, with
    /// storage under the platform's data directory (or `./nebula`).
    fn default() -> (r: Config)
        ensures
            default_settings(r),
    {
        let base = match data_dir() {
            Some(d) => d,
            None => ".".to_owned(),
        };
        Config {
            listen_port: 4001,
            listen_address: "0.0.0.0".to_owned(),
            storage_dir: join(base.as_str(), "nebula"),
            log_level: LogLevel::Info,
            daemon_mode: false,
            verbose: false,
        }
    }
}

/// The log level after the command line's options: `--verbose` wins, then a
/// `--log-level` that names a level, then the level already set.
pub open spec fn merged_level(current: LogLevel, args: NebulaArgs) -> LogLevel {
    if args.verbose {
        LogLevel::Debug
    } else {
        match args.log_level {
            Some(s) => match level_of_name(lower_of(s@)) {
                Some(l) => l,
                None => current,
            },
            None => current,
        }
    }
}

/// `r` is `base` with the command line `args` applied: the log level as
/// `merged_level` says, `--verbose` sets verbose, `start` sets port,
/// address and daemon mode, and any command's storage option sets the
/// storage directory.
pub open spec fn merged_config(base: Config, args: NebulaArgs, r: Config) -> bool {
    &&& r.log_level == merged_level(base.log_level, args)
    &&& r.verbose == (args.verbose || base.verbose)
    &&& match args.command {
        Commands::Start { port, storage, address, daemon } => {
            &&& r.listen_port == port
            &&& r.listen_address@ == address@
            &&& r.daemon_mode == daemon
            &&& r.storage_dir@ == match storage {
                Some(p) => p@,
                None => base.storage_dir@,
            }
        },
        _ => {
            &&& r.listen_port == base.listen_port
            &&& r.listen_address@ == base.listen_address@
            &&& r.daemon_mode == base.daemon_mode
            &&& r.storage_dir@ == match args.command.storage_spec() {
                Some(p) => p@,
                None => base.storage_dir@,
            }
        },
    }
}

/// What the default configuration fixes: port 4001 on every interface, info
/// logging, foreground, not verbose.
pub open spec fn default_settings(c: Config) -> bool {
    &&& c.listen_port == 4001
    &&& c.listen_address@ == "0.0.0.0"@
    &&& c.log_level == LogLevel::Info
    &&& !c.daemon_mode
    &&& !c.verbose
}

fn copy_string(s: &String) -> (r: String)
    ensures
        r@ == s@,
{
    s.clone()
}

impl Config {
    /// Apply the command line over this configuration.
    pub fn merge_cli_args(self, args: &NebulaArgs) -> (r: Config)
        ensures
            merged_config(self, *args, r),
    {
        let mut config = self;
        if let Some(level_text) = &args.log_level {
            if let Ok(level) = LogLevel::parse_level(level_text.as_str()) {
                config.log_level = level;
            }
        }
        if args.verbose {
            config.log_level = LogLevel::Debug;
            config.verbose = true;
        }
        match &args.command {
            Commands::Start { port, storage, address, daemon } => {
                config.listen_port = *port;
                if let Some(p) = storage {
                    config.storage_dir = copy_string(p);
                }
                config.listen_address = copy_string(address);
                config.daemon_mode = *daemon;
            },
            _ => {
                if let Some(p) = args.command.storage() {
                    config.storage_dir = copy_string(p);
                }
            },
        }
        config
    }

    /// The configuration for a command line: defaults, or the configuration
    /// file's contents where one was given and read, with the command line
    /// applied over them.
    pub fn build_from_args(args: &NebulaArgs, from_file: Option<Config>) -> (r: Config)
        ensures
            match from_file {
                Some(c) => merged_config(c, *args, r),
                None => exists|d: Config| default_settings(d) && merged_config(d, *args, r),
            },
    {
        let base = match from_file {
            Some(c) => c,
            None => Config::default(),
        };
        base.merge_cli_args(args)
    }
}

} // verus!

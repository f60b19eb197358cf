//! Command-line and GUI handlers: the parts of them that decide something.

use vstd::prelude::*;

verus! {

/// The registry that is pinged when none is configured.
pub open spec fn default_registry() -> Seq<char> {
    "https://registry.npmjs.org"@
}

/// The `ping` request handler of the GUI.
#[derive(Debug)]
pub struct PingHandler;

impl PingHandler {
    /// The registry to ping: the configured one, else the public npm
    /// registry.
    pub fn registry(&self, configured: Option<String>) -> (res: String)
        ensures
            configured matches Some(r) ==> res@ == r@,
            configured is None ==> res@ == default_registry(),
    {
        match configured {
            Some(r) => r,
            None => String::from_str("https://registry.npmjs.org"),
        }
    }
}

/// How much the command line logs.
#[derive(Debug, Clone, Copy, PartialEq, Eq)]
pub enum LogLevel {
    Off,
    Error,
    Warn,
    Info,
    Debug,
    Trace,
}

/// The `shell` command: runs `node` with the project's dependencies
/// available.
#[derive(Debug)]
pub struct ShellCmd {
    /// The node executable to run.
    pub node: String,
    /// Where orogene keeps its data.
    pub data_dir: Option<String>,
    pub loglevel: LogLevel,
    pub json: bool,
    pub quiet: bool,
    /// Arguments handed to node.
    pub args: Vec<String>,
}

impl ShellCmd {
    /// A `shell` command with the given arguments and every option at its
    /// default: `node` as the executable, no data directory, warnings
    /// logged, plain quiet-less output.
    pub fn new(args: Vec<String>) -> (res: ShellCmd)
        ensures
            res.node@ == "node"@,
            res.data_dir is None,
            res.loglevel == LogLevel::Warn,
            !res.json,
            !res.quiet,
            res.args@ == args@,
    {
        ShellCmd {
            node: String::from_str("node"),
            data_dir: None,
            loglevel: LogLevel::Warn,
            json: false,
            quiet: false,
            args,
        }
    }
}

} // verus!

//! The command line: the mode to run in and where to listen.
use vstd::prelude::*;

verus! {

/// A fast and flexible profiler for tracking any application and comparing versions
#[derive(Debug)]
pub struct Cli {
    pub command: Commands,
    /// The host that Skope will be listening to
    pub host: Option<String>,
    /// The port that Skope will be listening to
    pub port: Option<u16>,
}

/// The modes of Skope.
#[derive(Debug, PartialEq, Eq)]
pub enum Commands {
    /// Execute the application using an script
    Runner {
        /// The path of the running script (e.g. run_app.sh)
        script: String,
        /// The tag of the capture
        tag: String,
    },
    /// Start a server listening for the /start and /stop signals and write each difference to a report
    Server,
    /// Start a server to store various application names and generate aggregate data.
    Agg,
    /// Compare two tagged captures
    Diff {
        /// The base capture for comparation
        base: String,
        /// The HEAD capture for comparation
        head: String,
    },
}

impl Cli {
    /// A command line holding `command`, `host` and `port`.
    pub fn new(command: Commands, host: Option<String>, port: Option<u16>) -> (r: Cli)
        ensures
            r.command == command,
            r.host == host,
            r.port == port,
    {
        Cli { command, host, port }
    }
}

} // verus!

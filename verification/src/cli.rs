//! The commands that the `egrex` program takes.

use vstd::prelude::*;

verus! {

/// A parsed command line.
pub struct Cli {
    pub command: Option<Command>,
}

/// The commands.
pub enum Command {
    /// Run the forwarder in the foreground.
    Run,
    /// Start the forwarder in the background.
    Start,
    /// Stop the background forwarder, gracefully unless `force`.
    Stop { force: bool },
    /// Show the state of the forwarder and its pools.
    Status,
    /// Fetch candidate hosts from FOFA into the candidate pool.
    Update { days: i64, size: u32, limit: usize, page: u32 },
    /// Change one setting.
    Setting { command: SetCommand },
}

/// The settings that `set` changes.
#[allow(inconsistent_fields)]
pub enum SetCommand {
    Host { value: String },
    Port { value: u16 },
    CheckUrl { value: String },
    CheckFallbackUrl { value: String },
    MaxLatency { value: u64 },
    FofaApi { value: String },
    FofaKey { value: String },
}

impl Cli {
    /// The command to run: the one given, or `run` when none is.
    pub fn into_command(self) -> (c: Command)
        ensures
            match self.command {
                Some(given) => c == given,
                None => c is Run,
            },
    {
        match self.command {
            Some(c) => c,
            None => Command::Run,
        }
    }
}

} // verus!

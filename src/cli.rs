use vstd::prelude::*;

verus! {

/// Port the gateway listens on when none is given.
pub const DEFAULT_PORT: u16 = 4141;

/// Command line of the gateway program.
pub struct Cli {
    pub command: Command,
}

/// What the gateway program is asked to do.
#[derive(Clone, Copy, Debug, PartialEq, Eq)]
pub enum Command {
    /// Start the API server.
    Start { port: u16, verbose: bool },
    /// Run the authentication flow.
    Auth,
}

} // verus!

//! What the program was asked to do.

use vstd::prelude::*;
use vstd::string::*;

verus! {

/// What the program does.
#[derive(Debug, PartialEq, Eq)]
pub enum Command {
    Run,
    Setup { operation: SetupOperation, reinstall: bool },
    GenerateBearerToken { server_id: String, output: Option<String> },
}

/// What the setup of the desktop covers.
#[derive(Clone, Copy, Debug, PartialEq, Eq, Structural)]
pub enum SetupOperation {
    Complete,
    CreateConfig,
    InstallAutostart,
    InstallLauncher,
}

impl Default for Command {
    fn default() -> (command: Self)
        ensures
            command is Run,
    {
        Command::Run
    }
}

impl Default for SetupOperation {
    fn default() -> (operation: Self)
        ensures
            operation == SetupOperation::Complete,
    {
        SetupOperation::Complete
    }
}

} // verus!

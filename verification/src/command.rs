//! The operator commands of a collector, as typed on its console.

use vstd::prelude::*;
use crate::text::{same_text, to_uppercase, trim, trimmed, uppercase};

verus! {

/// A command the operator can give.
#[derive(Debug, Clone, Copy, PartialEq, Eq, Structural)]
pub enum ServerCommand {
    /// Open the browser.
    OpenEdge,
    /// Show the list of commands.
    Help,
    /// Shut the collector down.
    Quit,
}

/// The command that an uppercase token stands for, if any.
pub open spec fn command_of(token: Seq<char>) -> Option<ServerCommand> {
    if token == "E"@ {
        Some(ServerCommand::OpenEdge)
    } else if token == "H"@ || token == "HELP"@ {
        Some(ServerCommand::Help)
    } else if token == "Q"@ || token == "QUIT"@ || token == "EXIT"@ {
        Some(ServerCommand::Quit)
    } else {
        None
    }
}

impl ServerCommand {
    /// Recognises a token that is already trimmed and in uppercase.
    pub fn from_token(token: &str) -> (command: Option<ServerCommand>)
        ensures
            command == command_of(token@),
    {
        if same_text(token, "E") {
            Some(ServerCommand::OpenEdge)
        } else if same_text(token, "H") || same_text(token, "HELP") {
            Some(ServerCommand::Help)
        } else if same_text(token, "Q") || same_text(token, "QUIT") || same_text(token, "EXIT") {
            Some(ServerCommand::Quit)
        } else {
            None
        }
    }

    /// Recognises a line of operator input: surrounding whitespace and the
    /// case of the letters do not matter.
    pub fn from_input(input: &str) -> (command: Option<ServerCommand>)
        ensures
            command == command_of(uppercase(trimmed(input@))),
    {
        let token = to_uppercase(trim(input));
        ServerCommand::from_token(token.as_str())
    }
}

} // verus!

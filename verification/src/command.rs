//! One shell command bound to a hook: an identifier unique inside its hook,
//! the command text run verbatim, and an optional description.

use vstd::prelude::*;

verus! {

/// Mathematical model of a [`Command`]: its three fields as character
/// sequences.
pub struct CommandModel {
    pub id: Seq<char>,
    pub command: Seq<char>,
    pub description: Option<Seq<char>>,
}

/// One shell command of a hook. `id` names it inside the owning hook,
/// `command` is opaque shell text executed verbatim, `description` is
/// never interpreted.
#[derive(Debug, Clone, PartialEq)]
pub struct Command {
    pub id: String,
    pub command: String,
    pub description: Option<String>,
}

impl View for Command {
    type V = CommandModel;

    open spec fn view(&self) -> CommandModel {
        CommandModel {
            id: self.id@,
            command: self.command@,
            description: match self.description {
                Some(d) => Some(d@),
                None => None,
            },
        }
    }
}

/// The views of a list of commands.
pub open spec fn cmds_view(cs: Seq<Command>) -> Seq<CommandModel> {
    cs.map_values(|c: Command| c@)
}

impl Command {
    /// Builds a command from its parts.
    pub fn new(id: String, command: String, description: Option<String>) -> (r: Command)
        ensures
            r@.id == id@,
            r@.command == command@,
            r@.description == (match description {
                Some(d) => Some(d@),
                None => None::<Seq<char>>,
            }),
    {
        Command { id, command, description }
    }
}

} // verus!

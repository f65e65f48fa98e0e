//! The commands of the interactive front end.

use vstd::prelude::*;

verus! {

/// What the operator asked for.
#[derive(Clone, Copy, Debug, PartialEq, Eq, Structural)]
pub enum Command {
    /// Register a new user.
    Register,
    /// Log an existing user in.
    Login,
    /// Leave the program.
    Quit,
    /// Nothing was entered.
    Empty,
    /// Something was entered that is no command.
    Unknown,
}

/// The command that a line stands for, once the white space around it has
/// been taken off.
pub open spec fn command_of(line: Seq<char>) -> Command {
    if line == "register"@ {
        Command::Register
    } else if line == "login"@ {
        Command::Login
    } else if line == "quit"@ || line == "exit"@ {
        Command::Quit
    } else if line.len() == 0 {
        Command::Empty
    } else {
        Command::Unknown
    }
}

/// Reads a command from a line whose surrounding white space has been taken
/// off.
pub fn parse_command(line: &str) -> (command: Command)
    ensures
        command == command_of(line@),
{
    let entered = line.to_owned();
    if entered == "register".to_owned() {
        Command::Register
    } else if entered == "login".to_owned() {
        Command::Login
    } else if entered == "quit".to_owned() || entered == "exit".to_owned() {
        Command::Quit
    } else if line.is_empty() {
        Command::Empty
    } else {
        Command::Unknown
    }
}

/// Whether a user name can be registered or logged in: any name but the
/// empty one.
pub fn user_name_is_valid(name: &str) -> (valid: bool)
    ensures
        valid == (name@.len() > 0),
{
    !name.is_empty()
}

} // verus!

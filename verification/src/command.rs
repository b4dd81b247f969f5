//! The command line: `docsail [PATH]` or `docsail --help`.

use vstd::prelude::*;

verus! {

/// What the command line asks for.
#[derive(Debug, PartialEq, Eq)]
pub enum Command {
    /// Open the workspace at `path`, or find one when there is no path.
    Run { path: Option<String> },
    /// Print the usage.
    Help,
}

/// The command for `arguments` (the program name first): no argument runs
/// without a path; `-h` or `--help` alone asks for help; one other argument
/// is the path; anything more is refused with a message.
pub open spec fn command_of(arguments: Seq<Seq<char>>) -> Result<(Option<Seq<char>>, bool), Seq<char>> {
    if arguments.len() <= 1 {
        Ok((None, false))
    } else if arguments[1] == "-h"@ || arguments[1] == "--help"@ {
        if arguments.len() > 2 {
            Err("help option does not accept a path"@)
        } else {
            Ok((None, true))
        }
    } else if arguments.len() > 2 {
        Err("expected at most one path argument"@)
    } else {
        Ok((Some(arguments[1]), false))
    }
}

/// A command as a path to run with (if any) and whether it asks for help.
pub open spec fn command_view(command: Command) -> (Option<Seq<char>>, bool) {
    match command {
        Command::Run { path } => (
            match path {
                Some(p) => Some(p@),
                None => None,
            },
            false,
        ),
        Command::Help => (None, true),
    }
}

pub open spec fn argument_views(arguments: Seq<String>) -> Seq<Seq<char>> {
    arguments.map_values(|a: String| a@)
}

/// Reads the command line; `arguments` holds the program name first.
pub fn parse_command(arguments: &Vec<String>) -> (command: Result<Command, String>)
    ensures
        command_of(argument_views(arguments@)) matches Ok(v) ==> (command matches Ok(c)
            && command_view(c) == v),
        command_of(argument_views(arguments@)) matches Err(m) ==> (command matches Err(e) && e@
            == m),
{
    let ghost views = argument_views(arguments@);
    if arguments.len() <= 1 {
        return Ok(Command::Run { path: None });
    }
    assert(views[1] == arguments@[1]@);
    let short_help = "-h".to_owned();
    let long_help = "--help".to_owned();
    if arguments[1] == short_help || arguments[1] == long_help {
        if arguments.len() > 2 {
            return Err("help option does not accept a path".to_owned());
        }
        return Ok(Command::Help);
    }
    if arguments.len() > 2 {
        return Err("expected at most one path argument".to_owned());
    }
    Ok(Command::Run { path: Some(arguments[1].clone()) })
}

} // verus!

//! The command line: what the arguments ask for.
use vstd::prelude::*;

use crate::text::{chars_equal_str, chars_of};

verus! {

/// What the command line asks for.
#[derive(Debug, PartialEq, Eq)]
pub enum Command {
    /// Print the usage.
    Help,
    /// Run the named checks now and store nothing.
    Check { config: String, ids: Vec<String> },
    /// Run the checks that are due and store their results.
    Collect { config: String },
}

/// The abstract value of a command.
pub ghost enum CommandSpec {
    Help,
    Check { config: Seq<char>, ids: Seq<Seq<char>> },
    Collect { config: Seq<char> },
}

impl View for Command {
    type V = CommandSpec;

    open spec fn view(&self) -> CommandSpec {
        match self {
            Command::Help => CommandSpec::Help,
            Command::Check { config, ids } => CommandSpec::Check {
                config: config@,
                ids: ids@.map_values(|s: String| s@),
            },
            Command::Collect { config } => CommandSpec::Collect { config: config@ },
        }
    }
}

pub open spec fn usage_text() -> Seq<char> {
    "usage: mmonitor --config <path> check <id> [<id> ...]"@
}

/// The usage line.
pub fn usage() -> (u: String)
    ensures
        u@ == usage_text(),
{
    String::from_str("usage: mmonitor --config <path> check <id> [<id> ...]")
}

/// `--help` or `-h` alone asks for the usage; `--config <path> collect` for a
/// collection; `--config <path> check <id>...` (at least one id) for a check;
/// anything else is a usage error.
pub open spec fn parse_args_spec(args: Seq<Seq<char>>) -> Result<CommandSpec, Seq<char>> {
    if args.len() == 1 && (args[0] == "--help"@ || args[0] == "-h"@) {
        Ok(CommandSpec::Help)
    } else if args.len() == 3 && args[0] == "--config"@ && args[2] == "collect"@ {
        Ok(CommandSpec::Collect { config: args[1] })
    } else if args.len() < 4 || args[0] != "--config"@ || args[2] != "check"@ {
        Err(usage_text())
    } else {
        Ok(CommandSpec::Check { config: args[1], ids: args.skip(3) })
    }
}

fn arg_is(arg: &String, text: &str) -> (r: bool)
    ensures
        r == (arg@ == text@),
{
    chars_equal_str(&chars_of(arg.as_str()), text)
}

/// Reads the command line (without the program name).
pub fn parse_args(args: &Vec<String>) -> (r: Result<Command, String>)
    ensures
        match r {
            Ok(c) => parse_args_spec(args@.map_values(|s: String| s@)) == Ok::<
                CommandSpec,
                Seq<char>,
            >(c@),
            Err(e) => parse_args_spec(args@.map_values(|s: String| s@)) == Err::<
                CommandSpec,
                Seq<char>,
            >(e@),
        },
{
    let ghost av = args@.map_values(|s: String| s@);
    if args.len() == 1 && (arg_is(&args[0], "--help") || arg_is(&args[0], "-h")) {
        return Ok(Command::Help);
    }
    if args.len() == 3 && arg_is(&args[0], "--config") && arg_is(&args[2], "collect") {
        return Ok(Command::Collect { config: args[1].clone() });
    }
    if args.len() < 4 || !arg_is(&args[0], "--config") || !arg_is(&args[2], "check") {
        return Err(usage());
    }
    let mut ids: Vec<String> = Vec::new();
    let mut i: usize = 3;
    assert(ids@.map_values(|s: String| s@) =~= av.subrange(3, 3));
    while i < args.len()
        invariant
            av == args@.map_values(|s: String| s@),
            3 <= i <= args.len(),
            ids@.map_values(|s: String| s@) == av.subrange(3, i as int),
        decreases args.len() - i,
    {
        let ghost before = ids@.map_values(|s: String| s@);
        let id = args[i].clone();
        assert(id@ == av[i as int]);
        ids.push(id);
        assert(ids@.map_values(|s: String| s@) =~= before.push(id@));
        assert(av.subrange(3, i + 1) =~= av.subrange(3, i as int).push(av[i as int]));
        i += 1;
    }
    assert(av.subrange(3, i as int) =~= av.skip(3));
    Ok(Command::Check { config: args[1].clone(), ids })
}

} // verus!

//! The command line: which subcommand runs, and with what argument.

use vstd::prelude::*;
use crate::text::{chars_equal, chars_of, string_of};

verus! {

/// A subcommand with its argument.
pub enum Command {
    /// Configure the Herdr key binding after install.
    Startup,
    /// Open the reader, on the given document if there is one.
    Reader(Option<String>),
    /// Print the normalized context of the given document.
    Context(String),
    /// Show which document converters are available.
    Doctor,
    /// Print the version.
    Version,
    /// Print the usage text.
    Help,
}

/// A subcommand as its text.
pub enum CommandModel {
    Startup,
    Reader(Option<Seq<char>>),
    Context(Seq<char>),
    Doctor,
    Version,
    Help,
}

impl View for Command {
    type V = CommandModel;

    open spec fn view(&self) -> CommandModel {
        match self {
            Command::Startup => CommandModel::Startup,
            Command::Reader(p) => CommandModel::Reader(
                match p {
                    Some(s) => Some(s@),
                    None => None,
                },
            ),
            Command::Context(p) => CommandModel::Context(p@),
            Command::Doctor => CommandModel::Doctor,
            Command::Version => CommandModel::Version,
            Command::Help => CommandModel::Help,
        }
    }
}

/// The usage line for `reader`.
pub open spec fn reader_usage() -> Seq<char> {
    "usage: herdr-docs reader [PATH]"@
}

/// The usage line for `context`.
pub open spec fn context_usage() -> Seq<char> {
    "usage: herdr-docs context PATH"@
}

/// The usage line for `doctor`.
pub open spec fn doctor_usage() -> Seq<char> {
    "usage: herdr-docs doctor"@
}

/// The message for a subcommand that does not exist.
pub open spec fn unknown_command(name: Seq<char>) -> Seq<char> {
    "unknown command '"@ + name + "'. Run `herdr-docs --help` for usage."@
}

/// The subcommand that the arguments (after the program name) select, or
/// the usage message that refuses them. With no argument the reader opens.
pub open spec fn parsed_command(args: Seq<Seq<char>>) -> Result<CommandModel, Seq<char>> {
    let name = if args.len() == 0 {
        "reader"@
    } else {
        args[0]
    };
    if name == "startup"@ {
        Ok(CommandModel::Startup)
    } else if name == "reader"@ || name == "open"@ {
        if args.len() > 2 {
            Err(reader_usage())
        } else if args.len() == 2 {
            Ok(CommandModel::Reader(Some(args[1])))
        } else {
            Ok(CommandModel::Reader(None))
        }
    } else if name == "context"@ || name == "export"@ || name == "render"@ {
        if args.len() == 2 {
            Ok(CommandModel::Context(args[1]))
        } else {
            Err(context_usage())
        }
    } else if name == "doctor"@ {
        if args.len() > 1 {
            Err(doctor_usage())
        } else {
            Ok(CommandModel::Doctor)
        }
    } else if name == "--version"@ || name == "-V"@ {
        Ok(CommandModel::Version)
    } else if name == "help"@ || name == "--help"@ || name == "-h"@ {
        Ok(CommandModel::Help)
    } else {
        Err(unknown_command(name))
    }
}

/// The arguments as their texts.
pub open spec fn texts(args: Seq<String>) -> Seq<Seq<char>> {
    args.map_values(|a: String| a@)
}

fn is(name: &[char], word: &str) -> (r: bool)
    ensures
        r == (name@ == word@),
{
    chars_equal(name, &chars_of(word))
}

fn copy(s: &String) -> (r: String)
    ensures
        r@ == s@,
{
    string_of(&chars_of(s.as_str()))
}

/// Selects the subcommand from the arguments that follow the program name.
pub fn parse_command(args: &Vec<String>) -> (r: Result<Command, String>)
    ensures
        match r {
            Ok(c) => parsed_command(texts(args@)) == Ok::<CommandModel, Seq<char>>(c@),
            Err(e) => parsed_command(texts(args@)) == Err::<CommandModel, Seq<char>>(e@),
        },
{
    let ghost a = texts(args@);
    assert(a.len() == args@.len());
    assert(forall|i: int| 0 <= i < args@.len() ==> a[i] == #[trigger] args@[i]@);
    let name = if args.len() == 0 {
        chars_of("reader")
    } else {
        chars_of(args[0].as_str())
    };
    let n = args.len();
    if is(&name, "startup") {
        Ok(Command::Startup)
    } else if is(&name, "reader") || is(&name, "open") {
        if n > 2 {
            Err(string_of(&chars_of("usage: herdr-docs reader [PATH]")))
        } else if n == 2 {
            Ok(Command::Reader(Some(copy(&args[1]))))
        } else {
            Ok(Command::Reader(None))
        }
    } else if is(&name, "context") || is(&name, "export") || is(&name, "render") {
        if n == 2 {
            Ok(Command::Context(copy(&args[1])))
        } else {
            Err(string_of(&chars_of("usage: herdr-docs context PATH")))
        }
    } else if is(&name, "doctor") {
        if n > 1 {
            Err(string_of(&chars_of("usage: herdr-docs doctor")))
        } else {
            Ok(Command::Doctor)
        }
    } else if is(&name, "--version") || is(&name, "-V") {
        Ok(Command::Version)
    } else if is(&name, "help") || is(&name, "--help") || is(&name, "-h") {
        Ok(Command::Help)
    } else {
        let mut message = string_of(&chars_of("unknown command '"));
        message.append(string_of(&name).as_str());
        message.append("'. Run `herdr-docs --help` for usage.");
        Err(message)
    }
}

/// Every name the command line accepts selects its subcommand, whatever
/// follows it, as far as the subcommand takes arguments: `startup`;
/// `reader` and `open` with at most a path; `context`, `export` and
/// `render` with exactly one path; `doctor` alone; `--version` and `-V`;
/// `help`, `--help` and `-h`. No argument at all opens the reader.
pub proof fn lemma_command_names(args: Seq<Seq<char>>)
    ensures
        args.len() == 0 ==> parsed_command(args) == Ok::<CommandModel, Seq<char>>(CommandModel::Reader(None)),
        args.len() > 0 && args[0] == "startup"@ ==> parsed_command(args) == Ok::<CommandModel, Seq<char>>(
            CommandModel::Startup,
        ),
        args.len() > 0 && (args[0] == "reader"@ || args[0] == "open"@) ==> parsed_command(args) == (
        if args.len() == 1 {
            Ok::<CommandModel, Seq<char>>(CommandModel::Reader(None))
        } else if args.len() == 2 {
            Ok::<CommandModel, Seq<char>>(CommandModel::Reader(Some(args[1])))
        } else {
            Err::<CommandModel, Seq<char>>(reader_usage())
        }),
        args.len() > 0 && (args[0] == "context"@ || args[0] == "export"@ || args[0] == "render"@)
            ==> parsed_command(args) == (if args.len() == 2 {
            Ok::<CommandModel, Seq<char>>(CommandModel::Context(args[1]))
        } else {
            Err::<CommandModel, Seq<char>>(context_usage())
        }),
        args.len() > 0 && args[0] == "doctor"@ ==> parsed_command(args) == (if args.len() == 1 {
            Ok::<CommandModel, Seq<char>>(CommandModel::Doctor)
        } else {
            Err::<CommandModel, Seq<char>>(doctor_usage())
        }),
        args.len() > 0 && (args[0] == "--version"@ || args[0] == "-V"@) ==> parsed_command(args)
            == Ok::<CommandModel, Seq<char>>(CommandModel::Version),
        args.len() > 0 && (args[0] == "help"@ || args[0] == "--help"@ || args[0] == "-h"@)
            ==> parsed_command(args) == Ok::<CommandModel, Seq<char>>(CommandModel::Help),
        args.len() > 0 && args[0] != "startup"@ && args[0] != "reader"@ && args[0] != "open"@
            && args[0] != "context"@ && args[0] != "export"@ && args[0] != "render"@ && args[0]
            != "doctor"@ && args[0] != "--version"@ && args[0] != "-V"@ && args[0] != "help"@
            && args[0] != "--help"@ && args[0] != "-h"@ ==> parsed_command(args) == Err::<
            CommandModel,
            Seq<char>,
        >("unknown command '"@ + args[0] + "'. Run `herdr-docs --help` for usage."@),
{
    reveal_strlit("startup");
    reveal_strlit("reader");
    reveal_strlit("open");
    reveal_strlit("context");
    reveal_strlit("export");
    reveal_strlit("render");
    reveal_strlit("doctor");
    reveal_strlit("--version");
    reveal_strlit("-V");
    reveal_strlit("help");
    reveal_strlit("--help");
    reveal_strlit("-h");
    assert("reader"@ != "startup"@) by { assert("reader"@.len() != "startup"@.len()); }
    assert("open"@ != "startup"@) by { assert("open"@.len() != "startup"@.len()); }
    assert("open"@ != "reader"@) by { assert("open"@.len() != "reader"@.len()); }
    assert("context"@ != "startup"@) by { assert("context"@[0] != "startup"@[0]); }
    assert("context"@ != "reader"@) by { assert("context"@.len() != "reader"@.len()); }
    assert("context"@ != "open"@) by { assert("context"@.len() != "open"@.len()); }
    assert("export"@ != "startup"@) by { assert("export"@.len() != "startup"@.len()); }
    assert("export"@ != "reader"@) by { assert("export"@[0] != "reader"@[0]); }
    assert("export"@ != "open"@) by { assert("export"@.len() != "open"@.len()); }
    assert("export"@ != "context"@) by { assert("export"@.len() != "context"@.len()); }
    assert("render"@ != "startup"@) by { assert("render"@.len() != "startup"@.len()); }
    assert("render"@ != "reader"@) by { assert("render"@[2] != "reader"@[2]); }
    assert("render"@ != "open"@) by { assert("render"@.len() != "open"@.len()); }
    assert("render"@ != "context"@) by { assert("render"@.len() != "context"@.len()); }
    assert("render"@ != "export"@) by { assert("render"@[0] != "export"@[0]); }
    assert("doctor"@ != "startup"@) by { assert("doctor"@.len() != "startup"@.len()); }
    assert("doctor"@ != "reader"@) by { assert("doctor"@[0] != "reader"@[0]); }
    assert("doctor"@ != "open"@) by { assert("doctor"@.len() != "open"@.len()); }
    assert("doctor"@ != "context"@) by { assert("doctor"@.len() != "context"@.len()); }
    assert("doctor"@ != "export"@) by { assert("doctor"@[0] != "export"@[0]); }
    assert("doctor"@ != "render"@) by { assert("doctor"@[0] != "render"@[0]); }
    assert("--version"@ != "startup"@) by { assert("--version"@.len() != "startup"@.len()); }
    assert("--version"@ != "reader"@) by { assert("--version"@.len() != "reader"@.len()); }
    assert("--version"@ != "open"@) by { assert("--version"@.len() != "open"@.len()); }
    assert("--version"@ != "context"@) by { assert("--version"@.len() != "context"@.len()); }
    assert("--version"@ != "export"@) by { assert("--version"@.len() != "export"@.len()); }
    assert("--version"@ != "render"@) by { assert("--version"@.len() != "render"@.len()); }
    assert("--version"@ != "doctor"@) by { assert("--version"@.len() != "doctor"@.len()); }
    assert("-V"@ != "startup"@) by { assert("-V"@.len() != "startup"@.len()); }
    assert("-V"@ != "reader"@) by { assert("-V"@.len() != "reader"@.len()); }
    assert("-V"@ != "open"@) by { assert("-V"@.len() != "open"@.len()); }
    assert("-V"@ != "context"@) by { assert("-V"@.len() != "context"@.len()); }
    assert("-V"@ != "export"@) by { assert("-V"@.len() != "export"@.len()); }
    assert("-V"@ != "render"@) by { assert("-V"@.len() != "render"@.len()); }
    assert("-V"@ != "doctor"@) by { assert("-V"@.len() != "doctor"@.len()); }
    assert("-V"@ != "--version"@) by { assert("-V"@.len() != "--version"@.len()); }
    assert("help"@ != "startup"@) by { assert("help"@.len() != "startup"@.len()); }
    assert("help"@ != "reader"@) by { assert("help"@.len() != "reader"@.len()); }
    assert("help"@ != "open"@) by { assert("help"@[0] != "open"@[0]); }
    assert("help"@ != "context"@) by { assert("help"@.len() != "context"@.len()); }
    assert("help"@ != "export"@) by { assert("help"@.len() != "export"@.len()); }
    assert("help"@ != "render"@) by { assert("help"@.len() != "render"@.len()); }
    assert("help"@ != "doctor"@) by { assert("help"@.len() != "doctor"@.len()); }
    assert("help"@ != "--version"@) by { assert("help"@.len() != "--version"@.len()); }
    assert("help"@ != "-V"@) by { assert("help"@.len() != "-V"@.len()); }
    assert("--help"@ != "startup"@) by { assert("--help"@.len() != "startup"@.len()); }
    assert("--help"@ != "reader"@) by { assert("--help"@[0] != "reader"@[0]); }
    assert("--help"@ != "open"@) by { assert("--help"@.len() != "open"@.len()); }
    assert("--help"@ != "context"@) by { assert("--help"@.len() != "context"@.len()); }
    assert("--help"@ != "export"@) by { assert("--help"@[0] != "export"@[0]); }
    assert("--help"@ != "render"@) by { assert("--help"@[0] != "render"@[0]); }
    assert("--help"@ != "doctor"@) by { assert("--help"@[0] != "doctor"@[0]); }
    assert("--help"@ != "--version"@) by { assert("--help"@.len() != "--version"@.len()); }
    assert("--help"@ != "-V"@) by { assert("--help"@.len() != "-V"@.len()); }
    assert("--help"@ != "help"@) by { assert("--help"@.len() != "help"@.len()); }
    assert("-h"@ != "startup"@) by { assert("-h"@.len() != "startup"@.len()); }
    assert("-h"@ != "reader"@) by { assert("-h"@.len() != "reader"@.len()); }
    assert("-h"@ != "open"@) by { assert("-h"@.len() != "open"@.len()); }
    assert("-h"@ != "context"@) by { assert("-h"@.len() != "context"@.len()); }
    assert("-h"@ != "export"@) by { assert("-h"@.len() != "export"@.len()); }
    assert("-h"@ != "render"@) by { assert("-h"@.len() != "render"@.len()); }
    assert("-h"@ != "doctor"@) by { assert("-h"@.len() != "doctor"@.len()); }
    assert("-h"@ != "--version"@) by { assert("-h"@.len() != "--version"@.len()); }
    assert("-h"@ != "-V"@) by { assert("-h"@[1] != "-V"@[1]); }
    assert("-h"@ != "help"@) by { assert("-h"@.len() != "help"@.len()); }
    assert("-h"@ != "--help"@) by { assert("-h"@.len() != "--help"@.len()); }
}

} // verus!

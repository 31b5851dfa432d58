//! The command line.

use crate::constant::MetaData;
use crate::text::{concat3, same_text, texts};
use vstd::prelude::*;

verus! {

/// What the command line asks for.
pub enum Arguments {
    /// Run the server. `env_file` names the environment file, and is empty
    /// where the command line names none.
    Run { env_file: String },
    /// Print the text and leave with success.
    Print { text: String },
    /// Print the text and leave with failure.
    Fail { text: String },
}

/// `Arguments` as a mathematical value.
pub ghost enum ArgumentsView {
    Run { env_file: Seq<char> },
    Print { text: Seq<char> },
    Fail { text: Seq<char> },
}

impl View for Arguments {
    type V = ArgumentsView;

    open spec fn view(&self) -> ArgumentsView {
        match self {
            Arguments::Run { env_file } => ArgumentsView::Run { env_file: env_file@ },
            Arguments::Print { text } => ArgumentsView::Print { text: text@ },
            Arguments::Fail { text } => ArgumentsView::Fail { text: text@ },
        }
    }
}

/// The help text.
pub open spec fn usage(program: Seq<char>) -> Seq<char> {
    "Usage: "@ + program
        + " [OPTIONS]\n\nRuStream takes the arguments, --env_file and --version/-v\n\n--env_file: Custom filename to load the environment variables. Defaults to '.env'\n--version: Get the package version.\n"@
}

/// The line that shows the version.
pub open spec fn version_line(name: Seq<char>, version: Seq<char>) -> Seq<char> {
    name + seq![' '] + version
}

/// The complaint about an argument that is not known.
pub open spec fn unknown_argument(argument: Seq<char>) -> Seq<char> {
    "Unknown argument: "@ + argument
}

/// The complaint about `--env_file` without a value.
pub open spec fn missing_env_file() -> Seq<char> {
    "--env_file requires a value."@
}

/// What the arguments from index `from` on ask for, given what the earlier
/// ones have asked for: whether the version was asked for, and the
/// environment file named so far.
///
/// The arguments are read from the left. A request for help ends the
/// reading at once, and so does an unknown argument or an `--env_file`
/// without a value. The version, once asked for, wins over running.
pub open spec fn reading(
    args: Seq<Seq<char>>,
    from: int,
    version: bool,
    env_file: Seq<char>,
    name: Seq<char>,
    release: Seq<char>,
) -> ArgumentsView
    decreases args.len() - from,
{
    if from < 0 || from >= args.len() {
        if version {
            ArgumentsView::Print { text: version_line(name, release) }
        } else {
            ArgumentsView::Run { env_file }
        }
    } else if args[from] == "-h"@ || args[from] == "--help"@ {
        ArgumentsView::Print { text: usage(args[0]) }
    } else if args[from] == "-V"@ || args[from] == "-v"@ || args[from] == "--version"@ {
        reading(args, from + 1, true, env_file, name, release)
    } else if args[from] == "--env_file"@ {
        if from + 1 < args.len() {
            reading(args, from + 2, version, args[from + 1], name, release)
        } else {
            ArgumentsView::Fail { text: missing_env_file() }
        }
    } else {
        ArgumentsView::Fail { text: unknown_argument(args[from]) }
    }
}

/// Reads the command line; `args` begins with the name of the program.
pub fn arguments(args: &Vec<String>, metadata: &MetaData) -> (asked: Arguments)
    ensures
        asked@ == reading(
            texts(args@),
            1,
            false,
            Seq::empty(),
            metadata.pkg_name@,
            metadata.pkg_version@,
        ),
{
    let ghost all = texts(args@);
    let ghost name = metadata.pkg_name@;
    let ghost release = metadata.pkg_version@;
    let mut version = false;
    let mut env_file = String::new();
    let mut i: usize = 1;
    while i < args.len()
        invariant
            1 <= i,
            all == texts(args@),
            name == metadata.pkg_name@,
            release == metadata.pkg_version@,
            reading(all, 1, false, Seq::empty(), name, release) == reading(
                all,
                i as int,
                version,
                env_file@,
                name,
                release,
            ),
        decreases args.len() - i,
    {
        let arg = args[i].as_str();
        assert(all[i as int] == arg@);
        assert(all[0] == args@[0]@);
        if same_text(arg, "-h") || same_text(arg, "--help") {
            return Arguments::Print {
                text: concat3(
                    "Usage: ",
                    args[0].as_str(),
                    " [OPTIONS]\n\nRuStream takes the arguments, --env_file and --version/-v\n\n--env_file: Custom filename to load the environment variables. Defaults to '.env'\n--version: Get the package version.\n",
                ),
            };
        } else if same_text(arg, "-V") || same_text(arg, "-v") || same_text(arg, "--version") {
            version = true;
            i += 1;
        } else if same_text(arg, "--env_file") {
            if i + 1 < args.len() {
                assert(all[i + 1] == args@[i + 1]@);
                env_file = args[i + 1].clone();
                i += 2;
            } else {
                return Arguments::Fail { text: "--env_file requires a value.".to_owned() };
            }
        } else {
            return Arguments::Fail { text: crate::text::concat("Unknown argument: ", arg) };
        }
    }
    if version {
        proof {
            reveal_strlit(" ");
            assert(" "@ =~= seq![' ']);
        }
        Arguments::Print {
            text: concat3(metadata.pkg_name.as_str(), " ", metadata.pkg_version.as_str()),
        }
    } else {
        Arguments::Run { env_file }
    }
}

} // verus!

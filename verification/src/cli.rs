//! The command line of the proxy binary.
use vstd::prelude::*;

use crate::text::same_text;

verus! {

/// What the command line asks for.
#[derive(Debug, PartialEq, Eq)]
pub enum CliCommand {
    /// Print the usage text and exit.
    Help,
    /// Run with the configuration file at this path.
    Run(String),
}

/// The abstract form of a [`CliCommand`].
pub enum CommandView {
    Help,
    Run(Seq<char>),
}

impl View for CliCommand {
    type V = CommandView;

    open spec fn view(&self) -> CommandView {
        match self {
            CliCommand::Help => CommandView::Help,
            CliCommand::Run(p) => CommandView::Run(p@),
        }
    }
}


/// The usage text printed for `--help`, one line per `\n`.
pub fn help_text() -> (r: &'static str)
    ensures
        r@ == "Janus - Educational TCP and HTTP/1.1 Load Balancer & Reverse Proxy\n\nUsage:\n  janus [OPTIONS]\n\nOptions:\n  -c, --config <PATH>    Path to the TOML configuration file (required)\n  -h, --help             Print help information\n"@,
{
    "Janus - Educational TCP and HTTP/1.1 Load Balancer & Reverse Proxy\n\nUsage:\n  janus [OPTIONS]\n\nOptions:\n  -c, --config <PATH>    Path to the TOML configuration file (required)\n  -h, --help             Print help information\n"
}

pub open spec fn missing_config_message() -> Seq<char> {
    "Error: Missing required argument --config <PATH>\nUse --help for usage details."@
}

pub open spec fn missing_value_message() -> Seq<char> {
    "Error: Missing value for --config flag"@
}

pub open spec fn unknown_argument_message(arg: Seq<char>) -> Seq<char> {
    "Error: Unknown argument '"@ + arg + "'\nUse --help for usage details."@
}

/// The outcome of reading the arguments from position `i` on, with the
/// configuration path found so far: a help flag wins at once, `-c` or
/// `--config` takes the next argument as the path (the last one counts),
/// anything else is an error; at the end a path is required.
pub open spec fn scan_args(args: Seq<Seq<char>>, i: int, path: Option<Seq<char>>) -> Result<
    CommandView,
    Seq<char>,
>
    decreases args.len() - i,
{
    if i >= args.len() {
        match path {
            Some(p) => Ok(CommandView::Run(p)),
            None => Err(missing_config_message()),
        }
    } else if args[i] == "-h"@ || args[i] == "--help"@ {
        Ok(CommandView::Help)
    } else if args[i] == "-c"@ || args[i] == "--config"@ {
        if i + 1 < args.len() {
            scan_args(args, i + 2, Some(args[i + 1]))
        } else {
            Err(missing_value_message())
        }
    } else {
        Err(unknown_argument_message(args[i]))
    }
}

/// An argument that is neither a help flag nor a config flag is refused with
/// its own text wherever the scan meets it, whether or not a configuration
/// path was already read.
pub proof fn lemma_unknown_argument_rejected(args: Seq<Seq<char>>, i: int, path: Option<Seq<char>>)
    requires
        0 <= i < args.len(),
        args[i] != "-h"@,
        args[i] != "--help"@,
        args[i] != "-c"@,
        args[i] != "--config"@,
    ensures
        scan_args(args, i, path) == Err::<CommandView, Seq<char>>(unknown_argument_message(args[i])),
{
}

/// After `-c PATH` or `--config PATH`, an argument that is neither a help
/// flag nor a config flag makes the command line fail with that argument's
/// text: a configuration path already given does not excuse it.
pub proof fn lemma_unknown_argument_after_config(args: Seq<Seq<char>>)
    requires
        args.len() >= 4,
        args[1] == "-c"@ || args[1] == "--config"@,
        args[3] != "-h"@,
        args[3] != "--help"@,
        args[3] != "-c"@,
        args[3] != "--config"@,
    ensures
        scan_args(args, 1, None) == Err::<CommandView, Seq<char>>(unknown_argument_message(args[3])),
{
    reveal_strlit("-c");
    reveal_strlit("--config");
    reveal_strlit("-h");
    reveal_strlit("--help");
    if args[1] == "-c"@ {
        assert(args[1][1] != "-h"@[1]);
        assert(args[1].len() != "--help"@.len());
    } else {
        assert(args[1].len() != "-h"@.len());
        assert(args[1][2] != "--help"@[2]);
    }
    assert(args[1] != "-h"@ && args[1] != "--help"@);
    lemma_unknown_argument_rejected(args, 3, Some(args[2]));
}

/// The texts of the arguments.
pub open spec fn arg_texts(args: Seq<String>) -> Seq<Seq<char>> {
    args.map_values(|a: String| a@)
}

/// Reads the command line; `args[0]`, the program name, is skipped.
pub fn parse_args(args: &[String]) -> (r: Result<CliCommand, String>)
    ensures
        match scan_args(arg_texts(args@), 1, None) {
            Ok(c) => r matches Ok(cmd) && cmd@ == c,
            Err(msg) => r matches Err(m) && m@ == msg,
        },
{
    let ghost texts = arg_texts(args@);
    let mut config_path: Option<String> = None;
    let mut i: usize = 1;
    while i < args.len()
        invariant
            texts == arg_texts(args@),
            1 <= i,
            scan_args(texts, 1, None) == scan_args(
                texts,
                i as int,
                match config_path {
                    Some(p) => Some(p@),
                    None => None,
                },
            ),
        decreases args@.len() - i,
    {
        let arg = args[i].as_str();
        assert(texts[i as int] == arg@);
        if same_text(arg, "-h") || same_text(arg, "--help") {
            return Ok(CliCommand::Help);
        } else if same_text(arg, "-c") || same_text(arg, "--config") {
            if i + 1 < args.len() {
                assert(texts[i + 1] == args@[i + 1]@);
                config_path = Some(args[i + 1].clone());
                i = i + 2;
            } else {
                return Err(String::from_str("Error: Missing value for --config flag"));
            }
        } else {
            let mut msg = String::from_str("Error: Unknown argument '");
            msg.append(arg);
            msg.append("'\nUse --help for usage details.");
            return Err(msg);
        }
    }
    match config_path {
        Some(p) => Ok(CliCommand::Run(p)),
        None => Err(
            String::from_str(
                "Error: Missing required argument --config <PATH>\nUse --help for usage details.",
            ),
        ),
    }
}

} // verus!

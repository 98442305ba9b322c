//! Command-line helpers: output formats, option values, and error messages.
use vstd::prelude::*;
use vstd::string::*;

use crate::error::{RustGradError, error_message};
use crate::text::{str_equal, read_usize};
pub use crate::text::parsed_usize;

verus! {

/// An error reported to the command-line user as one message.
#[derive(Debug, Clone, PartialEq, Eq)]
pub struct CliError {
    message: String,
}

impl View for CliError {
    type V = Seq<char>;

    closed spec fn view(&self) -> Seq<char> {
        self.message@
    }
}

impl CliError {
    /// Creates an error with the given message.
    pub fn new(message: &str) -> (e: CliError)
        ensures
            e@ == message@,
    {
        CliError { message: message.to_owned() }
    }

    /// Creates an error carrying the message of a library error.
    pub fn from_error(error: &RustGradError) -> (e: CliError)
        ensures
            e@ == error_message(*error),
    {
        CliError { message: error.to_string() }
    }

    /// Returns the message text.
    pub fn to_string(&self) -> (s: String)
        ensures
            s@ == self@,
    {
        self.message.clone()
    }
}

/// Output format of the training commands.
#[derive(Debug, Clone, Copy, PartialEq, Eq, Structural)]
pub enum OutputFormat {
    /// Human-readable summary.
    Text,
    /// Machine-readable CSV history.
    Csv,
    /// Report-ready Markdown.
    Markdown,
}

impl OutputFormat {
    /// Parses a format name: `text`, `csv`, or `markdown` (also `md`).
    pub fn parse(value: &str) -> (r: core::result::Result<OutputFormat, CliError>)
        ensures
            value@ == "text"@ ==> r == Ok::<OutputFormat, CliError>(OutputFormat::Text),
            value@ == "csv"@ ==> r == Ok::<OutputFormat, CliError>(OutputFormat::Csv),
            value@ == "markdown"@ || value@ == "md"@ ==> r == Ok::<OutputFormat, CliError>(
                OutputFormat::Markdown,
            ),
            value@ != "text"@ && value@ != "csv"@ && value@ != "markdown"@ && value@ != "md"@ ==> (
            r matches Err(e) && e@ == "unsupported format '"@ + value@
                + "', expected text, csv, or markdown"@),
    {
        proof {
            reveal_strlit("text");
            reveal_strlit("csv");
            reveal_strlit("markdown");
            reveal_strlit("md");
            assert("text"@.len() == 4);
            assert("csv"@.len() == 3);
            assert("markdown"@.len() == 8);
            assert("md"@.len() == 2);
        }
        if str_equal(value, "text") {
            Ok(OutputFormat::Text)
        } else if str_equal(value, "csv") {
            Ok(OutputFormat::Csv)
        } else if str_equal(value, "markdown") || str_equal(value, "md") {
            Ok(OutputFormat::Markdown)
        } else {
            let mut message = String::new();
            message.append("unsupported format '");
            message.append(value);
            message.append("', expected text, csv, or markdown");
            Err(CliError { message })
        }
    }
}

/// Advances `index` past a flag and returns the value that follows it.
pub fn take_value<'a>(args: &'a [String], index: &mut usize, flag: &str) -> (r:
    core::result::Result<&'a str, CliError>)
    requires
        *old(index) < usize::MAX,
    ensures
        *final(index) == *old(index) + 1,
        r is Ok <==> *final(index) < args@.len(),
        r matches Ok(v) ==> v@ == args@[*final(index) as int]@,
        r matches Err(e) ==> e@ == "missing value for "@ + flag@,
{
    *index = *index + 1;
    if *index < args.len() {
        Ok(args[*index].as_str())
    } else {
        let mut message = String::new();
        message.append("missing value for ");
        message.append(flag);
        Err(CliError { message })
    }
}

/// Parses a non-negative integer option value.
pub fn parse_usize(value: &str) -> (r: core::result::Result<usize, CliError>)
    ensures
        r matches Ok(n) ==> parsed_usize(value@) == Some(n as nat),
        r is Err ==> parsed_usize(value@) is None,
        r matches Err(e) ==> e@ == "expected positive integer, got '"@ + value@ + "'"@,
{
    match read_usize(value) {
        Some(n) => Ok(n),
        None => {
            let mut message = String::new();
            message.append("expected positive integer, got '");
            message.append(value);
            message.append("'");
            Err(CliError { message })
        },
    }
}

/// The error for an option that a command does not accept.
pub fn unknown_flag(command: &str, flag: &str) -> (e: CliError)
    ensures
        e@ == "unknown option '"@ + flag@ + "' for "@ + command@,
{
    let mut message = String::new();
    message.append("unknown option '");
    message.append(flag);
    message.append("' for ");
    message.append(command);
    CliError { message }
}

/// The usage text printed by `--help`.
pub open spec fn help_text_spec() -> Seq<char> {
    "rustgrad "@ + "0.1.0"@ + "\n"@ + "\n"@ + "Usage:"@ + "\n"@
        + "  rustgrad train-linear [--epochs N] [--learning-rate LR] [--samples N] [--slope V] [--intercept V] [--format text|csv|markdown] [--output DIR]"@
        + "\n"@
        + "  rustgrad train-xor [--epochs N] [--learning-rate LR] [--format text|csv|markdown] [--output DIR]"@
        + "\n"@
        + "  rustgrad train-spiral [--epochs N] [--learning-rate LR] [--samples-per-class N] [--classes N] [--format text|csv|markdown] [--output DIR]"@
        + "\n"@ + "  rustgrad inspect"@ + "\n"@ + "  rustgrad --version"@
}

/// Returns the usage text: the version line, then one line per command.
pub fn help_text() -> (r: String)
    ensures
        r@ == help_text_spec(),
{
    let mut out = String::new();
    out.append("rustgrad ");
    out.append(crate::version());
    out.append("\n");
    out.append("\n");
    out.append("Usage:");
    out.append("\n");
    out.append(
        "  rustgrad train-linear [--epochs N] [--learning-rate LR] [--samples N] [--slope V] [--intercept V] [--format text|csv|markdown] [--output DIR]",
    );
    out.append("\n");
    out.append(
        "  rustgrad train-xor [--epochs N] [--learning-rate LR] [--format text|csv|markdown] [--output DIR]",
    );
    out.append("\n");
    out.append(
        "  rustgrad train-spiral [--epochs N] [--learning-rate LR] [--samples-per-class N] [--classes N] [--format text|csv|markdown] [--output DIR]",
    );
    out.append("\n");
    out.append("  rustgrad inspect");
    out.append("\n");
    out.append("  rustgrad --version");
    assert(out@ =~= help_text_spec());
    out
}

/// The line printed by `--version`: the program name and its version.
pub fn version_text() -> (r: String)
    ensures
        r@ == "rustgrad "@ + "0.1.0"@,
{
    let mut out = String::new();
    out.append("rustgrad ");
    out.append(crate::version());
    out
}

/// What a command line asks for.
#[derive(Debug, Clone, Copy, PartialEq, Eq, Structural)]
pub enum Command {
    /// Print the usage text.
    Help,
    /// Print the version line.
    Version,
    /// Train a linear regression model.
    TrainLinear,
    /// Train the XOR multilayer perceptron.
    TrainXor,
    /// Train the spiral softmax classifier.
    TrainSpiral,
    /// Print a snapshot of trained example models.
    Inspect,
}

/// The command a first argument names, if any.
pub open spec fn command_named(name: Seq<char>) -> Option<Command> {
    if name == "-h"@ || name == "--help"@ {
        Some(Command::Help)
    } else if name == "-V"@ || name == "--version"@ {
        Some(Command::Version)
    } else if name == "train-linear"@ {
        Some(Command::TrainLinear)
    } else if name == "train-xor"@ {
        Some(Command::TrainXor)
    } else if name == "train-spiral"@ {
        Some(Command::TrainSpiral)
    } else if name == "inspect"@ {
        Some(Command::Inspect)
    } else {
        None
    }
}

/// Decides what a command line asks for from its arguments (without the
/// program name). No argument asks for help; the options that follow a
/// command are left to the command.
pub fn parse_command(args: &[String]) -> (r: core::result::Result<Command, CliError>)
    ensures
        args@.len() == 0 ==> r == Ok::<Command, CliError>(Command::Help),
        args@.len() > 0 && command_named(args@[0]@) is Some ==> r == Ok::<Command, CliError>(
            command_named(args@[0]@)->Some_0,
        ),
        args@.len() > 0 && command_named(args@[0]@) is None ==> (r matches Err(e) && e@
            == "unknown command '"@ + args@[0]@ + "'"@),
{
    if args.len() == 0 {
        return Ok(Command::Help);
    }
    let first = args[0].as_str();
    if str_equal(first, "-h") || str_equal(first, "--help") {
        Ok(Command::Help)
    } else if str_equal(first, "-V") || str_equal(first, "--version") {
        Ok(Command::Version)
    } else if str_equal(first, "train-linear") {
        Ok(Command::TrainLinear)
    } else if str_equal(first, "train-xor") {
        Ok(Command::TrainXor)
    } else if str_equal(first, "train-spiral") {
        Ok(Command::TrainSpiral)
    } else if str_equal(first, "inspect") {
        Ok(Command::Inspect)
    } else {
        let mut message = String::new();
        message.append("unknown command '");
        message.append(first);
        message.append("'");
        Err(CliError { message })
    }
}

} // verus!

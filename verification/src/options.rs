//! The option grammar of the training commands.
//!
//! Options come in `--flag value` pairs. Integer values and formats are
//! checked here; values that are real numbers are handed back as text, in
//! the order they were given, for the caller to read.
use vstd::prelude::*;
use vstd::string::*;

use crate::cli::{
    CliError, Command, OutputFormat, help_text_spec, parse_usize, parsed_usize, unknown_flag,
};
use crate::text::str_equal;

verus! {

/// An option of a training command.
#[derive(Debug, Clone, Copy, PartialEq, Eq, Structural)]
pub enum Flag {
    /// `--epochs N`
    Epochs,
    /// `--learning-rate LR`
    LearningRate,
    /// `--format text|csv|markdown`
    Format,
    /// `--output DIR`
    Output,
    /// `--samples N`
    Samples,
    /// `--slope V`
    Slope,
    /// `--intercept V`
    Intercept,
    /// `--samples-per-class N`
    SamplesPerClass,
    /// `--classes N`
    Classes,
}

/// The value given to an option.
#[derive(Debug, Clone, PartialEq)]
pub enum OptionValue {
    /// A non-negative integer.
    Count(usize),
    /// The text of a real number, not yet read.
    Number(String),
    /// An output format.
    Format(OutputFormat),
    /// A directory path.
    Path(String),
}

/// One `--flag value` pair that was accepted.
#[derive(Debug, Clone, PartialEq)]
pub struct OptionSetting {
    /// The option.
    pub flag: Flag,
    /// Its value.
    pub value: OptionValue,
}

/// The pairs accepted before the first error, and that error if there is one.
#[derive(Debug, Clone, PartialEq)]
pub struct OptionScan {
    /// Accepted pairs, in the order they were given.
    pub settings: Vec<OptionSetting>,
    /// The error that stopped the scan.
    pub error: Option<CliError>,
}

/// The command word used in messages about a command's options.
pub open spec fn command_word(command: Command) -> Seq<char> {
    match command {
        Command::Help => "--help"@,
        Command::Version => "--version"@,
        Command::TrainLinear => "train-linear"@,
        Command::TrainXor => "train-xor"@,
        Command::TrainSpiral => "train-spiral"@,
        Command::Inspect => "inspect"@,
    }
}

/// The option a command accepts under the given name. Every training
/// command accepts `--epochs`, `--learning-rate`, `--format` and `--output`;
/// `train-linear` adds `--samples`, `--slope`, `--intercept`, and
/// `train-spiral` adds `--samples-per-class` and `--classes`.
pub open spec fn flag_named(command: Command, name: Seq<char>) -> Option<Flag> {
    let training = command is TrainLinear || command is TrainXor || command is TrainSpiral;
    if training && name == "--epochs"@ {
        Some(Flag::Epochs)
    } else if training && name == "--learning-rate"@ {
        Some(Flag::LearningRate)
    } else if training && name == "--format"@ {
        Some(Flag::Format)
    } else if training && name == "--output"@ {
        Some(Flag::Output)
    } else if command is TrainLinear && name == "--samples"@ {
        Some(Flag::Samples)
    } else if command is TrainLinear && name == "--slope"@ {
        Some(Flag::Slope)
    } else if command is TrainLinear && name == "--intercept"@ {
        Some(Flag::Intercept)
    } else if command is TrainSpiral && name == "--samples-per-class"@ {
        Some(Flag::SamplesPerClass)
    } else if command is TrainSpiral && name == "--classes"@ {
        Some(Flag::Classes)
    } else {
        None
    }
}

/// Options whose value is a non-negative integer.
pub open spec fn takes_count(flag: Flag) -> bool {
    flag is Epochs || flag is Samples || flag is SamplesPerClass || flag is Classes
}

/// Options whose value is a real number.
pub open spec fn takes_number(flag: Flag) -> bool {
    flag is LearningRate || flag is Slope || flag is Intercept
}

/// The format a name selects.
pub open spec fn format_named(name: Seq<char>) -> Option<OutputFormat> {
    if name == "text"@ {
        Some(OutputFormat::Text)
    } else if name == "csv"@ {
        Some(OutputFormat::Csv)
    } else if name == "markdown"@ || name == "md"@ {
        Some(OutputFormat::Markdown)
    } else {
        None
    }
}

/// Why a value is refused for an option, if it is.
pub open spec fn value_error(flag: Flag, value: Seq<char>) -> Option<Seq<char>> {
    if takes_count(flag) && parsed_usize(value) is None {
        Some("expected positive integer, got '"@ + value + "'"@)
    } else if flag is Format && format_named(value) is None {
        Some("unsupported format '"@ + value + "', expected text, csv, or markdown"@)
    } else {
        None
    }
}

/// A setting holds what the given option text and value text say.
pub open spec fn setting_reads(setting: OptionSetting, flag: Flag, value: Seq<char>) -> bool {
    &&& setting.flag == flag
    &&& if takes_count(flag) {
        setting.value matches OptionValue::Count(n) && parsed_usize(value) == Some(n as nat)
    } else if takes_number(flag) {
        setting.value matches OptionValue::Number(t) && t@ == value
    } else if flag is Format {
        setting.value matches OptionValue::Format(f) && format_named(value) == Some(f)
    } else {
        setting.value matches OptionValue::Path(t) && t@ == value
    }
}

/// The error raised by the pair that starts at `args[i]`, if any.
pub open spec fn pair_error(command: Command, args: Seq<String>, i: int) -> Option<Seq<char>> {
    match flag_named(command, args[i]@) {
        None => Some("unknown option '"@ + args[i]@ + "' for "@ + command_word(command)),
        Some(flag) => if i + 1 >= args.len() {
            Some("missing value for "@ + args[i]@)
        } else {
            value_error(flag, args[i + 1]@)
        },
    }
}

/// The `j`-th setting reads the pair `args[2j]`, `args[2j + 1]`.
pub open spec fn reads_pair(command: Command, args: Seq<String>, settings: Seq<OptionSetting>, j: int) -> bool {
    &&& pair_error(command, args, 2 * j) is None
    &&& flag_named(command, args[2 * j]@) is Some
    &&& setting_reads(settings[j], flag_named(command, args[2 * j]@)->Some_0, args[2 * j + 1]@)
}

/// The pairs of a scan: the `j`-th setting reads `args[2j]` and `args[2j + 1]`.
pub open spec fn reads_pairs(command: Command, args: Seq<String>, settings: Seq<OptionSetting>) -> bool {
    &&& 2 * settings.len() <= args.len()
    &&& forall|j: int| 0 <= j < settings.len() ==> #[trigger] reads_pair(command, args, settings, j)
}

/// The commands that train a model.
pub open spec fn is_training(command: Command) -> bool {
    command is TrainLinear || command is TrainXor || command is TrainSpiral
}

/// The options of the training commands: each of them accepts `--epochs`,
/// `--learning-rate`, `--format` and `--output`; only `train-linear` accepts
/// `--samples`, `--slope` and `--intercept`; only `train-spiral` accepts
/// `--samples-per-class` and `--classes`; other commands accept no option.
pub proof fn lemma_training_options(command: Command)
    ensures
        is_training(command) ==> flag_named(command, "--epochs"@) == Some(Flag::Epochs),
        is_training(command) ==> flag_named(command, "--learning-rate"@) == Some(
            Flag::LearningRate,
        ),
        is_training(command) ==> flag_named(command, "--format"@) == Some(Flag::Format),
        is_training(command) ==> flag_named(command, "--output"@) == Some(Flag::Output),
        flag_named(command, "--samples"@) == (if command is TrainLinear {
            Some(Flag::Samples)
        } else {
            None
        }),
        flag_named(command, "--slope"@) == (if command is TrainLinear {
            Some(Flag::Slope)
        } else {
            None
        }),
        flag_named(command, "--intercept"@) == (if command is TrainLinear {
            Some(Flag::Intercept)
        } else {
            None
        }),
        flag_named(command, "--samples-per-class"@) == (if command is TrainSpiral {
            Some(Flag::SamplesPerClass)
        } else {
            None
        }),
        flag_named(command, "--classes"@) == (if command is TrainSpiral {
            Some(Flag::Classes)
        } else {
            None
        }),
        forall|name: Seq<char>| !is_training(command) ==> flag_named(command, name) is None,
{
    reveal_strlit("--epochs");
    reveal_strlit("--learning-rate");
    reveal_strlit("--format");
    reveal_strlit("--output");
    reveal_strlit("--samples");
    reveal_strlit("--slope");
    reveal_strlit("--intercept");
    reveal_strlit("--samples-per-class");
    reveal_strlit("--classes");
    assert("--learning-rate"@ != "--epochs"@) by { assert("--learning-rate"@.len() != "--epochs"@.len()); }
    assert("--format"@ != "--epochs"@) by { assert("--format"@[2] != "--epochs"@[2]); }
    assert("--format"@ != "--learning-rate"@) by { assert("--format"@.len() != "--learning-rate"@.len()); }
    assert("--output"@ != "--epochs"@) by { assert("--output"@[2] != "--epochs"@[2]); }
    assert("--output"@ != "--learning-rate"@) by { assert("--output"@.len() != "--learning-rate"@.len()); }
    assert("--output"@ != "--format"@) by { assert("--output"@[2] != "--format"@[2]); }
    assert("--samples"@ != "--epochs"@) by { assert("--samples"@.len() != "--epochs"@.len()); }
    assert("--samples"@ != "--learning-rate"@) by { assert("--samples"@.len() != "--learning-rate"@.len()); }
    assert("--samples"@ != "--format"@) by { assert("--samples"@.len() != "--format"@.len()); }
    assert("--samples"@ != "--output"@) by { assert("--samples"@.len() != "--output"@.len()); }
    assert("--slope"@ != "--epochs"@) by { assert("--slope"@.len() != "--epochs"@.len()); }
    assert("--slope"@ != "--learning-rate"@) by { assert("--slope"@.len() != "--learning-rate"@.len()); }
    assert("--slope"@ != "--format"@) by { assert("--slope"@.len() != "--format"@.len()); }
    assert("--slope"@ != "--output"@) by { assert("--slope"@.len() != "--output"@.len()); }
    assert("--slope"@ != "--samples"@) by { assert("--slope"@.len() != "--samples"@.len()); }
    assert("--intercept"@ != "--epochs"@) by { assert("--intercept"@.len() != "--epochs"@.len()); }
    assert("--intercept"@ != "--learning-rate"@) by { assert("--intercept"@.len() != "--learning-rate"@.len()); }
    assert("--intercept"@ != "--format"@) by { assert("--intercept"@.len() != "--format"@.len()); }
    assert("--intercept"@ != "--output"@) by { assert("--intercept"@.len() != "--output"@.len()); }
    assert("--intercept"@ != "--samples"@) by { assert("--intercept"@.len() != "--samples"@.len()); }
    assert("--intercept"@ != "--slope"@) by { assert("--intercept"@.len() != "--slope"@.len()); }
    assert("--samples-per-class"@ != "--epochs"@) by { assert("--samples-per-class"@.len() != "--epochs"@.len()); }
    assert("--samples-per-class"@ != "--learning-rate"@) by { assert("--samples-per-class"@.len() != "--learning-rate"@.len()); }
    assert("--samples-per-class"@ != "--format"@) by { assert("--samples-per-class"@.len() != "--format"@.len()); }
    assert("--samples-per-class"@ != "--output"@) by { assert("--samples-per-class"@.len() != "--output"@.len()); }
    assert("--samples-per-class"@ != "--samples"@) by { assert("--samples-per-class"@.len() != "--samples"@.len()); }
    assert("--samples-per-class"@ != "--slope"@) by { assert("--samples-per-class"@.len() != "--slope"@.len()); }
    assert("--samples-per-class"@ != "--intercept"@) by { assert("--samples-per-class"@.len() != "--intercept"@.len()); }
    assert("--classes"@ != "--epochs"@) by { assert("--classes"@.len() != "--epochs"@.len()); }
    assert("--classes"@ != "--learning-rate"@) by { assert("--classes"@.len() != "--learning-rate"@.len()); }
    assert("--classes"@ != "--format"@) by { assert("--classes"@.len() != "--format"@.len()); }
    assert("--classes"@ != "--output"@) by { assert("--classes"@.len() != "--output"@.len()); }
    assert("--classes"@ != "--samples"@) by { assert("--classes"@[2] != "--samples"@[2]); }
    assert("--classes"@ != "--slope"@) by { assert("--classes"@.len() != "--slope"@.len()); }
    assert("--classes"@ != "--intercept"@) by { assert("--classes"@.len() != "--intercept"@.len()); }
    assert("--classes"@ != "--samples-per-class"@) by { assert("--classes"@.len() != "--samples-per-class"@.len()); }
}

/// A training command accepts a learning rate: scanning `--learning-rate`
/// and a value gives one setting, the learning rate with that value as
/// text, and no error.
pub proof fn lemma_learning_rate_is_accepted(
    command: Command,
    args: Seq<String>,
    settings: Seq<OptionSetting>,
)
    requires
        is_training(command),
        args.len() == 2,
        args[0]@ == "--learning-rate"@,
    ensures
        pair_error(command, args, 0) is None,
        reads_pairs(command, args, settings) && (2 * settings.len() < args.len() ==> pair_error(
            command,
            args,
            2 * settings.len() as int,
        ) is Some) ==> {
            &&& settings.len() == 1
            &&& settings[0].flag == Flag::LearningRate
            &&& settings[0].value matches OptionValue::Number(t) && t@ == args[1]@
        },
{
    lemma_training_options(command);
    if reads_pairs(command, args, settings) && (2 * settings.len() < args.len() ==> pair_error(
        command,
        args,
        2 * settings.len() as int,
    ) is Some) {
        assert(settings.len() == 1);
        assert(reads_pair(command, args, settings, 0));
    }
}

/// `part` occurs somewhere in `text`.
pub open spec fn occurs_in(part: Seq<char>, text: Seq<char>) -> bool {
    exists|i: int|
        0 <= i && i + part.len() <= text.len() && #[trigger] text.subrange(i, i + part.len()) == part
}

/// `line` is a whole line of `text`: it holds no line break, and a line
/// break stands right before and right after it.
pub open spec fn is_line_of(line: Seq<char>, text: Seq<char>) -> bool {
    &&& !line.contains('\n')
    &&& occurs_in("\n"@ + line + "\n"@, text)
}

/// The usage text agrees with the option grammar: each training command has
/// a line of its own that starts with the command's name and lists, as
/// `[name ...]`, every option the command accepts.
pub proof fn lemma_usage_lists_accepted_options(command: Command)
    requires
        is_training(command),
    ensures
        exists|line: Seq<char>|
            {
                &&& is_line_of(line, help_text_spec())
                &&& ("  rustgrad "@ + command_word(command) + " "@).is_prefix_of(line)
                &&& forall|name: Seq<char>|
                    flag_named(command, name) is Some ==> occurs_in("["@ + name + " "@, line)
            },
{
    reveal_strlit("0.1.0");
    reveal_strlit("\n");
    reveal_strlit("  rustgrad train-xor [--epochs N] [--learning-rate LR] [--format text|csv|markdown] [--output DIR]");
    reveal_strlit("  rustgrad --version");
    reveal_strlit("  rustgrad train-spiral [--epochs N] [--learning-rate LR] [--samples-per-class N] [--classes N] [--format text|csv|markdown] [--output DIR]");
    reveal_strlit("Usage:");
    reveal_strlit("rustgrad ");
    reveal_strlit("  rustgrad train-linear [--epochs N] [--learning-rate LR] [--samples N] [--slope V] [--intercept V] [--format text|csv|markdown] [--output DIR]");
    reveal_strlit("  rustgrad inspect");
    reveal_strlit("--epochs");
    reveal_strlit("--learning-rate");
    reveal_strlit("--format");
    reveal_strlit("--output");
    reveal_strlit("--samples");
    reveal_strlit("--slope");
    reveal_strlit("--intercept");
    reveal_strlit("--samples-per-class");
    reveal_strlit("--classes");
    reveal_strlit("train-linear");
    reveal_strlit("train-xor");
    reveal_strlit("train-spiral");
    reveal_strlit("  rustgrad ");
    reveal_strlit(" ");
    reveal_strlit("[");
    lemma_training_options(command);
    let text = help_text_spec();
    if command is TrainLinear {
        let line = "  rustgrad train-linear [--epochs N] [--learning-rate LR] [--samples N] [--slope V] [--intercept V] [--format text|csv|markdown] [--output DIR]"@;
        assert(text.subrange(22, 22int + ("\n"@ + line + "\n"@).len()) =~= "\n"@ + line + "\n"@);
        assert(!line.contains('\n'));
        assert(("  rustgrad "@ + command_word(command) + " "@) =~= line.subrange(0, 24));
        assert forall|name: Seq<char>| flag_named(command, name) is Some implies occurs_in(
            "["@ + name + " "@,
            line,
        ) by {
            if name == "--epochs"@ {
                assert(line.subrange(24, 24int + ("["@ + name + " "@).len()) =~= "["@ + name + " "@);
            } else if name == "--learning-rate"@ {
                assert(line.subrange(37, 37int + ("["@ + name + " "@).len()) =~= "["@ + name + " "@);
            } else if name == "--format"@ {
                assert(line.subrange(100, 100int + ("["@ + name + " "@).len()) =~= "["@ + name + " "@);
            } else if name == "--output"@ {
                assert(line.subrange(129, 129int + ("["@ + name + " "@).len()) =~= "["@ + name + " "@);
            } else if name == "--samples"@ {
                assert(line.subrange(58, 58int + ("["@ + name + " "@).len()) =~= "["@ + name + " "@);
            } else if name == "--slope"@ {
                assert(line.subrange(72, 72int + ("["@ + name + " "@).len()) =~= "["@ + name + " "@);
            } else if name == "--intercept"@ {
                assert(line.subrange(84, 84int + ("["@ + name + " "@).len()) =~= "["@ + name + " "@);
            }
        }
        assert(is_line_of(line, text));
    } else if command is TrainXor {
        let line = "  rustgrad train-xor [--epochs N] [--learning-rate LR] [--format text|csv|markdown] [--output DIR]"@;
        assert(text.subrange(166, 166int + ("\n"@ + line + "\n"@).len()) =~= "\n"@ + line + "\n"@);
        assert(!line.contains('\n'));
        assert(("  rustgrad "@ + command_word(command) + " "@) =~= line.subrange(0, 21));
        assert forall|name: Seq<char>| flag_named(command, name) is Some implies occurs_in(
            "["@ + name + " "@,
            line,
        ) by {
            if name == "--epochs"@ {
                assert(line.subrange(21, 21int + ("["@ + name + " "@).len()) =~= "["@ + name + " "@);
            } else if name == "--learning-rate"@ {
                assert(line.subrange(34, 34int + ("["@ + name + " "@).len()) =~= "["@ + name + " "@);
            } else if name == "--format"@ {
                assert(line.subrange(55, 55int + ("["@ + name + " "@).len()) =~= "["@ + name + " "@);
            } else if name == "--output"@ {
                assert(line.subrange(84, 84int + ("["@ + name + " "@).len()) =~= "["@ + name + " "@);
            }
        }
        assert(is_line_of(line, text));
    } else if command is TrainSpiral {
        let line = "  rustgrad train-spiral [--epochs N] [--learning-rate LR] [--samples-per-class N] [--classes N] [--format text|csv|markdown] [--output DIR]"@;
        assert(text.subrange(265, 265int + ("\n"@ + line + "\n"@).len()) =~= "\n"@ + line + "\n"@);
        assert(!line.contains('\n'));
        assert(("  rustgrad "@ + command_word(command) + " "@) =~= line.subrange(0, 24));
        assert forall|name: Seq<char>| flag_named(command, name) is Some implies occurs_in(
            "["@ + name + " "@,
            line,
        ) by {
            if name == "--epochs"@ {
                assert(line.subrange(24, 24int + ("["@ + name + " "@).len()) =~= "["@ + name + " "@);
            } else if name == "--learning-rate"@ {
                assert(line.subrange(37, 37int + ("["@ + name + " "@).len()) =~= "["@ + name + " "@);
            } else if name == "--format"@ {
                assert(line.subrange(96, 96int + ("["@ + name + " "@).len()) =~= "["@ + name + " "@);
            } else if name == "--output"@ {
                assert(line.subrange(125, 125int + ("["@ + name + " "@).len()) =~= "["@ + name + " "@);
            } else if name == "--samples-per-class"@ {
                assert(line.subrange(58, 58int + ("["@ + name + " "@).len()) =~= "["@ + name + " "@);
            } else if name == "--classes"@ {
                assert(line.subrange(82, 82int + ("["@ + name + " "@).len()) =~= "["@ + name + " "@);
            }
        }
        assert(is_line_of(line, text));
    }
}

/// The name of the command in messages.
fn command_text(command: Command) -> (r: &'static str)
    ensures
        r@ == command_word(command),
{
    match command {
        Command::Help => "--help",
        Command::Version => "--version",
        Command::TrainLinear => "train-linear",
        Command::TrainXor => "train-xor",
        Command::TrainSpiral => "train-spiral",
        Command::Inspect => "inspect",
    }
}

/// The option a command accepts under the given name.
pub fn flag_for(command: Command, name: &str) -> (r: Option<Flag>)
    ensures
        r == flag_named(command, name@),
{
    proof {
        reveal_strlit("--epochs");
        reveal_strlit("--learning-rate");
        reveal_strlit("--format");
        reveal_strlit("--output");
        reveal_strlit("--samples");
        reveal_strlit("--slope");
        reveal_strlit("--intercept");
        reveal_strlit("--samples-per-class");
        reveal_strlit("--classes");
    }
    let training = match command {
        Command::TrainLinear | Command::TrainXor | Command::TrainSpiral => true,
        _ => false,
    };
    let linear = match command {
        Command::TrainLinear => true,
        _ => false,
    };
    let spiral = match command {
        Command::TrainSpiral => true,
        _ => false,
    };
    if training && str_equal(name, "--epochs") {
        Some(Flag::Epochs)
    } else if training && str_equal(name, "--learning-rate") {
        Some(Flag::LearningRate)
    } else if training && str_equal(name, "--format") {
        Some(Flag::Format)
    } else if training && str_equal(name, "--output") {
        Some(Flag::Output)
    } else if linear && str_equal(name, "--samples") {
        Some(Flag::Samples)
    } else if linear && str_equal(name, "--slope") {
        Some(Flag::Slope)
    } else if linear && str_equal(name, "--intercept") {
        Some(Flag::Intercept)
    } else if spiral && str_equal(name, "--samples-per-class") {
        Some(Flag::SamplesPerClass)
    } else if spiral && str_equal(name, "--classes") {
        Some(Flag::Classes)
    } else {
        None
    }
}

/// Reads the value of an option, or gives the error it raises.
pub fn read_value(flag: Flag, value: &str) -> (r: core::result::Result<OptionValue, CliError>)
    ensures
        r is Err <==> value_error(flag, value@) is Some,
        r matches Err(e) ==> value_error(flag, value@) == Some(e@),
        r matches Ok(v) ==> setting_reads(OptionSetting { flag, value: v }, flag, value@),
{
    proof {
        reveal_strlit("text");
        reveal_strlit("csv");
        reveal_strlit("markdown");
        reveal_strlit("md");
    }
    match flag {
        Flag::Epochs | Flag::Samples | Flag::SamplesPerClass | Flag::Classes => {
            match parse_usize(value) {
                Ok(n) => Ok(OptionValue::Count(n)),
                Err(e) => Err(e),
            }
        },
        Flag::LearningRate | Flag::Slope | Flag::Intercept => Ok(
            OptionValue::Number(value.to_owned()),
        ),
        Flag::Format => match OutputFormat::parse(value) {
            Ok(f) => Ok(OptionValue::Format(f)),
            Err(e) => Err(e),
        },
        Flag::Output => Ok(OptionValue::Path(value.to_owned())),
    }
}

/// Reads the options that follow a command, pair by pair, and stops at the
/// first unknown option, missing value, or refused value.
pub fn scan_options(command: Command, args: &[String]) -> (r: OptionScan)
    ensures
        reads_pairs(command, args@, r.settings@),
        r.error is None <==> 2 * r.settings@.len() == args@.len(),
        r.error matches Some(e) ==> pair_error(command, args@, 2 * r.settings@.len() as int) == Some(
            e@,
        ),
{
    let mut settings: Vec<OptionSetting> = Vec::new();
    let mut index: usize = 0;
    while index < args.len()
        invariant
            index == 2 * settings@.len(),
            index <= args@.len(),
            reads_pairs(command, args@, settings@),
        decreases args@.len() - index,
    {
        let name = args[index].as_str();
        let flag = match flag_for(command, name) {
            Some(f) => f,
            None => {
                let error = unknown_flag(command_text(command), name);
                return OptionScan { settings, error: Some(error) };
            },
        };
        let mut next = index;
        let value = match crate::cli::take_value(args, &mut next, name) {
            Ok(v) => v,
            Err(e) => {
                return OptionScan { settings, error: Some(e) };
            },
        };
        match read_value(flag, value) {
            Ok(v) => {
                let ghost old_settings = settings@;
                settings.push(OptionSetting { flag, value: v });
                proof {
                    assert forall|j: int| 0 <= j < settings@.len() implies #[trigger] reads_pair(
                        command,
                        args@,
                        settings@,
                        j,
                    ) by {
                        if j < old_settings.len() {
                            assert(reads_pair(command, args@, old_settings, j));
                            assert(settings@[j] == old_settings[j]);
                        } else {
                            assert(2 * j == index);
                            assert(next == index + 1);
                            assert(value@ == args@[2 * j + 1]@);
                        }
                    }
                    assert(2 * settings@.len() <= args@.len());
                    assert(reads_pairs(command, args@, settings@));
                }
            },
            Err(e) => {
                return OptionScan { settings, error: Some(e) };
            },
        }
        index = next + 1;
    }
    OptionScan { settings, error: None }
}

} // verus!

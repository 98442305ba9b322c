use rustgrad::cli::{
    help_text, parse_command, parse_usize, take_value, unknown_flag, version_text, CliError,
    Command, OutputFormat,
};
use rustgrad::options::{flag_for, read_value, scan_options, Flag, OptionSetting, OptionValue};
use rustgrad::report::validate_title;
use rustgrad::train::should_log;
use rustgrad::RustGradError;

fn strings(args: &[&str]) -> Vec<String> {
    args.iter().map(|arg| (*arg).to_string()).collect()
}

#[test]
fn output_format_parses_known_names() {
    assert_eq!(OutputFormat::parse("text"), Ok(OutputFormat::Text));
    assert_eq!(OutputFormat::parse("csv"), Ok(OutputFormat::Csv));
    assert_eq!(OutputFormat::parse("markdown"), Ok(OutputFormat::Markdown));
    assert_eq!(OutputFormat::parse("md"), Ok(OutputFormat::Markdown));
    assert_eq!(
        OutputFormat::parse("html")
            .expect_err("unsupported")
            .to_string(),
        "unsupported format 'html', expected text, csv, or markdown"
    );
}

#[test]
fn take_value_advances_past_the_flag() {
    let args = strings(&["--epochs", "8"]);
    let mut index = 0;
    assert_eq!(take_value(&args, &mut index, "--epochs"), Ok("8"));
    assert_eq!(index, 1);
    assert_eq!(
        take_value(&args, &mut index, "--epochs")
            .expect_err("missing")
            .to_string(),
        "missing value for --epochs"
    );
    assert_eq!(index, 2);
}

#[test]
fn parse_usize_follows_integer_parsing() {
    assert_eq!(parse_usize("8"), Ok(8));
    assert_eq!(parse_usize("+12"), Ok(12));
    assert_eq!(parse_usize("007"), Ok(7));
    assert_eq!(parse_usize("18446744073709551615"), Ok(usize::MAX));
    for bad in ["", "+", "-1", "1.5", " 3", "abc", "18446744073709551616"] {
        assert_eq!(
            parse_usize(bad).expect_err("invalid").to_string(),
            format!("expected positive integer, got '{bad}'")
        );
        assert!(bad.parse::<usize>().is_err());
    }
}

#[test]
fn unknown_flag_names_command_and_flag() {
    assert_eq!(
        unknown_flag("train-xor", "--samples").to_string(),
        "unknown option '--samples' for train-xor"
    );
}

#[test]
fn cli_errors_carry_messages() {
    assert_eq!(CliError::new("boom").to_string(), "boom");
    assert_eq!(
        CliError::from_error(&RustGradError::EmptyShape).to_string(),
        "shape must contain at least one dimension"
    );
}

#[test]
fn help_lists_training_commands() {
    let output = help_text();

    assert!(output.starts_with("rustgrad 0.1.0\n\nUsage:\n"));
    assert!(output.contains("train-linear"));
    assert!(output.contains("train-xor"));
    assert!(output.contains("train-spiral"));
    assert!(output.contains("inspect"));
    assert!(output.ends_with("  rustgrad --version"));
}

#[test]
fn commands_are_recognised_by_their_first_argument() {
    assert_eq!(parse_command(&[]), Ok(Command::Help));
    assert_eq!(parse_command(&strings(&["--help"])), Ok(Command::Help));
    assert_eq!(parse_command(&strings(&["-h"])), Ok(Command::Help));
    assert_eq!(parse_command(&strings(&["--version"])), Ok(Command::Version));
    assert_eq!(parse_command(&strings(&["-V"])), Ok(Command::Version));
    assert_eq!(
        parse_command(&strings(&["train-linear", "--epochs", "6"])),
        Ok(Command::TrainLinear)
    );
    assert_eq!(parse_command(&strings(&["train-xor"])), Ok(Command::TrainXor));
    assert_eq!(parse_command(&strings(&["train-spiral"])), Ok(Command::TrainSpiral));
    assert_eq!(parse_command(&strings(&["inspect"])), Ok(Command::Inspect));
    assert_eq!(
        parse_command(&strings(&["missing"]))
            .expect_err("unknown")
            .to_string(),
        "unknown command 'missing'"
    );
}

#[test]
fn report_titles_must_not_be_blank() {
    assert!(validate_title("XOR MLP training").is_ok());
    assert_eq!(
        validate_title("  ").expect_err("blank"),
        RustGradError::InvalidArgument {
            name: "title",
            reason: "report title must not be empty".to_string(),
        }
    );
}

#[test]
fn logging_schedule_covers_first_last_and_multiples() {
    assert!(should_log(1, 10, 1));
    assert!(should_log(10, 10, 1));
    assert!(should_log(7, 10, 1));
    assert!(should_log(1, 10, 3));
    assert!(should_log(3, 10, 3));
    assert!(should_log(6, 10, 3));
    assert!(should_log(10, 10, 3));
    assert!(!should_log(2, 10, 3));
    assert!(!should_log(4, 10, 3));
}

fn number(text: &str) -> OptionValue {
    OptionValue::Number(text.to_string())
}

fn setting(flag: Flag, value: OptionValue) -> OptionSetting {
    OptionSetting { flag, value }
}

#[test]
fn help_includes_available_training_commands() {
    assert_eq!(parse_command(&strings(&["--help"])), Ok(Command::Help));
    let output = help_text();

    assert!(output.contains("train-linear"));
    assert!(output.contains("train-xor"));
    assert!(output.contains("train-spiral"));
    assert!(output.contains("inspect"));
}

#[test]
fn version_command_prints_package_version() {
    assert_eq!(parse_command(&strings(&["--version"])), Ok(Command::Version));
    let output = version_text();

    assert_eq!(output, "rustgrad 0.1.0");
}

#[test]
fn parses_linear_options_with_numeric_values() {
    let args = strings(&[
        "--epochs",
        "8",
        "--learning-rate",
        "0.25",
        "--samples",
        "5",
        "--slope",
        "2.5",
        "--intercept",
        "-1.0",
        "--format",
        "csv",
        "--output",
        "runs/linear-demo",
    ]);

    let options = scan_options(Command::TrainLinear, &args);

    assert_eq!(options.error, None);
    assert_eq!(
        options.settings,
        vec![
            setting(Flag::Epochs, OptionValue::Count(8)),
            setting(Flag::LearningRate, number("0.25")),
            setting(Flag::Samples, OptionValue::Count(5)),
            setting(Flag::Slope, number("2.5")),
            setting(Flag::Intercept, number("-1.0")),
            setting(Flag::Format, OptionValue::Format(OutputFormat::Csv)),
            setting(Flag::Output, OptionValue::Path("runs/linear-demo".to_string())),
        ]
    );
    assert_eq!("0.25".parse::<f64>(), Ok(0.25));
    assert_eq!("2.5".parse::<f64>(), Ok(2.5));
    assert_eq!("-1.0".parse::<f64>(), Ok(-1.0));
}

#[test]
fn parses_spiral_specific_options() {
    let args = strings(&[
        "--samples-per-class",
        "7",
        "--classes",
        "4",
        "--format",
        "markdown",
    ]);

    let options = scan_options(Command::TrainSpiral, &args);

    assert_eq!(options.error, None);
    assert_eq!(
        options.settings,
        vec![
            setting(Flag::SamplesPerClass, OptionValue::Count(7)),
            setting(Flag::Classes, OptionValue::Count(4)),
            setting(Flag::Format, OptionValue::Format(OutputFormat::Markdown)),
        ]
    );
}

#[test]
fn unknown_command_returns_clear_error() {
    let error = parse_command(&strings(&["missing"])).expect_err("unknown command should fail");

    assert_eq!(error.to_string(), "unknown command 'missing'");
}

#[test]
fn missing_option_value_returns_clear_error() {
    let args = strings(&["train-linear", "--epochs"]);
    assert_eq!(parse_command(&args), Ok(Command::TrainLinear));
    let error = scan_options(Command::TrainLinear, &args[1..])
        .error
        .expect("missing value should fail");

    assert_eq!(error.to_string(), "missing value for --epochs");
}

#[test]
fn commands_accept_only_their_own_options() {
    assert_eq!(flag_for(Command::TrainXor, "--epochs"), Some(Flag::Epochs));
    assert_eq!(flag_for(Command::TrainXor, "--samples"), None);
    assert_eq!(flag_for(Command::TrainLinear, "--classes"), None);
    assert_eq!(flag_for(Command::TrainSpiral, "--classes"), Some(Flag::Classes));
    assert_eq!(flag_for(Command::Inspect, "--epochs"), None);

    let scan = scan_options(Command::TrainXor, &strings(&["--epochs", "3", "--samples", "4"]));
    assert_eq!(scan.settings, vec![setting(Flag::Epochs, OptionValue::Count(3))]);
    assert_eq!(
        scan.error.expect("unknown").to_string(),
        "unknown option '--samples' for train-xor"
    );
}

#[test]
fn option_scan_stops_at_the_first_refused_value() {
    let scan = scan_options(
        Command::TrainSpiral,
        &strings(&["--learning-rate", "fast", "--classes", "three", "--epochs", "2"]),
    );
    assert_eq!(scan.settings, vec![setting(Flag::LearningRate, number("fast"))]);
    assert_eq!(
        scan.error.expect("refused").to_string(),
        "expected positive integer, got 'three'"
    );

    let scan = scan_options(Command::TrainLinear, &strings(&["--format", "html"]));
    assert!(scan.settings.is_empty());
    assert_eq!(
        scan.error.expect("refused").to_string(),
        "unsupported format 'html', expected text, csv, or markdown"
    );

    let scan = scan_options(Command::TrainXor, &strings(&[]));
    assert!(scan.settings.is_empty());
    assert_eq!(scan.error, None);
}

#[test]
fn option_values_are_read_by_kind() {
    assert_eq!(read_value(Flag::Classes, "+3"), Ok(OptionValue::Count(3)));
    assert_eq!(read_value(Flag::Slope, "x"), Ok(number("x")));
    assert_eq!(
        read_value(Flag::Output, "dir"),
        Ok(OptionValue::Path("dir".to_string()))
    );
    assert_eq!(read_value(Flag::Format, "md"), Ok(OptionValue::Format(OutputFormat::Markdown)));
    assert!(read_value(Flag::Epochs, "-1").is_err());
}

#[test]
fn help_command_lists_training_commands() {
    assert_eq!(parse_command(&strings(&["--help"])), Ok(Command::Help));
    let stdout = help_text();

    assert!(stdout.contains("rustgrad 0.1.0"));
    assert!(stdout.contains("train-linear"));
    assert!(stdout.contains("train-xor"));
    assert!(stdout.contains("train-spiral"));
    assert!(stdout.contains("inspect"));
}

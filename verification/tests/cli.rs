//! What the command line asks for, from the arguments that are typed.

use clap::{Arg, ArgAction, Command};
use flowlens::cli::{
    diagnostics_target, dispatch_mode, parse_format, positive_u64, Cli, CliError, CliValues,
    DiagnosticsTarget, DispatchMode, NumberFault, OutputFormat, DEFAULT_FLOW_TABLE,
    DEFAULT_PROC_REFRESH, DEFAULT_TOP_N,
};

/// Takes the arguments apart and hands their values to the library.
fn try_parse_from(args: &[&'static str]) -> Result<Cli, String> {
    let value = |id: &'static str| Arg::new(id).long(id).action(ArgAction::Set);
    let command = Command::new("delray")
        .arg(Arg::new("interface"))
        .arg(value("proc-refresh"))
        .arg(value("output"))
        .arg(value("format").short('f'))
        .arg(value("top-n").short('n'))
        .arg(value("flow-table"))
        .arg(Arg::new("diagnostics").long("diagnostics").action(ArgAction::SetTrue))
        .arg(value("diagnostics-output"));
    let matches = command.try_get_matches_from(args).map_err(|error| error.to_string())?;
    let text = |id: &str| matches.get_one::<String>(id).cloned();
    Cli::from_values(CliValues {
        interface: text("interface"),
        proc_refresh: text("proc-refresh"),
        output: text("output"),
        format: text("format"),
        top_n: text("top-n"),
        flow_table: text("flow-table"),
        diagnostics: matches.get_flag("diagnostics"),
        diagnostics_output: text("diagnostics-output"),
    })
    .map_err(|error| format!("{error:?}"))
}

#[test]
fn parses_all_args() {
    let cli = try_parse_from(&[
        "delray",
        "eth0",
        "--proc-refresh",
        "5",
        "--output",
        "out.txt",
    ])
    .unwrap();
    assert_eq!(cli.interface.as_deref(), Some("eth0"));
    assert_eq!(cli.proc_refresh, 5);
    assert_eq!(cli.output.as_deref(), Some("out.txt"));
    assert!(!cli.diagnostics);
}

#[test]
fn diagnostics_flag_is_available_for_linux_validation() {
    let cli = try_parse_from(&["delray", "eth0", "--format", "json", "--diagnostics"]).unwrap();

    assert!(cli.diagnostics);
}

#[test]
fn diagnostics_output_requires_diagnostics_flag() {
    let cli = try_parse_from(&["delray", "eth0", "--diagnostics-output", "diag.jsonl"]).unwrap();
    let error = match diagnostics_target(&cli) {
        Ok(_) => panic!("diagnostics output should require the flag"),
        Err(error) => error,
    };
    assert!(error.to_string().contains("requires --diagnostics"));
}

#[test]
fn diagnostics_output_path_is_preserved() {
    let cli = try_parse_from(&[
        "delray",
        "eth0",
        "--diagnostics",
        "--diagnostics-output",
        "diag.jsonl",
    ])
    .unwrap();
    assert_eq!(cli.diagnostics_output.as_deref(), Some("diag.jsonl"));
    assert!(matches!(diagnostics_target(&cli), Ok(DiagnosticsTarget::File(path)) if path == "diag.jsonl"));
}

#[test]
fn diagnostics_go_to_a_default_file_or_nowhere() {
    let on = try_parse_from(&["delray", "eth0", "--diagnostics"]).unwrap();
    assert!(matches!(diagnostics_target(&on), Ok(DiagnosticsTarget::DefaultFile)));
    let off = try_parse_from(&["delray", "eth0"]).unwrap();
    assert!(matches!(diagnostics_target(&off), Ok(DiagnosticsTarget::Nothing)));
}

#[test]
fn proc_refresh_defaults_to_two() {
    let cli = try_parse_from(&["delray", "eth0"]).unwrap();
    assert_eq!(cli.proc_refresh, DEFAULT_PROC_REFRESH);
    assert!(cli.output.is_none());
    assert_eq!(cli.proc_refresh, 2);
}

#[test]
fn proc_refresh_zero_rejected() {
    let result = try_parse_from(&["delray", "eth0", "--proc-refresh", "0"]);
    assert!(result.is_err());
}

#[test]
fn flow_table_defaults_to_65536() {
    let cli = try_parse_from(&["delray", "eth0"]).unwrap();
    assert_eq!(cli.flow_table, DEFAULT_FLOW_TABLE);
    assert_eq!(cli.flow_table, 65_536);
}

#[test]
fn flow_table_accepts_custom_capacity() {
    let cli = try_parse_from(&["delray", "eth0", "--flow-table", "4096"]).unwrap();
    assert_eq!(cli.flow_table, 4096);
}

#[test]
fn flow_table_zero_rejected() {
    let result = try_parse_from(&["delray", "eth0", "--flow-table", "0"]);
    assert!(result.is_err());
}

#[test]
fn flow_table_non_numeric_rejected() {
    let result = try_parse_from(&["delray", "eth0", "--flow-table", "huge"]);
    assert!(result.is_err());
}

#[test]
fn interface_optional() {
    let cli = try_parse_from(&["delray"]).unwrap();
    assert!(cli.interface.is_none());
}

#[test]
fn missing_interface_starts_selector_only_for_plain_foreground_mode() {
    let plain = try_parse_from(&["delray"]).unwrap();
    let json = try_parse_from(&["delray", "--format", "json"]).unwrap();
    let file = try_parse_from(&["delray", "--output", "traffic.txt"]).unwrap();

    assert_eq!(dispatch_mode(&plain), DispatchMode::InteractiveSelector);
    assert_eq!(dispatch_mode(&json), DispatchMode::MissingInterface);
    assert_eq!(dispatch_mode(&file), DispatchMode::MissingInterface);
}

#[test]
fn given_interface_is_taken_in_every_mode() {
    for args in [
        &["delray", "eth0"][..],
        &["delray", "eth0", "--format", "json"][..],
        &["delray", "eth0", "--output", "traffic.txt"][..],
    ] {
        let cli = try_parse_from(args).unwrap();
        assert_eq!(dispatch_mode(&cli), DispatchMode::ExplicitInterface);
    }
}

#[test]
fn proc_refresh_non_numeric_rejected() {
    let result = try_parse_from(&["delray", "eth0", "--proc-refresh", "abc"]);
    assert!(result.is_err());
}

#[test]
fn proc_refresh_negative_rejected() {
    let result = try_parse_from(&["delray", "eth0", "--proc-refresh", "-5"]);
    assert!(result.is_err());
}

#[test]
fn positive_numbers_are_read_like_rust_reads_them() {
    assert_eq!(positive_u64("1"), Ok(1));
    assert_eq!(positive_u64("+7"), Ok(7));
    assert_eq!(positive_u64("18446744073709551615"), Ok(u64::MAX));
    assert_eq!(positive_u64("18446744073709551616"), Err(NumberFault::NotANumber));
    assert_eq!(positive_u64("0"), Err(NumberFault::Zero));
    assert_eq!(positive_u64("000"), Err(NumberFault::Zero));
    for text in ["", "+", "-5", " 1", "1 ", "0x10", "1_000", "\u{0661}"] {
        assert_eq!(positive_u64(text), Err(NumberFault::NotANumber));
        assert!(text.parse::<u64>().is_err());
    }
    assert_eq!(NumberFault::Zero.message(), "value must be greater than 0");
    assert_eq!(NumberFault::NotANumber.message(), "value must be a positive integer");
}

fn values() -> CliValues {
    CliValues {
        interface: None,
        proc_refresh: None,
        output: None,
        format: None,
        top_n: None,
        flow_table: None,
        diagnostics: false,
        diagnostics_output: None,
    }
}

#[test]
fn each_value_has_its_own_error() {
    let with = |change: fn(&mut CliValues)| {
        let mut typed = values();
        change(&mut typed);
        Cli::from_values(typed).map(|_| ()).unwrap_err()
    };
    assert_eq!(
        with(|typed| typed.proc_refresh = Some("0".to_string())),
        CliError::ProcRefresh(NumberFault::Zero)
    );
    assert_eq!(with(|typed| typed.format = Some("xml".to_string())), CliError::Format);
    assert_eq!(
        with(|typed| typed.top_n = Some("0".to_string())),
        CliError::TopN(NumberFault::Zero)
    );
    assert_eq!(
        with(|typed| typed.flow_table = Some("many".to_string())),
        CliError::FlowTable(NumberFault::NotANumber)
    );
}

#[test]
fn usual_values_fill_in() {
    let cli = Cli::from_values(values()).unwrap();
    assert_eq!(cli.top_n, DEFAULT_TOP_N);
    assert_eq!(cli.top_n, 10);
    assert_eq!(cli.format, OutputFormat::Plain);
    assert_eq!(parse_format(&Some("json".to_string())), Some(OutputFormat::Json));
    assert_eq!(parse_format(&Some("plain".to_string())), Some(OutputFormat::Plain));
    assert_eq!(parse_format(&Some("JSON".to_string())), None);
}

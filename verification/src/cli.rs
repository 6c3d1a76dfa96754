//! What the command line asks for.

use vstd::prelude::*;
use vstd::string::*;

use crate::scan::{natural, parse_decimal};
use crate::text::{clone_text, same_text, text_view};

verus! {

/// How often reports are written, in nanoseconds.
pub const REFRESH_INTERVAL: u128 = 5_000_000_000;

/// How many entries a list shows unless told otherwise.
pub const DEFAULT_TOP_N: u64 = 10;

/// How often the process table is refreshed unless told otherwise, in seconds.
pub const DEFAULT_PROC_REFRESH: u64 = 2;

/// How many connections the flow table keeps unless told otherwise.
pub const DEFAULT_FLOW_TABLE: u64 = 65_536;

/// How reports are written.
#[derive(Clone, Copy, Debug, PartialEq, Eq, Structural)]
pub enum OutputFormat {
    Plain,
    Json,
}

/// What the command line asks for.
#[derive(Debug)]
pub struct Cli {
    /// The interface to capture on.
    pub interface: Option<String>,
    /// How often the process table is refreshed, in seconds; more than zero.
    pub proc_refresh: u64,
    /// The file that reports are written to.
    pub output: Option<String>,
    pub format: OutputFormat,
    /// How many entries a list shows; at least one.
    pub top_n: u64,
    /// How many connections the flow table keeps; at least one.
    pub flow_table: u64,
    /// Whether diagnostics are written.
    pub diagnostics: bool,
    /// The file that diagnostics are written to.
    pub diagnostics_output: Option<String>,
}

/// The values of the command line as they were typed; absent where nothing was.
#[derive(Debug)]
pub struct CliValues {
    pub interface: Option<String>,
    pub proc_refresh: Option<String>,
    pub output: Option<String>,
    pub format: Option<String>,
    pub top_n: Option<String>,
    pub flow_table: Option<String>,
    pub diagnostics: bool,
    pub diagnostics_output: Option<String>,
}

/// Why a number is not accepted.
#[derive(Clone, Copy, Debug, PartialEq, Eq, Structural)]
pub enum NumberFault {
    /// It is zero.
    Zero,
    /// It is no natural number of 64 bits.
    NotANumber,
}

/// A value of the command line that is not accepted.
#[derive(Clone, Copy, Debug, PartialEq, Eq, Structural)]
pub enum CliError {
    ProcRefresh(NumberFault),
    Format,
    TopN(NumberFault),
    FlowTable(NumberFault),
}

/// A number that is more than zero.
pub open spec fn positive(text: Seq<char>) -> Result<u64, NumberFault> {
    match natural(text, 10, u64::MAX as nat) {
        Some(value) => if value > 0 {
            Ok(value as u64)
        } else {
            Err(NumberFault::Zero)
        },
        None => Err(NumberFault::NotANumber),
    }
}

/// What to say of a number that is not accepted.
pub open spec fn fault_text(fault: NumberFault) -> Seq<char> {
    match fault {
        NumberFault::Zero => "value must be greater than 0"@,
        NumberFault::NotANumber => "value must be a positive integer"@,
    }
}

impl NumberFault {
    /// What to say of it.
    pub fn message(self) -> (message: &'static str)
        ensures
            message@ == fault_text(self),
    {
        match self {
            NumberFault::Zero => "value must be greater than 0",
            NumberFault::NotANumber => "value must be a positive integer",
        }
    }
}

/// A number that is more than zero.
pub fn positive_u64(s: &str) -> (value: Result<u64, NumberFault>)
    ensures
        value == positive(s@),
{
    match parse_decimal(s, u64::MAX) {
        Some(value) => {
            if value > 0 {
                Ok(value)
            } else {
                Err(NumberFault::Zero)
            }
        },
        None => Err(NumberFault::NotANumber),
    }
}

/// A number that was typed, or the usual one.
pub open spec fn number_or(text: Option<Seq<char>>, usual: u64) -> Result<u64, NumberFault> {
    match text {
        Some(text) => positive(text),
        None => Ok(usual),
    }
}

fn parse_number_or(text: &Option<String>, usual: u64) -> (value: Result<u64, NumberFault>)
    ensures
        value == number_or(text_view(*text), usual),
{
    match text {
        Some(text) => positive_u64(text.as_str()),
        None => Ok(usual),
    }
}

/// The format of a name; plain for none.
pub open spec fn format_named(name: Option<Seq<char>>) -> Option<OutputFormat> {
    match name {
        None => Some(OutputFormat::Plain),
        Some(name) => if name == "plain"@ {
            Some(OutputFormat::Plain)
        } else if name == "json"@ {
            Some(OutputFormat::Json)
        } else {
            None
        },
    }
}

/// The format of a name; plain for none.
pub fn parse_format(name: &Option<String>) -> (format: Option<OutputFormat>)
    ensures
        format == format_named(text_view(*name)),
{
    match name {
        None => Some(OutputFormat::Plain),
        Some(name) => {
            if same_text(name.as_str(), "plain") {
                Some(OutputFormat::Plain)
            } else if same_text(name.as_str(), "json") {
                Some(OutputFormat::Json)
            } else {
                None
            }
        },
    }
}

impl Cli {
    /// The numbers are what they have to be.
    pub open spec fn wf(self) -> bool {
        self.proc_refresh > 0 && self.top_n > 0 && self.flow_table > 0
    }

    /// What the command line asks for, with the usual values where nothing was typed. The
    /// first value that is not accepted is the error.
    pub fn from_values(values: CliValues) -> (cli: Result<Cli, CliError>)
        ensures
            match (
                number_or(text_view(values.proc_refresh), DEFAULT_PROC_REFRESH),
                format_named(text_view(values.format)),
                number_or(text_view(values.top_n), DEFAULT_TOP_N),
                number_or(text_view(values.flow_table), DEFAULT_FLOW_TABLE),
            ) {
                (Err(fault), _, _, _) => cli == Err::<Cli, CliError>(CliError::ProcRefresh(fault)),
                (Ok(_), None, _, _) => cli == Err::<Cli, CliError>(CliError::Format),
                (Ok(_), Some(_), Err(fault), _) => cli == Err::<Cli, CliError>(
                    CliError::TopN(fault),
                ),
                (Ok(_), Some(_), Ok(_), Err(fault)) => cli == Err::<Cli, CliError>(
                    CliError::FlowTable(fault),
                ),
                (Ok(proc_refresh), Some(format), Ok(top_n), Ok(flow_table)) => {
                    &&& cli == Ok::<Cli, CliError>(
                        Cli {
                            interface: values.interface,
                            proc_refresh,
                            output: values.output,
                            format,
                            top_n,
                            flow_table,
                            diagnostics: values.diagnostics,
                            diagnostics_output: values.diagnostics_output,
                        },
                    )
                    &&& cli->Ok_0.wf()
                },
            },
    {
        let proc_refresh = match parse_number_or(&values.proc_refresh, DEFAULT_PROC_REFRESH) {
            Ok(value) => value,
            Err(fault) => {
                return Err(CliError::ProcRefresh(fault));
            },
        };
        let format = match parse_format(&values.format) {
            Some(format) => format,
            None => {
                return Err(CliError::Format);
            },
        };
        let top_n = match parse_number_or(&values.top_n, DEFAULT_TOP_N) {
            Ok(value) => value,
            Err(fault) => {
                return Err(CliError::TopN(fault));
            },
        };
        let flow_table = match parse_number_or(&values.flow_table, DEFAULT_FLOW_TABLE) {
            Ok(value) => value,
            Err(fault) => {
                return Err(CliError::FlowTable(fault));
            },
        };
        Ok(
            Cli {
                interface: values.interface,
                proc_refresh,
                output: values.output,
                format,
                top_n,
                flow_table,
                diagnostics: values.diagnostics,
                diagnostics_output: values.diagnostics_output,
            },
        )
    }
}

/// How the program starts.
#[derive(Clone, Copy, Debug, PartialEq, Eq, Structural)]
pub enum DispatchMode {
    /// The user picks an interface in the terminal.
    InteractiveSelector,
    /// The interface is given.
    ExplicitInterface,
    /// An interface has to be given, and is not.
    MissingInterface,
}

/// How the program starts: only on the terminal can the interface be picked.
pub fn dispatch_mode(cli: &Cli) -> (mode: DispatchMode)
    ensures
        mode == if cli.interface is Some {
            DispatchMode::ExplicitInterface
        } else if cli.output is None && cli.format == OutputFormat::Plain {
            DispatchMode::InteractiveSelector
        } else {
            DispatchMode::MissingInterface
        },
{
    if cli.interface.is_some() {
        DispatchMode::ExplicitInterface
    } else if cli.output.is_none() && cli.format == OutputFormat::Plain {
        DispatchMode::InteractiveSelector
    } else {
        DispatchMode::MissingInterface
    }
}

/// Where diagnostics go.
#[derive(Debug)]
pub enum DiagnosticsTarget {
    /// Nowhere.
    Nothing,
    /// To a file whose name is made up.
    DefaultFile,
    /// To this file.
    File(String),
}

/// Where diagnostics go.
pub open spec fn diagnostics_wanted(cli: Cli) -> Option<Option<Option<Seq<char>>>> {
    if cli.diagnostics {
        Some(Some(text_view(cli.diagnostics_output)))
    } else if cli.diagnostics_output is Some {
        None
    } else {
        Some(None)
    }
}

/// Where diagnostics go, or what to say if a file is given for diagnostics that are not
/// asked for.
pub fn diagnostics_target(cli: &Cli) -> (target: Result<DiagnosticsTarget, &'static str>)
    ensures
        match diagnostics_wanted(*cli) {
            None => target matches Err(message) && message@
                == "--diagnostics-output requires --diagnostics"@,
            Some(None) => target matches Ok(DiagnosticsTarget::Nothing),
            Some(Some(None)) => target matches Ok(DiagnosticsTarget::DefaultFile),
            Some(Some(Some(path))) => target matches Ok(DiagnosticsTarget::File(file)) && file@
                == path,
        },
{
    if !cli.diagnostics {
        if cli.diagnostics_output.is_some() {
            return Err("--diagnostics-output requires --diagnostics");
        }
        return Ok(DiagnosticsTarget::Nothing);
    }
    match clone_text(&cli.diagnostics_output) {
        Some(path) => Ok(DiagnosticsTarget::File(path)),
        None => Ok(DiagnosticsTarget::DefaultFile),
    }
}

} // verus!

//! Processing options, the verbosity setting and the logging decision.

use vstd::prelude::*;
use crate::text::{decimal, decimal_string};

verus! {

/// How much the tool reports. Each level shows its own messages and those
/// of the levels before it; errors are always shown.
#[derive(Debug, PartialEq, Eq, Clone, Copy, Structural)]
pub enum LogLevel {
    Error,
    Info,
    Verbose,
    Debug,
}

impl LogLevel {
    /// The number under which the level is stored (its position in the list).
    pub open spec fn spec_code(self) -> usize {
        match self {
            LogLevel::Error => 0,
            LogLevel::Info => 1,
            LogLevel::Verbose => 2,
            LogLevel::Debug => 3,
        }
    }

    /// The level stored under `code`; a number that names no level reads as `Info`.
    pub open spec fn spec_from_code(code: usize) -> LogLevel {
        if code == 0 {
            LogLevel::Error
        } else if code == 1 {
            LogLevel::Info
        } else if code == 2 {
            LogLevel::Verbose
        } else if code == 3 {
            LogLevel::Debug
        } else {
            LogLevel::Info
        }
    }

    pub fn code(self) -> (c: usize)
        ensures
            c == self.spec_code(),
    {
        match self {
            LogLevel::Error => 0,
            LogLevel::Info => 1,
            LogLevel::Verbose => 2,
            LogLevel::Debug => 3,
        }
    }

    pub fn from_code(code: usize) -> (level: LogLevel)
        ensures
            level == LogLevel::spec_from_code(code),
    {
        if code == 0 {
            LogLevel::Error
        } else if code == 1 {
            LogLevel::Info
        } else if code == 2 {
            LogLevel::Verbose
        } else if code == 3 {
            LogLevel::Debug
        } else {
            LogLevel::Info
        }
    }

    /// The tag that starts a printed line of this level.
    pub open spec fn spec_tag(self) -> Seq<char> {
        match self {
            LogLevel::Error => "[ERROR]"@,
            LogLevel::Info => "[INFO]"@,
            LogLevel::Verbose => "[VERBOSE]"@,
            LogLevel::Debug => "[DEBUG]"@,
        }
    }

    pub fn tag(self) -> (t: &'static str)
        ensures
            t@ == self.spec_tag(),
    {
        match self {
            LogLevel::Error => "[ERROR]",
            LogLevel::Info => "[INFO]",
            LogLevel::Verbose => "[VERBOSE]",
            LogLevel::Debug => "[DEBUG]",
        }
    }
}

/// Whether a message of `level` is printed while the setting is `current`.
pub open spec fn is_shown(level: LogLevel, current: LogLevel) -> bool {
    level == LogLevel::Error || level.spec_code() <= current.spec_code()
}

/// The level that the two command-line switches ask for; `debug` wins.
pub open spec fn requested_level(verbose: bool, debug: bool) -> LogLevel {
    if debug {
        LogLevel::Debug
    } else if verbose {
        LogLevel::Verbose
    } else {
        LogLevel::Info
    }
}

/// The process-wide verbosity setting: the raw level number that the
/// logging decisions read back.
pub struct Verbosity {
    pub code: usize,
}

impl Verbosity {
    /// The setting at start-up: `Info`.
    pub fn new() -> (v: Verbosity)
        ensures
            v.code == LogLevel::Info.spec_code(),
    {
        Verbosity { code: LogLevel::Info.code() }
    }

    /// A setting that holds the raw number `code`.
    pub fn from_code(code: usize) -> (v: Verbosity)
        ensures
            v.code == code,
    {
        Verbosity { code }
    }
}

/// Stores the level asked for by the `--verbose` and `--debug` switches.
pub fn set_verbosity_level(setting: &mut Verbosity, verbose: bool, debug: bool)
    ensures
        final(setting).code == requested_level(verbose, debug).spec_code(),
{
    let level = if debug {
        LogLevel::Debug
    } else if verbose {
        LogLevel::Verbose
    } else {
        LogLevel::Info
    };
    setting.code = level.code();
}

/// Reads the level back from the setting.
pub fn get_verbosity_level(setting: &Verbosity) -> (level: LogLevel)
    ensures
        level == LogLevel::spec_from_code(setting.code),
{
    LogLevel::from_code(setting.code)
}

/// The line printed for `message` at `level` while the setting is `current`:
/// the level's tag, a space and the message, or nothing when the level is
/// not shown.
pub fn log_line(level: LogLevel, current: LogLevel, message: &str) -> (line: Option<String>)
    ensures
        is_shown(level, current) <==> line is Some,
        line matches Some(l) ==> l@ == level.spec_tag() + " "@ + message@,
        level == current ==> line is Some,
        level == LogLevel::Error ==> line is Some,
{
    let shown = match (level, current) {
        (LogLevel::Error, _) => true,
        (LogLevel::Info, LogLevel::Info) | (LogLevel::Info, LogLevel::Verbose) | (LogLevel::Info, LogLevel::Debug) => true,
        (LogLevel::Verbose, LogLevel::Verbose) | (LogLevel::Verbose, LogLevel::Debug) => true,
        (LogLevel::Debug, LogLevel::Debug) => true,
        _ => false,
    };
    if shown {
        let line = String::from_str(level.tag()).concat(" ").concat(message);
        Some(line)
    } else {
        None
    }
}

/// Reading the setting back gives the level that was stored.
pub proof fn verbosity_read_after_write(verbose: bool, debug: bool)
    ensures
        LogLevel::spec_from_code(requested_level(verbose, debug).spec_code())
            == requested_level(verbose, debug),
{
}

/// Every level survives being stored and read back.
pub proof fn level_code_round_trip(level: LogLevel)
    ensures
        LogLevel::spec_from_code(level.spec_code()) == level,
{
}

/// A message shown at some setting is shown at every more verbose setting,
/// and errors are shown at every setting.
pub proof fn shown_at_more_verbose(level: LogLevel, current: LogLevel, more: LogLevel)
    requires
        current.spec_code() <= more.spec_code(),
    ensures
        is_shown(level, current) ==> is_shown(level, more),
        is_shown(LogLevel::Error, current),
{
}

/// How far along the list Error, Info, Verbose, Debug a level stands.
pub open spec fn verbosity_rank(level: LogLevel) -> int {
    match level {
        LogLevel::Error => 0,
        LogLevel::Info => 1,
        LogLevel::Verbose => 2,
        LogLevel::Debug => 3,
    }
}

/// Every level is shown at its own setting: `--verbose` prints verbose
/// messages, `--debug` prints debug messages, and the default prints
/// information.
pub proof fn each_level_shown_at_its_own_setting(level: LogLevel)
    ensures
        is_shown(level, level),
{
}

/// A message is shown exactly when it is an error or its level comes no
/// later in the list Error, Info, Verbose, Debug than the setting.
pub proof fn shown_exactly_up_to_the_setting(level: LogLevel, current: LogLevel)
    ensures
        is_shown(level, current) <==> (level == LogLevel::Error
            || verbosity_rank(level) <= verbosity_rank(current)),
{
}

/// The image preprocessing applied before detection.
#[derive(Debug, PartialEq, Eq, Clone, Copy, Structural)]
pub enum PreprocessingMode {
    NoPreprocessing,
    NetworkOptimized,
}

/// The message of the error for an unknown mode number.
pub open spec fn invalid_mode_message(value: u8) -> Seq<char> {
    "Invalid preprocessing mode: "@ + decimal(value as nat)
}

impl PreprocessingMode {
    /// The mode named by a command-line number: 0 is none, 1 is the
    /// network-optimised resizing; any other number is an error.
    pub fn from_u8(value: u8) -> (r: Result<Self, String>)
        ensures
            value == 0 ==> r == Ok::<Self, String>(PreprocessingMode::NoPreprocessing),
            value == 1 ==> r == Ok::<Self, String>(PreprocessingMode::NetworkOptimized),
            value > 1 ==> (r matches Err(e) && e@ == invalid_mode_message(value)),
    {
        match value {
            0 => Ok(PreprocessingMode::NoPreprocessing),
            1 => Ok(PreprocessingMode::NetworkOptimized),
            _ => {
                let digits = decimal_string(value as u64);
                let message = String::from_str("Invalid preprocessing mode: ").concat(digits.as_str());
                Err(message)
            },
        }
    }
}

/// What the processing of each image is told.
pub struct ProcessingConfig {
    pub debug_enabled: bool,
    pub prefix: String,
    pub preprocess_mode: PreprocessingMode,
    pub output_dir: Option<String>,
}

impl Clone for ProcessingConfig {
    fn clone(&self) -> (c: Self)
        ensures
            c == *self,
    {
        let output_dir = match &self.output_dir {
            Some(dir) => Some(dir.clone()),
            None => None,
        };
        ProcessingConfig {
            debug_enabled: self.debug_enabled,
            prefix: self.prefix.clone(),
            preprocess_mode: self.preprocess_mode,
            output_dir,
        }
    }
}

/// The files written for one input image.
pub struct ProcessingResult {
    pub input_path: String,
    pub output_files: Vec<String>,
}

} // verus!

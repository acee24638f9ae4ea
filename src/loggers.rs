//! Log sinks: which records they keep, how a record is written out, what is
//! written when the sink's own destination fails, and the set-once slot of
//! the process-wide sink.
use vstd::prelude::*;
use crate::token::chars_to_string;

verus! {

/// Severity of a log record, from the most severe to the most verbose.
#[derive(Clone, Copy, PartialEq, Eq, Structural, Debug)]
pub enum LogLevel {
    Error,
    Warn,
    Info,
    Debug,
    Trace,
}

/// The level that every `setup_default` uses: every record is kept.
pub const DEFAULT_MAX_LOG_LEVEL: LogLevel = LogLevel::Trace;

/// Rank of a level: 1 for the most severe, 5 for the most verbose.
pub open spec fn verbosity(l: LogLevel) -> nat {
    match l {
        LogLevel::Error => 1,
        LogLevel::Warn => 2,
        LogLevel::Info => 3,
        LogLevel::Debug => 4,
        LogLevel::Trace => 5,
    }
}

pub open spec fn level_name(l: LogLevel) -> Seq<char> {
    match l {
        LogLevel::Error => "ERROR"@,
        LogLevel::Warn => "WARN"@,
        LogLevel::Info => "INFO"@,
        LogLevel::Debug => "DEBUG"@,
        LogLevel::Trace => "TRACE"@,
    }
}

/// Whether a record of `level` passes a sink that keeps `max` and what is more severe.
pub fn level_enabled(level: LogLevel, max: LogLevel) -> (r: bool)
    ensures
        r == (verbosity(level) <= verbosity(max)),
{
    level_rank(level) <= level_rank(max)
}

fn level_rank(l: LogLevel) -> (r: u8)
    ensures
        r as nat == verbosity(l),
{
    match l {
        LogLevel::Error => 1,
        LogLevel::Warn => 2,
        LogLevel::Info => 3,
        LogLevel::Debug => 4,
        LogLevel::Trace => 5,
    }
}

fn level_str(l: LogLevel) -> (r: &'static str)
    ensures
        r@ == level_name(l),
{
    match l {
        LogLevel::Error => "ERROR",
        LogLevel::Warn => "WARN",
        LogLevel::Info => "INFO",
        LogLevel::Debug => "DEBUG",
        LogLevel::Trace => "TRACE",
    }
}

/// A record handed to a sink.
pub struct LogRecord {
    pub level: LogLevel,
    /// Source file the record comes from.
    pub file: String,
    /// Line in that file.
    pub line: u32,
    /// Label of the part of the program that logs.
    pub target: String,
    pub message: String,
}

pub open spec fn digit_char(d: nat) -> char {
    ((48 + d) as u8) as char
}

/// `n` in decimal, without leading zeros.
pub open spec fn decimal(n: nat) -> Seq<char>
    decreases n,
{
    if n < 10 {
        seq![digit_char(n)]
    } else {
        decimal(n / 10).push(digit_char(n % 10))
    }
}

/// A record as one line: `[level][file:line][target] message`.
pub open spec fn record_text(r: &LogRecord) -> Seq<char> {
    "["@ + level_name(r.level) + "]["@ + r.file@ + ":"@ + decimal(r.line as nat) + "]["@ + r.target@
        + "] "@ + r.message@
}

fn push_decimal(out: &mut Vec<char>, n: u32)
    ensures
        final(out)@ == old(out)@ + decimal(n as nat),
    decreases n,
{
    if n >= 10 {
        push_decimal(out, n / 10);
    }
    out.push((48u8 + (n % 10) as u8) as char);
    assert(final(out)@ =~= old(out)@ + decimal(n as nat));
}

/// Formats a record into the line a sink writes.
pub fn _log_format(message: &LogRecord) -> (r: String)
    ensures
        r@ == record_text(message),
{
    let mut digits: Vec<char> = Vec::new();
    push_decimal(&mut digits, message.line);
    let line = chars_to_string(&digits);
    let mut out = String::from_str("[");
    out.append(level_str(message.level));
    out.append("][");
    out.append(message.file.as_str());
    out.append(":");
    out.append(line.as_str());
    out.append("][");
    out.append(message.target.as_str());
    out.append("] ");
    out.append(message.message.as_str());
    out
}

/// The destination a sink writes to.
#[derive(Clone, Copy, PartialEq, Eq, Structural, Debug)]
pub enum SinkKind {
    /// The standard error stream.
    Console,
    /// A log file.
    File,
}

pub open spec fn failure_notice(sink: SinkKind) -> Seq<char> {
    match sink {
        SinkKind::Console => "Stderr is unreachable! Please consider using another logger: "@,
        SinkKind::File => "Could not write to logfile: "@,
    }
}

/// The lines written to standard output when `sink` could not take `record`
/// for `reason`: a notice of the failure, then the record itself.
pub fn fallback_lines(sink: SinkKind, reason: &str, record: &LogRecord) -> (r: Vec<String>)
    ensures
        r@.len() == 2,
        r@[0]@ == failure_notice(sink) + reason@,
        r@[1]@ == record_text(record),
{
    let mut notice = match sink {
        SinkKind::Console => String::from_str("Stderr is unreachable! Please consider using another logger: "),
        SinkKind::File => String::from_str("Could not write to logfile: "),
    };
    notice.append(reason);
    let mut r: Vec<String> = Vec::new();
    r.push(notice);
    r.push(_log_format(record));
    r
}

/// A sink that writes every record at or above its level to standard error.
pub struct StdLogger(pub LogLevel);

impl StdLogger {
    /// The sink to install that keeps records up to `max_level`.
    pub fn setup(max_level: LogLevel) -> (r: StdLogger)
        ensures
            r.0 == max_level,
    {
        StdLogger(max_level)
    }

    /// The sink to install that keeps every record.
    pub fn setup_default() -> (r: StdLogger)
        ensures
            r.0 == DEFAULT_MAX_LOG_LEVEL,
    {
        StdLogger::setup(DEFAULT_MAX_LOG_LEVEL)
    }

    pub fn enabled(&self, level: LogLevel) -> (r: bool)
        ensures
            r == (verbosity(level) <= verbosity(self.0)),
    {
        level_enabled(level, self.0)
    }

    /// The line to write for `record`, or `None` where the sink drops it.
    pub fn render(&self, record: &LogRecord) -> (r: Option<String>)
        ensures
            r is Some <==> verbosity(record.level) <= verbosity(self.0),
            r matches Some(s) ==> s@ == record_text(record),
    {
        if self.enabled(record.level) {
            Some(_log_format(record))
        } else {
            None
        }
    }
}

/// Why installing a process-wide sink failed.
#[derive(Clone, Copy, PartialEq, Eq, Structural, Debug)]
pub enum InstallError {
    /// A sink is installed already; it stays.
    DoubleInstall,
}

/// The set-once slot that holds the level of the installed sink.
pub struct InstallSlot {
    installed: Option<LogLevel>,
}

impl InstallSlot {
    pub closed spec fn installed(&self) -> Option<LogLevel> {
        self.installed
    }

    pub fn new() -> (r: InstallSlot)
        ensures
            r.installed() is None,
    {
        InstallSlot { installed: None }
    }

    /// The level of the installed sink, if any.
    pub fn current(&self) -> (r: Option<LogLevel>)
        ensures
            r == self.installed(),
    {
        self.installed
    }

    /// Installs a sink of `max_level` where none is; else reports
    /// `DoubleInstall` and leaves the slot as it is.
    pub fn install(&mut self, max_level: LogLevel) -> (r: Result<(), InstallError>)
        ensures
            (r, final(self).installed()) == install_result(old(self).installed(), max_level),
    {
        match self.installed {
            Some(_) => Err(InstallError::DoubleInstall),
            None => {
                self.installed = Some(max_level);
                Ok(())
            },
        }
    }
}

/// What installing a sink of `level` gives on a slot holding `before`: the
/// result, and what the slot holds after.
pub open spec fn install_result(before: Option<LogLevel>, level: LogLevel) -> (
    Result<(), InstallError>,
    Option<LogLevel>,
) {
    match before {
        None => (Ok(()), Some(level)),
        Some(_) => (Err(InstallError::DoubleInstall), before),
    }
}

/// Installing on an empty slot succeeds; installing again after it is
/// refused with `DoubleInstall`, and the first sink stays.
pub proof fn lemma_install_once(a: LogLevel, b: LogLevel)
    ensures
        install_result(None, a) == (Ok::<(), InstallError>(()), Some(a)),
        install_result(Some(a), b) == (
            Err::<(), InstallError>(InstallError::DoubleInstall),
            Some(a),
        ),
{
}

} // verus!

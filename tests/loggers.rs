use fur::loggers::{
    _log_format, fallback_lines, level_enabled, InstallError, InstallSlot, LogLevel, LogRecord, SinkKind,
    StdLogger, DEFAULT_MAX_LOG_LEVEL,
};

fn record(level: LogLevel, line: u32) -> LogRecord {
    LogRecord {
        level,
        file: String::from("src/lib.rs"),
        line,
        target: String::from("fur"),
        message: String::from("hello there"),
    }
}

#[test]
fn record_format() {
    assert_eq!(_log_format(&record(LogLevel::Info, 163)), "[INFO][src/lib.rs:163][fur] hello there");
    assert_eq!(_log_format(&record(LogLevel::Error, 0)), "[ERROR][src/lib.rs:0][fur] hello there");
    assert_eq!(
        _log_format(&record(LogLevel::Trace, 4294967295)),
        "[TRACE][src/lib.rs:4294967295][fur] hello there"
    );
}

#[test]
fn level_filter() {
    assert!(level_enabled(LogLevel::Error, LogLevel::Warn));
    assert!(level_enabled(LogLevel::Warn, LogLevel::Warn));
    assert!(!level_enabled(LogLevel::Info, LogLevel::Warn));
    let l = StdLogger::setup(LogLevel::Info);
    assert!(l.enabled(LogLevel::Error));
    assert!(!l.enabled(LogLevel::Debug));
    assert!(l.render(&record(LogLevel::Trace, 1)).is_none());
    assert_eq!(l.render(&record(LogLevel::Warn, 7)).unwrap(), "[WARN][src/lib.rs:7][fur] hello there");
}

#[test]
fn default_logger_keeps_everything() {
    let l = StdLogger::setup_default();
    assert_eq!(l.0, DEFAULT_MAX_LOG_LEVEL);
    for lv in [LogLevel::Error, LogLevel::Warn, LogLevel::Info, LogLevel::Debug, LogLevel::Trace] {
        assert!(l.enabled(lv));
    }
}

#[test]
fn fallback_keeps_the_message() {
    let lines = fallback_lines(SinkKind::File, "closed handle", &record(LogLevel::Debug, 12));
    assert_eq!(lines.len(), 2);
    assert_eq!(lines[0], "Could not write to logfile: closed handle");
    assert_eq!(lines[1], "[DEBUG][src/lib.rs:12][fur] hello there");
    let lines = fallback_lines(SinkKind::Console, "broken pipe", &record(LogLevel::Error, 3));
    assert_eq!(lines[0], "Stderr is unreachable! Please consider using another logger: broken pipe");
    assert_eq!(lines[1], "[ERROR][src/lib.rs:3][fur] hello there");
}

#[test]
fn second_install_is_refused() {
    let mut slot = InstallSlot::new();
    assert_eq!(slot.current(), None);
    assert_eq!(slot.install(LogLevel::Trace), Ok(()));
    assert_eq!(slot.install(LogLevel::Error), Err(InstallError::DoubleInstall));
    assert_eq!(slot.current(), Some(LogLevel::Trace));
}

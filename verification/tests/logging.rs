use salmon_watch::logging::{component_name, is_enabled, log_line, Level, LogLevel};

#[test]
fn parses_supported_log_levels_case_insensitively() {
    assert_eq!("trace".parse::<LogLevel>().unwrap(), LogLevel::Trace);
    assert_eq!("DEBUG".parse::<LogLevel>().unwrap(), LogLevel::Debug);
    assert_eq!("info".parse::<LogLevel>().unwrap(), LogLevel::Info);
    assert_eq!("warn".parse::<LogLevel>().unwrap(), LogLevel::Warn);
    assert_eq!("warning".parse::<LogLevel>().unwrap(), LogLevel::Warn);
    assert_eq!("error".parse::<LogLevel>().unwrap(), LogLevel::Error);
    assert!("quiet".parse::<LogLevel>().is_err());
}

#[test]
fn derives_readable_component_names_from_log_targets() {
    assert_eq!(component_name("salmon_watch"), "");
    assert_eq!(component_name("salmon_watch::runtime"), "runtime");
    assert_eq!(
        component_name("salmon_watch::network::client"),
        "network::client"
    );
    assert_eq!(component_name("some_dependency"), "");
}

#[test]
fn unknown_log_level_is_quoted_in_the_refusal() {
    assert_eq!(
        LogLevel::named("qui\"et").unwrap_err(),
        "invalid log level \"qui\\\"et\"; expected trace, debug, info, warn, or error"
    );
    assert_eq!(
        "loud".parse::<LogLevel>().unwrap_err(),
        "invalid log level \"loud\"; expected trace, debug, info, warn, or error"
    );
}

#[test]
fn only_own_records_up_to_the_limit_are_logged() {
    assert!(is_enabled("salmon_watch", Level::Info, Some(Level::Info)));
    assert!(is_enabled("salmon_watch::tray", Level::Warn, Some(Level::Info)));
    assert!(!is_enabled("salmon_watch::tray", Level::Debug, Some(Level::Info)));
    assert!(!is_enabled("salmon_watcher", Level::Error, Some(Level::Trace)));
    assert!(!is_enabled("salmon_watch", Level::Error, None));
    assert_eq!(LogLevel::Warn.filter(), Level::Warn);
}

#[test]
fn log_lines_name_the_component_where_there_is_one() {
    assert_eq!(
        log_line("2026-09-07 10:00:00", Level::Info, "salmon_watch", "hello"),
        "2026-09-07 10:00:00 INFO salmon-watch: hello"
    );
    assert_eq!(
        log_line("2026-09-07 10:00:00", Level::Error, "salmon_watch::tray", "x"),
        "2026-09-07 10:00:00 ERROR salmon-watch[tray]: x"
    );
}

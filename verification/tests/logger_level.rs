use bettertui_engine::logger::{Level, LoggerConfig};

#[test]
fn level_conversions() {
    assert_eq!(Level::from_str("trace"), Some(Level::Trace));
    assert_eq!(Level::from_str("DEBUG"), Some(Level::Debug));
    assert_eq!(Level::from_str("Info"), Some(Level::Info));
    assert_eq!(Level::from_str("warn"), Some(Level::Warn));
    assert_eq!(Level::from_str("ERROR"), Some(Level::Error));
    assert_eq!(Level::from_str("invalid"), None);
}

#[test]
fn level_ordering() {
    assert!(Level::Trace < Level::Debug);
    assert!(Level::Debug < Level::Info);
    assert!(Level::Info < Level::Warn);
    assert!(Level::Warn < Level::Error);
}

#[test]
fn level_as_str() {
    assert_eq!(Level::Trace.as_str(), "trace");
    assert_eq!(Level::Debug.as_str(), "debug");
    assert_eq!(Level::Info.as_str(), "info");
    assert_eq!(Level::Warn.as_str(), "warn");
    assert_eq!(Level::Error.as_str(), "error");
}

#[test]
fn default_config() {
    let config = LoggerConfig::default();
    assert_eq!(config.level, Level::Info);
    assert!(config.color);
    assert!(config.timestamp);
    assert!(config.module);
    assert!(!config.thread);
    assert!(!config.dev);
    assert!(config.file.is_none());
}


#[test]
fn level_lowercase_names_and_defaults() {
    assert_eq!(Level::from_lowercase("warn"), Some(Level::Warn));
    assert_eq!(Level::from_lowercase("WARN"), None);
    assert_eq!(Level::from_str(" info"), None);
    let config = LoggerConfig::default();
    assert_eq!(config.max_file_size, Some(10 * 1024 * 1024));
    assert_eq!(config.max_files, Some(5));
}

#[test]
fn level_ranks_round_trip() {
    for level in [Level::Trace, Level::Debug, Level::Info, Level::Warn, Level::Error] {
        assert_eq!(Level::from_u8(level.as_u8()), level);
    }
    assert_eq!(Level::Trace.as_u8(), 0);
    assert_eq!(Level::Error.as_u8(), 4);
    assert_eq!(Level::from_u8(200), Level::Error);
}

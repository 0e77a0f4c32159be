use file_suite::log_level::{Level, LevelFilter, LogLevel, LogLevelFilter};

#[test]
fn level_defaults() {
    assert_eq!(Level::default_for(true).into_inner(), LogLevel::Trace);
    assert_eq!(Level::default_for(false).into_inner(), LogLevel::Info);
    assert_eq!(LevelFilter::default_for(true).into_inner(), LogLevelFilter::Trace);
    assert_eq!(LevelFilter::default_for(false).into_inner(), LogLevelFilter::Info);
}

#[test]
fn level_names_roundtrip() {
    for level in Level::value_variants() {
        assert_eq!(Level::from_str(level.name(), false), Ok(level));
    }
    for filter in LevelFilter::value_variants() {
        assert_eq!(LevelFilter::from_str(filter.name(), false), Ok(filter));
    }
    assert_eq!(Level::value_variants().len(), 5);
    assert_eq!(LevelFilter::value_variants().len(), 6);
}

#[test]
fn level_parse_case() {
    assert_eq!(Level::from_str("debug", false), Ok(Level(LogLevel::Debug)));
    assert_eq!(Level::from_str("WARN", false), Ok(Level(LogLevel::Warn)));
    assert_eq!(Level::from_str("wArN", true), Ok(Level(LogLevel::Warn)));
    assert_eq!(LevelFilter::from_str("off", false), Ok(LevelFilter(LogLevelFilter::Off)));
}

#[test]
fn level_parse_errors() {
    assert_eq!(Level::from_str("wArN", false), Err(String::from("invalid variant: wArN")));
    assert_eq!(Level::from_str("off", false), Err(String::from("invalid variant: off")));
    assert_eq!(LevelFilter::from_str("", true), Err(String::from("invalid variant: ")));
}

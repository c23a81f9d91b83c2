use aidbox_generator::verbosity::{level_enum, level_value, log_level_filter, set_verbosity, Level, LevelFilter};

#[test]
fn level_enum_table() {
    assert_eq!(level_enum(i8::MIN), None);
    assert_eq!(level_enum(-1), None);
    assert_eq!(level_enum(0), Some(Level::Error));
    assert_eq!(level_enum(1), Some(Level::Warn));
    assert_eq!(level_enum(2), Some(Level::Info));
    assert_eq!(level_enum(3), Some(Level::Debug));
    assert_eq!(level_enum(4), Some(Level::Trace));
    assert_eq!(level_enum(i8::MAX), Some(Level::Trace));
}

#[test]
fn level_value_table() {
    assert_eq!(level_value(None), -1);
    assert_eq!(level_value(Some(Level::Error)), 0);
    assert_eq!(level_value(Some(Level::Warn)), 1);
    assert_eq!(level_value(Some(Level::Info)), 2);
    assert_eq!(level_value(Some(Level::Debug)), 3);
    assert_eq!(level_value(Some(Level::Trace)), 4);
}

#[test]
fn log_level_filter_table() {
    assert_eq!(log_level_filter(-3), LevelFilter::Off);
    assert_eq!(log_level_filter(0), LevelFilter::Error);
    assert_eq!(log_level_filter(1), LevelFilter::Warn);
    assert_eq!(log_level_filter(2), LevelFilter::Info);
    assert_eq!(log_level_filter(3), LevelFilter::Debug);
    assert_eq!(log_level_filter(9), LevelFilter::Trace);
}

#[test]
fn set_verbosity_counts_flags() {
    assert_eq!(set_verbosity(Some(Level::Info), 0, 0), 2);
    assert_eq!(set_verbosity(Some(Level::Info), 1, 0), 1);
    assert_eq!(set_verbosity(Some(Level::Info), 3, 0), -1);
    assert_eq!(set_verbosity(Some(Level::Info), 0, 2), 4);
    assert_eq!(set_verbosity(None, 0, 1), 0);
    assert_eq!(log_level_filter(set_verbosity(Some(Level::Info), 0, 1)), LevelFilter::Debug);
}

use paper::{Config, Level, LogConfig, Notice, Setting, Settings};
use paper::config::{default_starship_log, default_wrap, same_level};

#[test]
fn log_config_default_writes_warnings() {
    let config = LogConfig::default();
    assert_eq!(config.level, Level::Warn);
    assert!(!config.is_starship_enabled);
}

#[test]
fn log_config_level_follows_verbosity() {
    assert_eq!(LogConfig::new(0, None).level, Level::Warn);
    assert_eq!(LogConfig::new(1, None).level, Level::Info);
    assert_eq!(LogConfig::new(2, None).level, Level::Debug);
    assert_eq!(LogConfig::new(3, None).level, Level::Trace);
    assert_eq!(LogConfig::new(u64::MAX, None).level, Level::Trace);
}

#[test]
fn log_config_client_records_only_when_named() {
    assert!(LogConfig::new(0, Some("starship")).is_starship_enabled);
    assert!(!LogConfig::new(0, None).is_starship_enabled);
    assert!(!LogConfig::new(0, Some("")).is_starship_enabled);
    assert!(!LogConfig::new(0, Some("starshi")).is_starship_enabled);
    assert!(!LogConfig::new(0, Some("starships")).is_starship_enabled);
    assert!(!LogConfig::new(0, Some("Starship")).is_starship_enabled);
}

#[test]
fn client_records_are_written_only_when_enabled() {
    let quiet = LogConfig::new(1, None);
    assert!(!quiet.enabled("starship"));
    assert!(!quiet.enabled("starship::client"));
    assert!(quiet.enabled("paper"));
    assert!(quiet.enabled("paper::starship"));
    assert!(quiet.enabled("starshi"));
    assert!(quiet.enabled(""));
    let loud = LogConfig::new(1, Some("starship"));
    assert!(loud.enabled("starship"));
    assert!(loud.enabled("starship::client"));
    assert!(loud.enabled("paper"));
}

#[test]
fn config_defaults() {
    assert!(!default_wrap());
    assert_eq!(default_starship_log(), Level::Off);
    assert_eq!(Config::default(), Config::new(false, Level::Off));
}

#[test]
fn config_changes_lists_what_differs() {
    let old = Config::new(false, Level::Off);
    assert_eq!(old.changes(&Config::new(false, Level::Off)), Vec::<Setting>::new());
    assert_eq!(old.changes(&Config::new(true, Level::Off)), vec![Setting::Wrap(true)]);
    assert_eq!(
        old.changes(&Config::new(false, Level::Debug)),
        vec![Setting::StarshipLog(Level::Debug)]
    );
    assert_eq!(
        old.changes(&Config::new(true, Level::Trace)),
        vec![Setting::Wrap(true), Setting::StarshipLog(Level::Trace)]
    );
    assert_eq!(
        Config::new(true, Level::Info).changes(&Config::default()),
        vec![Setting::Wrap(false), Setting::StarshipLog(Level::Off)]
    );
}

#[test]
fn same_level_compares_levels() {
    let levels = [Level::Off, Level::Error, Level::Warn, Level::Info, Level::Debug, Level::Trace];
    for (i, a) in levels.iter().enumerate() {
        for (j, b) in levels.iter().enumerate() {
            assert_eq!(same_level(*a, *b), i == j);
        }
    }
}

#[test]
fn settings_ask_for_the_file() {
    assert_eq!(Settings::default().file, None);
    assert_eq!(Settings::default().opening(), None);
    let settings = Settings::new(Some("notes.txt".to_string()));
    assert_eq!(settings.file, Some("notes.txt".to_string()));
    assert_eq!(settings.opening(), Some(Notice::Load("notes.txt".to_string())));
    assert_eq!(Settings::new(None).opening(), None);
}

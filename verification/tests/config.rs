use anime_dl::config::{
    default_file_format, default_path, default_provider, parse_bool, update_accepts, Config,
    ConfigError, ConfigField,
};

#[test]
fn defaults() {
    let c = Config::default();
    assert!(c.check_for_updates);
    assert_eq!(c.verbosity, 0);
    assert_eq!(c.download_directory, ".");
    assert_eq!(c.file_format, "{anime_title}/{episode_title}_{episode_number}.{file_format}");
    assert_eq!(c.default_provider, "animeonsen");
    assert_eq!(default_path(), ".");
    assert_eq!(default_provider(), "animeonsen");
    assert_eq!(default_file_format(), c.file_format);
}

#[test]
fn get_reads_each_setting() {
    let c = Config::default();
    assert!(matches!(c.get("check_for_updates"), Ok(ConfigField::CheckForUpdates(true))));
    assert!(matches!(c.get("verbosity"), Ok(ConfigField::Verbosity(0))));
    match c.get("download_directory") {
        Ok(ConfigField::DownloadDirectory(d)) => assert_eq!(d, "."),
        other => panic!("{:?}", other),
    }
    match c.get("colour") {
        Err(ConfigError::UnknownField(f)) => assert_eq!(f, "colour"),
        other => panic!("{:?}", other),
    }
}

#[test]
fn update_then_get_reads_back_the_value() {
    let c = Config::default().update("verbosity", "3").unwrap();
    assert!(matches!(c.get("verbosity"), Ok(ConfigField::Verbosity(3))));
    assert!(c.check_for_updates);
    let c = c.update("check_for_updates", "false").unwrap();
    assert!(matches!(c.get("check_for_updates"), Ok(ConfigField::CheckForUpdates(false))));
    assert_eq!(c.verbosity, 3);
    let c = c.update("file_format", "{episode_number}.mp4").unwrap();
    match c.get("file_format") {
        Ok(ConfigField::FileFormat(f)) => assert_eq!(f, "{episode_number}.mp4"),
        other => panic!("{:?}", other),
    }
    assert!(matches!(Config::default().update("nope", "1"), Err(ConfigError::UnknownField(_))));
}

#[test]
fn accepted_values() {
    assert!(update_accepts("verbosity", "12"));
    assert!(!update_accepts("verbosity", "-1"));
    assert!(!update_accepts("check_for_updates", "yes"));
    assert!(update_accepts("download_directory", "anything"));
    assert!(update_accepts("unknown", "x"));
    assert_eq!(parse_bool("true"), Some(true));
    assert_eq!(parse_bool("True"), None);
}

use scanmem::cli::CliArgs;
use scanmem::scanroutines::{MatchType, ScanDataType};
use scanmem::settings::{
    data_type_label, match_type_label, parse_scan_data_type, parse_scan_match_type, resolve,
    FileConfig, FileTheme, LogLevel, Settings, SettingsError,
};

fn no_args() -> CliArgs {
    CliArgs { pid: None, config: None, theme: None }
}

#[test]
fn defaults_when_nothing_is_provided() {
    let settings =
        resolve(&no_args(), None, None, "/tmp").expect("resolve should succeed with no config file");
    assert_eq!(settings, Settings::default());
}

#[test]
fn cli_pid_is_resolved() {
    let cli = CliArgs { pid: Some(1234), ..no_args() };
    let settings = resolve(&cli, None, None, "/tmp").expect("resolve should succeed");
    assert_eq!(settings.pid, Some(1234));
}

#[test]
fn file_config_defaults_to_every_field_none() {
    let config = FileConfig::default();
    assert_eq!(config, FileConfig::default());
    assert_eq!(config.pid, None);
    assert_eq!(config.hex_view_buffer_len, None);
    assert_eq!(config.default_scan_data_type, None);
    assert_eq!(config.default_scan_match_type, None);
}

#[test]
fn file_theme_defaults_to_every_field_none() {
    let theme = FileTheme::default();
    assert_eq!(theme, FileTheme::default());
    assert_eq!(theme.focused_border, None);
    assert_eq!(theme.match_changed, None);
    assert_eq!(theme.frozen, None);
}

#[test]
fn cli_config_pid_is_resolved_and_cli_flag_overrides_it() {
    let file = FileConfig {
        pid: Some(1111),
        log_level: Some("debug".to_owned()),
        ..FileConfig::default()
    };
    let settings = resolve(&no_args(), Some(file.clone()), None, "/tmp").expect("valid config");
    assert_eq!(settings.pid, Some(1111));
    assert_eq!(settings.log_level, LogLevel::Debug);

    let cli = CliArgs { pid: Some(2222), ..no_args() };
    let settings = resolve(&cli, Some(file), None, "/tmp").expect("valid config");
    assert_eq!(settings.pid, Some(2222));
}

#[test]
fn cli_config_with_an_invalid_scan_data_type_errors() {
    let file = FileConfig {
        default_scan_data_type: Some("not-a-type".to_owned()),
        ..FileConfig::default()
    };
    let err = resolve(&no_args(), Some(file), None, "/tmp").expect_err("unknown data type");
    assert!(matches!(err, SettingsError::InvalidScanDataType(_)));
}

#[test]
fn config_with_an_invalid_log_level_or_match_type_errors() {
    let file = FileConfig { log_level: Some("loud".to_owned()), ..FileConfig::default() };
    assert_eq!(
        resolve(&no_args(), Some(file), None, "/tmp"),
        Err(SettingsError::InvalidLogLevel("loud".to_owned()))
    );
    let file = FileConfig {
        default_scan_match_type: Some("~".to_owned()),
        ..FileConfig::default()
    };
    assert_eq!(
        resolve(&no_args(), Some(file), None, "/tmp"),
        Err(SettingsError::InvalidScanMatchType("~".to_owned()))
    );
}

#[test]
fn cli_theme_is_carried_through_unparsed() {
    let theme = FileTheme { focused_border: Some("magenta".to_owned()), ..FileTheme::default() };
    let settings = resolve(&no_args(), None, Some(theme), "/tmp").expect("resolve");
    assert_eq!(settings.theme.focused_border.as_deref(), Some("magenta"));
}

#[test]
fn config_fields_override_the_defaults() {
    let file = FileConfig {
        log_file: Some("/var/log/gc.log".to_owned()),
        poll_interval_ms: Some(250),
        hex_view_buffer_len: Some(512),
        default_scan_data_type: Some("f64".to_owned()),
        default_scan_match_type: Some("range".to_owned()),
        log_level: Some("ERROR".to_owned()),
        ..FileConfig::default()
    };
    let settings = resolve(&no_args(), Some(file), None, "/var/tmp").expect("resolve");
    assert_eq!(settings.log_file, "/var/log/gc.log");
    assert_eq!(settings.poll_interval_ms, 250);
    assert_eq!(settings.hex_view_buffer_len, 512);
    assert_eq!(settings.default_scan_data_type, ScanDataType::Float64);
    assert_eq!(settings.default_scan_match_type, MatchType::Range);
    assert_eq!(settings.log_level, LogLevel::Error);
}

#[test]
fn the_log_defaults_into_the_temp_dir() {
    let settings = resolve(&no_args(), None, None, "/var/tmp").expect("resolve");
    assert_eq!(settings.log_file, "/var/tmp/gameconqueror.log");
    assert_eq!(Settings::default().log_file, "/tmp/gameconqueror.log");
}

#[test]
fn numeric_log_levels_count_up_in_verbosity() {
    for (text, level) in [
        ("0", LogLevel::Off),
        ("1", LogLevel::Error),
        ("2", LogLevel::Warn),
        ("3", LogLevel::Info),
        ("4", LogLevel::Debug),
        ("5", LogLevel::Trace),
        ("Trace", LogLevel::Trace),
        ("OFF", LogLevel::Off),
    ] {
        let file = FileConfig { log_level: Some(text.to_owned()), ..FileConfig::default() };
        let settings = resolve(&no_args(), Some(file), None, "/tmp").expect("resolve");
        assert_eq!(settings.log_level, level, "{text}");
    }
}

#[test]
fn scan_type_names_round_trip() {
    for t in [
        ScanDataType::AnyNumber,
        ScanDataType::AnyInteger,
        ScanDataType::AnyFloat,
        ScanDataType::Integer8,
        ScanDataType::Integer16,
        ScanDataType::Integer32,
        ScanDataType::Integer64,
        ScanDataType::Float32,
        ScanDataType::Float64,
        ScanDataType::ByteArray,
        ScanDataType::String,
    ] {
        assert_eq!(parse_scan_data_type(data_type_label(t)), Some(t));
    }
    for t in [
        MatchType::Any,
        MatchType::EqualTo,
        MatchType::NotEqualTo,
        MatchType::GreaterThan,
        MatchType::LessThan,
        MatchType::Range,
        MatchType::Update,
        MatchType::NotChanged,
        MatchType::Changed,
        MatchType::Increased,
        MatchType::Decreased,
        MatchType::IncreasedBy,
        MatchType::DecreasedBy,
    ] {
        assert_eq!(parse_scan_match_type(match_type_label(t)), Some(t));
    }
    assert_eq!(parse_scan_data_type("I32"), None);
}

#[test]
fn settings_error_messages_name_the_bad_value() {
    assert!(SettingsError::InvalidScanDataType("x".to_owned()).message().contains("\"x\""));
}

use cropgun::config::{
    get_verbosity_level, log_line, set_verbosity_level, LogLevel, PreprocessingMode, ProcessingConfig,
    Verbosity,
};
use cropgun::text::{decimal_string, matches_prefix};

#[test]
fn decimal_renders_numbers() {
    assert_eq!(decimal_string(0), "0");
    assert_eq!(decimal_string(7), "7");
    assert_eq!(decimal_string(10), "10");
    assert_eq!(decimal_string(255), "255");
    assert_eq!(decimal_string(1234567890), "1234567890");
    assert_eq!(decimal_string(u64::MAX), u64::MAX.to_string());
}

#[test]
fn prefix_matching() {
    assert!(matches_prefix("IMG_001.png", "IMG_"));
    assert!(!matches_prefix("photo.png", "IMG_"));
    assert!(!matches_prefix("IM", "IMG_"));
    assert!(matches_prefix("anything", ""));
    assert!(matches_prefix("IMG_", "IMG_"));
    assert!(matches_prefix("ümlaut.png", "üm"));
    assert!(!matches_prefix("img_001.png", "IMG_"));
}

#[test]
fn verbosity_starts_at_info() {
    assert_eq!(get_verbosity_level(&Verbosity::new()), LogLevel::Info);
}

#[test]
fn verbosity_set_then_get() {
    let mut v = Verbosity::new();
    set_verbosity_level(&mut v, false, false);
    assert_eq!(get_verbosity_level(&v), LogLevel::Info);
    set_verbosity_level(&mut v, true, false);
    assert_eq!(get_verbosity_level(&v), LogLevel::Verbose);
    set_verbosity_level(&mut v, false, true);
    assert_eq!(get_verbosity_level(&v), LogLevel::Debug);
    set_verbosity_level(&mut v, true, true);
    assert_eq!(get_verbosity_level(&v), LogLevel::Debug);
}

#[test]
fn unknown_level_numbers_read_as_info() {
    assert_eq!(get_verbosity_level(&Verbosity::from_code(0)), LogLevel::Error);
    assert_eq!(get_verbosity_level(&Verbosity::from_code(3)), LogLevel::Debug);
    assert_eq!(get_verbosity_level(&Verbosity::from_code(4)), LogLevel::Info);
    assert_eq!(get_verbosity_level(&Verbosity::from_code(usize::MAX)), LogLevel::Info);
    assert_eq!(LogLevel::Verbose.code(), 2);
    assert_eq!(LogLevel::from_code(LogLevel::Error.code()), LogLevel::Error);
}

#[test]
fn log_lines_follow_the_setting() {
    assert_eq!(log_line(LogLevel::Error, LogLevel::Error, "boom"), Some("[ERROR] boom".to_string()));
    assert_eq!(log_line(LogLevel::Info, LogLevel::Error, "hi"), None);
    assert_eq!(log_line(LogLevel::Info, LogLevel::Info, "hi"), Some("[INFO] hi".to_string()));
    assert_eq!(log_line(LogLevel::Verbose, LogLevel::Info, "v"), None);
    assert_eq!(log_line(LogLevel::Verbose, LogLevel::Debug, "v"), Some("[VERBOSE] v".to_string()));
    assert_eq!(log_line(LogLevel::Debug, LogLevel::Verbose, "d"), None);
    assert_eq!(log_line(LogLevel::Debug, LogLevel::Debug, "d"), Some("[DEBUG] d".to_string()));
}

#[test]
fn debug_setting_shows_verbose_messages() {
    for level in [LogLevel::Error, LogLevel::Info, LogLevel::Verbose] {
        assert!(log_line(level, LogLevel::Debug, "m").is_some());
    }
}

#[test]
fn preprocessing_modes_from_numbers() {
    assert_eq!(PreprocessingMode::from_u8(0), Ok(PreprocessingMode::NoPreprocessing));
    assert_eq!(PreprocessingMode::from_u8(1), Ok(PreprocessingMode::NetworkOptimized));
    assert_eq!(PreprocessingMode::from_u8(2), Err("Invalid preprocessing mode: 2".to_string()));
    assert_eq!(PreprocessingMode::from_u8(255), Err("Invalid preprocessing mode: 255".to_string()));
}

#[test]
fn config_clone_keeps_fields() {
    let config = ProcessingConfig {
        debug_enabled: true,
        prefix: "IMG_".to_string(),
        preprocess_mode: PreprocessingMode::NetworkOptimized,
        output_dir: Some("out".to_string()),
    };
    let copy = config.clone();
    assert!(copy.debug_enabled);
    assert_eq!(copy.prefix, "IMG_");
    assert_eq!(copy.preprocess_mode, PreprocessingMode::NetworkOptimized);
    assert_eq!(copy.output_dir, Some("out".to_string()));
}

use xtv::config::Config;

#[test]
fn test_default_config() {
    let config = Config::default();
    assert_eq!(config.ui.theme, "dark");
    assert_eq!(config.ui.default_expanded_depth, 0);
    assert_eq!(config.streaming.threshold_bytes, 100 * 1024 * 1024);
    assert!(config.streaming.enabled);
    assert_eq!(config.navigation.page_scroll_lines, 10);
}

#[test]
fn test_config_validation() {
    let mut config = Config::default();

    assert!(config.validate().is_ok());

    config.ui.theme = "invalid".to_string();
    assert!(config.validate().is_err());
    config.ui.theme = "dark".to_string();

    config.ui.default_expanded_depth = -2;
    assert!(config.validate().is_err());
    config.ui.default_expanded_depth = 0;

    config.streaming.threshold_bytes = 0;
    assert!(config.validate().is_err());
    config.streaming.threshold_bytes = 100;

    config.navigation.page_scroll_lines = 0;
    assert!(config.validate().is_err());
}

#[test]
fn test_sample_config() {
    let sample = Config::sample_config();
    assert!(sample.contains("theme"));
    assert!(sample.contains("threshold_bytes"));
    assert!(sample.contains("page_scroll_lines"));
}

#[test]
fn sample_config_exact_text() {
    let sample = Config::sample_config();
    assert_eq!(
        sample,
        "[ui]\ntheme = \"dark\"\ndefault_expanded_depth = 0\n\n[streaming]\nthreshold_bytes = 104857600\nenabled = true\n\n[navigation]\npage_scroll_lines = 10\n"
    );
}

#[test]
fn light_theme_and_full_depth_are_valid() {
    let mut config = Config::default();
    config.ui.theme = "light".to_string();
    config.ui.default_expanded_depth = -1;
    assert!(config.validate().is_ok());
}

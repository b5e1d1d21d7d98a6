use motion_detector::config::{Config, Threshold};

#[test]
fn built_in_settings() {
    let config = Config::new();
    assert_eq!(config.kernel_rows, 35);
    assert_eq!(config.kernel_cols, 35);
    assert_eq!(config.threshold, Threshold { thresh: 20, maxval: 255 });
    assert_eq!(config.min_doubled_area, 20000);
    assert!(config.is_valid());
}

#[test]
fn an_empty_window_is_not_usable() {
    let mut config = Config::new();
    config.kernel_rows = 0;
    assert!(!config.is_valid());
    config.kernel_rows = 1;
    config.kernel_cols = -3;
    assert!(!config.is_valid());
    config.kernel_cols = 1;
    assert!(config.is_valid());
}

//! Tests of the application configuration and session setup.

use csv_navigator::{create_app, create_app_with_config, run_app, AppConfig};

#[test]
fn test_app_config_default_values() {
    let config = AppConfig::new();
    assert_eq!(config.window_title(), "CSV Navigator");
    assert_eq!(config.min_width(), 640);
    assert_eq!(config.min_height(), 480);
}

#[test]
fn test_app_config_is_valid() {
    let config = AppConfig::new();
    assert!(config.is_valid());
}

#[test]
fn test_app_config_can_be_created() {
    // Test that we can create an application configuration
    let config = AppConfig::new();
    assert_eq!(config.window_title(), "CSV Navigator");
}

#[test]
fn test_app_config_has_minimum_dimensions() {
    // Test that the app has sensible minimum window dimensions
    let config = AppConfig::new();
    assert_eq!(config.min_width(), 640);
    assert_eq!(config.min_height(), 480);
}

#[test]
fn test_app_config_is_runnable() {
    // Test that we can verify the app is in a runnable state
    let config = AppConfig::new();
    assert!(config.is_valid());
}

#[test]
fn test_app_config_with_custom_title() {
    // Test creating config with custom title
    let config = AppConfig::with_title("My Custom App");
    assert_eq!(config.window_title(), "My Custom App");
    assert!(config.is_valid());
}

#[test]
fn test_app_config_with_empty_title_is_invalid() {
    // Test that empty title makes config invalid
    let config = AppConfig::with_title("");
    assert!(!config.is_valid());
}

#[test]
fn test_app_config_with_custom_dimensions() {
    // Test creating config with custom dimensions
    let config = AppConfig::with_dimensions(800, 600);
    assert_eq!(config.min_width(), 800);
    assert_eq!(config.min_height(), 600);
    assert!(config.is_valid());
}

#[test]
fn test_app_config_with_zero_width_is_invalid() {
    // Test that zero width makes config invalid
    let config = AppConfig::with_dimensions(0, 480);
    assert!(!config.is_valid());
}

#[test]
fn test_app_config_with_zero_height_is_invalid() {
    // Test that zero height makes config invalid
    let config = AppConfig::with_dimensions(640, 0);
    assert!(!config.is_valid());
}

#[test]
fn test_create_app_with_default_config() {
    // Test that create_app_with_config accepts the default configuration
    let config = AppConfig::new();
    let result = create_app_with_config(config);

    assert!(result.is_ok() || result.is_err());
}

#[test]
fn test_create_app_with_invalid_config_fails() {
    // Test that invalid configuration is rejected
    let invalid_config = AppConfig::with_title("");
    let result = create_app_with_config(invalid_config);

    // Should fail due to invalid config
    assert!(result.is_err(), "Expected error for invalid config");
}

#[test]
fn test_create_app_with_custom_title() {
    // Test that custom title can be set
    let config = AppConfig::with_title("Test Application");
    assert!(config.is_valid());

    // Verify the config has the correct title before we try to apply it
    assert_eq!(config.window_title(), "Test Application");
}

#[test]
fn test_create_app_with_custom_dimensions() {
    // Test that custom dimensions can be set
    let config = AppConfig::with_dimensions(1024, 768);
    assert!(config.is_valid());

    // Verify the config has correct dimensions
    assert_eq!(config.min_width(), 1024);
    assert_eq!(config.min_height(), 768);
}

#[test]
fn test_create_app_yields_empty_session() {
    let app = create_app().unwrap();
    assert_eq!(app.config.window_title(), "CSV Navigator");
    assert_eq!(app.table.row_count(), 0);
    assert!(!app.table.is_filtered());
}

#[test]
fn test_run_app_prepares_default_session() {
    let app = run_app().unwrap();
    assert_eq!(app.config.window_title(), "CSV Navigator");
    assert_eq!(app.table.row_count(), 0);
}

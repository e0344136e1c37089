use minecli::config::Config;
use minecli::theme::ThemeName;

#[test]
fn test_default_config() {
    let config = Config::default();
    assert_eq!(config.redmine_url, "");
    assert_eq!(config.api_key, "");
    assert!(!config.is_configured());
}

#[test]
fn test_is_configured() {
    let mut config = Config::default();
    assert!(!config.is_configured());

    config.api_key = "test_key".to_string();
    config.redmine_url = "https://example.com/redmine".to_string();
    assert!(config.is_configured());

    config.api_key = String::new();
    config.redmine_url = String::new();
    assert!(!config.is_configured());
}

#[test]
fn test_config_with_custom_url() {
    let config = Config {
        redmine_url: "https://example.com/redmine".to_string(),
        api_key: "my_api_key".to_string(),
        theme: ThemeName::default(),
        exclude_subprojects: true,
    };
    assert!(config.is_configured());
    assert_eq!(config.redmine_url, "https://example.com/redmine");
}

use clickup_tui::config::{default_auto_refresh, Config, ConfigProblem};

#[test]
fn test_default_config() {
    let config = Config::default();
    assert!(config.api_token.is_empty());
    assert!(config.user_id.is_empty());
    assert!(config.auto_refresh);
}

#[test]
fn auto_refresh_defaults_on() {
    assert!(default_auto_refresh());
}

#[test]
fn paths_sit_under_home_config_dir() {
    assert_eq!(Config::config_dir("/home/ann"), "/home/ann/.config/clickup-tui");
    assert_eq!(Config::config_path("/home/ann"), "/home/ann/.config/clickup-tui/config.toml");
    assert_eq!(Config::state_path("/home/ann"), "/home/ann/.config/clickup-tui/local_state.json");
    assert_eq!(Config::cache_path("/home/ann"), "/home/ann/.config/clickup-tui/tasks_cache.json");
}

#[test]
fn paths_join_without_doubled_separator() {
    assert_eq!(Config::config_path("/home/ann/"), "/home/ann/.config/clickup-tui/config.toml");
    assert_eq!(Config::config_path(""), ".config/clickup-tui/config.toml");
}

#[test]
fn settings_need_token_then_user() {
    let mut c = Config::default();
    assert_eq!(c.validate(), Err(ConfigProblem::MissingToken));
    c.user_id = "12".to_string();
    assert_eq!(c.validate(), Err(ConfigProblem::MissingToken));
    c.api_token = "SECRET-REDACTED".to_string();
    assert_eq!(c.validate(), Ok(()));
    c.user_id = String::new();
    assert_eq!(c.validate(), Err(ConfigProblem::MissingUserId));
}

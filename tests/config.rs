use templates::config::{config_file_path, default_config_text, set_templates_path, Config};
use templates::error::TemplateError;

#[test]
fn config_file_prefers_xdg_directory() {
    assert_eq!(
        config_file_path(Some("/x/cfg".to_string()), Some("/home/u".to_string())),
        Some("/x/cfg/templates-cli.json".to_string())
    );
    assert_eq!(
        config_file_path(None, Some("/home/u".to_string())),
        Some("/home/u/.config/templates-cli.json".to_string())
    );
    assert_eq!(config_file_path(None, None), None);
}

#[test]
fn fresh_config_uses_defaults() {
    let c = Config::with_defaults("/c.json".to_string());
    assert_eq!(c.templates_path, "~/templates");
    assert_eq!(c.clipboard_command, "xclip");
    assert_eq!(default_config_text(), "{\"templates_path\": \"~/templates\"}");
    let read = Config::from_json("/c.json".to_string(), &default_config_text()).unwrap();
    assert_eq!(read, c);
}

#[test]
fn config_reads_members() {
    let c = Config::from_json(
        "/c.json".to_string(),
        "{\"templates_path\": \"/t\", \"clipboard_command\": \"wl-copy\"}",
    )
    .unwrap();
    assert_eq!(c.config_path, "/c.json");
    assert_eq!(c.templates_path, "/t");
    assert_eq!(c.clipboard_command, "wl-copy");
}

#[test]
fn config_without_templates_path_is_invalid() {
    let bad = || Some(TemplateError::ConfigInvalid("/c.json".to_string()));
    assert_eq!(Config::from_json("/c.json".to_string(), "{\"clipboard_command\": \"x\"}").err(), bad());
    assert_eq!(Config::from_json("/c.json".to_string(), "{\"templates_path\": 3}").err(), bad());
    assert_eq!(Config::from_json("/c.json".to_string(), "not json").err(), bad());
    assert_eq!(Config::from_json("/c.json".to_string(), "[1, 2]").err(), bad());
}

#[test]
fn config_clipboard_defaults_when_absent() {
    let c = Config::from_fields("/c.json".to_string(), Some("/t".to_string()), None).unwrap();
    assert_eq!(c.clipboard_command, "xclip");
    assert_eq!(
        Config::from_fields("/c.json".to_string(), None, Some("x".to_string())).err(),
        Some(TemplateError::ConfigInvalid("/c.json".to_string()))
    );
}

#[test]
fn set_templates_path_keeps_other_members() {
    let text = set_templates_path(
        "/c.json",
        "{\"templates_path\": \"~/templates\", \"clipboard_command\": \"wl-copy\"}",
        "/srv/tpl",
    )
    .unwrap();
    let c = Config::from_json("/c.json".to_string(), &text).unwrap();
    assert_eq!(c.templates_path, "/srv/tpl");
    assert_eq!(c.clipboard_command, "wl-copy");
    assert!(text.contains('\n'));
}

#[test]
fn set_templates_path_needs_an_object() {
    let bad = Some(TemplateError::ConfigInvalid("/c.json".to_string()));
    assert_eq!(set_templates_path("/c.json", "[1]", "/t").err(), bad);
    assert_eq!(
        set_templates_path("/c.json", "{", "/t").err(),
        Some(TemplateError::ConfigInvalid("/c.json".to_string()))
    );
}

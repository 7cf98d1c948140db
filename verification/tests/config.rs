use varo::config::{
    default_config, empty_object, load_config, load_config_file, merge_configs, ConfigManager,
};
use varo::env::EnvMap;
use varo::json::{parse_json, Json};

fn json(text: &str) -> Json {
    parse_json(text).unwrap()
}

#[test]
fn merge_preserves_untouched_sibling_keys() {
    let mut base = json(r#"{"ui":{"dark_mode":true,"show_groups":false}}"#);
    let over = json(r#"{"ui":{"dark_mode":false}}"#);
    merge_configs(&mut base, &over);
    assert_eq!(base, json(r#"{"ui":{"dark_mode":false,"show_groups":false}}"#));
}

#[test]
fn merge_replaces_arrays_wholesale() {
    let mut base = json(r#"{"dirs":["a","b"],"n":1}"#);
    let over = json(r#"{"dirs":["c"]}"#);
    merge_configs(&mut base, &over);
    assert_eq!(base, json(r#"{"dirs":["c"],"n":1}"#));
}

#[test]
fn merge_adds_new_keys_at_every_depth() {
    let mut base = json(r#"{"a":{"x":1}}"#);
    let over = json(r#"{"a":{"y":{"z":2}},"b":null}"#);
    merge_configs(&mut base, &over);
    assert_eq!(base, json(r#"{"a":{"x":1,"y":{"z":2}},"b":null}"#));
}

#[test]
fn merge_lets_a_scalar_replace_an_object_and_back() {
    let mut base = json(r#"{"a":{"x":1},"b":2}"#);
    let over = json(r#"{"a":3,"b":{"y":4}}"#);
    merge_configs(&mut base, &over);
    assert_eq!(base, json(r#"{"a":3,"b":{"y":4}}"#));
}

#[test]
fn merge_of_a_non_object_replaces_the_root() {
    let mut base = json(r#"{"a":1}"#);
    merge_configs(&mut base, &json("[1,2]"));
    assert_eq!(base, json("[1,2]"));
}

#[test]
fn merge_of_an_empty_object_changes_nothing() {
    let mut base = default_config();
    merge_configs(&mut base, &empty_object());
    assert_eq!(base, default_config());
}

#[test]
fn default_config_has_the_known_keys() {
    let expected = json(
        r#"{
            "env_presets": { "directories": [], "default_id": null },
            "ui": { "dark_mode": true, "show_groups": false,
                    "show_categories": true, "show_hidden_nodes": false }
        }"#,
    );
    assert_eq!(default_config(), expected);
    assert_eq!(ConfigManager::default_config(), expected);
}

#[test]
fn missing_or_malformed_file_is_an_empty_override() {
    assert_eq!(load_config_file(None), empty_object());
    assert_eq!(load_config_file(Some("{ not json")), empty_object());
    assert_eq!(load_config_file(Some(r#"{"a":1}"#)), json(r#"{"a":1}"#));
}

#[test]
fn user_file_wins_over_environment_file() {
    let env_file = r#"{"ui":{"dark_mode":false,"show_groups":true},"env_presets":{"directories":["/e"]}}"#;
    let user_file = r#"{"ui":{"show_groups":false}}"#;
    let merged = load_config(Some(env_file), Some(user_file));
    let expected = json(
        r#"{
            "env_presets": { "directories": ["/e"], "default_id": null },
            "ui": { "dark_mode": false, "show_groups": false,
                    "show_categories": true, "show_hidden_nodes": false }
        }"#,
    );
    assert_eq!(merged, expected);
}

#[test]
fn load_without_files_gives_the_default() {
    assert_eq!(load_config(None, None), default_config());
    assert_eq!(load_config(Some("garbage"), Some("[")), default_config());
}

#[test]
fn manager_load_resolves_placeholders() {
    let mut system = EnvMap::new();
    system.insert("HOME".to_string(), "/home/ann".to_string());
    let user_file = r#"{"env_presets":{"directories":["${HOME}/presets","${NOPE}/x"]}}"#;
    let manager = ConfigManager::load(None, Some(user_file), &system).unwrap();
    let section = manager.get_section("env_presets");
    assert_eq!(
        section,
        json(r#"{"default_id":null,"directories":["/home/ann/presets","${NOPE}/x"]}"#)
    );
}

#[test]
fn loaded_tree_holds_no_token_that_the_environment_binds() {
    let mut system = EnvMap::new();
    system.insert("HOME".to_string(), "/home/ann".to_string());
    system.insert("USER".to_string(), "ann".to_string());
    let user_file = r#"{"a":"${HOME}/${USER}","b":["x${USER}y",{"c":"$${HOME}{USER}"}],"${HOME}":1}"#;
    let manager = ConfigManager::load(None, Some(user_file), &system).unwrap();
    let tree = manager.get_config();
    assert_eq!(tree.get("a"), Some(&Json::Text("/home/ann/ann".to_string())));
    assert_eq!(
        tree.get("b"),
        Some(&Json::Array(vec![
            Json::Text("xanny".to_string()),
            Json::Object(vec![("c".to_string(), Json::Text("$/home/ann{USER}".to_string()))]),
        ]))
    );
    assert_eq!(tree.get("${HOME}"), Some(&Json::Number("1".to_string())));
}

#[test]
fn manager_section_that_is_absent_is_an_empty_object() {
    let manager = ConfigManager::load(None, None, &EnvMap::new()).unwrap();
    assert_eq!(manager.get_section("nothing"), empty_object());
    assert_eq!(manager.get_section("ui").get("dark_mode"), Some(&Json::Bool(true)));
    assert_eq!(manager.get_config(), default_config());
    assert_eq!(ConfigManager::empty().get_config(), empty_object());
    assert_eq!(ConfigManager::empty().get_section("ui"), empty_object());
}

#[test]
fn manager_reload_replaces_the_tree() {
    let system = EnvMap::new();
    let mut manager =
        ConfigManager::load(None, Some(r#"{"ui":{"dark_mode":false}}"#), &system).unwrap();
    assert_eq!(manager.get_section("ui").get("dark_mode"), Some(&Json::Bool(false)));
    assert!(manager.reload(None, None, &system).is_ok());
    assert_eq!(manager.get_config(), default_config());
}

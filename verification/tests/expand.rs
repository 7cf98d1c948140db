use varo::entities::EnvVar;
use varo::env::{
    expand_env_vars, expand_tokens_with_map, get_env_vars_with_preset,
    resolve_env_vars_recursive_with_map, EnvMap,
};
use varo::json::{parse_json, Json};

fn env_of(pairs: &[(&str, &str)]) -> EnvMap {
    let mut m = EnvMap::new();
    for (k, v) in pairs {
        m.insert(k.to_string(), v.to_string());
    }
    m
}

fn var(name: &str, value: &str) -> EnvVar {
    EnvVar { name: name.to_string(), value: value.to_string(), operation: Some("set".to_string()) }
}

#[test]
fn expand_leaves_unknown_tokens_untouched() {
    let m = env_of(&[("A", "x")]);
    assert_eq!(expand_tokens_with_map("${A}-${B}", &m), "x-${B}");
}

#[test]
fn expand_replaces_every_occurrence() {
    let m = env_of(&[("A", "x")]);
    assert_eq!(expand_tokens_with_map("${A}${A} ${A}", &m), "xx x");
}

#[test]
fn expand_with_empty_environment_is_identity() {
    let m = EnvMap::new();
    assert_eq!(expand_tokens_with_map("${A} and $B {C}", &m), "${A} and $B {C}");
}

#[test]
fn expand_ignores_incomplete_and_bare_names() {
    let m = env_of(&[("A", "x")]);
    assert_eq!(expand_tokens_with_map("$A ${A ${}A} {A}", &m), "$A ${A ${}A} {A}");
}

#[test]
fn expand_is_idempotent_when_values_hold_no_tokens() {
    let m = env_of(&[("A", "x"), ("B", "y")]);
    let once = expand_tokens_with_map("${A}/${B}/${C}", &m);
    assert_eq!(once, "x/y/${C}");
    assert_eq!(expand_tokens_with_map(&once, &m), once);
}

#[test]
fn expand_is_not_idempotent_when_a_value_holds_an_earlier_token() {
    let m = env_of(&[("A", "x"), ("B", "${A}")]);
    let once = expand_tokens_with_map("${B}", &m);
    assert_eq!(once, "${A}");
    let twice = expand_tokens_with_map(&once, &m);
    assert_eq!(twice, "x");
    assert_ne!(once, twice);
}

#[test]
fn expand_does_not_scan_a_value_that_was_put_in() {
    let forward = env_of(&[("A", "${B}"), ("B", "x")]);
    assert_eq!(expand_tokens_with_map("${A}", &forward), "${B}");
    let backward = env_of(&[("B", "x"), ("A", "${B}")]);
    assert_eq!(expand_tokens_with_map("${A}", &backward), "${B}");
    assert_eq!(expand_tokens_with_map("${A}${B}", &forward), "${B}x");
}

#[test]
fn expand_lets_the_first_binding_win_where_two_tokens_stand() {
    let short_first = env_of(&[("A", "1"), ("A}x", "2")]);
    assert_eq!(expand_tokens_with_map("${A}x}", &short_first), "1x}");
    let long_first = env_of(&[("A}x", "2"), ("A", "1")]);
    assert_eq!(expand_tokens_with_map("${A}x}", &long_first), "2");
}

#[test]
fn expand_with_an_empty_value_can_join_a_token() {
    let m = env_of(&[("E", ""), ("A", "x")]);
    let once = expand_tokens_with_map("$${E}{A}", &m);
    assert_eq!(once, "${A}");
    assert_eq!(expand_tokens_with_map(&once, &m), "x");
}

#[test]
fn expand_is_idempotent_for_plain_values_and_placeholders_that_stand_apart() {
    let m = env_of(&[("A", "x}y"), ("B", "b"), ("LONG_NAME", "}")]);
    for text in [
        "${A}",
        "a ${A} ${B} $ { ${C} ${",
        "$${A}{B}",
        "}${LONG_NAME}${B}{",
        "",
    ] {
        let once = expand_tokens_with_map(text, &m);
        assert_eq!(expand_tokens_with_map(&once, &m), once, "text {:?}", text);
    }
    assert_eq!(expand_tokens_with_map("a ${A} ${B} $ { ${C} ${", &m), "a x}y b $ { ${C} ${");
    assert_eq!(expand_tokens_with_map("$${A}{B}", &m), "$x}y{B}");
}

#[test]
fn expand_with_a_closing_brace_in_a_name_can_join_a_token() {
    let m = env_of(&[("a}v", "x"), ("B", "v")]);
    let once = expand_tokens_with_map("${a}${B}}", &m);
    assert_eq!(once, "${a}v}");
    assert_eq!(expand_tokens_with_map(&once, &m), "x");
}

#[test]
fn expand_keeps_a_value_that_is_its_own_token() {
    let m = env_of(&[("A", "${A}")]);
    let once = expand_tokens_with_map("a ${A} b", &m);
    assert_eq!(once, "a ${A} b");
    assert_eq!(expand_tokens_with_map(&once, &m), once);
}

#[test]
fn expand_can_join_a_token_out_of_pieces() {
    let m = env_of(&[("A", "{A}")]);
    let once = expand_tokens_with_map("$${A}", &m);
    assert_eq!(once, "${A}");
    assert_eq!(expand_tokens_with_map(&once, &m), "{A}");
}

#[test]
fn expand_handles_text_beyond_ascii() {
    let m = env_of(&[("HOME", "/home/zoë")]);
    assert_eq!(expand_tokens_with_map("→ ${HOME}/ß", &m), "→ /home/zoë/ß");
}

#[test]
fn expand_env_vars_uses_the_given_environment() {
    let m = env_of(&[("USER", "ann")]);
    assert_eq!(expand_env_vars("hi ${USER}", &m), "hi ann");
}

#[test]
fn env_map_insert_replaces_and_keeps_place() {
    let mut m = env_of(&[("A", "1"), ("B", "2")]);
    m.insert("A".to_string(), "3".to_string());
    assert_eq!(m.len(), 2);
    assert_eq!(m.get("A"), Some(&"3".to_string()));
    assert_eq!(m.get("B"), Some(&"2".to_string()));
    assert_eq!(m.get("C"), None);
    assert!(m.contains_key("B"));
    assert!(!m.contains_key("b"));
    assert_eq!(
        m.to_pairs(),
        vec![("A".to_string(), "3".to_string()), ("B".to_string(), "2".to_string())]
    );
}

#[test]
fn env_map_from_pairs_lets_the_later_pair_win() {
    let m = EnvMap::from_pairs(vec![
        ("A".to_string(), "1".to_string()),
        ("B".to_string(), "2".to_string()),
        ("A".to_string(), "9".to_string()),
    ]);
    assert_eq!(m.len(), 2);
    assert_eq!(m.get("A"), Some(&"9".to_string()));
    assert!(!m.is_empty());
    assert!(EnvMap::new().is_empty());
    assert_eq!(m.duplicate(), m);
}

#[test]
fn env_map_overlay_sets_in_order() {
    let mut m = env_of(&[("FOO", "sys"), ("BAR", "sys")]);
    m.overlay(&vec![var("FOO", "one"), var("NEW", "n"), var("FOO", "two")]);
    assert_eq!(m.get("FOO"), Some(&"two".to_string()));
    assert_eq!(m.get("BAR"), Some(&"sys".to_string()));
    assert_eq!(m.get("NEW"), Some(&"n".to_string()));
    assert_eq!(m.len(), 3);
}

#[test]
fn env_map_overlay_expanded_expands_values() {
    let expansion = env_of(&[("ROOT", "/r")]);
    let mut m = EnvMap::new();
    m.overlay_expanded(&vec![var("BIN", "${ROOT}/bin"), var("X", "${Y}")], &expansion);
    assert_eq!(m.get("BIN"), Some(&"/r/bin".to_string()));
    assert_eq!(m.get("X"), Some(&"${Y}".to_string()));
}

#[test]
fn preset_wins_over_system_environment() {
    let system = env_of(&[("FOO", "sys"), ("KEEP", "k")]);
    let preset = varo::entities::EnvPreset {
        id: "p".to_string(),
        name: "P".to_string(),
        filepath: None,
        description: None,
        env: vec![var("FOO", "preset")],
    };
    let with = get_env_vars_with_preset(Some(&preset), &system);
    assert_eq!(with.get("FOO"), Some(&"preset".to_string()));
    assert_eq!(with.get("KEEP"), Some(&"k".to_string()));
    let without = get_env_vars_with_preset(None, &system);
    assert_eq!(without, system);
}

#[test]
fn expand_tree_touches_only_string_leaves() {
    let m = env_of(&[("A", "x"), ("k", "changed")]);
    let mut tree = parse_json(
        r#"{"${k}": "${A}", "list": ["${A}", 1, true, null, {"in": "a${A}b"}], "n": 2.5}"#,
    )
    .unwrap();
    resolve_env_vars_recursive_with_map(&mut tree, &m);
    let expected =
        parse_json(r#"{"${k}": "x", "list": ["x", 1, true, null, {"in": "axb"}], "n": 2.5}"#)
            .unwrap();
    assert_eq!(tree, expected);
}

#[test]
fn expand_tree_leaves_a_bare_string_expanded() {
    let m = env_of(&[("A", "x")]);
    let mut tree = Json::Text("${A}${B}".to_string());
    resolve_env_vars_recursive_with_map(&mut tree, &m);
    assert_eq!(tree, Json::Text("x${B}".to_string()));
}

use varo::env::EnvMap;
use varo::errors::ErrorKind;
use varo::hasher::Hasher;
use varo::json::{parse_json, Json};
use varo::presets::{
    load_env_preset_from_file, load_env_presets_from_config, load_env_presets_in_dir,
    parse_env_preset, preset_from_json, scan_preset_files, PresetManager,
};
use varo::source::{DirSnapshot, Listing, SourceFile};

fn file(path: &str, content: &str) -> SourceFile {
    SourceFile {
        path: path.to_string(),
        is_file: true,
        content: Some(content.to_string()),
        modified_millis: 0,
        modified_error: None,
    }
}

fn dir(path: &str, files: Vec<SourceFile>) -> DirSnapshot {
    DirSnapshot { path: path.to_string(), listing: Listing::Entries(files) }
}

fn config(dirs: &[&str]) -> Json {
    let list: Vec<String> = dirs.iter().map(|d| format!("\"{}\"", d)).collect();
    parse_json(&format!("{{\"directories\":[{}],\"default_id\":null}}", list.join(","))).unwrap()
}

fn two_presets() -> Vec<DirSnapshot> {
    vec![dir(
        "/p",
        vec![
            file("/p/a.json", r#"{"id":"a","name":"Alpha","env":[{"name":"VARO_PATH","value":"/alpha"}]}"#),
            file("/p/b.json", r#"{"id":"b","name":"Beta"}"#),
        ],
    )]
}

#[test]
fn one_valid_and_one_malformed_file_give_one_preset_and_one_warning() {
    let snapshots = vec![dir(
        "/p",
        vec![file("/p/good.json", r#"{"name":"Good"}"#), file("/p/bad.json", "{ nope")],
    )];
    let manager = PresetManager::new(&config(&["/p"]), &snapshots, &EnvMap::new()).unwrap();
    let presets = manager.get_all_presets();
    assert_eq!(presets.len(), 1);
    assert_eq!(presets[0].name, "Good");
    assert_eq!(manager.get_warnings().len(), 1);
    assert_eq!(
        manager.get_warnings()[0],
        "Failed to parse JSON in file /p/bad.json: key must be a string at line 1 column 3"
    );
}

#[test]
fn select_of_unknown_id_fails_and_keeps_the_selection() {
    let mut manager =
        PresetManager::new(&config(&["/p"]), &two_presets(), &EnvMap::new()).unwrap();
    assert_eq!(manager.get_selected_preset(), None);
    assert!(manager.select_preset("a").is_ok());
    assert_eq!(manager.get_selected_preset().unwrap().name, "Alpha");
    let err = manager.select_preset("zzz").unwrap_err();
    assert_eq!(err.kind(), ErrorKind::EnvPreset);
    assert_eq!(err.message(), "No EnvPreset found with id: zzz");
    assert_eq!(err.to_text(), "Environment preset error: No EnvPreset found with id: zzz");
    assert_eq!(manager.get_selected_preset().unwrap().id, "a");
    assert!(manager.select_preset("b").is_ok());
    assert_eq!(manager.get_selected_preset().unwrap().id, "b");
}

#[test]
fn select_on_an_empty_registry_fails() {
    let mut manager = PresetManager::empty();
    assert!(manager.select_preset("a").is_err());
    assert_eq!(manager.get_selected_preset(), None);
    assert!(manager.get_all_presets().is_empty());
}

#[test]
fn reload_clears_a_selection_whose_file_is_gone() {
    let system = EnvMap::new();
    let mut manager = PresetManager::new(&config(&["/p"]), &two_presets(), &system).unwrap();
    manager.select_preset("a").unwrap();
    let after = vec![dir("/p", vec![file("/p/b.json", r#"{"id":"b","name":"Beta"}"#)])];
    assert!(manager.reload(&config(&["/p"]), &after, &system).is_ok());
    assert_eq!(manager.get_selected_preset(), None);
    assert_eq!(manager.get_all_presets().len(), 1);
}

#[test]
fn reload_keeps_a_selection_whose_id_is_still_there() {
    let system = EnvMap::new();
    let mut manager = PresetManager::new(&config(&["/p"]), &two_presets(), &system).unwrap();
    manager.select_preset("b").unwrap();
    assert!(manager.reload(&config(&["/p"]), &two_presets(), &system).is_ok());
    assert_eq!(manager.get_selected_preset().unwrap().id, "b");
}

#[test]
fn get_preset_finds_by_id() {
    let manager = PresetManager::new(&config(&["/p"]), &two_presets(), &EnvMap::new()).unwrap();
    assert_eq!(manager.get_preset("b").unwrap().name, "Beta");
    assert_eq!(manager.get_preset("Beta"), None);
}

#[test]
fn null_or_empty_configuration_gives_no_presets() {
    let system = EnvMap::new();
    for text in ["null", "{}", "[]", r#"{"directories":"/p"}"#, r#"{"other":1}"#] {
        let cfg = parse_json(text).unwrap();
        let manager = PresetManager::new(&cfg, &two_presets(), &system).unwrap();
        assert!(manager.get_all_presets().is_empty());
        assert!(manager.get_warnings().is_empty());
    }
}

#[test]
fn directories_are_expanded_and_non_strings_passed_over() {
    let mut system = EnvMap::new();
    system.insert("BASE".to_string(), "/p".to_string());
    let cfg = parse_json(r#"{"directories":["${BASE}", 7, "${NOPE}/q"]}"#).unwrap();
    assert_eq!(
        PresetManager::preset_directories(&cfg, &system),
        vec!["/p".to_string(), "${NOPE}/q".to_string()]
    );
    let manager = PresetManager::new(&cfg, &two_presets(), &system).unwrap();
    assert_eq!(manager.get_all_presets().len(), 2);
    assert_eq!(
        manager.get_warnings(),
        &vec![
            "Failed to load presets from '${NOPE}/q': Directory does not exist or is not a directory: ${NOPE}/q"
                .to_string()
        ]
    );
}

#[test]
fn presets_of_several_directories_are_not_deduplicated() {
    let snapshots = vec![
        dir("/one", vec![file("/one/x.json", r#"{"name":"Same"}"#)]),
        DirSnapshot { path: "/two".to_string(), listing: Listing::Unreadable("denied".to_string()) },
        dir("/three", vec![file("/three/y.json", r#"{"name":"Same"}"#)]),
    ];
    let manager =
        PresetManager::new(&config(&["/one", "/two", "/three"]), &snapshots, &EnvMap::new())
            .unwrap();
    let presets = manager.get_all_presets();
    assert_eq!(presets.len(), 2);
    assert_eq!(presets[0].name, "Same");
    assert_eq!(presets[1].name, "Same");
    assert_ne!(presets[0].id, presets[1].id);
    assert_eq!(
        manager.get_warnings(),
        &vec!["Failed to load presets from '/two': Failed to read directory '/two': denied"
            .to_string()]
    );
    let loaded = PresetManager::load_presets_from_env_config(
        &config(&["/one", "/two", "/three"]),
        &snapshots,
        &EnvMap::new(),
    )
    .unwrap();
    assert_eq!(loaded, presets);
}

#[test]
fn only_json_files_are_read() {
    let files = vec![
        file("/p/a.JSON", r#"{"name":"A"}"#),
        file("/p/b.txt", r#"{"name":"B"}"#),
        file("/p/.json", r#"{"name":"C"}"#),
        file("/p/d.json.bak", r#"{"name":"D"}"#),
        file("/p/e.Json", r#"{"name":"E"}"#),
    ];
    let scan = scan_preset_files(&files, &EnvMap::new());
    let names: Vec<&str> = scan.presets.iter().map(|p| p.name.as_str()).collect();
    assert_eq!(names, vec!["A", "E"]);
    assert!(scan.warnings.is_empty());
}

#[test]
fn preset_needs_a_name() {
    let f = file("/p/x.json", r#"{"id":"x","env":[]}"#);
    assert_eq!(load_env_preset_from_file(&f, &EnvMap::new()), None);
    assert_eq!(
        parse_env_preset(&f, &EnvMap::new()),
        Err("Missing or invalid 'name' field in /p/x.json".to_string())
    );
    let unread = SourceFile {
        path: "/p/u.json".to_string(),
        is_file: true,
        content: None,
        modified_millis: 0,
        modified_error: None,
    };
    assert_eq!(
        parse_env_preset(&unread, &EnvMap::new()),
        Err("Failed to read file /p/u.json".to_string())
    );
}

#[test]
fn preset_fields_are_read_and_env_is_expanded() {
    let mut system = EnvMap::new();
    system.insert("HOME".to_string(), "/h".to_string());
    let tree = parse_json(
        r#"{"name":"Work","description":"d","env":[
            {"name":"VARO_PATH","value":"${HOME}/varo"},
            "skipped",
            {"name":"X","operation":"append"},
            {}
        ]}"#,
    )
    .unwrap();
    let preset = preset_from_json(&tree, "/dir/Work Preset.JSON", &system).unwrap();
    assert_eq!(preset.name, "Work");
    assert_eq!(preset.description, Some("d".to_string()));
    assert_eq!(preset.filepath, Some("/dir/Work Preset.JSON".to_string()));
    assert_eq!(preset.id, Hasher::generate_id_from_str("work preset.json"));
    assert_eq!(preset.env.len(), 3);
    assert_eq!(preset.env[0].name, "VARO_PATH");
    assert_eq!(preset.env[0].value, "/h/varo");
    assert_eq!(preset.env[0].operation, Some("set".to_string()));
    assert_eq!(preset.env[1].name, "X");
    assert_eq!(preset.env[1].value, "");
    assert_eq!(preset.env[1].operation, Some("append".to_string()));
    assert_eq!(preset.env[2].name, "");
}

#[test]
fn directory_that_is_missing_is_an_error() {
    let system = EnvMap::new();
    assert_eq!(
        load_env_presets_in_dir("/gone", &Listing::Missing, &system),
        Err("Directory does not exist or is not a directory: /gone".to_string())
    );
    assert_eq!(
        load_env_presets_in_dir("/d", &Listing::Unreadable("EACCES".to_string()), &system),
        Err("Failed to read directory '/d': EACCES".to_string())
    );
    let ok = load_env_presets_in_dir(
        "/d",
        &Listing::Entries(vec![file("/d/a.json", r#"{"name":"A"}"#), file("/d/b.json", "x")]),
        &system,
    )
    .unwrap();
    assert_eq!(ok.len(), 1);
}

#[test]
fn presets_come_from_the_section_of_the_whole_configuration() {
    let cfg = parse_json(r#"{"env_presets":{"directories":["/p"]},"ui":{}}"#).unwrap();
    let presets = load_env_presets_from_config(&cfg, &two_presets(), &EnvMap::new());
    assert_eq!(presets.len(), 2);
    let none = load_env_presets_from_config(&parse_json("{}").unwrap(), &two_presets(), &EnvMap::new());
    assert!(none.is_empty());
}

use varo::entities::{Command, EnvPreset, EnvVar, VaroNode};
use varo::env::EnvMap;
use varo::errors::ErrorKind;
use varo::hasher::Hasher;
use varo::loader::{
    is_valid_node_file, load_node_from_file, load_nodes_in_dir, load_varo_nodes,
    parse_varo_node_file,
};
use varo::nodes::{
    execution_result, order_by_key, plan_node, plan_node_with_kind, reveal_result, LaunchOutcome,
    LaunchPlan, NodeManager,
};
use varo::source::{DirSnapshot, Listing, SourceFile};

fn file(path: &str, content: &str) -> SourceFile {
    SourceFile {
        path: path.to_string(),
        is_file: true,
        content: Some(content.to_string()),
        modified_millis: 1700000000123,
        modified_error: None,
    }
}

fn env_of(pairs: &[(&str, &str)]) -> EnvMap {
    let mut m = EnvMap::new();
    for (k, v) in pairs {
        m.insert(k.to_string(), v.to_string());
    }
    m
}

fn var(name: &str, value: &str) -> EnvVar {
    EnvVar { name: name.to_string(), value: value.to_string(), operation: Some("set".to_string()) }
}

fn preset(env: Vec<EnvVar>) -> EnvPreset {
    EnvPreset { id: "p".to_string(), name: "Studio".to_string(), filepath: None, description: None, env }
}

fn node(commands: Vec<Command>, env: Vec<EnvVar>) -> VaroNode {
    VaroNode {
        id: "n".to_string(),
        name: "N".to_string(),
        category: "Uncategorized".to_string(),
        group_id: "N".to_string(),
        icon: String::new(),
        filepath: Some("/r/nodes/n.json".to_string()),
        default_for_group: false,
        description: None,
        status: None,
        access: None,
        commands,
        env,
        date_modified: 0,
    }
}

fn command(path: &str, path_type: &str, args: &str, non_blocking: bool) -> Command {
    Command {
        path: path.to_string(),
        path_type: path_type.to_string(),
        args: args.to_string(),
        non_blocking,
    }
}

fn catalog() -> Vec<DirSnapshot> {
    vec![DirSnapshot {
        path: "/r/nodes".to_string(),
        listing: Listing::Entries(vec![
            file("/r/nodes/zeta.json", r#"{"id":"z","name":"zeta","commands":[{"path":"/bin/z"}]}"#),
            file("/r/nodes/Alpha.json", r#"{"id":"a","name":"Alpha","commands":[]}"#),
            file("/r/nodes/broken.json", r#"{"name":"Broken"}"#),
            file("/r/nodes/beta.json", r#"{"id":"b","name":"beta","commands":[{"path":"${TOOL}","args":" -v  ${MODE}\t"}],"env":[{"name":"MODE","value":"fast"}]}"#),
            file("/r/nodes/notes.txt", "not a node"),
        ]),
    }]
}

#[test]
fn node_without_commands_array_is_rejected() {
    let system = EnvMap::new();
    let missing = file("/r/nodes/a.json", r#"{"name":"A"}"#);
    assert_eq!(
        load_node_from_file(&missing, &system),
        Err("Missing required 'commands' array in /r/nodes/a.json".to_string())
    );
    let wrong = file("/r/nodes/a.json", r#"{"name":"A","commands":{"path":"x"}}"#);
    assert_eq!(
        load_node_from_file(&wrong, &system),
        Err("'commands' field must be an array in /r/nodes/a.json".to_string())
    );
}

#[test]
fn node_without_category_is_uncategorized() {
    let f = file("/r/nodes/Tool.json", r#"{"name":"Tool","commands":[{"path":"/bin/tool"}]}"#);
    let (node, warnings) = parse_varo_node_file(&f, &EnvMap::new()).unwrap();
    assert_eq!(node.category, "Uncategorized");
    assert_eq!(node.group_id, "Tool");
    assert_eq!(node.id, Hasher::generate_id_from_str("tool.json"));
    assert_eq!(node.filepath, Some("/r/nodes/Tool.json".to_string()));
    assert_eq!(node.date_modified, 1700000000123);
    assert_eq!(node.description, None);
    assert_eq!(node.status, None);
    assert_eq!(node.access, None);
    assert!(!node.default_for_group);
    assert_eq!(node.commands, vec![command("/bin/tool", "", "", false)]);
    let id = node.id.clone();
    assert_eq!(
        warnings,
        vec![
            format!("Node '{}' missing optional 'category' field — defaulting to 'Uncategorized'", id),
            format!("Node '{}' missing optional 'groupId' field — defaulting to name 'Tool'", id),
            format!("Node '{}' missing optional 'description' field", id),
            format!("Node '{}' missing optional 'status' block", id),
            format!("Node '{}' missing optional 'icon' field", id),
        ]
    );
}

#[test]
fn node_with_every_field_is_read_in_full() {
    let system = env_of(&[("HOME", "/h")]);
    let f = file(
        "/r/nodes/full.json",
        r#"{
            "id": "full", "name": "Full", "category": "Tools", "groupId": "grp",
            "description": "desc", "defaultForGroup": true, "icon": "full.svg",
            "status": {"name": "beta", "color": "red"},
            "access": {"platforms": ["win", 3, "linux"], "allow": ["ann"], "deny": "nobody"},
            "env": [{"name": "ROOT", "value": "${HOME}/root"}],
            "commands": [
                {"path": "/bin/a", "pathType": "Absolute", "args": "x y", "nonBlocking": true},
                "skipped",
                {"path": 5}
            ]
        }"#,
    );
    let (node, warnings) = parse_varo_node_file(&f, &system).unwrap();
    assert!(warnings.is_empty());
    assert_eq!(node.id, "full");
    assert_eq!(node.category, "Tools");
    assert_eq!(node.group_id, "grp");
    assert_eq!(node.description, Some("desc".to_string()));
    assert!(node.default_for_group);
    assert_eq!(node.icon, "full.svg");
    let status = node.status.unwrap();
    assert_eq!((status.name.as_str(), status.color.as_str()), ("beta", "red"));
    let access = node.access.unwrap();
    assert_eq!(access.platforms, vec!["win".to_string(), "linux".to_string()]);
    assert_eq!(access.allow, vec!["ann".to_string()]);
    assert!(access.deny.is_empty());
    assert_eq!(node.env, vec![var("ROOT", "/h/root")]);
    assert_eq!(
        node.commands,
        vec![command("/bin/a", "Absolute", "x y", true), command("", "", "", false)]
    );
}

#[test]
fn node_file_is_rejected_for_each_reason_in_turn() {
    let system = EnvMap::new();
    let unread =
        SourceFile { path: "/n/u.json".to_string(), is_file: true, content: None, modified_millis: 0, modified_error: None };
    assert_eq!(load_node_from_file(&unread, &system), Err("Failed to read file /n/u.json".to_string()));
    assert_eq!(
        load_node_from_file(&file("/n/a.json", "[1]"), &system),
        Err("Root JSON is not an object in /n/a.json".to_string())
    );
    assert_eq!(
        load_node_from_file(&file("/n/a.json", r#"{"commands":[]}"#), &system),
        Err("Missing or invalid 'name' field in /n/a.json".to_string())
    );
    assert_eq!(
        load_node_from_file(&file("/n/a.json", "nope"), &system),
        Err("Failed to parse JSON in file /n/a.json: expected ident at line 1 column 2".to_string())
    );
}

#[test]
fn valid_node_file_is_a_regular_json_file() {
    assert!(is_valid_node_file(&file("/n/a.json", "")));
    assert!(is_valid_node_file(&file("C:\\nodes\\A.JsOn", "")));
    assert!(!is_valid_node_file(&file("/n/a.jsonx", "")));
    assert!(!is_valid_node_file(&file("/n/json", "")));
    assert!(!is_valid_node_file(&file("/n.json/readme", "")));
    let dir = SourceFile { path: "/n/d.json".to_string(), is_file: false, content: None, modified_millis: 0, modified_error: None };
    assert!(!is_valid_node_file(&dir));
}

#[test]
fn load_fills_the_registry_and_keeps_going_after_a_bad_file() {
    let system = env_of(&[("VARO_PATH", "/r")]);
    let mut manager = NodeManager::new();
    assert_eq!(manager.get_node_count(), 0);
    assert!(manager.load_nodes_from_varo_path(&system, &catalog()).is_ok());
    assert_eq!(manager.get_node_count(), 3);
    assert!(manager.get_node("a").is_some());
    assert!(manager.get_node("Broken").is_none());
    let names: Vec<&str> = manager.get_all_nodes().iter().map(|n| n.name.as_str()).collect();
    assert_eq!(names, vec!["Alpha", "beta", "zeta"]);
    let rejected: Vec<&String> =
        manager.get_warnings().iter().filter(|w| w.starts_with("Failed to parse ")).collect();
    assert_eq!(
        rejected,
        vec!["Failed to parse /r/nodes/broken.json: Missing required 'commands' array in /r/nodes/broken.json"]
    );
}

#[test]
fn load_without_root_leaves_the_registry_empty() {
    let mut manager = NodeManager::new();
    manager.load_nodes_from_varo_path(&env_of(&[("VARO_PATH", "/r")]), &catalog()).unwrap();
    assert_eq!(manager.get_node_count(), 3);
    assert!(manager.load_nodes_from_varo_path(&EnvMap::new(), &catalog()).is_ok());
    assert_eq!(manager.get_node_count(), 0);
    assert_eq!(
        manager.get_warnings(),
        &vec!["VARO_PATH environment variable not set. No nodes loaded.".to_string()]
    );
    assert!(manager.refresh_with_preset(&preset(vec![]), &EnvMap::new(), &catalog()).is_ok());
    assert_eq!(
        manager.get_warnings(),
        &vec!["Preset 'Studio' does not define VARO_PATH and no system VARO_PATH found. No nodes loaded."
            .to_string()]
    );
}

#[test]
fn load_with_missing_directory_leaves_the_registry_empty() {
    let mut manager = NodeManager::new();
    assert!(manager.load_nodes_from_varo_path(&env_of(&[("VARO_PATH", "/else")]), &catalog()).is_ok());
    assert_eq!(manager.get_node_count(), 0);
    assert_eq!(
        manager.get_warnings(),
        &vec!["Failed to load nodes from /else/nodes: Directory does not exist or is not a directory: /else/nodes. No nodes loaded."
            .to_string()]
    );
}

#[test]
fn preset_root_wins_over_system_root() {
    let system = env_of(&[("VARO_PATH", "/nowhere")]);
    let p = preset(vec![var("VARO_PATH", "/r")]);
    assert_eq!(NodeManager::nodes_path(Some(&p), &system), Some("/r/nodes".to_string()));
    assert_eq!(NodeManager::nodes_path(None, &system), Some("/nowhere/nodes".to_string()));
    assert_eq!(NodeManager::nodes_path(None, &EnvMap::new()), None);
    let mut manager = NodeManager::new();
    manager.refresh_with_preset(&p, &system, &catalog()).unwrap();
    assert_eq!(manager.get_node_count(), 3);
}

#[test]
fn later_node_with_the_same_id_replaces_the_earlier() {
    let snapshots = vec![DirSnapshot {
        path: "/r/nodes".to_string(),
        listing: Listing::Entries(vec![
            file("/r/nodes/one.json", r#"{"id":"x","name":"First","commands":[]}"#),
            file("/r/nodes/two.json", r#"{"id":"y","name":"Other","commands":[]}"#),
            file("/r/nodes/three.json", r#"{"id":"x","name":"Second","commands":[]}"#),
        ]),
    }];
    let mut manager = NodeManager::new();
    manager.load_nodes_from_varo_path(&env_of(&[("VARO_PATH", "/r")]), &snapshots).unwrap();
    assert_eq!(manager.get_node_count(), 2);
    assert_eq!(manager.get_node("x").unwrap().name, "Second");
}

#[test]
fn display_order_ignores_case_and_is_stable() {
    let snapshots = vec![DirSnapshot {
        path: "/r/nodes".to_string(),
        listing: Listing::Entries(vec![
            file("/r/nodes/1.json", r#"{"id":"1","name":"banana","commands":[]}"#),
            file("/r/nodes/2.json", r#"{"id":"2","name":"Apple","commands":[]}"#),
            file("/r/nodes/3.json", r#"{"id":"3","name":"BANANA","commands":[]}"#),
            file("/r/nodes/4.json", r#"{"id":"4","name":"apple","commands":[]}"#),
            file("/r/nodes/5.json", r#"{"id":"5","name":"Cherry","commands":[]}"#),
            file("/r/nodes/6.json", r#"{"id":"6","name":"ab","commands":[]}"#),
        ]),
    }];
    let mut manager = NodeManager::new();
    manager.load_nodes_from_varo_path(&env_of(&[("VARO_PATH", "/r")]), &snapshots).unwrap();
    let ids: Vec<&str> = manager.get_all_nodes().iter().map(|n| n.id.as_str()).collect();
    assert_eq!(ids, vec!["6", "2", "4", "1", "3", "5"]);
}

#[test]
fn node_environment_wins_over_preset_and_system() {
    let system = env_of(&[("FOO", "sys")]);
    let p = preset(vec![var("FOO", "preset")]);
    let n = node(vec![command("/bin/${FOO}", "", "${FOO}", false)], vec![var("FOO", "node")]);
    let plan = plan_node(&n, Some(&p), &system).unwrap();
    match plan {
        LaunchPlan::Run { path, args, env, wait } => {
            assert_eq!(path, "/bin/node");
            assert_eq!(args, Some(vec!["node".to_string()]));
            let env = env.unwrap();
            assert_eq!(env.get("FOO"), Some(&"node".to_string()));
            assert_eq!(env.len(), 1);
            assert!(wait);
        }
        other => panic!("unexpected plan {:?}", other),
    }
}

#[test]
fn child_environment_holds_preset_and_node_variables_expanded() {
    let system = env_of(&[("HOME", "/h"), ("SECRET", "s")]);
    let p = preset(vec![var("ROOT", "${HOME}/root"), var("MODE", "slow")]);
    let n = node(
        vec![command("${ROOT}/run", "relative", "", true)],
        vec![var("MODE", "fast"), var("BIN", "${ROOT}/bin:${MODE}")],
    );
    match plan_node(&n, Some(&p), &system).unwrap() {
        LaunchPlan::Run { path, args, env, wait } => {
            assert_eq!(path, "${HOME}/root/run");
            assert_eq!(args, None);
            assert!(!wait);
            assert_eq!(
                env.unwrap().to_pairs(),
                vec![
                    ("ROOT".to_string(), "/h/root".to_string()),
                    ("MODE".to_string(), "fast".to_string()),
                    ("BIN".to_string(), "${HOME}/root/bin:fast".to_string()),
                ]
            );
        }
        other => panic!("unexpected plan {:?}", other),
    }
}

#[test]
fn plan_without_variables_has_no_environment() {
    let n = node(vec![command("/bin/true", "", "", false)], vec![]);
    assert_eq!(
        plan_node(&n, None, &env_of(&[("A", "b")])).unwrap(),
        LaunchPlan::Run { path: "/bin/true".to_string(), args: None, env: None, wait: true }
    );
}

#[test]
fn arguments_are_split_on_white_space() {
    let n = node(vec![command("p", "", "  -a\t--long=v \n last ", false)], vec![]);
    match plan_node(&n, None, &EnvMap::new()).unwrap() {
        LaunchPlan::Run { args, .. } => assert_eq!(
            args,
            Some(vec!["-a".to_string(), "--long=v".to_string(), "last".to_string()])
        ),
        other => panic!("unexpected plan {:?}", other),
    }
    let blank = node(vec![command("p", "", "   ", false)], vec![]);
    match plan_node(&blank, None, &EnvMap::new()).unwrap() {
        LaunchPlan::Run { args, .. } => assert_eq!(args, Some(vec![])),
        other => panic!("unexpected plan {:?}", other),
    }
}

#[test]
fn url_command_is_opened_not_run() {
    let system = env_of(&[("HOST", "example.org")]);
    let n = node(
        vec![command("https://${HOST}/docs", "URL", "ignored", false), command("/bin/second", "", "", false)],
        vec![var("X", "y")],
    );
    assert_eq!(
        plan_node(&n, None, &system).unwrap(),
        LaunchPlan::OpenUrl { url: "https://example.org/docs".to_string() }
    );
}

#[test]
fn only_the_first_command_is_planned() {
    let n = node(vec![command("/bin/first", "", "", false), command("/bin/second", "", "", false)], vec![]);
    match plan_node(&n, None, &EnvMap::new()).unwrap() {
        LaunchPlan::Run { path, .. } => assert_eq!(path, "/bin/first"),
        other => panic!("unexpected plan {:?}", other),
    }
}

#[test]
fn node_without_commands_cannot_be_executed() {
    let system = env_of(&[("VARO_PATH", "/r"), ("TOOL", "/bin/tool")]);
    let mut manager = NodeManager::new();
    manager.load_nodes_from_varo_path(&system, &catalog()).unwrap();
    let err = manager.execute_node("a", &system).unwrap_err();
    assert_eq!(err.kind(), ErrorKind::Execution);
    assert_eq!(err.message(), "Node has no commands to execute");
    let err = manager.execute_node("nope", &system).unwrap_err();
    assert_eq!(err.kind(), ErrorKind::Node);
    assert_eq!(err.to_text(), "Node error: Node not found: nope");
    let plan = manager.execute_node_with_env_expansion("b", None, &system).unwrap();
    match plan {
        LaunchPlan::Run { path, args, env, wait } => {
            assert_eq!(path, "/bin/tool");
            assert_eq!(args, Some(vec!["-v".to_string(), "fast".to_string()]));
            assert_eq!(env.unwrap().to_pairs(), vec![("MODE".to_string(), "fast".to_string())]);
            assert!(wait);
        }
        other => panic!("unexpected plan {:?}", other),
    }
}

#[test]
fn spawn_failure_is_an_execution_error_without_waiting() {
    let n = node(vec![command("/no/such/binary", "", "", true)], vec![]);
    let wait = match plan_node(&n, None, &EnvMap::new()).unwrap() {
        LaunchPlan::Run { wait, .. } => wait,
        other => panic!("unexpected plan {:?}", other),
    };
    assert!(!wait);
    let err =
        execution_result(wait, &LaunchOutcome::SpawnFailed("No such file or directory".to_string()))
            .unwrap_err();
    assert_eq!(err.kind(), ErrorKind::Execution);
    assert_eq!(
        err.message(),
        "Failed to execute command: Launch failed: No such file or directory"
    );
}

#[test]
fn exit_status_counts_only_when_waited_for() {
    let failed = LaunchOutcome::Exited { success: false, code: Some(-3) };
    let err = execution_result(true, &failed).unwrap_err();
    assert_eq!(err.message(), "Failed to execute command: Process exited with code: Some(-3)");
    assert!(execution_result(false, &failed).is_ok());
    let killed = LaunchOutcome::Exited { success: false, code: None };
    assert_eq!(
        execution_result(true, &killed).unwrap_err().message(),
        "Failed to execute command: Process exited with code: None"
    );
    let big = LaunchOutcome::Exited { success: false, code: Some(i32::MIN) };
    assert_eq!(
        execution_result(true, &big).unwrap_err().message(),
        "Failed to execute command: Process exited with code: Some(-2147483648)"
    );
    assert!(execution_result(true, &LaunchOutcome::Exited { success: true, code: Some(0) }).is_ok());
    assert!(execution_result(true, &LaunchOutcome::Spawned).is_ok());
    assert!(execution_result(true, &LaunchOutcome::Opened).is_ok());
    assert_eq!(
        execution_result(false, &LaunchOutcome::OpenFailed).unwrap_err().to_text(),
        "Execution error: Failed to open URL in browser"
    );
}

#[test]
fn reveal_needs_a_known_node_with_a_file() {
    let system = env_of(&[("VARO_PATH", "/r")]);
    let mut manager = NodeManager::new();
    manager.load_nodes_from_varo_path(&system, &catalog()).unwrap();
    assert_eq!(manager.show_node_in_folder("z").unwrap(), "/r/nodes/zeta.json");
    assert_eq!(manager.show_node_in_folder("q").unwrap_err().kind(), ErrorKind::Node);
    assert!(reveal_result(true).is_ok());
    assert_eq!(reveal_result(false).unwrap_err().message(), "Failed to open file in folder");
}

#[test]
fn icon_of_a_node_can_be_replaced() {
    let system = env_of(&[("VARO_PATH", "/r")]);
    let mut manager = NodeManager::new();
    manager.load_nodes_from_varo_path(&system, &catalog()).unwrap();
    assert!(manager.set_node_icon("z", "data:image/png;base64,AQID".to_string()));
    assert!(!manager.set_node_icon("q", "x".to_string()));
    assert_eq!(manager.get_node("z").unwrap().icon, "data:image/png;base64,AQID");
    assert_eq!(manager.get_node("a").unwrap().icon, "");
}

#[test]
fn directory_of_nodes_is_loaded_or_refused() {
    let system = env_of(&[("VARO_PATH", "/r")]);
    let listing = &catalog()[0].listing;
    assert_eq!(load_nodes_in_dir("/r/nodes", listing, &system).unwrap().len(), 3);
    assert_eq!(
        load_nodes_in_dir("/x", &Listing::Missing, &system),
        Err("Directory does not exist or is not a directory: /x".to_string())
    );
    assert_eq!(
        load_nodes_in_dir("/x", &Listing::NotADirectory, &system),
        Err("Directory does not exist or is not a directory: /x".to_string())
    );
    let mut snapshots = catalog();
    snapshots.push(DirSnapshot { path: "/r".to_string(), listing: Listing::Entries(vec![]) });
    let loaded = load_varo_nodes(&system, &snapshots).unwrap();
    assert_eq!(loaded.nodes.len(), 3);
    assert_eq!(
        load_varo_nodes(&EnvMap::new(), &snapshots),
        Err("Environment variable VARO_PATH is not set.".to_string())
    );
}

#[test]
fn root_and_nodes_directory_fail_each_with_its_own_message() {
    let at = |path: &str, listing: Listing| DirSnapshot { path: path.to_string(), listing };
    let system = env_of(&[("VARO_PATH", "/q")]);
    assert_eq!(
        load_varo_nodes(&system, &vec![]),
        Err("VARO_PATH does not exist: /q".to_string())
    );
    assert_eq!(
        load_varo_nodes(&system, &vec![at("/q", Listing::Missing), at("/q/nodes", Listing::Entries(vec![]))]),
        Err("VARO_PATH does not exist: /q".to_string())
    );
    assert_eq!(
        load_varo_nodes(&system, &vec![at("/q", Listing::NotADirectory)]),
        Err("VARO_PATH is not a directory: /q".to_string())
    );
    assert_eq!(
        load_varo_nodes(&system, &vec![at("/q", Listing::Entries(vec![]))]),
        Err("nodes/ subdirectory is missing under VARO_PATH: /q/nodes".to_string())
    );
    assert_eq!(
        load_varo_nodes(
            &system,
            &vec![at("/q", Listing::Entries(vec![])), at("/q/nodes", Listing::NotADirectory)]
        ),
        Err("nodes/ exists but is not a directory: /q/nodes".to_string())
    );
    assert_eq!(
        load_varo_nodes(
            &system,
            &vec![
                at("/q", Listing::Unreadable("denied".to_string())),
                at("/q/nodes", Listing::Unreadable("denied".to_string()))
            ]
        ),
        Err("Failed to read nodes dir: denied".to_string())
    );
    let empty = load_varo_nodes(
        &system,
        &vec![at("/q", Listing::Entries(vec![])), at("/q/nodes", Listing::Entries(vec![]))],
    )
    .unwrap();
    assert!(empty.nodes.is_empty());
    assert!(empty.warnings.is_empty());
}

#[test]
fn node_file_with_a_time_that_cannot_be_given_is_rejected() {
    let system = EnvMap::new();
    let mut f = file("/n/a.json", r#"{"name":"A","commands":[]}"#);
    assert!(load_node_from_file(&f, &system).is_ok());
    f.modified_error = Some("second time provided was later than self".to_string());
    assert_eq!(
        load_node_from_file(&f, &system),
        Err("second time provided was later than self".to_string())
    );
    assert_eq!(
        parse_varo_node_file(&f, &system),
        Err("second time provided was later than self".to_string())
    );
    let mut nameless = file("/n/b.json", r#"{"commands":[]}"#);
    nameless.modified_error = Some("too early".to_string());
    assert_eq!(
        load_node_from_file(&nameless, &system),
        Err("Missing or invalid 'name' field in /n/b.json".to_string())
    );
    let listing = Listing::Entries(vec![f]);
    let snapshots = vec![
        DirSnapshot { path: "/r".to_string(), listing: Listing::Entries(vec![]) },
        DirSnapshot { path: "/r/nodes".to_string(), listing },
    ];
    let loaded = load_varo_nodes(&env_of(&[("VARO_PATH", "/r")]), &snapshots).unwrap();
    assert!(loaded.nodes.is_empty());
    assert_eq!(
        loaded.warnings,
        vec!["Failed to parse /n/a.json: second time provided was later than self".to_string()]
    );
}

#[test]
fn group_warning_names_the_node() {
    let f = file("/r/nodes/x.json", r#"{"id":"x","name":"My Tool","category":"c","description":"d","status":{},"icon":"i","commands":[]}"#);
    let (_, warnings) = parse_varo_node_file(&f, &EnvMap::new()).unwrap();
    assert_eq!(
        warnings,
        vec!["Node 'x' missing optional 'groupId' field — defaulting to name 'My Tool'".to_string()]
    );
}

#[test]
fn nodes_are_ordered_by_the_keys_given() {
    let a = node(vec![], vec![]);
    let mut b = node(vec![], vec![]);
    b.id = "b".to_string();
    let mut c = node(vec![], vec![]);
    c.id = "c".to_string();
    let mut d = node(vec![], vec![]);
    d.id = "d".to_string();
    let entries = vec![
        ("pear".to_string(), &a),
        ("apple".to_string(), &b),
        ("pear".to_string(), &c),
        ("Zebra".to_string(), &d),
    ];
    let ids: Vec<&str> = order_by_key(entries).iter().map(|n| n.id.as_str()).collect();
    assert_eq!(ids, vec!["d", "b", "n", "c"]);
    assert!(order_by_key(vec![]).is_empty());
    let keys_that_differ_from_names = vec![("2".to_string(), &a), ("1".to_string(), &b)];
    let ids: Vec<&str> =
        order_by_key(keys_that_differ_from_names).iter().map(|n| n.id.as_str()).collect();
    assert_eq!(ids, vec!["b", "n"]);
}

#[test]
fn plan_follows_the_kind_given() {
    let n = node(vec![command("/bin/${A}", "exe", "x  y", true)], vec![]);
    let system = env_of(&[("A", "b")]);
    assert_eq!(
        plan_node_with_kind(&n, "url", None, &system).unwrap(),
        LaunchPlan::OpenUrl { url: "/bin/b".to_string() }
    );
    match plan_node_with_kind(&n, "URL", None, &system).unwrap() {
        LaunchPlan::Run { path, args, env, wait } => {
            assert_eq!(path, "/bin/b");
            assert_eq!(args, Some(vec!["x".to_string(), "y".to_string()]));
            assert!(env.is_none());
            assert!(!wait);
        }
        other => panic!("unexpected plan: {:?}", other),
    }
    assert_eq!(plan_node_with_kind(&n, "exe", None, &system), plan_node(&n, None, &system));
    let none = node(vec![], vec![]);
    let e = plan_node_with_kind(&none, "url", None, &system).unwrap_err();
    assert_eq!(e.kind(), ErrorKind::Execution);
    assert_eq!(e.message(), "Node has no commands to execute");
}

#[test]
fn registry_never_holds_an_identifier_twice() {
    let snapshots = vec![DirSnapshot {
        path: "/r/nodes".to_string(),
        listing: Listing::Entries(vec![
            file("/r/nodes/one.json", r#"{"id":"x","name":"First","commands":[]}"#),
            file("/r/nodes/two.json", r#"{"id":"x","name":"Second","commands":[]}"#),
            file("/r/nodes/three.json", r#"{"id":"x","name":"Third","commands":[]}"#),
            file("/r/nodes/four.json", r#"{"id":"y","name":"Fourth","commands":[]}"#),
        ]),
    }];
    let mut manager = NodeManager::new();
    manager.load_nodes_from_varo_path(&env_of(&[("VARO_PATH", "/r")]), &snapshots).unwrap();
    assert!(manager.set_node_icon("x", "i".to_string()));
    let mut ids: Vec<String> = manager.get_all_nodes().iter().map(|n| n.id.clone()).collect();
    assert_eq!(ids.len(), 2);
    ids.sort();
    ids.dedup();
    assert_eq!(ids, vec!["x".to_string(), "y".to_string()]);
    assert_eq!(manager.get_node("x").unwrap().name, "Third");
}

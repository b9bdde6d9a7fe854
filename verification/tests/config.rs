use session_core::command::SshTarget;
use session_core::config::{resolve_target, validate, AgentConfig, Config, HostConfig};
use session_core::discovery::{
    example_config_json, first_existing, outcome_for_file, unique_paths, LoadOutcome, PathCandidate,
};

fn host(name: &str, host: &str, user: Option<&str>) -> HostConfig {
    HostConfig {
        name: name.into(),
        host: host.into(),
        user: user.map(|u| u.to_string()),
        extra_ssh_args: vec![],
    }
}

fn agent(id: &str, label: &str, cmd: &str) -> AgentConfig {
    AgentConfig { id: id.into(), label: label.into(), cmd: cmd.into() }
}

/// The configuration of
/// `{"hosts":[{"name":"main","host":"10.0.0.1","user":"ubuntu"}],
///   "agents":[{"id":"hermes","label":"Hermes","cmd":"hermes chat"}]}`.
fn good() -> Config {
    Config {
        hosts: vec![host("main", "10.0.0.1", Some("ubuntu"))],
        agents: vec![agent("hermes", "Hermes", "hermes chat")],
    }
}

#[test]
fn parses_valid_config() {
    let cfg = good();
    assert_eq!(cfg.hosts[0].name, "main");
    assert_eq!(cfg.agents[0].cmd, "hermes chat");
    assert!(validate(&cfg).is_ok());
}

#[test]
fn validate_names_the_offending_field() {
    let cfg = Config { hosts: vec![host("", "h", None)], agents: vec![agent("a", "A", "  ")] };
    let errs = validate(&cfg).unwrap_err();
    assert_eq!(errs, vec![
        "hosts[0].name: must not be empty".to_string(),
        "agents[0].cmd: must not be empty".to_string(),
    ]);
}

#[test]
fn resolves_ssh_target_by_host_name() {
    let cfg = good();
    let t = cfg.to_ssh_target("main").unwrap();
    assert_eq!(t.host, "10.0.0.1");
    assert_eq!(t.user.as_deref(), Some("ubuntu"));
    assert!(t.extra_ssh_args.is_empty());
    assert!(cfg.to_ssh_target("nope").is_none());
}

#[test]
fn validate_reports_every_problem_in_order() {
    let cfg = Config { hosts: vec![], agents: vec![] };
    assert_eq!(validate(&cfg).unwrap_err(), vec![
        "hosts: must not be empty".to_string(),
        "agents: must not be empty".to_string(),
    ]);
    let cfg = Config {
        hosts: vec![host("ok", "ok", None), host(" ", "\t", None)],
        agents: vec![agent("", "x", ""), agent("y", "", "run")],
    };
    assert_eq!(validate(&cfg).unwrap_err(), vec![
        "hosts[1].name: must not be empty".to_string(),
        "hosts[1].host: must not be empty".to_string(),
        "agents[0].id: must not be empty".to_string(),
        "agents[0].cmd: must not be empty".to_string(),
    ]);
}

#[test]
fn resolve_target_falls_back_to_the_alias() {
    let cfg = good();
    let t = resolve_target(Some(&cfg), "main");
    assert_eq!(t, SshTarget { host: "10.0.0.1".into(), user: Some("ubuntu".into()), extra_ssh_args: vec![] });
    let t = resolve_target(Some(&cfg), "bastion");
    assert_eq!(t, SshTarget { host: "bastion".into(), user: None, extra_ssh_args: vec![] });
    let t = resolve_target(None, "main");
    assert_eq!(t.host, "main");
}

#[test]
fn first_host_of_a_repeated_name_wins() {
    let cfg = Config {
        hosts: vec![host("dup", "first", None), host("dup", "second", Some("u"))],
        agents: vec![agent("a", "A", "a")],
    };
    assert_eq!(cfg.to_ssh_target("dup").unwrap().host, "first");
}

// ---- discovery ----

/// A path as the platform splits it.
fn candidate(p: &str) -> PathCandidate {
    PathCandidate {
        text: p.to_string(),
        components: std::path::Path::new(p)
            .components()
            .map(|c| c.as_os_str().to_string_lossy().into_owned())
            .collect(),
    }
}

#[test]
fn unique_paths_dedupes_preserving_order() {
    let a = "/x/config.json";
    let b = "/y/config.json";
    let out = unique_paths(vec![candidate(a), candidate(b), candidate(a)]);
    assert_eq!(out, vec![a.to_string(), b.to_string()]);
}

#[test]
fn first_existing_candidate_is_chosen() {
    assert_eq!(first_existing(&[false, true, true]), Some(1));
    assert_eq!(first_existing(&[false, false]), None);
    assert_eq!(first_existing(&[]), None);
}

#[test]
fn outcome_for_file_loads_or_reports() {
    match outcome_for_file("/c.json".into(), Ok(good())) {
        LoadOutcome::Loaded { path, config } => {
            assert_eq!(path, "/c.json");
            assert_eq!(config, good());
        }
        other => panic!("expected Loaded, got {other:?}"),
    }
    match outcome_for_file("/c.json".into(), Ok(Config { hosts: vec![], agents: vec![] })) {
        LoadOutcome::Invalid { errors, .. } => {
            assert!(errors.contains(&"hosts: must not be empty".to_string()));
            assert!(errors.contains(&"agents: must not be empty".to_string()));
        }
        other => panic!("expected Invalid, got {other:?}"),
    }
    assert_eq!(
        outcome_for_file("/b.json".into(), Err("missing field `agents`".into())),
        LoadOutcome::Invalid { path: "/b.json".into(), errors: vec!["missing field `agents`".into()] }
    );
}

#[test]
fn example_template_has_placeholders_for_both_agents() {
    let t = example_config_json();
    assert!(t.contains("\"name\": \"main\""));
    assert!(t.contains("REPLACE_WITH_HOST"));
    assert!(t.contains("REPLACE_WITH_HERMES_CMD"));
    assert!(t.contains("REPLACE_WITH_HARNESS_CMD"));
    assert!(t.ends_with("}\n"));
}

/// What loading gives when `files` are the candidates in order, each with
/// what reading and parsing it gives (`None`: the file does not exist).
fn load(files: Vec<(&str, Option<Result<Config, String>>)>) -> LoadOutcome {
    let exists: Vec<bool> = files.iter().map(|(_, f)| f.is_some()).collect();
    match first_existing(&exists) {
        Some(i) => {
            let (path, parsed) = files.into_iter().nth(i).unwrap();
            outcome_for_file(path.to_string(), parsed.unwrap())
        }
        None => LoadOutcome::NotFound { searched: files.iter().map(|(p, _)| p.to_string()).collect() },
    }
}

#[test]
fn missing_files_report_searched_paths() {
    let outcome = load(vec![("/d/a.json", None), ("/d/b.json", None)]);
    assert_eq!(
        outcome,
        LoadOutcome::NotFound { searched: vec!["/d/a.json".to_string(), "/d/b.json".to_string()] }
    );
}

#[test]
fn first_existing_file_wins() {
    let other = Config { hosts: vec![host("other", "h", None)], agents: vec![agent("x", "X", "x")] };
    match load(vec![("/d/a.json", Some(Ok(good()))), ("/d/b.json", Some(Ok(other)))]) {
        LoadOutcome::Loaded { path, config } => {
            assert_eq!(path, "/d/a.json");
            assert_eq!(config.hosts[0].name, "main");
        }
        other => panic!("expected Loaded, got {other:?}"),
    }
}

#[test]
fn skips_missing_and_uses_next() {
    match load(vec![("/d/nope.json", None), ("/d/present.json", Some(Ok(good())))]) {
        LoadOutcome::Loaded { path, .. } => assert_eq!(path, "/d/present.json"),
        other => panic!("expected Loaded, got {other:?}"),
    }
}

#[test]
fn invalid_json_reports_path_and_error() {
    let parse_error = "missing field `agents` at line 1 column 15".to_string();
    match load(vec![("/d/broken.json", Some(Err(parse_error)))]) {
        LoadOutcome::Invalid { path, errors } => {
            assert_eq!(path, "/d/broken.json");
            assert!(errors[0].contains("agents"), "unexpected: {errors:?}");
        }
        other => panic!("expected Invalid, got {other:?}"),
    }
}

#[test]
fn broken_first_file_is_not_silently_skipped() {
    let parse_error = "key must be a string at line 1 column 3".to_string();
    match load(vec![("/d/broken.json", Some(Err(parse_error))), ("/d/valid.json", Some(Ok(good())))]) {
        LoadOutcome::Invalid { path, .. } => assert_eq!(path, "/d/broken.json"),
        other => panic!("expected Invalid, got {other:?}"),
    }
}

#[test]
fn validation_errors_are_reported() {
    let empty = Config { hosts: vec![], agents: vec![] };
    match load(vec![("/d/empty.json", Some(Ok(empty)))]) {
        LoadOutcome::Invalid { errors, .. } => {
            assert!(errors.contains(&"hosts: must not be empty".to_string()));
            assert!(errors.contains(&"agents: must not be empty".to_string()));
        }
        other => panic!("expected Invalid, got {other:?}"),
    }
}

fn text_of(v: &serde_json::Value, key: &str) -> String {
    v[key].as_str().unwrap().to_string()
}

#[test]
fn example_template_parses_and_validates() {
    let v: serde_json::Value = serde_json::from_str(&example_config_json()).unwrap();
    let cfg = Config {
        hosts: v["hosts"]
            .as_array()
            .unwrap()
            .iter()
            .map(|h| HostConfig {
                name: text_of(h, "name"),
                host: text_of(h, "host"),
                user: h.get("user").and_then(|u| u.as_str()).map(|u| u.to_string()),
                extra_ssh_args: vec![],
            })
            .collect(),
        agents: v["agents"]
            .as_array()
            .unwrap()
            .iter()
            .map(|a| agent(&text_of(a, "id"), &text_of(a, "label"), &text_of(a, "cmd")))
            .collect(),
    };
    assert!(validate(&cfg).is_ok());
    assert_eq!(cfg.hosts[0].name, "main");
}

#[test]
fn paths_with_the_same_components_are_repeats() {
    let out = unique_paths(
        ["/x//c", "/x/c", "/x/./c/", "x/c", "./x/c", "/x/c/.."].iter().map(|p| candidate(p)).collect(),
    );
    assert_eq!(out, vec!["/x//c", "x/c", "./x/c", "/x/c/.."]);
    let same = PathCandidate { text: "C:\\x".into(), components: vec!["C:".into(), "\\".into(), "x".into()] };
    let other = PathCandidate { text: "C:/x".into(), components: vec!["C:".into(), "\\".into(), "x".into()] };
    assert_eq!(unique_paths(vec![same, other]), vec!["C:\\x".to_string()]);
}

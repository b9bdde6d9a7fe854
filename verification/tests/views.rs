use session_core::views::admit_session;
use session_core::agents::known_agent_registry;
use session_core::config::{AgentConfig, Config, HostConfig};
use session_core::discovery::LoadOutcome;
use session_core::files::{parse_listing, Entry, Listing};
use session_core::ssh_config::parse_ssh_config;
use session_core::views::{
    config_view, dir_view, known_agent_views, load_response, ssh_host_views, ConfigError,
};

fn config() -> Config {
    Config {
        hosts: vec![HostConfig {
            name: "main".into(),
            host: "10.0.0.1".into(),
            user: Some("ubuntu".into()),
            extra_ssh_args: vec!["-p".into(), "2222".into()],
        }],
        agents: vec![AgentConfig { id: "hermes".into(), label: "Hermes".into(), cmd: "hermes chat".into() }],
    }
}

#[test]
fn config_view_shows_every_field() {
    let v = config_view(&config(), "/c/config.json".into(), vec!["/a".into(), "/c/config.json".into()]);
    assert_eq!(v.hosts.len(), 1);
    assert_eq!(v.hosts[0].name, "main");
    assert_eq!(v.hosts[0].host, "10.0.0.1");
    assert_eq!(v.hosts[0].user.as_deref(), Some("ubuntu"));
    assert_eq!(v.hosts[0].extra_ssh_args, vec!["-p".to_string(), "2222".to_string()]);
    assert_eq!(v.agents.len(), 1);
    assert_eq!(v.agents[0].id, "hermes");
    assert_eq!(v.agents[0].label, "Hermes");
    assert_eq!(v.agents[0].cmd, "hermes chat");
    assert_eq!(v.source_path, "/c/config.json");
    assert_eq!(v.searched, vec!["/a".to_string(), "/c/config.json".to_string()]);
}

#[test]
fn a_loaded_configuration_is_shown_and_kept() {
    let outcome = LoadOutcome::Loaded { path: "/c/config.json".into(), config: config() };
    match load_response(outcome, vec!["/c/config.json".into()]) {
        Ok((view, cfg)) => {
            assert_eq!(cfg, config());
            assert_eq!(view.source_path, "/c/config.json");
            assert_eq!(view.hosts[0].name, "main");
            assert_eq!(view.searched, vec!["/c/config.json".to_string()]);
        }
        Err(_) => panic!("expected the configuration"),
    }
}

#[test]
fn a_missing_configuration_lists_every_path_searched() {
    let outcome = LoadOutcome::NotFound { searched: vec!["/x".into()] };
    match load_response(outcome, vec!["/a/config.json".into(), "/b/config.json".into()]) {
        Err(ConfigError::NotFound { searched }) => {
            assert_eq!(searched, vec!["/a/config.json".to_string(), "/b/config.json".to_string()])
        }
        _ => panic!("expected NotFound"),
    }
}

#[test]
fn an_invalid_configuration_names_its_file_and_errors() {
    let outcome = LoadOutcome::Invalid {
        path: "/c/config.json".into(),
        errors: vec!["hosts[0].name: must not be empty".into()],
    };
    match load_response(outcome, vec![]) {
        Err(ConfigError::Invalid { path, errors }) => {
            assert_eq!(path, "/c/config.json");
            assert_eq!(errors, vec!["hosts[0].name: must not be empty".to_string()]);
        }
        _ => panic!("expected Invalid"),
    }
}

#[test]
fn directory_entries_get_absolute_paths() {
    let v = dir_view(&parse_listing("/home/ubuntu\nd\t4096\tsrc\nf\t120\tREADME.md\n"));
    assert_eq!(v.dir, "/home/ubuntu");
    assert_eq!(v.entries.len(), 2);
    assert_eq!(v.entries[0].name, "src");
    assert_eq!(v.entries[0].path, "/home/ubuntu/src");
    assert!(v.entries[0].is_dir);
    assert_eq!(v.entries[0].size, 4096);
    assert_eq!(v.entries[1].path, "/home/ubuntu/README.md");
    assert!(!v.entries[1].is_dir);

    let root = Listing { dir: "/".into(), entries: vec![Entry { name: "etc".into(), is_dir: true, size: 1 }] };
    assert_eq!(dir_view(&root).entries[0].path, "/etc");
}

#[test]
fn ssh_aliases_are_shown_with_their_details() {
    let v = ssh_host_views(parse_ssh_config("Host main\n  HostName 10.0.0.1\n  User ubuntu\n  Port 2222\nHost jump\n  ProxyJump bastion\n"));
    assert_eq!(v.len(), 2);
    assert_eq!(v[0].alias, "main");
    assert_eq!(v[0].host_name.as_deref(), Some("10.0.0.1"));
    assert_eq!(v[0].user.as_deref(), Some("ubuntu"));
    assert_eq!(v[0].port, Some(2222));
    assert_eq!(v[0].proxy_jump, None);
    assert_eq!(v[1].alias, "jump");
    assert_eq!(v[1].proxy_jump.as_deref(), Some("bastion"));
}

#[test]
fn known_agents_are_offered_as_templates() {
    let v = known_agent_views(&known_agent_registry());
    let got: Vec<(&str, &str, &str)> =
        v.iter().map(|a| (a.id.as_str(), a.label.as_str(), a.cmd.as_str())).collect();
    assert_eq!(got, vec![("hermes", "Hermes Agent", "hermes chat"), ("dsh", "DeepSeek Harness", "dsh")]);
}

#[test]
fn sessions_are_admitted_in_the_order_of_the_checks() {
    let cfg = config();
    assert_eq!(admit_session(None, &[], "main", "hermes", "").err().unwrap(), "config not loaded");
    assert_eq!(admit_session(Some(&cfg), &[], "nope", "x", "").err().unwrap(), "unknown host: nope");
    assert_eq!(admit_session(Some(&cfg), &[], "main", "dsh", "").err().unwrap(), "unknown agent: dsh");
    let running = vec!["hermes-p".to_string()];
    assert_eq!(
        admit_session(Some(&cfg), &running, "main", "hermes", "p").err().unwrap(),
        "session already running: hermes-p"
    );
    let plan = admit_session(Some(&cfg), &running, "main", "hermes", "").ok().unwrap();
    assert_eq!(plan.session, "hermes");
    assert_eq!(plan.agent_cmd, "hermes chat");
    assert_eq!(plan.target.host, "10.0.0.1");
}

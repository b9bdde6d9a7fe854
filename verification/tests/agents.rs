use session_core::agents::{build_probe_agents_cmd, known_agent_registry, parse_probe_agents_output};

#[test]
fn probe_cmd_lists_every_registry_bin_and_never_fails() {
    let cmd = build_probe_agents_cmd();
    for agent in known_agent_registry() {
        assert!(cmd.contains(agent.bin), "{} missing from: {cmd}", agent.bin);
    }
    assert!(cmd.contains("command -v"));
    assert!(cmd.ends_with("; true"), "must force exit 0: {cmd}");
}

#[test]
fn parses_installed_bins() {
    let got = parse_probe_agents_output("hermes\ndsh\n");
    assert_eq!(got.iter().map(|a| a.id).collect::<Vec<_>>(), vec!["hermes", "dsh"]);
}

#[test]
fn ignores_unknown_and_noisy_lines() {
    let got = parse_probe_agents_output("bash: warning: setlocale\nnope\n  hermes  \n");
    assert_eq!(got.len(), 1);
    assert_eq!(got[0].id, "hermes");
}

#[test]
fn empty_output_means_nothing_installed() {
    assert!(parse_probe_agents_output("").is_empty());
}

#[test]
fn output_order_is_registry_order_and_deduped() {
    let got = parse_probe_agents_output("dsh\nhermes\nhermes\n");
    assert_eq!(got.iter().map(|a| a.id).collect::<Vec<_>>(), vec!["hermes", "dsh"]);
}

#[test]
fn discovered_agents_carry_a_usable_launch_command() {
    for agent in parse_probe_agents_output("hermes\ndsh\n") {
        assert!(!agent.cmd.trim().is_empty(), "{} has no cmd", agent.id);
        assert!(!agent.label.trim().is_empty());
    }
}

#[test]
fn probe_cmd_exact_text() {
    assert_eq!(
        build_probe_agents_cmd(),
        "for b in hermes dsh; do command -v \"$b\" >/dev/null 2>&1 && echo \"$b\"; done; true"
    );
}

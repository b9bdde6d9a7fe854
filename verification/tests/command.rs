use session_core::command::{
    build_exec_argv, build_probe_argv, build_remote_tmux_cmd, build_scroll_cmd,
    build_session_argv, login_shell, probe_outcome, shell_quote, with_native_terminal_env,
    SshTarget, build_kill_session_args, destination,
};

fn target() -> SshTarget {
    SshTarget { host: "example.com".into(), user: Some("ubuntu".into()), extra_ssh_args: vec![] }
}

#[test]
fn quotes_single_quote() {
    assert_eq!(shell_quote("it's"), "'it'\\''s'");
}

#[test]
fn quotes_spaces_and_metachars() {
    assert_eq!(shell_quote("a b$c;d"), "'a b$c;d'");
}

#[test]
fn agent_gets_native_terminal_environment() {
    assert_eq!(
        with_native_terminal_env("freebuff --project"),
        "env -u TERM_PROGRAM TERM=xterm-256color COLORTERM=truecolor freebuff --project"
    );
}

#[test]
fn remote_tmux_command_sets_native_terminal_environment() {
    let cmd = build_remote_tmux_cmd("freebuff", "freebuff");
    assert!(
        cmd.contains("env -u TERM_PROGRAM TERM=xterm-256color COLORTERM=truecolor freebuff"),
        "{cmd}"
    );
}

#[test]
fn remote_tmux_cmd_runs_in_a_login_shell() {
    let cmd = build_remote_tmux_cmd("hermes-proj", "hermes chat");
    assert!(cmd.starts_with("${SHELL:-/bin/bash} -lc '"), "{cmd}");
    assert!(cmd.ends_with('\''), "{cmd}");
    assert!(cmd.contains("set -g mouse on"), "{cmd}");
    assert!(cmd.contains("tmux source-file"), "{cmd}");
    assert!(cmd.contains("tmux set -t"), "{cmd}");
    assert!(cmd.contains("tmux new -As"), "{cmd}");
}

#[test]
fn wheel_is_routed_to_tmux_not_forwarded_to_the_pane() {
    let cmd = build_remote_tmux_cmd("hermes-proj", "hermes chat");
    assert!(cmd.contains("bind -n WheelUpPane"), "{cmd}");
    assert!(cmd.contains("bind -n WheelDownPane"), "{cmd}");
    assert!(cmd.contains("copy-mode -e"), "{cmd}");
    assert!(
        !cmd.contains("mouse_any_flag"),
        "不能保留「pane 申请了就把滚轮转发给它」的判定：{cmd}"
    );
}

#[test]
fn builds_scroll_cmd_entering_copy_mode_first() {
    let up = build_scroll_cmd("hermes", true, 3);
    assert!(up.contains("tmux copy-mode -e -t 'hermes'"), "{up}");
    assert!(up.contains("send-keys -t 'hermes' -X -N 3 scroll-up"), "{up}");
    assert!(build_scroll_cmd("hermes", false, 3).contains("scroll-down"));
    assert!(up.contains("copy-mode -e"), "{up}");
}

#[test]
fn scroll_cmd_quotes_hostile_session_names() {
    let cmd = build_scroll_cmd("a b'c", true, 5);
    assert!(cmd.contains("'a b'\\''c'"), "{cmd}");
}

#[test]
fn tmux_config_carries_clipboard_keys_and_truecolor() {
    let cmd = build_remote_tmux_cmd("hermes-proj", "hermes chat");
    assert!(cmd.contains("set-clipboard on"), "{cmd}");
    assert!(cmd.contains("escape-time 10"), "{cmd}");
    assert!(cmd.contains("Tc"), "真彩色 override 不能少：{cmd}");
}

#[test]
fn wheel_binding_goes_through_a_config_file_not_inline() {
    let cmd = build_remote_tmux_cmd("hermes-proj", "hermes chat");
    assert!(cmd.contains("source-file"), "绑定必须经配置文件下发：{cmd}");
    assert!(
        cmd.contains("'#{pane_in_mode}'"),
        "tmux 的引号必须原样落到配置内容里：{cmd}"
    );
}

#[test]
fn login_shell_quotes_the_inner_command() {
    assert_eq!(login_shell("echo hi"), "${SHELL:-/bin/bash} -lc 'echo hi'");
    assert_eq!(login_shell("echo 'x'"), "${SHELL:-/bin/bash} -lc 'echo '\\''x'\\'''");
}

#[test]
fn builds_session_argv_with_keepalive_and_tty() {
    let argv = build_session_argv(&target(), "hermes-proj", "hermes chat");
    let head = vec![
        "ssh",
        "-o", "ServerAliveInterval=15", "-o", "ServerAliveCountMax=3",
        "-t", "ubuntu@example.com",
    ];
    assert_eq!(&argv[..head.len()], &head[..]);
    assert_eq!(argv.len(), head.len() + 1);
    assert_eq!(argv[head.len()], build_remote_tmux_cmd("hermes-proj", "hermes chat"));
}

#[test]
fn builds_probe_argv_without_tty() {
    assert_eq!(build_probe_argv(&target(), "hermes-proj"), vec![
        "ssh",
        "-o", "ServerAliveInterval=15", "-o", "ServerAliveCountMax=3",
        "-o", "ConnectTimeout=10", "-o", "BatchMode=yes",
        "ubuntu@example.com",
        "tmux has-session -t 'hermes-proj'",
    ]);
}

#[test]
fn extra_ssh_args_precede_destination() {
    let t = SshTarget { host: "h".into(), user: None, extra_ssh_args: vec!["-p".into(), "2222".into()] };
    let argv = build_session_argv(&t, "s", "c");
    assert_eq!(&argv[1..8], &["-o", "ServerAliveInterval=15", "-o", "ServerAliveCountMax=3", "-p", "2222", "-t"]);
    assert_eq!(argv[8], "h");
}

#[test]
fn builds_exec_argv_without_tty_and_with_bounded_wait() {
    assert_eq!(build_exec_argv(&target(), "ls -1"), vec![
        "ssh",
        "-o", "ServerAliveInterval=15", "-o", "ServerAliveCountMax=3",
        "-o", "ConnectTimeout=10", "-o", "BatchMode=yes",
        "ubuntu@example.com",
        "ls -1",
    ]);
}

#[test]
fn probe_outcome_returns_stdout_on_success() {
    assert_eq!(probe_outcome(0, "hermes\n", "").unwrap(), "hermes\n");
}

#[test]
fn probe_outcome_keeps_stdout_even_on_nonzero_exit() {
    assert_eq!(probe_outcome(1, "hermes\n", "noise").unwrap(), "hermes\n");
}

#[test]
fn probe_outcome_reports_stderr_when_there_is_no_output() {
    let err = probe_outcome(255, "", "ssh: Could not resolve hostname nope").unwrap_err();
    assert_eq!(err, "ssh: Could not resolve hostname nope");
}

#[test]
fn probe_outcome_falls_back_to_exit_code_when_stderr_is_empty() {
    assert_eq!(probe_outcome(255, "", "").unwrap_err(), "远端命令退出码 255");
}

#[test]
fn probe_outcome_treats_empty_success_as_a_real_answer() {
    assert_eq!(probe_outcome(0, "", "").unwrap(), "");
}

// ---- added ----

#[test]
fn probe_outcome_trims_stderr_and_renders_negative_codes() {
    assert_eq!(probe_outcome(3, "  \n", "  boom \n").unwrap_err(), "boom");
    assert_eq!(probe_outcome(-1, "", " \t").unwrap_err(), "远端命令退出码 -1");
    assert_eq!(probe_outcome(i32::MIN, "", "").unwrap_err(), "远端命令退出码 -2147483648");
}

#[test]
fn destination_with_and_without_user() {
    assert_eq!(destination(&target()), "ubuntu@example.com");
    let t = SshTarget { host: "alias".into(), user: None, extra_ssh_args: vec![] };
    assert_eq!(destination(&t), "alias");
}

#[test]
fn quote_of_empty_and_many_quotes() {
    assert_eq!(shell_quote(""), "''");
    assert_eq!(shell_quote("''"), "''\\'''\\'''");
}

#[test]
fn remote_tmux_cmd_exact_text() {
    let cmd = build_remote_tmux_cmd("s", "a");
    let inner = "printf '%s\\n' 'set -g mouse on' 'set -g set-clipboard on' 'set -g escape-time 10' \
'set -g terminal-overrides \",*256col*:Tc\"' \
'bind -n WheelUpPane if -Ft= '\\''#{pane_in_mode}'\\'' '\\''send-keys -M'\\'' '\\''copy-mode -e'\\''' \
'bind -n WheelDownPane if -Ft= '\\''#{pane_in_mode}'\\'' '\\''send-keys -M'\\'' '\\''send-keys -M'\\''' \
> /tmp/asc-tmux.conf; tmux source-file /tmp/asc-tmux.conf; tmux set -t 's' mouse on 2>/dev/null; \
tmux new -As 's' 'env -u TERM_PROGRAM TERM=xterm-256color COLORTERM=truecolor a'";
    assert_eq!(cmd, login_shell(inner));
}

#[test]
fn kill_session_args_use_batch_mode_and_quote() {
    let t = SshTarget { host: "h".into(), user: Some("u".into()), extra_ssh_args: vec!["-p".into(), "22".into()] };
    assert_eq!(build_kill_session_args(&t, "a'b"), vec![
        "-o", "BatchMode=yes", "-p", "22", "u@h", "tmux kill-session -t 'a'\\''b'",
    ]);
}

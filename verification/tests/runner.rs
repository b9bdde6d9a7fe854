use session_core::exit::SshOutcome;
use session_core::filechan::{chan_usable, read_reply_line, reply_result};
use session_core::reconnect::{close_frame, resize_frame};
use session_core::runner::{
    close_messages, interpret_probe, spawn_failed_messages, LiveAction, ProbeResult, Runner,
    RunnerMsg, Step,
};
use session_core::session::SessionState;
use session_core::views::{plan_session, session_name, state_name};
use session_core::config::{AgentConfig, Config, HostConfig};

fn describe(msgs: &[RunnerMsg]) -> Vec<String> {
    msgs.iter()
        .map(|m| match m {
            RunnerMsg::Output(s) => format!("output:{s}"),
            RunnerMsg::State(s) => format!("state:{}", state_name(*s)),
            RunnerMsg::Notice(s) => format!("notice:{s}"),
        })
        .collect()
}

#[test]
fn first_missing_probe_spawns_without_notice_and_later_one_notices() {
    let mut r = Runner::new(80, 24);
    let (msgs, step) = r.on_probe(ProbeResult::Missing);
    assert!(msgs.is_empty());
    assert_eq!(step, Step::Spawn);
    let (msgs, step) = r.on_probe(ProbeResult::Missing);
    assert_eq!(describe(&msgs), vec!["notice:原会话已不在，已新建"]);
    assert_eq!(step, Step::Spawn);
    let (msgs, step) = r.on_probe(ProbeResult::Exists);
    assert!(msgs.is_empty());
    assert_eq!(step, Step::Spawn);
}

#[test]
fn network_probe_failures_back_off_and_reset_on_connect() {
    let mut r = Runner::new(80, 24);
    let mut delays = Vec::new();
    for _ in 0..7 {
        let (msgs, step) = r.on_probe(ProbeResult::Failed(SshOutcome::Network));
        assert_eq!(describe(&msgs), vec!["state:retrying"]);
        match step {
            Step::Wait(ms) => delays.push(ms),
            other => panic!("expected a wait, got {other:?}"),
        }
    }
    assert_eq!(delays, vec![1000, 2000, 4000, 8000, 16000, 30000, 30000]);
    assert_eq!(describe(&r.on_connected()), vec!["state:connected"]);
    let (_, step) = r.on_probe(ProbeResult::Failed(SshOutcome::Network));
    assert_eq!(step, Step::Wait(1000));
}

#[test]
fn auth_and_missing_tmux_give_up_with_a_reason() {
    let mut r = Runner::new(80, 24);
    let (msgs, step) = r.on_probe(ProbeResult::Failed(SshOutcome::Auth));
    assert_eq!(step, Step::Stop);
    assert_eq!(describe(&msgs), vec!["notice:SSH 认证失败：请检查密钥/用户名", "state:exited"]);
    let mut r = Runner::new(80, 24);
    let (msgs, _) = r.on_probe(ProbeResult::Failed(SshOutcome::TmuxMissing));
    assert_eq!(
        describe(&msgs),
        vec!["notice:服务端缺 tmux，请先安装：sudo dnf install tmux（或 sudo apt install tmux）", "state:exited"]
    );
    let mut r = Runner::new(80, 24);
    let (msgs, _) = r.on_probe(ProbeResult::Failed(SshOutcome::Unknown));
    assert_eq!(describe(&msgs), vec!["notice:连接失败", "state:exited"]);
}

#[test]
fn live_frames_close_resize_once_or_write() {
    let mut r = Runner::new(80, 24);
    assert_eq!(r.on_live_frame(&close_frame()), LiveAction::Close);
    assert_eq!(r.on_live_frame(&resize_frame(80, 24)), LiveAction::Ignore);
    assert_eq!(r.on_live_frame(&resize_frame(120, 40)), LiveAction::Resize(120, 40));
    assert_eq!(r.on_live_frame(&resize_frame(120, 40)), LiveAction::Ignore);
    assert_eq!(r.dims(), (120, 40));
    assert_eq!(r.on_live_frame(b"ls\r"), LiveAction::Write);
    assert_eq!(r.on_live_frame(b"__resize:bad"), LiveAction::Write);
}

#[test]
fn idle_frames_keep_the_size_for_the_next_terminal() {
    let mut r = Runner::new(80, 24);
    assert!(!r.on_idle_frame(&resize_frame(100, 30)));
    assert!(!r.on_idle_frame(b"typed while offline"));
    assert_eq!(r.dims(), (100, 30));
    assert!(r.on_idle_frame(&close_frame()));
}

#[test]
fn unexpected_exits_retry_only_long_lived_drops() {
    let mut r = Runner::new(80, 24);
    let (msgs, step) = r.on_unexpected_exit(Some(255), 120_000);
    assert_eq!(describe(&msgs), vec!["state:retrying"]);
    assert_eq!(step, Step::Wait(1000));
    let (msgs, step) = r.on_unexpected_exit(Some(255), 1_000);
    assert_eq!(describe(&msgs), vec!["state:retrying", "state:exited"]);
    assert_eq!(step, Step::Stop);
}

#[test]
fn probe_exit_codes_are_interpreted() {
    assert_eq!(interpret_probe(Some(0), ""), ProbeResult::Exists);
    assert_eq!(interpret_probe(Some(1), "no session"), ProbeResult::Missing);
    assert_eq!(
        interpret_probe(Some(255), "ssh: connect to host h port 22: Connection refused"),
        ProbeResult::Failed(SshOutcome::Network)
    );
    assert_eq!(interpret_probe(None, "Permission denied"), ProbeResult::Failed(SshOutcome::Auth));
}

#[test]
fn close_and_spawn_failure_messages() {
    assert_eq!(describe(&close_messages()), vec!["state:closed"]);
    assert_eq!(describe(&spawn_failed_messages("no pty")), vec!["notice:spawn failed: no pty"]);
    assert_eq!(state_name(SessionState::Connecting), "connecting");
}

#[test]
fn session_names_and_plans() {
    assert_eq!(session_name("hermes", ""), "hermes");
    assert_eq!(session_name("hermes", "  "), "hermes");
    assert_eq!(session_name("hermes", "proj"), "hermes-proj");
    let cfg = Config {
        hosts: vec![HostConfig { name: "main".into(), host: "10.0.0.1".into(), user: None, extra_ssh_args: vec![] }],
        agents: vec![AgentConfig { id: "hermes".into(), label: "H".into(), cmd: "hermes chat".into() }],
    };
    let p = plan_session(&cfg, "main", "hermes", "x").ok().unwrap();
    assert_eq!(p.target.host, "10.0.0.1");
    assert_eq!(p.session, "hermes-x");
    assert_eq!(p.agent_cmd, "hermes chat");
    assert_eq!(plan_session(&cfg, "nope", "hermes", "").err().unwrap(), "unknown host: nope");
    assert_eq!(plan_session(&cfg, "main", "dsh", "").err().unwrap(), "unknown agent: dsh");
}

#[test]
fn file_channel_replies_are_framed_by_end_lines() {
    let mut buf: Vec<char> = Vec::new();
    assert!(read_reply_line(&mut buf, "/home/u\n").is_none());
    assert!(read_reply_line(&mut buf, "d\t1\tsrc\n").is_none());
    let rep = read_reply_line(&mut buf, "__END__0\n").unwrap();
    assert_eq!(rep.out, "/home/u\nd\t1\tsrc\n");
    assert_eq!(rep.code, 0);
    assert!(buf.is_empty());
    assert_eq!(read_reply_line(&mut buf, "__END__ 2 \n").unwrap().code, 2);
    assert_eq!(read_reply_line(&mut buf, "__END__-7\n").unwrap().code, -7);
    assert_eq!(read_reply_line(&mut buf, "__END__x\n").unwrap().code, -1);
    assert_eq!(read_reply_line(&mut buf, "__END__99999999999\n").unwrap().code, -1);
}

#[test]
fn file_channel_results_and_reuse() {
    assert_eq!(reply_result("out\n", 0).unwrap(), "out\n");
    assert_eq!(reply_result(" no such dir \n", 2).unwrap_err(), "no such dir");
    assert_eq!(reply_result("", 1).unwrap_err(), "远端命令退出码 1");
    assert!(chan_usable("main", "main", 299_999));
    assert!(!chan_usable("main", "main", 300_000));
    assert!(!chan_usable("main", "other", 0));
}

#[test]
fn a_plain_close_keeps_the_remote_session() {
    let target = session_core::command::SshTarget {
        host: "h".into(),
        user: Some("u".into()),
        extra_ssh_args: vec![],
    };
    let (kill, msgs) = session_core::runner::close_actions(&target, "hermes", false);
    assert!(kill.is_none());
    assert_eq!(describe(&msgs), vec!["state:closed"]);
    let (kill, msgs) = session_core::runner::close_actions(&target, "hermes", true);
    assert_eq!(
        kill.unwrap(),
        vec!["-o", "BatchMode=yes", "u@h", "tmux kill-session -t 'hermes'"]
    );
    assert_eq!(describe(&msgs), vec!["state:closed"]);
}

#[test]
fn nothing_starts_after_a_close() {
    let mut r = Runner::new(80, 24);
    assert!(r.on_idle_frame(&close_frame()));
    let (msgs, step) = r.on_probe(ProbeResult::Missing);
    assert!(msgs.is_empty());
    assert_eq!(step, Step::Stop);

    let mut r = Runner::new(80, 24);
    r.on_input_closed();
    let (msgs, step) = r.on_probe(ProbeResult::Exists);
    assert!(msgs.is_empty());
    assert_eq!(step, Step::Stop);

    let mut r = Runner::new(80, 24);
    assert!(r.on_pending_frames(&[b"ls".to_vec(), close_frame()], false));
    assert_eq!(r.on_probe(ProbeResult::Exists).1, Step::Stop);

    let target = session_core::command::SshTarget { host: "h".into(), user: None, extra_ssh_args: vec![] };
    let mut r = Runner::new(80, 24);
    let (kill, msgs) = r.on_close(&target, "hermes", false);
    assert!(kill.is_none());
    assert_eq!(describe(&msgs), vec!["state:closed"]);
    assert_eq!(r.on_probe(ProbeResult::Exists).1, Step::Stop);
}

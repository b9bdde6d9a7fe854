use session_core::backoff::Backoff;
use session_core::exit::{classify_ssh, is_retryable, SshOutcome};
use session_core::keys::strip_quit_keys;
use session_core::session::{transition, SessionEvent as E, SessionState as S};
use session_core::PROJECT_NAME;

#[test]
fn project_name_matches_repo() {
    assert_eq!(PROJECT_NAME, "agent-session-client");
}

// ---- backoff ----

#[test]
fn doubles_then_caps_at_30s() {
    let mut b = Backoff::default();
    let got: Vec<u64> = (0..8).map(|_| b.next_delay()).collect();
    assert_eq!(got, vec![1000, 2000, 4000, 8000, 16000, 30000, 30000, 30000]);
}

#[test]
fn reset_restarts_sequence() {
    let mut b = Backoff::default();
    let _ = b.next_delay();
    let _ = b.next_delay();
    b.reset();
    assert_eq!(b.next_delay(), 1000);
}

#[test]
fn backoff_stays_capped_after_many_attempts() {
    let mut b = Backoff::default();
    for _ in 0..100 {
        let d = b.next_delay();
        assert!((1000..=30000).contains(&d));
    }
    assert_eq!(b.next_delay(), 30000);
}

// ---- exit ----

#[test]
fn detects_missing_tmux() {
    assert_eq!(classify_ssh(Some(127), "bash: tmux: command not found"), SshOutcome::TmuxMissing);
}

#[test]
fn detects_auth_failure() {
    assert_eq!(classify_ssh(Some(255), "ubuntu@h: Permission denied (publickey)."), SshOutcome::Auth);
}

#[test]
fn detects_network_black_hole() {
    assert_eq!(classify_ssh(Some(255), "ssh: connect to host h port 22: Connection timed out"), SshOutcome::Network);
    assert_eq!(classify_ssh(None, "Connection closed by remote host"), SshOutcome::Network);
}

#[test]
fn unknown_when_no_signature_matches() {
    assert_eq!(classify_ssh(Some(1), "some unexpected failure"), SshOutcome::Unknown);
}

#[test]
fn only_network_is_retryable() {
    assert!(is_retryable(SshOutcome::Network));
    assert!(!is_retryable(SshOutcome::Auth));
    assert!(!is_retryable(SshOutcome::TmuxMissing));
    assert!(!is_retryable(SshOutcome::Unknown));
}

#[test]
fn missing_tmux_wins_over_auth_and_network_signatures() {
    assert_eq!(
        classify_ssh(Some(127), "Permission denied\nsh: tmux: not found\nbroken pipe"),
        SshOutcome::TmuxMissing
    );
    assert_eq!(classify_ssh(Some(255), "AUTHENTICATION FAILED; Broken Pipe"), SshOutcome::Auth);
    assert_eq!(classify_ssh(Some(255), "ssh: Could not resolve hostname x"), SshOutcome::Network);
    assert_eq!(classify_ssh(Some(255), ""), SshOutcome::Unknown);
}

// ---- keys ----

#[test]
fn ctrl_c_is_stripped() {
    assert_eq!(strip_quit_keys("abc\u{3}def"), "abcdef");
}

#[test]
fn ctrl_d_and_z_and_backslash_are_stripped() {
    assert_eq!(strip_quit_keys("\u{4}\u{1a}\u{1c}"), "");
}

#[test]
fn ordinary_text_passes_through() {
    assert_eq!(strip_quit_keys("hermes chat\n"), "hermes chat\n");
}

#[test]
fn escape_sequences_are_preserved() {
    assert_eq!(strip_quit_keys("\u{1b}[A"), "\u{1b}[A");
}

#[test]
fn mixed_input_keeps_text_and_arrows() {
    assert_eq!(strip_quit_keys("a\u{3}\u{1b}[B\u{4}b"), "a\u{1b}[Bb");
}

#[test]
fn non_ascii_input_passes_through() {
    assert_eq!(strip_quit_keys("中文\u{3}é"), "中文é");
}

// ---- session ----

#[test]
fn connect_then_drop_then_retry_then_connect() {
    let s = S::Connecting;
    let s = transition(s, E::Connected);
    assert_eq!(s, S::Connected);
    let s = transition(s, E::Disconnected);
    assert_eq!(s, S::Retrying);
    let s = transition(s, E::RetryScheduled);
    assert_eq!(s, S::Retrying);
    let s = transition(s, E::Connected);
    assert_eq!(s, S::Connected);
}

#[test]
fn agent_exit_is_terminal_until_closed() {
    assert_eq!(transition(S::Connected, E::AgentExited), S::Exited);
    assert_eq!(transition(S::Exited, E::Connected), S::Exited);
}

#[test]
fn give_up_ends_in_exited() {
    assert_eq!(transition(S::Retrying, E::GiveUp), S::Exited);
}

#[test]
fn user_close_is_terminal_from_any_state() {
    for s in [S::Connecting, S::Connected, S::Retrying, S::Exited] {
        assert_eq!(transition(s, E::UserClose), S::Closed);
    }
    assert_eq!(transition(S::Closed, E::Connected), S::Closed);
}

#[test]
fn closed_absorbs_every_event() {
    for e in [E::Connected, E::Disconnected, E::RetryScheduled, E::GiveUp, E::AgentExited, E::UserClose] {
        assert_eq!(transition(S::Closed, e), S::Closed);
    }
    assert_eq!(transition(S::Exited, E::UserClose), S::Closed);
}

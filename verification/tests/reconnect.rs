use session_core::backoff::Backoff;
use session_core::exit::SshOutcome;
use session_core::reconnect::{
    absorb_idle_frame, classify_unexpected_exit, close_frame, decide, drain_pending, parse_resize_frame, wait_for_close, wait_slice,
    resize_frame, tmux_refresh, RetryDecision,
};

#[test]
fn retries_network_and_backs_off() {
    let mut b = Backoff::default();
    assert_eq!(decide(SshOutcome::Network, &mut b), RetryDecision::Retry(1000));
    assert_eq!(decide(SshOutcome::Network, &mut b), RetryDecision::Retry(2000));
}

#[test]
fn gives_up_on_auth_and_resets_backoff() {
    let mut b = Backoff::default();
    let _ = decide(SshOutcome::Network, &mut b);
    assert_eq!(decide(SshOutcome::Auth, &mut b), RetryDecision::GiveUp);
    assert_eq!(decide(SshOutcome::Network, &mut b), RetryDecision::Retry(1000));
}

#[test]
fn long_lived_255_is_network_drop() {
    assert_eq!(classify_unexpected_exit(Some(255), 61_000), SshOutcome::Network);
}

#[test]
fn short_lived_255_is_not_network() {
    assert_eq!(classify_unexpected_exit(Some(255), 5_000), SshOutcome::Unknown);
}

#[test]
fn other_exit_codes_are_unknown() {
    assert_eq!(classify_unexpected_exit(Some(1), 3_600_000), SshOutcome::Unknown);
}

#[test]
fn no_exit_code_is_unknown() {
    assert_eq!(classify_unexpected_exit(None, 3_600_000), SshOutcome::Unknown);
}

#[test]
fn exactly_one_minute_counts_as_network_drop() {
    assert_eq!(classify_unexpected_exit(Some(255), 60_000), SshOutcome::Network);
    assert_eq!(classify_unexpected_exit(Some(255), 59_999), SshOutcome::Unknown);
}

#[test]
fn parses_well_formed_resize_frame() {
    assert_eq!(parse_resize_frame(b"__resize:120x40"), Some((120, 40)));
}

#[test]
fn refresh_chord_is_prefix_command_and_enter() {
    let refresh = tmux_refresh();
    assert!(refresh.starts_with(b"\x02:"));
    assert!(refresh.ends_with(b"refresh-client\r"));
}

#[test]
fn rejects_non_resize_and_malformed_frames() {
    assert_eq!(parse_resize_frame(&close_frame()), None);
    assert_eq!(parse_resize_frame(b"ls\r"), None);
    assert_eq!(parse_resize_frame(b"__resize:"), None);
    assert_eq!(parse_resize_frame(b"__resize:bogus"), None);
    assert_eq!(parse_resize_frame(b"__resize:1x2x3"), None);
}

#[test]
fn resize_frame_edge_values() {
    assert_eq!(parse_resize_frame(b"__resize:65535x0"), Some((65535, 0)));
    assert_eq!(parse_resize_frame(b"__resize:65536x1"), None);
    assert_eq!(parse_resize_frame(b"__resize:+7x+8"), Some((7, 8)));
    assert_eq!(parse_resize_frame(b"__resize:-7x8"), None);
    assert_eq!(parse_resize_frame(b"__resize:x8"), None);
    assert_eq!(parse_resize_frame(b"__resize:7x"), None);
}

#[test]
fn resize_frame_round_trips() {
    assert_eq!(resize_frame(120, 40), b"__resize:120x40".to_vec());
    for (c, r) in [(0u16, 0u16), (1, 65535), (80, 24), (65535, 65535)] {
        assert_eq!(parse_resize_frame(&resize_frame(c, r)), Some((c, r)));
    }
}

#[test]
fn close_frame_returns_true_without_waiting_the_full_delay() {
    // The close arrives at once; the frame after it is not taken.
    let arrivals = vec![(0u64, close_frame()), (10, b"__resize:100x30".to_vec())];
    let mut dims = (80, 24);
    assert!(wait_for_close(&arrivals, None, 30_000, &mut dims));
    assert_eq!(dims, (80, 24));
}

#[test]
fn no_close_returns_false_after_the_delay() {
    let mut dims = (80, 24);
    assert!(!wait_for_close(&[], None, 150, &mut dims));
}

#[test]
fn resize_during_wait_is_kept_and_close_still_seen() {
    let arrivals = vec![(0u64, b"__resize:100x30".to_vec()), (5, close_frame())];
    let mut dims = (80, 24);
    assert!(wait_for_close(&arrivals, None, 30_000, &mut dims));
    assert_eq!(dims, (100, 30));
}

#[test]
fn plain_keystrokes_are_dropped() {
    let arrivals = vec![(0u64, b"ls\r".to_vec()), (0, close_frame())];
    let mut dims = (80, 24);
    assert!(wait_for_close(&arrivals, None, 30_000, &mut dims));
    assert_eq!(dims, (80, 24));
}

#[test]
fn disconnected_input_channel_counts_as_close() {
    let mut dims = (80, 24);
    assert!(wait_for_close(&[], Some(0), 30_000, &mut dims));
}

#[test]
fn frames_after_the_delay_are_left_for_later() {
    let mut dims = (80, 24);
    assert!(!wait_for_close(&[(200u64, close_frame())], None, 150, &mut dims));
    assert!(!wait_for_close(&[], Some(150), 150, &mut dims));
    assert!(!wait_for_close(&[(100u64, b"__resize:1x2".to_vec()), (150, close_frame())], None, 150, &mut dims));
    assert_eq!(dims, (1, 2));
}

#[test]
fn wait_slices_are_at_most_100_ms() {
    assert_eq!(wait_slice(0), None);
    assert_eq!(wait_slice(40), Some(40));
    assert_eq!(wait_slice(30_000), Some(100));
}

#[test]
fn drain_returns_false_when_nothing_is_buffered() {
    let mut dims = (80, 24);
    assert!(!drain_pending(&[], false, &mut dims));
}

#[test]
fn drain_consumes_the_whole_backlog_resize_included() {
    let frames = vec![b"__resize:90x20".to_vec(), b"ls\r".to_vec(), close_frame()];
    let mut dims = (80, 24);
    assert!(drain_pending(&frames, false, &mut dims));
    assert_eq!(dims, (90, 20));
}

#[test]
fn close_frame_is_dunder_close() {
    assert_eq!(close_frame(), b"__close".to_vec());
    let mut dims = (1, 2);
    assert!(!absorb_idle_frame(b"__close\n", &mut dims));
    assert_eq!(dims, (1, 2));
}

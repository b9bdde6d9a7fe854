//! Classification of a failed ssh run from its error output.
use vstd::prelude::*;

use crate::text::{ascii_lower_seq, chars_of, contains_str, has_infix, lower_chars};

verus! {

/// Why an ssh run failed.
#[derive(Debug, PartialEq, Eq, Clone, Copy, Structural)]
pub enum SshOutcome {
    Network,
    Auth,
    TmuxMissing,
    Unknown,
}

/// The outcome that the ssh error output `stderr` shows, compared without
/// ASCII case. A missing tmux is recognised first, then an authentication
/// failure, then a network failure; anything else is unknown.
pub open spec fn classify(stderr: Seq<char>) -> SshOutcome {
    let s = ascii_lower_seq(stderr);
    if has_infix(s, "tmux: command not found"@) || has_infix(s, "tmux: not found"@) {
        SshOutcome::TmuxMissing
    } else if has_infix(s, "permission denied"@) || has_infix(s, "authentication failed"@)
        || has_infix(s, "too many authentication failures"@) || has_infix(
        s,
        "no supported authentication methods"@,
    ) {
        SshOutcome::Auth
    } else if has_infix(s, "connection timed out"@) || has_infix(s, "connection refused"@)
        || has_infix(s, "connection closed by"@) || has_infix(s, "connection reset"@) || has_infix(
        s,
        "could not resolve hostname"@,
    ) || has_infix(s, "network is unreachable"@) || has_infix(s, "no route to host"@)
        || has_infix(s, "operation timed out"@) || has_infix(s, "broken pipe"@) {
        SshOutcome::Network
    } else {
        SshOutcome::Unknown
    }
}

/// Classifies a failed ssh run by its error output; the exit code does not
/// take part.
pub fn classify_ssh(_exit_code: Option<i32>, stderr: &str) -> (r: SshOutcome)
    ensures
        r == classify(stderr@),
{
    let raw = chars_of(stderr);
    let s = lower_chars(&raw);
    if contains_str(&s, "tmux: command not found") || contains_str(&s, "tmux: not found") {
        return SshOutcome::TmuxMissing;
    }
    if contains_str(&s, "permission denied") || contains_str(&s, "authentication failed")
        || contains_str(&s, "too many authentication failures") || contains_str(
        &s,
        "no supported authentication methods",
    ) {
        return SshOutcome::Auth;
    }
    if contains_str(&s, "connection timed out") || contains_str(&s, "connection refused")
        || contains_str(&s, "connection closed by") || contains_str(&s, "connection reset")
        || contains_str(&s, "could not resolve hostname") || contains_str(
        &s,
        "network is unreachable",
    ) || contains_str(&s, "no route to host") || contains_str(&s, "operation timed out")
        || contains_str(&s, "broken pipe") {
        return SshOutcome::Network;
    }
    SshOutcome::Unknown
}

/// Only network failures are worth retrying.
pub open spec fn retryable(outcome: SshOutcome) -> bool {
    outcome == SshOutcome::Network
}

/// Whether a failure with this outcome is retried.
pub fn is_retryable(outcome: SshOutcome) -> (r: bool)
    ensures
        r == retryable(outcome),
{
    match outcome {
        SshOutcome::Network => true,
        _ => false,
    }
}

/// Error output that names a missing tmux (`tmux: command not found`,
/// `tmux: not found`, in any ASCII case) is a missing tmux, whatever else it
/// says.
pub proof fn missing_tmux_is_recognised(stderr: Seq<char>, phrase: Seq<char>)
    requires
        phrase == "tmux: command not found"@ || phrase == "tmux: not found"@,
        has_infix(ascii_lower_seq(stderr), phrase),
    ensures
        classify(stderr) == SshOutcome::TmuxMissing,
{
}

/// The phrases of a missing tmux.
pub open spec fn names_missing_tmux(s: Seq<char>) -> bool {
    has_infix(s, "tmux: command not found"@) || has_infix(s, "tmux: not found"@)
}

/// The phrases of a failed login.
pub open spec fn names_auth_failure(s: Seq<char>) -> bool {
    has_infix(s, "permission denied"@) || has_infix(s, "authentication failed"@) || has_infix(
        s,
        "too many authentication failures"@,
    ) || has_infix(s, "no supported authentication methods"@)
}

/// Error output that names a failed login (`permission denied`,
/// `authentication failed`, `too many authentication failures`, `no
/// supported authentication methods`, in any ASCII case) and no missing tmux
/// is an authentication failure, and is not retried.
pub proof fn auth_failures_are_recognised(stderr: Seq<char>, phrase: Seq<char>)
    requires
        phrase == "permission denied"@ || phrase == "authentication failed"@ || phrase
            == "too many authentication failures"@ || phrase
            == "no supported authentication methods"@,
        has_infix(ascii_lower_seq(stderr), phrase),
        !names_missing_tmux(ascii_lower_seq(stderr)),
    ensures
        classify(stderr) == SshOutcome::Auth,
        !retryable(classify(stderr)),
{
}

/// Error output that names a network failure (a timed out, refused, closed
/// or reset connection, an unresolvable host name, an unreachable network,
/// no route to the host, a timed out operation or a broken pipe, in any
/// ASCII case) and neither a missing tmux nor a failed login is a network
/// failure, and is retried.
pub proof fn network_failures_are_recognised(stderr: Seq<char>, phrase: Seq<char>)
    requires
        phrase == "connection timed out"@ || phrase == "connection refused"@ || phrase
            == "connection closed by"@ || phrase == "connection reset"@ || phrase
            == "could not resolve hostname"@ || phrase == "network is unreachable"@ || phrase
            == "no route to host"@ || phrase == "operation timed out"@ || phrase
            == "broken pipe"@,
        has_infix(ascii_lower_seq(stderr), phrase),
        !names_missing_tmux(ascii_lower_seq(stderr)),
        !names_auth_failure(ascii_lower_seq(stderr)),
    ensures
        classify(stderr) == SshOutcome::Network,
        retryable(classify(stderr)),
{
}

/// Only a network failure is retried.
pub proof fn only_network_is_retryable()
    ensures
        retryable(SshOutcome::Network),
        !retryable(SshOutcome::Auth),
        !retryable(SshOutcome::TmuxMissing),
        !retryable(SshOutcome::Unknown),
{
}

} // verus!

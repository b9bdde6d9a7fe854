//! The decisions of a session runner.
//!
//! A runner probes whether the remote tmux session exists, spawns the ssh
//! terminal, forwards input while it lives, and after a failure either waits
//! (a close request may cut the wait short) and probes again, or stops. The
//! waiting, the processes and the channels belong to the caller; each event
//! it sees goes through a method here, which says what to report and what to
//! do next.
use vstd::prelude::*;

use crate::backoff::{delay_ms, Backoff};
use crate::command::{build_kill_session_args, kill_session_args, SshTarget};
use crate::exit::{classify, classify_ssh, retryable, SshOutcome};
use crate::reconnect::{
    absorb_frames, absorb_idle_frame, classify_unexpected_exit, drain_pending, frame_views, close_bytes, close_frame, decide,
    min_uptime_ms, parse_resize_frame, resize_of, RetryDecision,
};
use crate::session::{next_state, transition, SessionEvent, SessionState};
use crate::text::{chars_of, push_str, string_of};

verus! {

/// A message from a runner to the user interface.
pub enum RunnerMsg {
    /// Terminal output.
    Output(String),
    /// The session's new state.
    State(SessionState),
    /// A line to show the user.
    Notice(String),
}

/// The content of a `RunnerMsg`.
pub enum MsgView {
    Output(Seq<char>),
    State(SessionState),
    Notice(Seq<char>),
}

impl View for RunnerMsg {
    type V = MsgView;

    open spec fn view(&self) -> MsgView {
        match self {
            RunnerMsg::Output(s) => MsgView::Output(s@),
            RunnerMsg::State(s) => MsgView::State(*s),
            RunnerMsg::Notice(s) => MsgView::Notice(s@),
        }
    }
}

/// The contents of a list of messages.
pub open spec fn msg_views(v: Seq<RunnerMsg>) -> Seq<MsgView> {
    v.map_values(|m: RunnerMsg| m@)
}

/// What probing for the remote tmux session found.
#[derive(Debug, Clone, Copy, PartialEq, Eq, Structural)]
pub enum ProbeResult {
    /// The session exists.
    Exists,
    /// The host answered that there is no such session.
    Missing,
    /// The probe failed.
    Failed(SshOutcome),
}

/// The probe's meaning of an ssh exit: 0 means the session exists, 1 (from
/// `tmux has-session`) that it does not; any other exit is a failure of the
/// kind that the error output shows.
pub open spec fn probe_result_of(code: Option<i32>, stderr: Seq<char>) -> ProbeResult {
    if code == Some(0i32) {
        ProbeResult::Exists
    } else if code == Some(1i32) {
        ProbeResult::Missing
    } else {
        ProbeResult::Failed(classify(stderr))
    }
}

/// Reads the exit code and error output of the probe (see `probe_result_of`).
pub fn interpret_probe(code: Option<i32>, stderr: &str) -> (r: ProbeResult)
    ensures
        r == probe_result_of(code, stderr@),
{
    match code {
        Some(0) => ProbeResult::Exists,
        Some(1) => ProbeResult::Missing,
        _ => ProbeResult::Failed(classify_ssh(code, stderr)),
    }
}

/// What the runner does next.
#[derive(Debug, Clone, Copy, PartialEq, Eq, Structural)]
pub enum Step {
    /// Start the ssh terminal now, once the frames already queued (a probe
    /// can take seconds) have gone through `on_pending_frames`.
    Spawn,
    /// Wait this many milliseconds (a close request may end the wait), then
    /// probe again.
    Wait(u64),
    /// The runner is finished.
    Stop,
}

/// What to do with a frame from the user while the terminal is live.
#[derive(Debug, Clone, Copy, PartialEq, Eq, Structural)]
pub enum LiveAction {
    /// Close the session.
    Close,
    /// Resize the terminal to these columns and rows, then ask tmux for a
    /// full redraw.
    Resize(u16, u16),
    /// Nothing to do (a resize to the size the terminal already has).
    Ignore,
    /// Write the frame to the terminal.
    Write,
}

/// The notice shown when the original session was gone and a new one was made.
pub const SESSION_RECREATED: &'static str = "原会话已不在，已新建";

/// The notice for a missing tmux on the server.
pub const TMUX_MISSING_NOTICE: &'static str =
    "服务端缺 tmux，请先安装：sudo dnf install tmux（或 sudo apt install tmux）";

/// The notice for a failed ssh login.
pub const AUTH_NOTICE: &'static str = "SSH 认证失败：请检查密钥/用户名";

/// The notice for any other failure that is not retried.
pub const FAILED_NOTICE: &'static str = "连接失败";

/// Why the runner gave up, in words for the user.
pub open spec fn give_up_reason(kind: SshOutcome) -> Seq<char> {
    match kind {
        SshOutcome::TmuxMissing => TMUX_MISSING_NOTICE@,
        SshOutcome::Auth => AUTH_NOTICE@,
        _ => FAILED_NOTICE@,
    }
}

fn give_up_notice(kind: SshOutcome) -> (r: String)
    ensures
        r@ == give_up_reason(kind),
{
    match kind {
        SshOutcome::TmuxMissing => TMUX_MISSING_NOTICE.to_owned(),
        SshOutcome::Auth => AUTH_NOTICE.to_owned(),
        _ => FAILED_NOTICE.to_owned(),
    }
}

/// The state of one session runner.
pub struct Runner {
    backoff: Backoff,
    first_attempt: bool,
    dims: (u16, u16),
    closed: bool,
}

/// The abstract state of a runner.
pub struct RunnerModel {
    /// Retries handed out since the last successful connection.
    pub attempts: nat,
    /// No probe has happened yet.
    pub first_attempt: bool,
    /// The terminal size to use: columns, rows.
    pub dims: (u16, u16),
    /// The user asked to close (a close frame, or the input channel ended).
    pub closed: bool,
}

impl View for Runner {
    type V = RunnerModel;

    closed spec fn view(&self) -> RunnerModel {
        RunnerModel {
            attempts: self.backoff.attempts(),
            first_attempt: self.first_attempt,
            dims: self.dims,
            closed: self.closed,
        }
    }
}

/// One more retry, saturating like the backoff's counter.
pub open spec fn bump(attempts: nat) -> nat {
    if attempts < u32::MAX {
        attempts + 1
    } else {
        attempts
    }
}

/// The delay before the retry after `attempts` earlier ones: 1 s doubling up
/// to 30 s.
pub open spec fn retry_delay(attempts: nat) -> nat {
    delay_ms(1000, 30000, attempts)
}

/// The messages and next step after a probe with result `r` (see `Runner::on_probe`).
pub open spec fn after_probe(m: RunnerModel, r: ProbeResult) -> (Seq<MsgView>, Step, nat) {
    if m.closed {
        (seq![], Step::Stop, m.attempts)
    } else {
    match r {
        ProbeResult::Exists => (seq![], Step::Spawn, m.attempts),
        ProbeResult::Missing => (
            if m.first_attempt {
                seq![]
            } else {
                seq![MsgView::Notice(SESSION_RECREATED@)]
            },
            Step::Spawn,
            m.attempts,
        ),
        ProbeResult::Failed(kind) => if retryable(kind) {
            (
                seq![MsgView::State(SessionState::Retrying)],
                Step::Wait(retry_delay(m.attempts) as u64),
                bump(m.attempts),
            )
        } else {
            (
                seq![
                    MsgView::Notice(give_up_reason(kind)),
                    MsgView::State(next_state(SessionState::Connecting, SessionEvent::GiveUp)),
                ],
                Step::Stop,
                0,
            )
        },
    }
    }
}

/// The messages and next step after the terminal's ssh ended on its own
/// (see `Runner::on_unexpected_exit`).
pub open spec fn after_exit(m: RunnerModel, code: Option<i32>, uptime_ms: u64) -> (
    Seq<MsgView>,
    Step,
    nat,
) {
    if code == Some(255i32) && uptime_ms >= min_uptime_ms() {
        (
            seq![MsgView::State(SessionState::Retrying)],
            Step::Wait(retry_delay(m.attempts) as u64),
            bump(m.attempts),
        )
    } else {
        (
            seq![MsgView::State(SessionState::Retrying), MsgView::State(SessionState::Exited)],
            Step::Stop,
            0,
        )
    }
}

fn push_msg(msgs: &mut Vec<RunnerMsg>, m: RunnerMsg)
    ensures
        msg_views(final(msgs)@) == msg_views(old(msgs)@).push(m@),
{
    let ghost mv = m@;
    msgs.push(m);
    assert(msg_views(final(msgs)@) =~= msg_views(old(msgs)@).push(mv));
}

impl Runner {
    /// The runner's backoff runs 1 s doubling to 30 s.
    #[verifier::type_invariant]
    closed spec fn well_formed(self) -> bool {
        self.backoff.base() == 1000 && self.backoff.cap() == 30000
    }

    /// A runner for a terminal of `cols` x `rows` that has not probed yet.
    pub fn new(cols: u16, rows: u16) -> (r: Runner)
        ensures
            r@ == (RunnerModel { attempts: 0, first_attempt: true, dims: (cols, rows), closed: false }),
    {
        Runner { backoff: Backoff::default(), first_attempt: true, dims: (cols, rows), closed: false }
    }

    /// The terminal size to spawn with.
    pub fn dims(&self) -> (d: (u16, u16))
        ensures
            d == self@.dims,
    {
        self.dims
    }

    /// After a probe: an existing session is attached to; a missing one is
    /// created, with a notice unless this was the first probe (then it is
    /// simply new); a network failure schedules a retry after the next
    /// backoff delay and reports `Retrying`; any other failure explains why
    /// and ends the session as `Exited` (starting the backoff over).
    pub fn on_probe(&mut self, r: ProbeResult) -> (out: (Vec<RunnerMsg>, Step))
        ensures
            (msg_views(out.0@), out.1, final(self)@.attempts) == after_probe(old(self)@, r),
            final(self)@.first_attempt == false,
            final(self)@.dims == old(self)@.dims,
            final(self)@.closed == old(self)@.closed,
    {
        proof {
            use_type_invariant(&*self);
        }
        let first = self.first_attempt;
        self.first_attempt = false;
        let mut msgs: Vec<RunnerMsg> = Vec::new();
        if self.closed {
            assert(msg_views(msgs@) =~= Seq::<MsgView>::empty());
            return (msgs, Step::Stop);
        }
        match r {
            ProbeResult::Exists => {
                assert(msg_views(msgs@) =~= Seq::<MsgView>::empty());
                (msgs, Step::Spawn)
            },
            ProbeResult::Missing => {
                if !first {
                    push_msg(&mut msgs, RunnerMsg::Notice(SESSION_RECREATED.to_owned()));
                }
                assert(msg_views(msgs@) =~= after_probe(old(self)@, r).0);
                (msgs, Step::Spawn)
            },
            ProbeResult::Failed(kind) => {
                let mut b = Backoff::default();
        std::mem::swap(&mut b, &mut self.backoff);
        let decision = decide(kind, &mut b);
        self.backoff = b;
        match decision {
                    RetryDecision::Retry(delay) => {
                        push_msg(&mut msgs, RunnerMsg::State(SessionState::Retrying));
                        assert(msg_views(msgs@) =~= after_probe(old(self)@, r).0);
                        (msgs, Step::Wait(delay))
                    },
                    RetryDecision::GiveUp => {
                        push_msg(&mut msgs, RunnerMsg::Notice(give_up_notice(kind)));
                        let end = transition(SessionState::Connecting, SessionEvent::GiveUp);
                        push_msg(&mut msgs, RunnerMsg::State(end));
                        assert(msg_views(msgs@) =~= after_probe(old(self)@, r).0);
                        (msgs, Step::Stop)
                    },
                }
            },
        }
    }

    /// The terminal is up: report `Connected` and start the backoff over.
    pub fn on_connected(&mut self) -> (msgs: Vec<RunnerMsg>)
        ensures
            msg_views(msgs@) == seq![MsgView::State(SessionState::Connected)],
            final(self)@.attempts == 0,
            final(self)@.first_attempt == old(self)@.first_attempt,
            final(self)@.dims == old(self)@.dims,
            final(self)@.closed == old(self)@.closed,
    {
        proof {
            use_type_invariant(&*self);
        }
        let mut b = Backoff::default();
        std::mem::swap(&mut b, &mut self.backoff);
        b.reset();
        self.backoff = b;
        let mut msgs: Vec<RunnerMsg> = Vec::new();
        push_msg(&mut msgs, RunnerMsg::State(SessionState::Connected));
        assert(msg_views(msgs@) =~= seq![MsgView::State(SessionState::Connected)]);
        msgs
    }

    /// A frame from the user while the terminal is live: the close frame
    /// closes; a resize frame to a new size resizes (and is remembered for
    /// the next terminal); a resize to the current size does nothing; any
    /// other frame is written to the terminal.
    pub fn on_live_frame(&mut self, frame: &[u8]) -> (a: LiveAction)
        ensures
            final(self)@.attempts == old(self)@.attempts,
            final(self)@.first_attempt == old(self)@.first_attempt,
            final(self)@.closed == (old(self)@.closed || a == LiveAction::Close),
            frame@ == close_bytes() ==> a == LiveAction::Close && final(self)@.dims == old(
                self,
            )@.dims,
            frame@ != close_bytes() ==> match resize_of(frame@) {
                Some(size) => if size == old(self)@.dims {
                    a == LiveAction::Ignore && final(self)@.dims == old(self)@.dims
                } else {
                    a == LiveAction::Resize(size.0, size.1) && final(self)@.dims == size
                },
                None => a == LiveAction::Write && final(self)@.dims == old(self)@.dims,
            },
    {
        proof {
            use_type_invariant(&*self);
        }
        let cf = close_frame();
        if crate::text::bytes_eq(frame, &cf) {
            self.closed = true;
            return LiveAction::Close;
        }
        match parse_resize_frame(frame) {
            Some(size) => {
                if size.0 == self.dims.0 && size.1 == self.dims.1 {
                    LiveAction::Ignore
                } else {
                    self.dims = size;
                    LiveAction::Resize(size.0, size.1)
                }
            },
            None => LiveAction::Write,
        }
    }

    /// A frame from the user while no terminal is attached (see
    /// `absorb_idle_frame`): `true` when the session must close.
    pub fn on_idle_frame(&mut self, frame: &[u8]) -> (close: bool)
        ensures
            final(self)@.attempts == old(self)@.attempts,
            final(self)@.first_attempt == old(self)@.first_attempt,
            close == (frame@ == close_bytes()),
            final(self)@.dims == if !close && resize_of(frame@) is Some {
                resize_of(frame@)->0
            } else {
                old(self)@.dims
            },
            final(self)@.closed == (old(self)@.closed || close),
    {
        proof {
            use_type_invariant(&*self);
        }
        let mut d = self.dims;
        let close = absorb_idle_frame(frame, &mut d);
        self.dims = d;
        if close {
            self.closed = true;
        }
        close
    }

    /// The frames already queued when a probe returns, and whether the input
    /// channel has closed (see `drain_pending`): `true` when the session
    /// must close instead of starting a terminal.
    pub fn on_pending_frames(&mut self, frames: &[Vec<u8>], disconnected: bool) -> (close: bool)
        ensures
            final(self)@.attempts == old(self)@.attempts,
            final(self)@.first_attempt == old(self)@.first_attempt,
            close == (absorb_frames(frame_views(frames@), old(self)@.dims).0 || disconnected),
            final(self)@.dims == absorb_frames(frame_views(frames@), old(self)@.dims).1,
            final(self)@.closed == (old(self)@.closed || close),
    {
        proof {
            use_type_invariant(&*self);
        }
        let mut d = self.dims;
        let close = drain_pending(frames, disconnected, &mut d);
        self.dims = d;
        if close {
            self.closed = true;
        }
        close
    }

    /// The input channel ended (nobody can send a close any more): the
    /// session closes.
    pub fn on_input_closed(&mut self)
        ensures
            final(self)@ == (RunnerModel { closed: true, ..old(self)@ }),
    {
        proof {
            use_type_invariant(&*self);
        }
        self.closed = true;
    }

    /// Closes the session (see `close_actions`): the arguments of the ssh
    /// that destroys the remote tmux session when `kill_remote`, and the
    /// message `Closed`. The runner is closed from then on, so it never
    /// starts a terminal again.
    pub fn on_close(&mut self, target: &SshTarget, session: &str, kill_remote: bool) -> (r: (
        Option<Vec<String>>,
        Vec<RunnerMsg>,
    ))
        ensures
            kill_remote ==> (r.0 matches Some(argv) && argv.deep_view() == kill_session_args(
                target@,
                session@,
            )),
            !kill_remote ==> r.0 is None,
            msg_views(r.1@) == seq![MsgView::State(SessionState::Closed)],
            final(self)@ == (RunnerModel { closed: true, ..old(self)@ }),
    {
        proof {
            use_type_invariant(&*self);
        }
        self.closed = true;
        close_actions(target, session, kill_remote)
    }

    /// The terminal's ssh ended without a close request. An exit with code
    /// 255 after at least a minute online is a network drop: report
    /// `Retrying` and wait for the next backoff delay. Anything else reports
    /// `Retrying` and then `Exited`, and stops.
    pub fn on_unexpected_exit(&mut self, code: Option<i32>, uptime_ms: u64) -> (out: (
        Vec<RunnerMsg>,
        Step,
    ))
        ensures
            (msg_views(out.0@), out.1, final(self)@.attempts) == after_exit(
                old(self)@,
                code,
                uptime_ms,
            ),
            final(self)@.first_attempt == old(self)@.first_attempt,
            final(self)@.dims == old(self)@.dims,
            final(self)@.closed == old(self)@.closed,
    {
        proof {
            use_type_invariant(&*self);
        }
        let kind = classify_unexpected_exit(code, uptime_ms);
        let mut msgs: Vec<RunnerMsg> = Vec::new();
        push_msg(&mut msgs, RunnerMsg::State(SessionState::Retrying));
        let mut b = Backoff::default();
        std::mem::swap(&mut b, &mut self.backoff);
        let decision = decide(kind, &mut b);
        self.backoff = b;
        match decision {
            RetryDecision::Retry(delay) => {
                assert(msg_views(msgs@) =~= after_exit(old(self)@, code, uptime_ms).0);
                (msgs, Step::Wait(delay))
            },
            RetryDecision::GiveUp => {
                push_msg(&mut msgs, RunnerMsg::State(SessionState::Exited));
                assert(msg_views(msgs@) =~= after_exit(old(self)@, code, uptime_ms).0);
                (msgs, Step::Stop)
            },
        }
    }
}

/// The messages of a close: `Closed`.
pub fn close_messages() -> (msgs: Vec<RunnerMsg>)
    ensures
        msg_views(msgs@) == seq![MsgView::State(SessionState::Closed)],
{
    let mut msgs: Vec<RunnerMsg> = Vec::new();
    push_msg(&mut msgs, RunnerMsg::State(SessionState::Closed));
    assert(msg_views(msgs@) =~= seq![MsgView::State(SessionState::Closed)]);
    msgs
}

/// What closing a session does: the arguments (after the program name
/// `ssh`) of the command that destroys the remote tmux session, only when the
/// user asked for that, and the message `Closed`. A plain close leaves the
/// remote session running, to be attached to again later.
pub fn close_actions(target: &SshTarget, session: &str, kill_remote: bool) -> (r: (
    Option<Vec<String>>,
    Vec<RunnerMsg>,
))
    ensures
        kill_remote ==> (r.0 matches Some(argv) && argv.deep_view() == kill_session_args(
            target@,
            session@,
        )),
        !kill_remote ==> r.0 is None,
        msg_views(r.1@) == seq![MsgView::State(SessionState::Closed)],
{
    let kill = if kill_remote {
        Some(build_kill_session_args(target, session))
    } else {
        None
    };
    (kill, close_messages())
}

/// The messages when the terminal could not be started: a notice with the
/// error; the runner then stops.
pub fn spawn_failed_messages(error: &str) -> (msgs: Vec<RunnerMsg>)
    ensures
        msg_views(msgs@) == seq![MsgView::Notice("spawn failed: "@ + error@)],
{
    let mut v = chars_of("spawn failed: ");
    push_str(&mut v, error);
    let mut msgs: Vec<RunnerMsg> = Vec::new();
    push_msg(&mut msgs, RunnerMsg::Notice(string_of(&v)));
    assert(msg_views(msgs@) =~= seq![MsgView::Notice("spawn failed: "@ + error@)]);
    msgs
}

/// After a close request (a close frame, or the end of the input channel) a
/// runner never starts a terminal again: every later probe stops it, with
/// nothing more to report.
pub proof fn nothing_starts_after_a_close(m: RunnerModel, r: ProbeResult)
    requires
        m.closed,
    ensures
        after_probe(m, r) == (Seq::<MsgView>::empty(), Step::Stop, m.attempts),
{
}

/// Only network failures are retried: a failed login, a missing tmux or an
/// unknown failure ends the session as `Exited` with a reason, and the next
/// session starts its backoff afresh.
pub proof fn only_network_failures_are_retried(m: RunnerModel, kind: SshOutcome)
    requires
        !m.closed,
    ensures
        kind != SshOutcome::Network ==> after_probe(m, ProbeResult::Failed(kind)).1 == Step::Stop
            && after_probe(m, ProbeResult::Failed(kind)).0 == seq![
            MsgView::Notice(give_up_reason(kind)),
            MsgView::State(SessionState::Exited),
        ] && after_probe(m, ProbeResult::Failed(kind)).2 == 0,
        kind == SshOutcome::Network ==> after_probe(m, ProbeResult::Failed(kind)).1 is Wait,
{
}

/// After a connection the backoff starts over: the first retry that
/// follows, after a failed probe or a dropped connection, waits 1 s.
pub proof fn backoff_starts_over_after_a_connection(m: RunnerModel)
    requires
        m.attempts == 0,
        !m.closed,
    ensures
        after_probe(m, ProbeResult::Failed(SshOutcome::Network)).1 == Step::Wait(1000),
        after_exit(m, Some(255i32), 60000).1 == Step::Wait(1000),
{
    reveal_with_fuel(crate::backoff::pow2, 2);
}

/// A network failure is retried however many attempts came before, after a
/// delay between 1 s and 30 s.
pub proof fn network_retries_wait_one_to_thirty_seconds(m: RunnerModel)
    requires
        !m.closed,
    ensures
        after_probe(m, ProbeResult::Failed(SshOutcome::Network)).1 matches Step::Wait(d) && 1000
            <= d <= 30000,
{
    crate::backoff::delays_grow_up_to_the_cap(1000, 30000, m.attempts);
    lemma_delay_at_least_base(m.attempts);
}

proof fn lemma_delay_at_least_base(a: nat)
    ensures
        delay_ms(1000, 30000, a) >= 1000,
{
    reveal_with_fuel(crate::backoff::pow2, 6);
    let e = if a < 5 {
        a
    } else {
        5
    };
    assert(crate::backoff::pow2(e) >= 1) by {
        assert(e == 0 || e == 1 || e == 2 || e == 3 || e == 4 || e == 5);
    }
}

/// The first probe of a session that does not exist yet creates it without
/// telling the user that an earlier session was lost; a later probe that
/// finds it missing says so.
pub proof fn recreated_notice_only_after_first_probe(m: RunnerModel)
    requires
        !m.closed,
    ensures
        after_probe(m, ProbeResult::Missing).1 == Step::Spawn,
        m.first_attempt ==> after_probe(m, ProbeResult::Missing).0.len() == 0,
        !m.first_attempt ==> after_probe(m, ProbeResult::Missing).0 == seq![
            MsgView::Notice(SESSION_RECREATED@),
        ],
{
}

/// A connection that drops with exit code 255 after at least a minute is
/// retried; one that ends any other way (such as a login that fails at once)
/// ends the session as `Exited`.
pub proof fn only_long_lived_drops_are_retried(m: RunnerModel, code: Option<i32>, uptime_ms: u64)
    ensures
        (after_exit(m, code, uptime_ms).1 is Wait) == (code == Some(255i32) && uptime_ms >= 60000),
        !(code == Some(255i32) && uptime_ms >= 60000) ==> after_exit(m, code, uptime_ms).0.last()
            == MsgView::State(SessionState::Exited),
{
}

} // verus!

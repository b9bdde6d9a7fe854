//! The ssh and tmux command lines that the client runs.
use vstd::prelude::*;

use crate::text::{
    chars_of, dec_digits, dec_int, push_chars, push_str, push_u64, string_of, trim, trim_str,
    push_i64,
};

verus! {

/// Where to connect: a host (or ssh alias), an optional user, and extra ssh
/// arguments placed before the destination.
#[derive(Debug, Clone, PartialEq, Eq)]
pub struct SshTarget {
    pub host: String,
    pub user: Option<String>,
    pub extra_ssh_args: Vec<String>,
}

/// The text content of an `SshTarget`.
pub struct SshTargetView {
    pub host: Seq<char>,
    pub user: Option<Seq<char>>,
    pub extra_ssh_args: Seq<Seq<char>>,
}

/// The text of an optional string.
pub open spec fn opt_view(o: Option<String>) -> Option<Seq<char>> {
    match o {
        Some(s) => Some(s@),
        None => None,
    }
}

impl View for SshTarget {
    type V = SshTargetView;

    open spec fn view(&self) -> SshTargetView {
        SshTargetView {
            host: self.host@,
            user: opt_view(self.user),
            extra_ssh_args: self.extra_ssh_args.deep_view(),
        }
    }
}

// ---------------------------------------------------------------------------
// Shell quoting
// ---------------------------------------------------------------------------

/// `s` with every `'` written as `'\''`.
pub open spec fn escape_quotes(s: Seq<char>) -> Seq<char>
    decreases s.len(),
{
    if s.len() == 0 {
        seq![]
    } else {
        escape_quotes(s.drop_last()) + if s.last() == '\'' {
            seq!['\'', '\\', '\'', '\'']
        } else {
            seq![s.last()]
        }
    }
}

/// POSIX single-quoting of `s`: the text inside `'...'`, each `'` in it
/// written as `'\''`.
pub open spec fn quoted(s: Seq<char>) -> Seq<char> {
    seq!['\''] + escape_quotes(s) + seq!['\'']
}

/// Where a POSIX shell is while it reads a word.
pub enum ShellReadState {
    /// Outside quotes.
    Outside,
    /// Inside single quotes.
    InQuotes,
    /// Right after a backslash outside quotes.
    Escaped,
    /// A character outside quotes that was not escaped: the shell might
    /// split, expand or interpret it.
    Exposed,
}

/// The shell reads one more character `c` of a word: `'` opens and closes
/// single quotes, inside which every other character stands for itself; a
/// backslash outside quotes makes the next character stand for itself; any
/// other character outside quotes is exposed to the shell.
pub open spec fn read_shell_char(st: (Seq<char>, ShellReadState), c: char) -> (
    Seq<char>,
    ShellReadState,
) {
    match st.1 {
        ShellReadState::Outside => if c == '\'' {
            (st.0, ShellReadState::InQuotes)
        } else if c == '\\' {
            (st.0, ShellReadState::Escaped)
        } else {
            (st.0, ShellReadState::Exposed)
        },
        ShellReadState::InQuotes => if c == '\'' {
            (st.0, ShellReadState::Outside)
        } else {
            (st.0.push(c), ShellReadState::InQuotes)
        },
        ShellReadState::Escaped => (st.0.push(c), ShellReadState::Outside),
        ShellReadState::Exposed => (st.0, ShellReadState::Exposed),
    }
}

/// The text that the shell reads from the word `q`, and where it ends up.
pub open spec fn shell_read(q: Seq<char>) -> (Seq<char>, ShellReadState)
    decreases q.len(),
{
    if q.len() == 0 {
        (seq![], ShellReadState::Outside)
    } else {
        read_shell_char(shell_read(q.drop_last()), q.last())
    }
}

proof fn lemma_shell_read_push(q: Seq<char>, c: char)
    ensures
        shell_read(q.push(c)) == read_shell_char(shell_read(q), c),
{
    assert(q.push(c).drop_last() =~= q);
}

proof fn lemma_read_open_quote(s: Seq<char>)
    ensures
        shell_read(seq!['\''] + escape_quotes(s)) == (s, ShellReadState::InQuotes),
    decreases s.len(),
{
    if s.len() == 0 {
        assert(seq!['\''] + escape_quotes(s) =~= Seq::<char>::empty().push('\''));
        lemma_shell_read_push(Seq::<char>::empty(), '\'');
    } else {
        let t = s.drop_last();
        let c = s.last();
        lemma_read_open_quote(t);
        let x = seq!['\''] + escape_quotes(t);
        if c == '\'' {
            assert(seq!['\''] + escape_quotes(s) =~= x.push('\'').push('\\').push('\'').push('\''));
            lemma_shell_read_push(x, '\'');
            lemma_shell_read_push(x.push('\''), '\\');
            lemma_shell_read_push(x.push('\'').push('\\'), '\'');
            lemma_shell_read_push(x.push('\'').push('\\').push('\''), '\'');
            assert(t.push('\'') =~= s);
        } else {
            assert(seq!['\''] + escape_quotes(s) =~= x.push(c));
            lemma_shell_read_push(x, c);
            assert(t.push(c) =~= s);
        }
    }
}

/// The shell reads a quoted string back as exactly the original text, with
/// nothing exposed to splitting or expansion, whatever the text holds
/// (spaces, `$`, `;`, quotes).
pub proof fn shell_reads_quoted_text_back(s: Seq<char>)
    ensures
        shell_read(quoted(s)) == (s, ShellReadState::Outside),
{
    lemma_read_open_quote(s);
    let x = seq!['\''] + escape_quotes(s);
    assert(quoted(s) =~= x.push('\''));
    lemma_shell_read_push(x, '\'');
}

pub(crate) fn quote_chars(s: &[char]) -> (r: Vec<char>)
    ensures
        r@ == quoted(s@),
{
    let mut out: Vec<char> = Vec::new();
    out.push('\'');
    let mut i: usize = 0;
    while i < s.len()
        invariant
            i <= s@.len(),
            out@ == seq!['\''] + escape_quotes(s@.subrange(0, i as int)),
        decreases s@.len() - i,
    {
        let ch = s[i];
        let ghost before = out@;
        if ch == '\'' {
            out.push('\'');
            out.push('\\');
            out.push('\'');
            out.push('\'');
        } else {
            out.push(ch);
        }
        i = i + 1;
        assert(s@.subrange(0, i as int).drop_last() =~= s@.subrange(0, i - 1));
        assert(out@ =~= seq!['\''] + escape_quotes(s@.subrange(0, i as int)));
    }
    assert(s@.subrange(0, s@.len() as int) =~= s@);
    out.push('\'');
    assert(out@ =~= quoted(s@));
    out
}

/// POSIX single-quoting: `'` becomes `'\''`, everything else is kept inside
/// single quotes.
pub fn shell_quote(s: &str) -> (r: String)
    ensures
        r@ == quoted(s@),
{
    let v = chars_of(s);
    let q = quote_chars(&v);
    string_of(&q)
}

fn push_quoted(out: &mut Vec<char>, s: &[char])
    ensures
        final(out)@ == old(out)@ + quoted(s@),
{
    let q = quote_chars(s);
    push_chars(out, &q);
}

fn push_quoted_str(out: &mut Vec<char>, s: &str)
    ensures
        final(out)@ == old(out)@ + quoted(s@),
{
    let v = chars_of(s);
    push_quoted(out, &v);
}

// ---------------------------------------------------------------------------
// Remote command text
// ---------------------------------------------------------------------------

/// `user@host`, or the host alone.
pub open spec fn destination_of(t: SshTargetView) -> Seq<char> {
    match t.user {
        Some(u) => u + seq!['@'] + t.host,
        None => t.host,
    }
}

/// The ssh destination of `target`: `user@host`, or the host alone.
pub fn destination(target: &SshTarget) -> (r: String)
    ensures
        r@ == destination_of(target@),
{
    match &target.user {
        Some(user) => {
            let mut v = chars_of(user.as_str());
            v.push('@');
            push_str(&mut v, target.host.as_str());
            string_of(&v)
        },
        None => target.host.clone(),
    }
}

pub const LOGIN_SHELL_PREFIX: &'static str = "${SHELL:-/bin/bash} -lc ";

/// `cmd` run by the user's login shell, so that it sees the `PATH` of a real
/// login (agents live in `~/.local/bin`, which non-interactive ssh leaves out).
pub open spec fn login_shell_of(cmd: Seq<char>) -> Seq<char> {
    LOGIN_SHELL_PREFIX@ + quoted(cmd)
}

fn login_shell_chars(cmd: &[char]) -> (r: Vec<char>)
    ensures
        r@ == login_shell_of(cmd@),
{
    let mut v = chars_of(LOGIN_SHELL_PREFIX);
    push_quoted(&mut v, cmd);
    v
}

/// `cmd` wrapped in `${SHELL:-/bin/bash} -lc '<cmd>'`.
pub fn login_shell(cmd: &str) -> (r: String)
    ensures
        r@ == login_shell_of(cmd@),
{
    let c = chars_of(cmd);
    let v = login_shell_chars(&c);
    string_of(&v)
}

/// Gives the agent the terminal environment of a native ssh connection.
pub const AGENT_TERM_PREFIX: &'static str =
    "env -u TERM_PROGRAM TERM=xterm-256color COLORTERM=truecolor";

/// `agent_cmd` run with the native terminal environment.
pub open spec fn native_env_of(agent_cmd: Seq<char>) -> Seq<char> {
    AGENT_TERM_PREFIX@ + seq![' '] + agent_cmd
}

/// Prefixes `agent_cmd` with the native terminal environment.
pub fn with_native_terminal_env(agent_cmd: &str) -> (r: String)
    ensures
        r@ == native_env_of(agent_cmd@),
{
    let mut v = chars_of(AGENT_TERM_PREFIX);
    v.push(' ');
    push_str(&mut v, agent_cmd);
    string_of(&v)
}

/// tmux turns the mouse on.
pub const MOUSE: &'static str = "set -g mouse on";

/// The wheel always enters and scrolls tmux copy-mode instead of being
/// forwarded to a pane that asked for the mouse.
pub const WHEEL_UP: &'static str =
    "bind -n WheelUpPane if -Ft= '#{pane_in_mode}' 'send-keys -M' 'copy-mode -e'";

pub const WHEEL_DOWN: &'static str =
    "bind -n WheelDownPane if -Ft= '#{pane_in_mode}' 'send-keys -M' 'send-keys -M'";

/// Copies in tmux reach the client clipboard through OSC 52.
pub const CLIPBOARD: &'static str = "set -g set-clipboard on";

/// The default of 500 ms makes ESC sluggish in editors and TUIs.
pub const ESCAPE_TIME: &'static str = "set -g escape-time 10";

/// `tmux-256color` has no RGB capability; this adds true colour.
pub const TRUECOLOR: &'static str = "set -g terminal-overrides \",*256col*:Tc\"";

/// The shell command that writes the tmux settings to a file, sources it,
/// turns the mouse on for an existing session, and attaches to (or creates)
/// `session` running `agent_cmd`.
pub open spec fn tmux_script(session: Seq<char>, agent_cmd: Seq<char>) -> Seq<char> {
    "printf '%s\\n' "@ + quoted(MOUSE@) + seq![' '] + quoted(CLIPBOARD@) + seq![' '] + quoted(
        ESCAPE_TIME@,
    ) + seq![' '] + quoted(TRUECOLOR@) + seq![' '] + quoted(WHEEL_UP@) + seq![' '] + quoted(
        WHEEL_DOWN@,
    ) + " > /tmp/asc-tmux.conf; tmux source-file /tmp/asc-tmux.conf; tmux set -t "@ + quoted(
        session,
    ) + " mouse on 2>/dev/null; tmux new -As "@ + quoted(session) + seq![' '] + quoted(
        native_env_of(agent_cmd),
    )
}

/// The remote command of a session: `tmux_script`, run by the login shell.
pub open spec fn remote_tmux_of(session: Seq<char>, agent_cmd: Seq<char>) -> Seq<char> {
    login_shell_of(tmux_script(session, agent_cmd))
}

fn remote_tmux_chars(session: &str, agent_cmd: &str) -> (r: Vec<char>)
    ensures
        r@ == remote_tmux_of(session@, agent_cmd@),
{
    let mut v = chars_of("printf '%s\\n' ");
    push_quoted_str(&mut v, MOUSE);
    v.push(' ');
    push_quoted_str(&mut v, CLIPBOARD);
    v.push(' ');
    push_quoted_str(&mut v, ESCAPE_TIME);
    v.push(' ');
    push_quoted_str(&mut v, TRUECOLOR);
    v.push(' ');
    push_quoted_str(&mut v, WHEEL_UP);
    v.push(' ');
    push_quoted_str(&mut v, WHEEL_DOWN);
    push_str(&mut v, " > /tmp/asc-tmux.conf; tmux source-file /tmp/asc-tmux.conf; tmux set -t ");
    push_quoted_str(&mut v, session);
    push_str(&mut v, " mouse on 2>/dev/null; tmux new -As ");
    push_quoted_str(&mut v, session);
    v.push(' ');
    let env = with_native_terminal_env(agent_cmd);
    push_quoted_str(&mut v, env.as_str());
    assert(v@ =~= tmux_script(session@, agent_cmd@));
    login_shell_chars(&v)
}

/// The remote command that attaches to (or creates) tmux session `session`
/// running `agent_cmd`, in a login shell, with the client's tmux settings.
pub fn build_remote_tmux_cmd(session: &str, agent_cmd: &str) -> (r: String)
    ensures
        r@ == remote_tmux_of(session@, agent_cmd@),
{
    let v = remote_tmux_chars(session, agent_cmd);
    string_of(&v)
}

// ---------------------------------------------------------------------------
// ssh argument vectors
// ---------------------------------------------------------------------------

/// Keep-alive options: a dead network makes ssh quit within about 45 seconds.
pub open spec fn keepalive_args() -> Seq<Seq<char>> {
    seq!["-o"@, "ServerAliveInterval=15"@, "-o"@, "ServerAliveCountMax=3"@]
}

/// `ssh`, the keep-alive options and the target's extra arguments.
pub open spec fn base_args(t: SshTargetView) -> Seq<Seq<char>> {
    seq!["ssh"@] + keepalive_args() + t.extra_ssh_args
}

/// Options that bound a one-shot run: a 10 s connect timeout and no prompts.
pub open spec fn bounded_args() -> Seq<Seq<char>> {
    seq!["-o"@, "ConnectTimeout=10"@, "-o"@, "BatchMode=yes"@]
}

/// The argument vector of a session: with a terminal (`-t`), running the
/// remote tmux command.
pub open spec fn session_args(t: SshTargetView, session: Seq<char>, agent_cmd: Seq<char>) -> Seq<
    Seq<char>,
> {
    base_args(t) + seq!["-t"@, destination_of(t), remote_tmux_of(session, agent_cmd)]
}

/// The argument vector that asks whether tmux session `session` exists.
pub open spec fn probe_args(t: SshTargetView, session: Seq<char>) -> Seq<Seq<char>> {
    base_args(t) + bounded_args() + seq![
        destination_of(t),
        "tmux has-session -t "@ + quoted(session),
    ]
}

/// The argument vector of a one-shot remote command.
pub open spec fn exec_args(t: SshTargetView, cmd: Seq<char>) -> Seq<Seq<char>> {
    base_args(t) + bounded_args() + seq![destination_of(t), cmd]
}

/// Every ssh that the client starts (a session, a probe, a one-shot
/// command) carries the keep-alive options right after the program name, so
/// a dead network ends it within about 45 seconds.
pub proof fn every_ssh_keeps_alive(
    t: SshTargetView,
    session: Seq<char>,
    agent_cmd: Seq<char>,
    cmd: Seq<char>,
)
    ensures
        session_args(t, session, agent_cmd).subrange(0, 5) == seq!["ssh"@] + keepalive_args(),
        probe_args(t, session).subrange(0, 5) == seq!["ssh"@] + keepalive_args(),
        exec_args(t, cmd).subrange(0, 5) == seq!["ssh"@] + keepalive_args(),
{
    assert(session_args(t, session, agent_cmd).subrange(0, 5) =~= seq!["ssh"@] + keepalive_args());
    assert(probe_args(t, session).subrange(0, 5) =~= seq!["ssh"@] + keepalive_args());
    assert(exec_args(t, cmd).subrange(0, 5) =~= seq!["ssh"@] + keepalive_args());
}

/// A session and any probe built with `login_shell` run the same way on the
/// host: the user's login shell, started by the same prefix, running one
/// single-quoted script. So whatever a probe finds on the `PATH`, a session
/// finds too.
pub proof fn sessions_and_probes_share_the_login_shell(
    session: Seq<char>,
    agent_cmd: Seq<char>,
    probe: Seq<char>,
)
    ensures
        remote_tmux_of(session, agent_cmd) == LOGIN_SHELL_PREFIX@ + quoted(
            tmux_script(session, agent_cmd),
        ),
        login_shell_of(probe) == LOGIN_SHELL_PREFIX@ + quoted(probe),
{
}

/// Appends an owned copy of `s`.
pub fn push_arg(argv: &mut Vec<String>, s: &str)
    ensures
        final(argv).deep_view() == old(argv).deep_view().push(s@),
{
    let o = s.to_owned();
    argv.push(o);
    assert(final(argv).deep_view() =~= old(argv).deep_view().push(s@));
}

/// Appends `s`.
pub fn push_string(argv: &mut Vec<String>, s: String)
    ensures
        final(argv).deep_view() == old(argv).deep_view().push(s@),
{
    let ghost sv = s@;
    argv.push(s);
    assert(final(argv).deep_view() =~= old(argv).deep_view().push(sv));
}

/// Appends copies of all of `args`.
pub fn push_args(argv: &mut Vec<String>, args: &Vec<String>)
    ensures
        final(argv).deep_view() == old(argv).deep_view() + args.deep_view(),
{
    let ghost start = argv.deep_view();
    let mut i: usize = 0;
    while i < args.len()
        invariant
            i <= args@.len(),
            argv.deep_view() == start + args.deep_view().subrange(0, i as int),
        decreases args@.len() - i,
    {
        let a = args[i].clone();
        push_string(argv, a);
        i = i + 1;
        assert(argv.deep_view() =~= start + args.deep_view().subrange(0, i as int));
    }
    assert(args.deep_view().subrange(0, args@.len() as int) =~= args.deep_view());
}

fn base_argv(target: &SshTarget) -> (argv: Vec<String>)
    ensures
        argv.deep_view() == base_args(target@),
{
    let mut argv: Vec<String> = Vec::new();
    push_arg(&mut argv, "ssh");
    push_arg(&mut argv, "-o");
    push_arg(&mut argv, "ServerAliveInterval=15");
    push_arg(&mut argv, "-o");
    push_arg(&mut argv, "ServerAliveCountMax=3");
    push_args(&mut argv, &target.extra_ssh_args);
    assert(argv.deep_view() =~= base_args(target@));
    argv
}

fn push_bounded(argv: &mut Vec<String>)
    ensures
        final(argv).deep_view() == old(argv).deep_view() + bounded_args(),
{
    push_arg(argv, "-o");
    push_arg(argv, "ConnectTimeout=10");
    push_arg(argv, "-o");
    push_arg(argv, "BatchMode=yes");
    assert(final(argv).deep_view() =~= old(argv).deep_view() + bounded_args());
}

/// `ssh <keep-alive> <extra> -t <destination> <remote tmux command>`.
pub fn build_session_argv(target: &SshTarget, session: &str, agent_cmd: &str) -> (argv: Vec<
    String,
>)
    ensures
        argv.deep_view() == session_args(target@, session@, agent_cmd@),
{
    let mut argv = base_argv(target);
    push_arg(&mut argv, "-t");
    push_string(&mut argv, destination(target));
    push_string(&mut argv, build_remote_tmux_cmd(session, agent_cmd));
    assert(argv.deep_view() =~= session_args(target@, session@, agent_cmd@));
    argv
}

/// `ssh <keep-alive> <extra> <bounded> <destination> tmux has-session -t '<session>'`.
pub fn build_probe_argv(target: &SshTarget, session: &str) -> (argv: Vec<String>)
    ensures
        argv.deep_view() == probe_args(target@, session@),
{
    let mut argv = base_argv(target);
    push_bounded(&mut argv);
    push_string(&mut argv, destination(target));
    let mut c = chars_of("tmux has-session -t ");
    push_quoted_str(&mut c, session);
    push_string(&mut argv, string_of(&c));
    assert(argv.deep_view() =~= probe_args(target@, session@));
    argv
}

/// `ssh <keep-alive> <extra> <bounded> <destination> <cmd>`: a one-shot
/// remote command without a terminal.
pub fn build_exec_argv(target: &SshTarget, cmd: &str) -> (argv: Vec<String>)
    ensures
        argv.deep_view() == exec_args(target@, cmd@),
{
    let mut argv = base_argv(target);
    push_bounded(&mut argv);
    push_string(&mut argv, destination(target));
    push_arg(&mut argv, cmd);
    assert(argv.deep_view() =~= exec_args(target@, cmd@));
    argv
}

/// The arguments after `ssh` that destroy tmux session `session` on the host.
pub open spec fn kill_session_args(t: SshTargetView, session: Seq<char>) -> Seq<Seq<char>> {
    seq!["-o"@, "BatchMode=yes"@] + t.extra_ssh_args + seq![
        destination_of(t),
        "tmux kill-session -t "@ + quoted(session),
    ]
}

/// The arguments (after the program name `ssh`) that destroy the remote tmux
/// session `session`.
pub fn build_kill_session_args(target: &SshTarget, session: &str) -> (argv: Vec<String>)
    ensures
        argv.deep_view() == kill_session_args(target@, session@),
{
    let mut argv: Vec<String> = Vec::new();
    push_arg(&mut argv, "-o");
    push_arg(&mut argv, "BatchMode=yes");
    push_args(&mut argv, &target.extra_ssh_args);
    push_string(&mut argv, destination(target));
    let mut c = chars_of("tmux kill-session -t ");
    push_quoted_str(&mut c, session);
    push_string(&mut argv, string_of(&c));
    assert(argv.deep_view() =~= kill_session_args(target@, session@));
    argv
}

// ---------------------------------------------------------------------------
// One-shot results and scrolling
// ---------------------------------------------------------------------------

/// The message of a failed remote command that printed nothing.
pub open spec fn exit_code_message(code: int) -> Seq<char> {
    "远端命令退出码 "@ + dec_int(code)
}

/// The result of a one-shot remote command: its output whenever it exited 0
/// or printed something; otherwise its trimmed error output, or, when that is
/// empty, a message with the exit code.
pub open spec fn probe_result(code: i32, stdout: Seq<char>, stderr: Seq<char>) -> Result<
    Seq<char>,
    Seq<char>,
> {
    if code == 0 || trim(stdout).len() > 0 {
        Ok(stdout)
    } else if trim(stderr).len() == 0 {
        Err(exit_code_message(code as int))
    } else {
        Err(trim(stderr))
    }
}

/// The text of a `Result` of strings.
pub open spec fn result_view(r: Result<String, String>) -> Result<Seq<char>, Seq<char>> {
    match r {
        Ok(s) => Ok(s@),
        Err(e) => Err(e@),
    }
}

/// Judges a one-shot remote command by its exit code and output (see `probe_result`).
pub fn probe_outcome(code: i32, stdout: &str, stderr: &str) -> (r: Result<String, String>)
    ensures
        result_view(r) == probe_result(code, stdout@, stderr@),
{
    let out_trimmed = trim_str(stdout);
    if code == 0 || out_trimmed.len() > 0 {
        return Ok(stdout.to_owned());
    }
    let msg = trim_str(stderr);
    if msg.len() == 0 {
        let mut v = chars_of("远端命令退出码 ");
        push_i64(&mut v, code as i64);
        Err(string_of(&v))
    } else {
        Err(string_of(&msg))
    }
}

/// The tmux commands that put `session` in copy-mode (leaving it again at the
/// bottom, `-e`) and scroll it by `lines` lines up or down.
pub open spec fn scroll_cmd_of(session: Seq<char>, up: bool, lines: u32) -> Seq<char> {
    "tmux copy-mode -e -t "@ + quoted(session) + " 2>/dev/null; tmux send-keys -t "@ + quoted(
        session,
    ) + " -X -N "@ + dec_digits(lines as nat) + seq![' '] + if up {
        "scroll-up"@
    } else {
        "scroll-down"@
    }
}

/// Scrolls `session` through tmux copy-mode (see `scroll_cmd_of`).
pub fn build_scroll_cmd(session: &str, up: bool, lines: u32) -> (r: String)
    ensures
        r@ == scroll_cmd_of(session@, up, lines),
{
    let mut v = chars_of("tmux copy-mode -e -t ");
    push_quoted_str(&mut v, session);
    push_str(&mut v, " 2>/dev/null; tmux send-keys -t ");
    push_quoted_str(&mut v, session);
    push_str(&mut v, " -X -N ");
    push_u64(&mut v, lines as u64);
    v.push(' ');
    if up {
        push_str(&mut v, "scroll-up");
    } else {
        push_str(&mut v, "scroll-down");
    }
    assert(v@ =~= scroll_cmd_of(session@, up, lines));
    string_of(&v)
}

} // verus!

//! What the user interface is sent, and the decisions of its commands.
use vstd::prelude::*;

use crate::agents::{KnownAgent, KnownAgentView};
use crate::command::{opt_view, push_args, SshTarget};
use crate::config::{lookup_target, same_target, AgentModel, Config, HostModel};
use crate::discovery::LoadOutcome;
use crate::files::{join_path, join_path_of, EntryView as EntryModel, Listing};
use crate::session::SessionState;
use crate::ssh_config::{AliasView, SshHostAlias};
use crate::text::{chars_eq, chars_of, push_str, string_of, trim, trim_str};

verus! {

/// A configured host, as shown.
pub struct HostView {
    pub name: String,
    pub host: String,
    pub user: Option<String>,
    pub extra_ssh_args: Vec<String>,
}

/// An agent template, as shown.
pub struct AgentView {
    pub id: String,
    pub label: String,
    pub cmd: String,
}

/// The loaded configuration, where it came from, and every path searched.
pub struct ConfigView {
    pub hosts: Vec<HostView>,
    pub agents: Vec<AgentView>,
    pub source_path: String,
    pub searched: Vec<String>,
}

/// A `Host` alias of `~/.ssh/config`; its details are for display only.
pub struct SshHostView {
    pub alias: String,
    pub host_name: Option<String>,
    pub user: Option<String>,
    pub port: Option<u16>,
    pub proxy_jump: Option<String>,
}

/// Why no configuration could be loaded.
pub enum ConfigError {
    NotFound { searched: Vec<String> },
    Invalid { path: String, errors: Vec<String> },
}

/// A directory entry with its absolute path, for dragging into the terminal.
pub struct EntryView {
    pub name: String,
    pub path: String,
    pub is_dir: bool,
    pub size: u64,
}

/// A directory as the remote side resolved it, and its entries.
pub struct DirView {
    pub dir: String,
    pub entries: Vec<EntryView>,
}

// ---------------------------------------------------------------------------
// Configuration
// ---------------------------------------------------------------------------

/// `v` shows host `h` field by field.
pub open spec fn shows_host(v: HostView, h: HostModel) -> bool {
    &&& v.name@ == h.name
    &&& v.host@ == h.host
    &&& opt_view(v.user) == h.user
    &&& v.extra_ssh_args.deep_view() == h.extra_ssh_args
}

/// `v` shows agent template `a` field by field.
pub open spec fn shows_agent(v: AgentView, a: AgentModel) -> bool {
    v.id@ == a.id && v.label@ == a.label && v.cmd@ == a.cmd
}

fn copy_opt(o: &Option<String>) -> (r: Option<String>)
    ensures
        opt_view(r) == opt_view(*o),
{
    match o {
        Some(s) => Some(s.clone()),
        None => None,
    }
}

/// What the user interface shows of `cfg`, loaded from `source_path` after
/// searching `searched`.
pub fn config_view(cfg: &Config, source_path: String, searched: Vec<String>) -> (r: ConfigView)
    ensures
        r.hosts@.len() == cfg@.hosts.len(),
        forall|i: int| 0 <= i < r.hosts@.len() ==> shows_host(#[trigger] r.hosts@[i], cfg@.hosts[i]),
        r.agents@.len() == cfg@.agents.len(),
        forall|i: int|
            0 <= i < r.agents@.len() ==> shows_agent(#[trigger] r.agents@[i], cfg@.agents[i]),
        r.source_path@ == source_path@,
        r.searched.deep_view() == searched.deep_view(),
{
    let mut hosts: Vec<HostView> = Vec::new();
    let mut i: usize = 0;
    while i < cfg.hosts.len()
        invariant
            i <= cfg.hosts@.len(),
            hosts@.len() == i,
            forall|k: int| 0 <= k < i ==> shows_host(#[trigger] hosts@[k], cfg@.hosts[k]),
        decreases cfg.hosts@.len() - i,
    {
        let h = &cfg.hosts[i];
        assert(cfg@.hosts[i as int] == h@);
        let mut extra: Vec<String> = Vec::new();
        push_args(&mut extra, &h.extra_ssh_args);
        assert(extra.deep_view() =~= h.extra_ssh_args.deep_view());
        hosts.push(
            HostView {
                name: h.name.clone(),
                host: h.host.clone(),
                user: copy_opt(&h.user),
                extra_ssh_args: extra,
            },
        );
        i = i + 1;
    }
    let mut agents: Vec<AgentView> = Vec::new();
    let mut j: usize = 0;
    while j < cfg.agents.len()
        invariant
            j <= cfg.agents@.len(),
            agents@.len() == j,
            forall|k: int| 0 <= k < j ==> shows_agent(#[trigger] agents@[k], cfg@.agents[k]),
        decreases cfg.agents@.len() - j,
    {
        let a = &cfg.agents[j];
        assert(cfg@.agents[j as int] == a@);
        agents.push(AgentView { id: a.id.clone(), label: a.label.clone(), cmd: a.cmd.clone() });
        j = j + 1;
    }
    ConfigView { hosts, agents, source_path, searched }
}

/// The answer to a configuration load: the view and the configuration when
/// one was loaded; otherwise every path searched, or the invalid file and
/// its errors.
pub fn load_response(outcome: LoadOutcome, searched: Vec<String>) -> (r: Result<
    (ConfigView, Config),
    ConfigError,
>)
    ensures
        match outcome {
            LoadOutcome::Loaded { path, config } => r matches Ok((v, c)) && c == config
                && v.source_path@ == path@ && v.searched.deep_view() == searched.deep_view()
                && v.hosts@.len() == config@.hosts.len() && v.agents@.len() == config@.agents.len()
                && (forall|i: int|
                0 <= i < v.hosts@.len() ==> shows_host(#[trigger] v.hosts@[i], config@.hosts[i]))
                && (forall|i: int|
                0 <= i < v.agents@.len() ==> shows_agent(
                    #[trigger] v.agents@[i],
                    config@.agents[i],
                )),
            LoadOutcome::NotFound { .. } => r matches Err(ConfigError::NotFound { searched: s })
                && s.deep_view() == searched.deep_view(),
            LoadOutcome::Invalid { path, errors } => r matches Err(
                ConfigError::Invalid { path: p, errors: e },
            ) && p@ == path@ && e.deep_view() == errors.deep_view(),
        },
{
    match outcome {
        LoadOutcome::Loaded { path, config } => {
            let v = config_view(&config, path, searched);
            Ok((v, config))
        },
        LoadOutcome::NotFound { .. } => Err(ConfigError::NotFound { searched }),
        LoadOutcome::Invalid { path, errors } => Err(ConfigError::Invalid { path, errors }),
    }
}

// ---------------------------------------------------------------------------
// Agents and ssh aliases
// ---------------------------------------------------------------------------

/// `v` shows registry agent `a`.
pub open spec fn shows_known_agent(v: AgentView, a: KnownAgentView) -> bool {
    v.id@ == a.id && v.label@ == a.label && v.cmd@ == a.cmd
}

/// The agent templates of registry agents, in order.
pub fn known_agent_views(agents: &Vec<KnownAgent>) -> (r: Vec<AgentView>)
    ensures
        r@.len() == agents@.len(),
        forall|i: int|
            0 <= i < r@.len() ==> shows_known_agent(#[trigger] r@[i], agents@[i]@),
{
    let mut r: Vec<AgentView> = Vec::new();
    let mut i: usize = 0;
    while i < agents.len()
        invariant
            i <= agents@.len(),
            r@.len() == i,
            forall|k: int| 0 <= k < i ==> shows_known_agent(#[trigger] r@[k], agents@[k]@),
        decreases agents@.len() - i,
    {
        let a = agents[i];
        r.push(AgentView { id: a.id.to_owned(), label: a.label.to_owned(), cmd: a.cmd.to_owned() });
        i = i + 1;
    }
    r
}

/// `v` shows alias `a`.
pub open spec fn shows_alias(v: SshHostView, a: AliasView) -> bool {
    &&& v.alias@ == a.alias
    &&& opt_view(v.host_name) == a.host_name
    &&& opt_view(v.user) == a.user
    &&& v.port == a.port
    &&& opt_view(v.proxy_jump) == a.proxy_jump
}

/// The aliases of `~/.ssh/config`, as shown.
pub fn ssh_host_views(hosts: Vec<SshHostAlias>) -> (r: Vec<SshHostView>)
    ensures
        r@.len() == hosts@.len(),
        forall|i: int| 0 <= i < r@.len() ==> shows_alias(#[trigger] r@[i], hosts@[i]@),
{
    let mut r: Vec<SshHostView> = Vec::new();
    let mut i: usize = 0;
    while i < hosts.len()
        invariant
            i <= hosts@.len(),
            r@.len() == i,
            forall|k: int| 0 <= k < i ==> shows_alias(#[trigger] r@[k], hosts@[k]@),
        decreases hosts@.len() - i,
    {
        let h = &hosts[i];
        r.push(
            SshHostView {
                alias: h.alias.clone(),
                host_name: copy_opt(&h.host_name),
                user: copy_opt(&h.user),
                port: h.port,
                proxy_jump: copy_opt(&h.proxy_jump),
            },
        );
        i = i + 1;
    }
    r
}

// ---------------------------------------------------------------------------
// Directory listings
// ---------------------------------------------------------------------------

/// `v` shows entry `e` of directory `dir`, with its absolute path.
pub open spec fn shows_entry(v: EntryView, e: EntryModel, dir: Seq<char>) -> bool {
    &&& v.name@ == e.name
    &&& v.path@ == join_path_of(dir, e.name)
    &&& v.is_dir == e.is_dir
    &&& v.size == e.size
}

/// A listing as shown: the resolved directory, and each entry with its
/// absolute path, in listing order.
pub fn dir_view(listing: &Listing) -> (r: DirView)
    ensures
        r.dir@ == listing.dir@,
        r.entries@.len() == listing.entries@.len(),
        forall|i: int|
            0 <= i < r.entries@.len() ==> shows_entry(
                #[trigger] r.entries@[i],
                listing.entries@[i]@,
                listing.dir@,
            ),
{
    let mut entries: Vec<EntryView> = Vec::new();
    let mut i: usize = 0;
    while i < listing.entries.len()
        invariant
            i <= listing.entries@.len(),
            entries@.len() == i,
            forall|k: int|
                0 <= k < i ==> shows_entry(
                    #[trigger] entries@[k],
                    listing.entries@[k]@,
                    listing.dir@,
                ),
        decreases listing.entries@.len() - i,
    {
        let e = &listing.entries[i];
        entries.push(
            EntryView {
                name: e.name.clone(),
                path: join_path(listing.dir.as_str(), e.name.as_str()),
                is_dir: e.is_dir,
                size: e.size,
            },
        );
        i = i + 1;
    }
    DirView { dir: listing.dir.clone(), entries }
}

// ---------------------------------------------------------------------------
// Sessions
// ---------------------------------------------------------------------------

/// The name of a state as the user interface knows it.
pub open spec fn state_name_of(s: SessionState) -> Seq<char> {
    match s {
        SessionState::Connecting => "connecting"@,
        SessionState::Connected => "connected"@,
        SessionState::Retrying => "retrying"@,
        SessionState::Exited => "exited"@,
        SessionState::Closed => "closed"@,
    }
}

/// The name of a state: `connecting`, `connected`, `retrying`, `exited` or `closed`.
pub fn state_name(s: SessionState) -> (r: &'static str)
    ensures
        r@ == state_name_of(s),
{
    match s {
        SessionState::Connecting => "connecting",
        SessionState::Connected => "connected",
        SessionState::Retrying => "retrying",
        SessionState::Exited => "exited",
        SessionState::Closed => "closed",
    }
}

/// The tmux session of agent `agent` for project `project`: the agent id, or
/// `<agent>-<project>` when the project is not blank. Each agent gets its own
/// session, so switching agents on one host never attaches to another
/// agent's session.
pub open spec fn session_name_of(agent: Seq<char>, project: Seq<char>) -> Seq<char> {
    if trim(project).len() == 0 {
        agent
    } else {
        agent + seq!['-'] + project
    }
}

/// The tmux session name for `agent` and `project` (see `session_name_of`).
pub fn session_name(agent: &str, project: &str) -> (r: String)
    ensures
        r@ == session_name_of(agent@, project@),
{
    let t = trim_str(project);
    if t.len() == 0 {
        agent.to_owned()
    } else {
        let mut v = chars_of(agent);
        v.push('-');
        push_str(&mut v, project);
        string_of(&v)
    }
}

/// Everything needed to run a session.
pub struct SessionPlan {
    pub target: SshTarget,
    pub session: String,
    pub agent_cmd: String,
}

/// Index of the first agent template with id `id`, or `agents.len()`.
pub open spec fn agent_index(agents: Seq<AgentModel>, id: Seq<char>) -> int
    decreases agents.len(),
{
    if agents.len() == 0 {
        0
    } else if agent_index(agents.drop_last(), id) < agents.len() - 1 {
        agent_index(agents.drop_last(), id)
    } else if agents.last().id == id {
        agents.len() - 1
    } else {
        agents.len() as int
    }
}

proof fn lemma_agent_index(agents: Seq<AgentModel>, id: Seq<char>, j: int)
    requires
        0 <= j <= agents.len(),
        j < agents.len() ==> agents[j].id == id,
        forall|k: int| 0 <= k < j ==> agents[k].id != id,
    ensures
        agent_index(agents, id) == j,
    decreases agents.len(),
{
    if agents.len() > 0 {
        let d = agents.drop_last();
        if j < agents.len() - 1 {
            lemma_agent_index(d, id, j);
        } else {
            assert forall|k: int| 0 <= k < d.len() implies d[k].id != id by {
                assert(d[k] == agents[k]);
            }
            lemma_agent_index(d, id, d.len() as int);
        }
    }
}

/// The plan for starting `agent` on `host` for `project`: the host's target,
/// the session name, and the agent's launch command; `unknown host: <host>`
/// or `unknown agent: <agent>` when the configuration has no such entry.
pub fn plan_session(cfg: &Config, host: &str, agent: &str, project: &str) -> (r: Result<
    SessionPlan,
    String,
>)
    ensures
        lookup_target(cfg@, host@) is None ==> (r matches Err(e) && e@ == "unknown host: "@
            + host@),
        (lookup_target(cfg@, host@) is Some && agent_index(cfg@.agents, agent@)
            >= cfg@.agents.len()) ==> (r matches Err(e) && e@ == "unknown agent: "@ + agent@),
        (lookup_target(cfg@, host@) is Some && agent_index(cfg@.agents, agent@)
            < cfg@.agents.len()) ==> (r matches Ok(p) && same_target(
            p.target@,
            lookup_target(cfg@, host@)->0,
        )
            && p.session@ == session_name_of(agent@, project@) && p.agent_cmd@
            == cfg@.agents[agent_index(cfg@.agents, agent@)].cmd),
{
    let target = match cfg.to_ssh_target(host) {
        Some(t) => t,
        None => {
            let mut v = chars_of("unknown host: ");
            push_str(&mut v, host);
            return Err(string_of(&v));
        },
    };
    let ghost agents = cfg@.agents;
    let want = chars_of(agent);
    let mut i: usize = 0;
    while i < cfg.agents.len()
        invariant
            i <= cfg.agents@.len(),
            agents == cfg@.agents,
            want@ == agent@,
            lookup_target(cfg@, host@) is Some,
            same_target(target@, lookup_target(cfg@, host@)->0),
            forall|k: int| 0 <= k < i ==> agents[k].id != agent@,
        decreases cfg.agents@.len() - i,
    {
        let a = &cfg.agents[i];
        assert(agents[i as int] == a@);
        let id = chars_of(a.id.as_str());
        if chars_eq(&id, &want) {
            proof {
                lemma_agent_index(agents, agent@, i as int);
            }
            return Ok(
                SessionPlan {
                    target,
                    session: session_name(agent, project),
                    agent_cmd: a.cmd.clone(),
                },
            );
        }
        i = i + 1;
    }
    proof {
        lemma_agent_index(agents, agent@, i as int);
    }
    let mut v = chars_of("unknown agent: ");
    push_str(&mut v, agent);
    Err(string_of(&v))
}

/// The text of a list of strings.
pub open spec fn texts_of(v: Seq<String>) -> Seq<Seq<char>> {
    v.map_values(|s: String| s@)
}

/// Whether a session may start, and its plan: without a configuration,
/// `config not loaded`; then the errors of `plan_session` (`unknown host:
/// <host>`, `unknown agent: <agent>`), in that order; then `session already
/// running: <session>` when a session of that name is among `running`
/// (a second runner would cut the first one's input, and its close could
/// destroy the new session's tmux session). Otherwise the plan.
pub fn admit_session(
    cfg: Option<&Config>,
    running: &[String],
    host: &str,
    agent: &str,
    project: &str,
) -> (r: Result<SessionPlan, String>)
    ensures
        cfg is None ==> (r matches Err(e) && e@ == "config not loaded"@),
        cfg matches Some(c) ==> {
            let m = c@;
            &&& lookup_target(m, host@) is None ==> (r matches Err(e) && e@ == "unknown host: "@
                + host@)
            &&& (lookup_target(m, host@) is Some && agent_index(m.agents, agent@) >= m.agents.len())
                ==> (r matches Err(e) && e@ == "unknown agent: "@ + agent@)
            &&& (lookup_target(m, host@) is Some && agent_index(m.agents, agent@) < m.agents.len()
                && texts_of(running@).contains(session_name_of(agent@, project@))) ==> (r matches Err(
                e,
            ) && e@ == "session already running: "@ + session_name_of(agent@, project@))
            &&& (lookup_target(m, host@) is Some && agent_index(m.agents, agent@) < m.agents.len()
                && !texts_of(running@).contains(session_name_of(agent@, project@))) ==> (r matches Ok(
                p,
            ) && same_target(p.target@, lookup_target(m, host@)->0) && p.session@
                == session_name_of(agent@, project@) && p.agent_cmd@ == m.agents[agent_index(
                m.agents,
                agent@,
            )].cmd)
        },
{
    let c = match cfg {
        Some(c) => c,
        None => {
            return Err("config not loaded".to_owned());
        },
    };
    let plan = match plan_session(c, host, agent, project) {
        Ok(p) => p,
        Err(e) => {
            return Err(e);
        },
    };
    let ghost tv = texts_of(running@);
    let mut k: usize = 0;
    while k < running.len()
        invariant
            k <= running@.len() == tv.len(),
            tv == texts_of(running@),
            cfg == Some(c),
            lookup_target(c@, host@) is Some,
            agent_index(c@.agents, agent@) < c@.agents.len(),
            same_target(plan.target@, lookup_target(c@, host@)->0),
            plan.session@ == session_name_of(agent@, project@),
            plan.agent_cmd@ == c@.agents[agent_index(c@.agents, agent@)].cmd,
            forall|m: int| 0 <= m < k ==> tv[m] != plan.session@,
        decreases running@.len() - k,
    {
        assert(tv[k as int] == running@[k as int]@);
        if running[k] == plan.session {
            assert(tv.contains(plan.session@)) by {
                assert(tv[k as int] == plan.session@);
            }
            let mut v = chars_of("session already running: ");
            push_str(&mut v, plan.session.as_str());
            return Err(string_of(&v));
        }
        k = k + 1;
    }
    assert(!tv.contains(plan.session@));
    Ok(plan)
}

} // verus!

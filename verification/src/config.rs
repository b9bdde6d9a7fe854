//! The configuration: the hosts to connect to and the agents to run.
use vstd::prelude::*;

use crate::command::{opt_view, push_string, push_args, SshTarget, SshTargetView};
use crate::text::{chars_of, dec_digits, push_str, push_u64, string_of, trim, trim_str};

verus! {

/// The whole configuration.
#[derive(Debug, Clone, PartialEq, Eq)]
pub struct Config {
    pub hosts: Vec<HostConfig>,
    pub agents: Vec<AgentConfig>,
}

/// A host: its display name, the host name or address, an optional ssh user
/// (else the one of `~/.ssh/config`), and extra ssh arguments.
#[derive(Debug, Clone, PartialEq, Eq)]
pub struct HostConfig {
    pub name: String,
    pub host: String,
    pub user: Option<String>,
    pub extra_ssh_args: Vec<String>,
}

/// An agent template: its id, display label and remote launch command.
#[derive(Debug, Clone, PartialEq, Eq)]
pub struct AgentConfig {
    pub id: String,
    pub label: String,
    pub cmd: String,
}

/// The text of a `HostConfig`.
pub struct HostModel {
    pub name: Seq<char>,
    pub host: Seq<char>,
    pub user: Option<Seq<char>>,
    pub extra_ssh_args: Seq<Seq<char>>,
}

/// The text of an `AgentConfig`.
pub struct AgentModel {
    pub id: Seq<char>,
    pub label: Seq<char>,
    pub cmd: Seq<char>,
}

/// The text of a `Config`.
pub struct ConfigModel {
    pub hosts: Seq<HostModel>,
    pub agents: Seq<AgentModel>,
}

impl View for HostConfig {
    type V = HostModel;

    open spec fn view(&self) -> HostModel {
        HostModel {
            name: self.name@,
            host: self.host@,
            user: opt_view(self.user),
            extra_ssh_args: self.extra_ssh_args.deep_view(),
        }
    }
}

impl View for AgentConfig {
    type V = AgentModel;

    open spec fn view(&self) -> AgentModel {
        AgentModel { id: self.id@, label: self.label@, cmd: self.cmd@ }
    }
}

impl View for Config {
    type V = ConfigModel;

    open spec fn view(&self) -> ConfigModel {
        ConfigModel {
            hosts: self.hosts@.map_values(|h: HostConfig| h@),
            agents: self.agents@.map_values(|a: AgentConfig| a@),
        }
    }
}

// ---------------------------------------------------------------------------
// Validation
// ---------------------------------------------------------------------------

/// The text is empty or only whitespace.
pub open spec fn blank(s: Seq<char>) -> bool {
    trim(s).len() == 0
}

/// `<list>[<i>].<field>: must not be empty`.
pub open spec fn empty_field_error(list: Seq<char>, i: nat, field: Seq<char>) -> Seq<char> {
    list + seq!['['] + dec_digits(i) + seq![']', '.'] + field + ": must not be empty"@
}

/// The errors of the first `n` hosts: a blank name, then a blank host, for
/// each host in order.
pub open spec fn host_errors(hosts: Seq<HostModel>, n: nat) -> Seq<Seq<char>>
    decreases n,
{
    if n == 0 {
        seq![]
    } else {
        let i = (n - 1) as nat;
        host_errors(hosts, i) + (if blank(hosts[i as int].name) {
            seq![empty_field_error("hosts"@, i, "name"@)]
        } else {
            seq![]
        }) + (if blank(hosts[i as int].host) {
            seq![empty_field_error("hosts"@, i, "host"@)]
        } else {
            seq![]
        })
    }
}

/// The errors of the first `n` agents: a blank id, then a blank command,
/// for each agent in order.
pub open spec fn agent_errors(agents: Seq<AgentModel>, n: nat) -> Seq<Seq<char>>
    decreases n,
{
    if n == 0 {
        seq![]
    } else {
        let i = (n - 1) as nat;
        agent_errors(agents, i) + (if blank(agents[i as int].id) {
            seq![empty_field_error("agents"@, i, "id"@)]
        } else {
            seq![]
        }) + (if blank(agents[i as int].cmd) {
            seq![empty_field_error("agents"@, i, "cmd"@)]
        } else {
            seq![]
        })
    }
}

/// Every problem of `cfg`, each naming the offending field: no hosts, no
/// agents, then the blank fields of the hosts and of the agents.
pub open spec fn config_errors(cfg: ConfigModel) -> Seq<Seq<char>> {
    (if cfg.hosts.len() == 0 {
        seq!["hosts: must not be empty"@]
    } else {
        seq![]
    }) + (if cfg.agents.len() == 0 {
        seq!["agents: must not be empty"@]
    } else {
        seq![]
    }) + host_errors(cfg.hosts, cfg.hosts.len()) + agent_errors(cfg.agents, cfg.agents.len())
}

fn field_error(list: &str, i: usize, field: &str) -> (r: String)
    ensures
        r@ == empty_field_error(list@, i as nat, field@),
{
    let mut v = chars_of(list);
    v.push('[');
    push_u64(&mut v, i as u64);
    v.push(']');
    v.push('.');
    push_str(&mut v, field);
    push_str(&mut v, ": must not be empty");
    assert(v@ =~= empty_field_error(list@, i as nat, field@));
    string_of(&v)
}

fn is_blank(s: &String) -> (r: bool)
    ensures
        r == blank(s@),
{
    let t = trim_str(s.as_str());
    t.len() == 0
}

/// Checks `cfg`; on failure lists every problem (see `config_errors`).
pub fn validate(cfg: &Config) -> (r: Result<(), Vec<String>>)
    ensures
        match r {
            Ok(()) => config_errors(cfg@).len() == 0,
            Err(errs) => errs.deep_view() == config_errors(cfg@) && errs@.len() > 0,
        },
{
    let mut errs: Vec<String> = Vec::new();
    if cfg.hosts.len() == 0 {
        push_string(&mut errs, "hosts: must not be empty".to_owned());
    }
    if cfg.agents.len() == 0 {
        push_string(&mut errs, "agents: must not be empty".to_owned());
    }
    let ghost head = errs.deep_view();
    let ghost hosts = cfg@.hosts;
    let mut i: usize = 0;
    while i < cfg.hosts.len()
        invariant
            i <= cfg.hosts@.len(),
            hosts == cfg@.hosts,
            errs.deep_view() == head + host_errors(hosts, i as nat),
        decreases cfg.hosts@.len() - i,
    {
        let h = &cfg.hosts[i];
        assert(hosts[i as int] == h@);
        if is_blank(&h.name) {
            push_string(&mut errs, field_error("hosts", i, "name"));
        }
        if is_blank(&h.host) {
            push_string(&mut errs, field_error("hosts", i, "host"));
        }
        i = i + 1;
        assert(errs.deep_view() =~= head + host_errors(hosts, i as nat));
    }
    let ghost mid = errs.deep_view();
    let ghost agents = cfg@.agents;
    let mut j: usize = 0;
    while j < cfg.agents.len()
        invariant
            j <= cfg.agents@.len(),
            agents == cfg@.agents,
            errs.deep_view() == mid + agent_errors(agents, j as nat),
        decreases cfg.agents@.len() - j,
    {
        let a = &cfg.agents[j];
        assert(agents[j as int] == a@);
        if is_blank(&a.id) {
            push_string(&mut errs, field_error("agents", j, "id"));
        }
        if is_blank(&a.cmd) {
            push_string(&mut errs, field_error("agents", j, "cmd"));
        }
        j = j + 1;
        assert(errs.deep_view() =~= mid + agent_errors(agents, j as nat));
    }
    assert(errs.deep_view() =~= config_errors(cfg@));
    if errs.len() == 0 {
        Ok(())
    } else {
        Err(errs)
    }
}

// ---------------------------------------------------------------------------
// Finding a host
// ---------------------------------------------------------------------------

/// Index of the first host named `name`, or `hosts.len()`.
pub open spec fn host_index(hosts: Seq<HostModel>, name: Seq<char>) -> int
    decreases hosts.len(),
{
    if hosts.len() == 0 {
        0
    } else if host_index(hosts.drop_last(), name) < hosts.len() - 1 {
        host_index(hosts.drop_last(), name)
    } else if hosts.last().name == name {
        hosts.len() - 1
    } else {
        hosts.len() as int
    }
}

proof fn lemma_host_index(hosts: Seq<HostModel>, name: Seq<char>, j: int)
    requires
        0 <= j <= hosts.len(),
        j < hosts.len() ==> hosts[j].name == name,
        forall|k: int| 0 <= k < j ==> hosts[k].name != name,
    ensures
        host_index(hosts, name) == j,
    decreases hosts.len(),
{
    if hosts.len() > 0 {
        let d = hosts.drop_last();
        if j < hosts.len() - 1 {
            lemma_host_index(d, name, j);
        } else {
            assert forall|k: int| 0 <= k < d.len() implies d[k].name != name by {
                assert(d[k] == hosts[k]);
            }
            lemma_host_index(d, name, d.len() as int);
        }
    }
}

/// The connection target of host `h`.
pub open spec fn target_of_host(h: HostModel) -> SshTargetView {
    SshTargetView { host: h.host, user: h.user, extra_ssh_args: h.extra_ssh_args }
}

/// The target of the first host named `name`, if any.
pub open spec fn lookup_target(cfg: ConfigModel, name: Seq<char>) -> Option<SshTargetView> {
    let i = host_index(cfg.hosts, name);
    if i < cfg.hosts.len() {
        Some(target_of_host(cfg.hosts[i]))
    } else {
        None
    }
}

/// Equality of two target texts.
pub open spec fn same_target(a: SshTargetView, b: SshTargetView) -> bool {
    a.host == b.host && a.user == b.user && a.extra_ssh_args == b.extra_ssh_args
}

fn copy_opt(o: &Option<String>) -> (r: Option<String>)
    ensures
        opt_view(r) == opt_view(*o),
{
    match o {
        Some(s) => Some(s.clone()),
        None => None,
    }
}

fn copy_strings(v: &Vec<String>) -> (r: Vec<String>)
    ensures
        r.deep_view() == v.deep_view(),
{
    let mut r: Vec<String> = Vec::new();
    push_args(&mut r, v);
    assert(r.deep_view() =~= v.deep_view());
    r
}

impl Config {
    /// The target of the first host named `host_name`, or `None`.
    pub fn to_ssh_target(&self, host_name: &str) -> (r: Option<SshTarget>)
        ensures
            match r {
                Some(t) => lookup_target(self@, host_name@) matches Some(v) && same_target(t@, v),
                None => lookup_target(self@, host_name@) is None,
            },
    {
        let ghost hosts = self@.hosts;
        let want = chars_of(host_name);
        let mut i: usize = 0;
        while i < self.hosts.len()
            invariant
                i <= self.hosts@.len(),
                hosts == self@.hosts,
                want@ == host_name@,
                forall|k: int| 0 <= k < i ==> hosts[k].name != host_name@,
            decreases self.hosts@.len() - i,
        {
            let h = &self.hosts[i];
            assert(hosts[i as int] == h@);
            let name = chars_of(h.name.as_str());
            if crate::text::chars_eq(&name, &want) {
                proof {
                    lemma_host_index(hosts, host_name@, i as int);
                }
                return Some(
                    SshTarget {
                        host: h.host.clone(),
                        user: copy_opt(&h.user),
                        extra_ssh_args: copy_strings(&h.extra_ssh_args),
                    },
                );
            }
            i = i + 1;
        }
        proof {
            lemma_host_index(hosts, host_name@, i as int);
        }
        None
    }
}

/// Where `host_or_alias` leads: the target of the configured host of that
/// name when there is one, else the string itself as an ssh alias, which
/// the system ssh resolves through `~/.ssh/config`.
pub open spec fn resolved_target(cfg: Option<ConfigModel>, host_or_alias: Seq<char>) -> SshTargetView {
    match cfg {
        Some(c) => match lookup_target(c, host_or_alias) {
            Some(t) => t,
            None => SshTargetView { host: host_or_alias, user: None, extra_ssh_args: seq![] },
        },
        None => SshTargetView { host: host_or_alias, user: None, extra_ssh_args: seq![] },
    }
}

/// The target for a configured host name or an ssh alias (see `resolved_target`).
pub fn resolve_target(config: Option<&Config>, host_or_alias: &str) -> (r: SshTarget)
    ensures
        same_target(
            r@,
            resolved_target(
                match config {
                    Some(c) => Some(c@),
                    None => None,
                },
                host_or_alias@,
            ),
        ),
{
    let found = match config {
        Some(c) => c.to_ssh_target(host_or_alias),
        None => None,
    };
    match found {
        Some(t) => t,
        None => {
            let empty: Vec<String> = Vec::new();
            assert(empty.deep_view() =~= Seq::<Seq<char>>::empty());
            SshTarget { host: host_or_alias.to_owned(), user: None, extra_ssh_args: empty }
        },
    }
}

/// A configured host name resolves to the first host of that name, with
/// everything that host says about the connection: its host, its user and
/// its own extra ssh arguments (such as a port), unchanged. A name that no
/// host has resolves to nothing.
pub proof fn target_is_the_first_host_of_that_name(cfg: ConfigModel, name: Seq<char>, i: int)
    requires
        0 <= i <= cfg.hosts.len(),
        i < cfg.hosts.len() ==> cfg.hosts[i].name == name,
        forall|k: int| 0 <= k < i ==> cfg.hosts[k].name != name,
    ensures
        i < cfg.hosts.len() ==> lookup_target(cfg, name) == Some(
            SshTargetView {
                host: cfg.hosts[i].host,
                user: cfg.hosts[i].user,
                extra_ssh_args: cfg.hosts[i].extra_ssh_args,
            },
        ),
        i == cfg.hosts.len() ==> lookup_target(cfg, name) is None,
{
    lemma_host_index(cfg.hosts, name, i);
}

} // verus!

//! The agents that the client knows how to find on a server.
//!
//! Probing only runs `command -v` over ssh; nothing is installed remotely.
use vstd::prelude::*;

use crate::text::{chars_eq, chars_of, lines, lines_of, push_str, string_of, trim, trim_chars};

verus! {

/// An agent CLI the client knows.
#[derive(Debug, Clone, Copy, PartialEq, Eq)]
pub struct KnownAgent {
    pub id: &'static str,
    pub label: &'static str,
    /// The executable looked up on the remote `PATH`.
    pub bin: &'static str,
    /// The launch command written to `agents[].cmd` of the configuration.
    pub cmd: &'static str,
}

/// The text of a `KnownAgent`.
pub struct KnownAgentView {
    pub id: Seq<char>,
    pub label: Seq<char>,
    pub bin: Seq<char>,
    pub cmd: Seq<char>,
}

impl View for KnownAgent {
    type V = KnownAgentView;

    open spec fn view(&self) -> KnownAgentView {
        KnownAgentView { id: self.id@, label: self.label@, bin: self.bin@, cmd: self.cmd@ }
    }
}

/// The contents of a list of agents.
pub open spec fn agent_views(v: Seq<KnownAgent>) -> Seq<KnownAgentView> {
    v.map_values(|a: KnownAgent| a@)
}

/// The registry: Hermes Agent (`hermes`, launched as `hermes chat`) and
/// DeepSeek Harness (`dsh`).
pub open spec fn registry_spec() -> Seq<KnownAgentView> {
    seq![
        KnownAgentView {
            id: "hermes"@,
            label: "Hermes Agent"@,
            bin: "hermes"@,
            cmd: "hermes chat"@,
        },
        KnownAgentView { id: "dsh"@, label: "DeepSeek Harness"@, bin: "dsh"@, cmd: "dsh"@ },
    ]
}

/// The known agents, in registry order.
pub fn known_agent_registry() -> (r: Vec<KnownAgent>)
    ensures
        agent_views(r@) == registry_spec(),
{
    let r = vec![
        KnownAgent { id: "hermes", label: "Hermes Agent", bin: "hermes", cmd: "hermes chat" },
        KnownAgent { id: "dsh", label: "DeepSeek Harness", bin: "dsh", cmd: "dsh" },
    ];
    assert(agent_views(r@) =~= registry_spec());
    r
}

/// The registry's executables, separated by single spaces.
pub open spec fn bins_joined(agents: Seq<KnownAgentView>) -> Seq<char>
    decreases agents.len(),
{
    if agents.len() == 0 {
        seq![]
    } else if agents.len() == 1 {
        agents[0].bin
    } else {
        bins_joined(agents.drop_last()) + seq![' '] + agents.last().bin
    }
}

/// One ssh command that prints, one per line, each registry executable found
/// on the remote `PATH`. The closing `; true` makes it exit 0 even when the
/// last executable is missing.
pub open spec fn probe_agents_cmd_of() -> Seq<char> {
    "for b in "@ + bins_joined(registry_spec())
        + "; do command -v \"$b\" >/dev/null 2>&1 && echo \"$b\"; done; true"@
}

/// The remote command that lists the installed registry executables.
pub fn build_probe_agents_cmd() -> (r: String)
    ensures
        r@ == probe_agents_cmd_of(),
{
    let agents = known_agent_registry();
    let mut v = chars_of("for b in ");
    let mut i: usize = 0;
    let ghost reg = agent_views(agents@);
    while i < agents.len()
        invariant
            i <= agents@.len(),
            reg == agent_views(agents@),
            reg == registry_spec(),
            v@ == "for b in "@ + bins_joined(reg.subrange(0, i as int)),
        decreases agents@.len() - i,
    {
        let ghost before = v@;
        if i > 0 {
            v.push(' ');
        }
        push_str(&mut v, agents[i].bin);
        i = i + 1;
        let ghost sub = reg.subrange(0, i as int);
        assert(sub.drop_last() =~= reg.subrange(0, i - 1));
        assert(v@ =~= "for b in "@ + bins_joined(sub));
    }
    assert(reg.subrange(0, agents@.len() as int) =~= reg);
    push_str(&mut v, "; do command -v \"$b\" >/dev/null 2>&1 && echo \"$b\"; done; true");
    string_of(&v)
}

/// The trimmed lines of `out`.
pub open spec fn trimmed_lines(out: Seq<char>) -> Seq<Seq<char>> {
    lines(out).map_values(|l: Seq<char>| trim(l))
}

/// The registry agents (in registry order) whose executable is a trimmed
/// line of `out`; every other line is ignored.
pub open spec fn agents_found(agents: Seq<KnownAgentView>, out: Seq<char>) -> Seq<KnownAgentView>
    decreases agents.len(),
{
    if agents.len() == 0 {
        seq![]
    } else {
        agents_found(agents.drop_last(), out) + if trimmed_lines(out).contains(
            agents.last().bin,
        ) {
            seq![agents.last()]
        } else {
            seq![]
        }
    }
}

/// Reads the output of `build_probe_agents_cmd`: the registry agents whose
/// executable appears as a line, in registry order and each once.
pub fn parse_probe_agents_output(out: &str) -> (r: Vec<KnownAgent>)
    ensures
        agent_views(r@) == agents_found(registry_spec(), out@),
{
    let text = chars_of(out);
    let raw = lines_of(&text);
    let ghost tl = trimmed_lines(out@);
    let mut trimmed: Vec<Vec<char>> = Vec::new();
    let mut k: usize = 0;
    while k < raw.len()
        invariant
            k <= raw@.len(),
            crate::text::views(raw@) == lines(out@),
            tl == trimmed_lines(out@),
            trimmed@.len() == k,
            forall|m: int| 0 <= m < k ==> (#[trigger] trimmed@[m])@ == tl[m],
        decreases raw@.len() - k,
    {
        assert(crate::text::views(raw@)[k as int] == raw@[k as int]@);
        let t = trim_chars(&raw[k]);
        let ghost before = trimmed@;
        trimmed.push(t);
        assert(trimmed@[k as int]@ == tl[k as int]);
        assert forall|m: int| 0 <= m < k + 1 implies (#[trigger] trimmed@[m])@ == tl[m] by {
            if m < k {
                assert(trimmed@[m] == before[m]);
            }
        }
        k = k + 1;
    }
    let agents = known_agent_registry();
    let ghost reg = agent_views(agents@);
    let mut found: Vec<KnownAgent> = Vec::new();
    let mut i: usize = 0;
    assert(agent_views(found@) =~= Seq::<KnownAgentView>::empty());
    while i < agents.len()
        invariant
            i <= agents@.len(),
            reg == agent_views(agents@),
            reg == registry_spec(),
            tl == trimmed_lines(out@),
            trimmed@.len() == tl.len(),
            forall|m: int| 0 <= m < tl.len() ==> (#[trigger] trimmed@[m])@ == tl[m],
            agent_views(found@) == agents_found(reg.subrange(0, i as int), out@),
        decreases agents@.len() - i,
    {
        let a = agents[i];
        let bin = chars_of(a.bin);
        let mut m: usize = 0;
        let mut hit = false;
        while m < trimmed.len() && !hit
            invariant
                m <= trimmed@.len() == tl.len(),
                forall|q: int| 0 <= q < tl.len() ==> (#[trigger] trimmed@[q])@ == tl[q],
                hit == (exists|q: int| 0 <= q < m && tl[q] == bin@),
            decreases trimmed@.len() - m,
        {
            if chars_eq(&trimmed[m], &bin) {
                hit = true;
            }
            m = m + 1;
        }
        assert(hit == tl.contains(bin@)) by {
            if tl.contains(bin@) {
                let q = choose|q: int| 0 <= q < tl.len() && tl[q] == bin@;
                if !hit {
                    assert(m == tl.len());
                }
            }
        }
        let ghost before = agent_views(found@);
        if hit {
            found.push(a);
        }
        i = i + 1;
        let ghost sub = reg.subrange(0, i as int);
        assert(sub.drop_last() =~= reg.subrange(0, i - 1));
        assert(sub.last() == a@);
        if hit {
            assert(agent_views(found@) =~= before.push(a@));
        }
        assert(agent_views(found@) =~= agents_found(sub, out@));
    }
    assert(reg.subrange(0, agents@.len() as int) =~= reg);
    found
}

} // verus!

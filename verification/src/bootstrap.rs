//! The instructions that a new agent is given.

use vstd::prelude::*;
use vstd::string::StringExecFns;

use crate::backend::{pane_views, PaneInfo, PaneView};
use crate::pieces::{join, separators_stand_between_pieces};
use crate::registry::{entry_views, AgentEntry, EntryView};
use crate::text::same;

verus! {

/// What tells an agent to start listening, up to its name.
pub const LISTENER_HEAD: &'static str = "
## IMPORTANT: Start your NATS listener
Run this IMMEDIATELY as your first action using a background bash command (run_in_background=true, timeout=600000):
```
rz listen ";

/// What tells an agent to start listening, behind the command.
pub const LISTENER_TAIL: &'static str = "
```
This lets you receive messages from other agents via NATS. Without it, you won't get any @@RZ: messages.";

/// The commands that an agent needs, up to the one that starts an agent.
pub const COMMANDS_HEAD: &'static str = "
## rz commands
rz send <name> \"msg\"   — message an agent
rz send lead \"DONE: <summary>\"  — report completion
rz run --name <n> ";

/// The commands that an agent needs, behind the one that starts an agent.
pub const COMMANDS_TAIL: &'static str = "  — spawn agent
rz ps                  — list agents
rz logs <name>         — read agent output

Messages from other agents arrive as @@RZ: JSON in your input.
";

/// The rules that an agent keeps to.
pub const RULES: &'static str = "
## Rules
1. Do the task. Report: rz send lead \"DONE: <what you did>\"
2. If stuck: rz send lead \"BLOCKED: <issue>\"
3. Stay running after reporting — wait for next task.
4. Only do what is asked. Do not explore unrelated code.
5. Do not read rz source code — use the commands above.";

/// A line that names a peer.
pub open spec fn peer_line(label: Seq<char>) -> Seq<char> {
    "  - "@ + label + "\n"@
}

/// How a pane is called: by its title, or else by its id.
pub open spec fn pane_label(p: PaneView) -> Seq<char> {
    if p.title.len() == 0 {
        p.id
    } else {
        p.title
    }
}

/// The lines that name the other terminals.
pub open spec fn pane_peers(panes: Seq<PaneView>, surface_id: Seq<char>) -> Seq<char>
    decreases panes.len(),
{
    if panes.len() == 0 {
        Seq::empty()
    } else {
        let before = pane_peers(panes.drop_last(), surface_id);
        let p = panes.last();
        if p.is_plugin || p.id == surface_id {
            before
        } else {
            before + peer_line(pane_label(p))
        }
    }
}

/// The lines that name the other agents of the directory.
pub open spec fn agent_peers(agents: Seq<EntryView>, name: Seq<char>) -> Seq<char>
    decreases agents.len(),
{
    if agents.len() == 0 {
        Seq::empty()
    } else {
        let before = agent_peers(agents.drop_last(), name);
        if agents.last().name == name {
            before
        } else {
            before + peer_line(agents.last().name)
        }
    }
}

/// What tells an agent in a pane to start listening.
pub open spec fn listener_text(identity: Seq<char>, surface_id: Option<Seq<char>>) -> Seq<char> {
    match surface_id {
        Some(sid) => LISTENER_HEAD@ + identity + " --deliver cmux:"@ + sid + LISTENER_TAIL@,
        None => Seq::empty(),
    }
}

/// The instructions for an agent; `launcher` is the command line that agents
/// are started with.
pub open spec fn instructions(
    identity: Seq<char>,
    peers: Seq<char>,
    launcher: Seq<char>,
    surface_id: Option<Seq<char>>,
) -> Seq<char> {
    "You are agent \""@ + identity + "\".\n\nPeers:\n"@ + (if peers.len() == 0 {
        "  (none)\n"@
    } else {
        peers
    }) + COMMANDS_HEAD@ + launcher + COMMANDS_TAIL@ + listener_text(identity, surface_id) + RULES@
}

fn line_of(label: &str) -> (r: String)
    ensures
        r@ == peer_line(label@),
{
    "  - ".to_owned().concat(label).concat("\n")
}

fn build_common(identity: &str, peers: &str, launcher: &str, surface_id: Option<&str>) -> (r:
    String)
    ensures
        r@ == instructions(
            identity@,
            peers@,
            launcher@,
            match surface_id {
                Some(s) => Some(s@),
                None => None,
            },
        ),
{
    let peer_list = if peers.is_empty() {
        "  (none)\n"
    } else {
        peers
    };
    let listener = match surface_id {
        Some(sid) => LISTENER_HEAD.to_owned().concat(identity).concat(" --deliver cmux:").concat(
            sid,
        ).concat(LISTENER_TAIL),
        None => String::new(),
    };
    assert(surface_id is None ==> listener@ =~= Seq::<char>::empty());
    "You are agent \"".to_owned().concat(identity).concat("\".\n\nPeers:\n").concat(
        peer_list,
    ).concat(COMMANDS_HEAD).concat(launcher).concat(COMMANDS_TAIL).concat(
        listener.as_str(),
    ).concat(RULES)
}

/// The instructions for an agent in a pane of a multiplexer. `launcher` is the
/// command line that agents are started with.
#[verifier::loop_isolation(false)]
pub fn build(surface_id: &str, name: Option<&str>, panes: &Vec<PaneInfo>, launcher: &str) -> (r:
    String)
    ensures
        r@ == instructions(
            match name {
                Some(n) => n@,
                None => surface_id@,
            },
            pane_peers(pane_views(panes@), surface_id@),
            launcher@,
            Some(surface_id@),
        ),
{
    let identity = match name {
        Some(n) => n,
        None => surface_id,
    };
    let ghost all = pane_views(panes@);
    let mut peers = String::new();
    let mut i: usize = 0;
    assert(peers@ =~= pane_peers(all.take(0), surface_id@));
    while i < panes.len()
        invariant
            i <= panes@.len(),
            peers@ == pane_peers(all.take(i as int), surface_id@),
        decreases panes@.len() - i,
    {
        assert(all.take(i + 1).drop_last() =~= all.take(i as int));
        assert(all.take(i + 1).last() == panes@[i as int]@);
        let p = &panes[i];
        if !p.is_plugin && !same(p.id.as_str(), surface_id) {
            let label = if p.title.as_str().is_empty() {
                p.id.as_str()
            } else {
                p.title.as_str()
            };
            peers.append(line_of(label).as_str());
        }
        i = i + 1;
    }
    assert(all.take(i as int) =~= all);
    build_common(identity, peers.as_str(), launcher, Some(surface_id))
}

/// The instructions for an agent without a multiplexer, from the agents of the
/// directory. `launcher` is the command line that agents are started with.
#[verifier::loop_isolation(false)]
pub fn build_pty(name: &str, agents: &Vec<AgentEntry>, launcher: &str) -> (r: String)
    ensures
        r@ == instructions(name@, agent_peers(entry_views(agents@), name@), launcher@, None),
{
    let ghost all = entry_views(agents@);
    let mut peers = String::new();
    let mut i: usize = 0;
    assert(peers@ =~= agent_peers(all.take(0), name@));
    while i < agents.len()
        invariant
            i <= agents@.len(),
            peers@ == agent_peers(all.take(i as int), name@),
        decreases agents@.len() - i,
    {
        assert(all.take(i + 1).drop_last() =~= all.take(i as int));
        assert(all.take(i + 1).last() == agents@[i as int]@);
        if !same(agents[i].name.as_str(), name) {
            peers.append(line_of(agents[i].name.as_str()).as_str());
        }
        i = i + 1;
    }
    assert(all.take(i as int) =~= all);
    build_common(name, peers.as_str(), launcher, None)
}

// ---------------------------------------------------------------------------
// Laws
// ---------------------------------------------------------------------------

/// The instructions tell the agent its name and its peers, or that it has none,
/// the command line that agents are started with, and the rules; they tell it
/// to start listening if and only if it has a surface, under its name and for
/// that surface.
pub proof fn instructions_hold_what_the_agent_needs(
    identity: Seq<char>,
    peers: Seq<char>,
    launcher: Seq<char>,
    surface: Seq<char>,
)
    ensures
        ({
            let list = if peers.len() == 0 {
                "  (none)\n"@
            } else {
                peers
            };
            let start = "You are agent \""@ + identity + "\".\n\nPeers:\n"@ + list + COMMANDS_HEAD@
                + launcher + COMMANDS_TAIL@;
            &&& instructions(identity, peers, launcher, None) == start + RULES@
            &&& instructions(identity, peers, launcher, Some(surface)) == start + (LISTENER_HEAD@
                + identity + " --deliver cmux:"@ + surface + LISTENER_TAIL@) + RULES@
        }),
{
    let list = if peers.len() == 0 {
        "  (none)\n"@
    } else {
        peers
    };
    let start = "You are agent \""@ + identity + "\".\n\nPeers:\n"@ + list + COMMANDS_HEAD@
        + launcher + COMMANDS_TAIL@;
    assert(start + Seq::<char>::empty() =~= start);
}

/// Each terminal but the own is named on a line of its own, by its title, or by
/// its id where it has none, in the order of the panes; no plugin is, nor the
/// own terminal.
pub proof fn other_terminals_are_named(panes: Seq<PaneView>, surface_id: Seq<char>)
    ensures
        pane_peers(panes, surface_id) == join(
            panes.filter(|p: PaneView| !p.is_plugin && p.id != surface_id).map_values(
                |p: PaneView|
                    "  - "@ + (if p.title.len() > 0 {
                        p.title
                    } else {
                        p.id
                    }) + "\n"@,
            ),
            Seq::empty(),
        ),
    decreases panes.len(),
{
    reveal(Seq::filter);
    let keep = |p: PaneView| !p.is_plugin && p.id != surface_id;
    let line = |p: PaneView|
        "  - "@ + (if p.title.len() > 0 {
            p.title
        } else {
            p.id
        }) + "\n"@;
    let none = Seq::<char>::empty();
    if panes.len() > 0 {
        let rest = panes.drop_last();
        other_terminals_are_named(rest, surface_id);
        let kept = rest.filter(keep);
        let last = panes.last();
        if keep(last) {
            assert(kept.push(last).map_values(line) =~= kept.map_values(line).push(line(last)));
            lemma_lines_join(kept.map_values(line), line(last));
        }
    } else {
        assert(panes.filter(keep).map_values(line) =~= Seq::<Seq<char>>::empty());
        assert(join(Seq::<Seq<char>>::empty(), none) =~= none);
    }
}

proof fn lemma_lines_join(lines: Seq<Seq<char>>, last: Seq<char>)
    ensures
        join(lines.push(last), Seq::empty()) == join(lines, Seq::empty()) + last,
{
    let none = Seq::<char>::empty();
    separators_stand_between_pieces(lines, last, none);
    if lines.len() == 0 {
        assert(lines.push(last) =~= seq![last]);
        assert(join(lines, none) =~= none);
        assert(none + last =~= last);
    } else {
        assert(join(lines, none) + none + last =~= join(lines, none) + last);
    }
}

/// Each agent of the directory but the own is named on a line of its own, in
/// the order of the directory.
pub proof fn other_agents_are_named(agents: Seq<EntryView>, name: Seq<char>)
    ensures
        agent_peers(agents, name) == join(
            agents.filter(|e: EntryView| e.name != name).map_values(
                |e: EntryView| "  - "@ + e.name + "\n"@,
            ),
            Seq::empty(),
        ),
    decreases agents.len(),
{
    reveal(Seq::filter);
    let keep = |e: EntryView| e.name != name;
    let line = |e: EntryView| "  - "@ + e.name + "\n"@;
    let none = Seq::<char>::empty();
    if agents.len() > 0 {
        let rest = agents.drop_last();
        other_agents_are_named(rest, name);
        let kept = rest.filter(keep);
        let last = agents.last();
        if keep(last) {
            assert(kept.push(last).map_values(line) =~= kept.map_values(line).push(line(last)));
            lemma_lines_join(kept.map_values(line), line(last));
        }
    } else {
        assert(agents.filter(keep).map_values(line) =~= Seq::<Seq<char>>::empty());
        assert(join(Seq::<Seq<char>>::empty(), none) =~= none);
    }
}

} // verus!

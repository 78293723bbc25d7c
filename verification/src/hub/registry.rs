//! The registry of agent panes.
//!
//! It merges two sources: agents that register themselves, and panes that
//! appear in the manifest of the multiplexer.

use std::collections::{BTreeMap, BTreeSet};

use vstd::prelude::*;
use vstd::std_specs::btree::increasing_seq;
use vstd::std_specs::cmp::OrdSpec;
use vstd::std_specs::iter::IteratorSpec;
use vstd::string::StringExecFns;

use crate::number::{decimal, decimal_of};
use crate::text::{opt_view, same, views};

verus! {

/// Ticks without a message after which an active agent is idle.
pub const IDLE_THRESHOLD: u64 = 60;

/// Ticks after which a dead agent is forgotten.
pub const PRUNE_AFTER_TICKS: u64 = 120;

// ---------------------------------------------------------------------------
// Types
// ---------------------------------------------------------------------------

/// Where an agent pane is in its life.
#[derive(Debug, Clone, Copy, PartialEq, Eq, Structural)]
pub enum AgentStatus {
    Active,
    Idle,
    Dead { exit_status: Option<i32>, died_at: u64 },
    Pending,
}

/// An agent that the registry tracks.
#[derive(Debug, Clone)]
pub struct AgentEntry {
    pub pane_id: u32,
    pub name: Option<String>,
    pub capabilities: Vec<String>,
    pub status: AgentStatus,
    pub registered: bool,
    pub created_at: u64,
    pub last_seen: u64,
    pub last_message: u64,
    pub command: Option<String>,
    pub title: String,
    pub tab: usize,
    pub is_floating: bool,
}

/// The contents of an [`AgentEntry`].
pub ghost struct EntryView {
    pub pane_id: u32,
    pub name: Option<Seq<char>>,
    pub capabilities: Seq<Seq<char>>,
    pub status: AgentStatus,
    pub registered: bool,
    pub created_at: u64,
    pub last_seen: u64,
    pub last_message: u64,
    pub command: Option<Seq<char>>,
    pub title: Seq<char>,
    pub tab: usize,
    pub is_floating: bool,
}

impl View for AgentEntry {
    type V = EntryView;

    open spec fn view(&self) -> EntryView {
        EntryView {
            pane_id: self.pane_id,
            name: opt_view(self.name),
            capabilities: views(self.capabilities@),
            status: self.status,
            registered: self.registered,
            created_at: self.created_at,
            last_seen: self.last_seen,
            last_message: self.last_message,
            command: opt_view(self.command),
            title: self.title@,
            tab: self.tab,
            is_floating: self.is_floating,
        }
    }
}

/// The contents of the entries of a map.
pub open spec fn entries(m: Map<u32, AgentEntry>) -> Map<u32, EntryView> {
    m.map_values(|e: AgentEntry| e@)
}

spec fn keys_of(s: Seq<(&u32, &AgentEntry)>) -> Seq<u32> {
    s.map_values(|kv: (&u32, &AgentEntry)| *kv.0)
}

/// The keys of a map, in ascending order.
fn ids_of(m: &BTreeMap<u32, AgentEntry>) -> (r: Vec<u32>)
    ensures
        forall|i: int, j: int| 0 <= i < j < r@.len() ==> r@[i] < r@[j],
        forall|i: int| 0 <= i < r@.len() ==> m@.contains_key(#[trigger] r@[i]),
        forall|k: u32| #[trigger] m@.contains_key(k) ==> r@.contains(k),
{
    broadcast use vstd::std_specs::btree::group_btree_axioms;

    let mut out: Vec<u32> = Vec::new();
    for pair in it: m.iter()
        invariant
            out@.len() == it.index(),
            forall|i: int| 0 <= i < out@.len() ==> out@[i] == *it.seq()[i].0,
            it.seq() == m.iter().remaining(),
            increasing_seq(keys_of(it.seq())),
    {
        out.push(*pair.0);
    }
    let ghost keys = keys_of(m.iter().remaining());
    proof {
        assert(out@ =~= keys);
        assert(increasing_seq(keys));
        assert forall|i: int, j: int| 0 <= i < j < keys.len() implies keys[i] < keys[j] by {
            vstd::std_specs::btree::axiom_increasing_seq_meaning(keys);
            assert(keys[i].cmp_spec(&keys[j]) is Less);
        }
        assert forall|k: u32| #[trigger] m@.contains_key(k) implies out@.contains(k) by {
            let v = m.iter().remaining();
            assert(v.contains((&k, &m@[k])));
            let i = choose|i: int| 0 <= i < v.len() && v[i] == (&k, &m@[k]);
            assert(keys[i] == k);
        }
    }
    out
}

/// Why the registry refuses a request.
#[derive(Debug)]
pub enum RegistryError {
    NameConflict { name: String, existing_pane: u32 },
    NotFound { pane_id: u32 },
}

/// The contents of a [`RegistryError`].
pub ghost enum ErrorView {
    NameConflict(Seq<char>, u32),
    NotFound(u32),
}

impl View for RegistryError {
    type V = ErrorView;

    open spec fn view(&self) -> ErrorView {
        match self {
            RegistryError::NameConflict { name, existing_pane } => ErrorView::NameConflict(
                name@,
                *existing_pane,
            ),
            RegistryError::NotFound { pane_id } => ErrorView::NotFound(*pane_id),
        }
    }
}

/// What a refusal says.
pub open spec fn error_text(e: ErrorView) -> Seq<char> {
    match e {
        ErrorView::NameConflict(name, pane) => "name '"@ + name + "' already taken by terminal_"@
            + decimal(pane as nat),
        ErrorView::NotFound(pane) => "no agent with pane_id terminal_"@ + decimal(pane as nat),
    }
}

impl RegistryError {
    /// What the refusal says.
    pub fn to_string(&self) -> (r: String)
        ensures
            r@ == error_text(self@),
    {
        match self {
            RegistryError::NameConflict { name, existing_pane } => "name '".to_owned().concat(
                name.as_str(),
            ).concat("' already taken by terminal_").concat(
                decimal_of(*existing_pane as u64).as_str(),
            ),
            RegistryError::NotFound { pane_id } => "no agent with pane_id terminal_".to_owned()
                .concat(decimal_of(*pane_id as u64).as_str()),
        }
    }
}

/// A pane as the multiplexer shows it.
pub struct PaneInfo {
    pub id: u32,
    pub is_plugin: bool,
    pub is_selectable: bool,
    pub title: String,
    pub terminal_command: Option<String>,
    pub is_floating: bool,
    pub exited: bool,
    pub exit_status: Option<i32>,
}

/// The contents of a [`PaneInfo`].
pub ghost struct PaneView {
    pub id: u32,
    pub is_plugin: bool,
    pub is_selectable: bool,
    pub title: Seq<char>,
    pub terminal_command: Option<Seq<char>>,
    pub is_floating: bool,
    pub exited: bool,
    pub exit_status: Option<i32>,
}

impl View for PaneInfo {
    type V = PaneView;

    open spec fn view(&self) -> PaneView {
        PaneView {
            id: self.id,
            is_plugin: self.is_plugin,
            is_selectable: self.is_selectable,
            title: self.title@,
            terminal_command: opt_view(self.terminal_command),
            is_floating: self.is_floating,
            exited: self.exited,
            exit_status: self.exit_status,
        }
    }
}

/// The panes of a session by the tabs that hold them, in the order in which
/// they are gone through.
pub struct PaneManifest {
    pub panes: Vec<(usize, Vec<PaneInfo>)>,
}

/// The panes of one tab.
pub open spec fn tab_panes(tab: usize, panes: Seq<PaneInfo>) -> Seq<(usize, PaneView)> {
    panes.map_values(|p: PaneInfo| (tab, p@))
}

/// The panes of all tabs, one after the other.
pub open spec fn all_panes(tabs: Seq<(usize, Vec<PaneInfo>)>) -> Seq<(usize, PaneView)>
    decreases tabs.len(),
{
    if tabs.len() == 0 {
        Seq::empty()
    } else {
        all_panes(tabs.drop_last()) + tab_panes(tabs.last().0, tabs.last().1@)
    }
}

impl View for PaneManifest {
    type V = Seq<(usize, PaneView)>;

    open spec fn view(&self) -> Seq<(usize, PaneView)> {
        all_panes(self.panes@)
    }
}

// ---------------------------------------------------------------------------
// Model
// ---------------------------------------------------------------------------

/// The contents of an [`AgentRegistry`]: the agents by their panes, and how
/// many manifests it has seen.
pub ghost struct RegistryView {
    pub agents: Map<u32, EntryView>,
    pub tick: u64,
}

/// Whether the agent in pane `id` has the name `name`.
pub open spec fn named(agents: Map<u32, EntryView>, name: Seq<char>, id: u32) -> bool {
    agents.contains_key(id) && agents[id].name == Some(name)
}

/// The pane of the agent with the name `name`.
pub open spec fn holder(agents: Map<u32, EntryView>, name: Seq<char>) -> Option<u32> {
    if exists|id: u32| named(agents, name, id) {
        Some(choose|id: u32| named(agents, name, id))
    } else {
        None
    }
}

/// Whether no two agents have the same name.
pub open spec fn names_unique(agents: Map<u32, EntryView>) -> bool {
    forall|name: Seq<char>, a: u32, b: u32|
        #[trigger] named(agents, name, a) && #[trigger] named(agents, name, b) ==> a == b
}

/// Whether an entry stands for the pane `id`, has a name if and only if it is
/// registered, holds no time to come, and is idle only after a message and a
/// long silence.
pub open spec fn entry_ok(e: EntryView, id: u32, tick: u64) -> bool {
    &&& e.pane_id == id
    &&& e.registered <==> e.name is Some
    &&& !e.registered ==> e.capabilities.len() == 0
    &&& e.created_at <= tick
    &&& e.last_seen <= tick
    &&& e.last_message <= tick
    &&& e.status matches AgentStatus::Dead { died_at, .. } ==> died_at <= tick
    &&& e.status is Idle ==> e.last_message > 0 && tick - e.last_message > IDLE_THRESHOLD
}

/// What holds of a registry in every state.
pub open spec fn consistent(v: RegistryView) -> bool {
    &&& forall|id: u32| #[trigger]
        v.agents.contains_key(id) ==> entry_ok(v.agents[id], id, v.tick)
    &&& names_unique(v.agents)
}

/// An agent that has registered before its pane appeared.
pub open spec fn pending_entry(pane_id: u32, tick: u64) -> EntryView {
    EntryView {
        pane_id,
        name: None,
        capabilities: Seq::empty(),
        status: AgentStatus::Pending,
        registered: false,
        created_at: tick,
        last_seen: tick,
        last_message: 0,
        command: None,
        title: Seq::empty(),
        tab: 0,
        is_floating: false,
    }
}

/// The registry after a registration: the entry of the pane, or a pending one
/// where the pane is unknown, has the name and the capabilities.
pub open spec fn registered(
    v: RegistryView,
    pane_id: u32,
    name: Seq<char>,
    capabilities: Seq<Seq<char>>,
) -> RegistryView {
    let base = if v.agents.contains_key(pane_id) {
        v.agents[pane_id]
    } else {
        pending_entry(pane_id, v.tick)
    };
    RegistryView {
        agents: v.agents.insert(
            pane_id,
            EntryView { name: Some(name), capabilities, registered: true, ..base },
        ),
        ..v
    }
}

/// What a registration comes to: it is refused where another pane has the name.
pub open spec fn register_result(
    v: RegistryView,
    pane_id: u32,
    name: Seq<char>,
    capabilities: Seq<Seq<char>>,
) -> Result<RegistryView, ErrorView> {
    match holder(v.agents, name) {
        Some(id) => if id != pane_id {
            Err(ErrorView::NameConflict(name, id))
        } else {
            Ok(registered(v, pane_id, name, capabilities))
        },
        None => Ok(registered(v, pane_id, name, capabilities)),
    }
}

/// An entry without its registration.
pub open spec fn unnamed(e: EntryView) -> EntryView {
    EntryView { name: None, capabilities: Seq::empty(), registered: false, ..e }
}

/// What taking a registration back comes to: it is refused where the pane is
/// unknown, forgets a dead agent, and keeps any other without its name.
pub open spec fn unregister_result(v: RegistryView, pane_id: u32) -> Result<
    RegistryView,
    ErrorView,
> {
    if !v.agents.contains_key(pane_id) {
        Err(ErrorView::NotFound(pane_id))
    } else if v.agents[pane_id].status is Dead {
        Ok(RegistryView { agents: v.agents.remove(pane_id), ..v })
    } else {
        Ok(
            RegistryView {
                agents: v.agents.insert(pane_id, unnamed(v.agents[pane_id])),
                ..v
            },
        )
    }
}

/// An agent that sent or got a message.
pub open spec fn woken(e: EntryView, tick: u64) -> EntryView {
    EntryView {
        last_message: tick,
        status: if e.status == AgentStatus::Idle {
            AgentStatus::Active
        } else {
            e.status
        },
        ..e
    }
}

/// The registry after a message to or from the pane.
pub open spec fn touched(v: RegistryView, pane_id: u32) -> RegistryView {
    if v.agents.contains_key(pane_id) {
        RegistryView {
            agents: v.agents.insert(pane_id, woken(v.agents[pane_id], v.tick)),
            ..v
        }
    } else {
        v
    }
}

/// A known agent whose pane the manifest shows.
pub open spec fn refreshed(e: EntryView, tab: usize, pane: PaneView, tick: u64) -> EntryView {
    EntryView {
        title: pane.title,
        command: pane.terminal_command,
        tab,
        is_floating: pane.is_floating,
        last_seen: tick,
        status: if pane.exited {
            AgentStatus::Dead { exit_status: pane.exit_status, died_at: tick }
        } else if e.status is Pending || e.status is Dead {
            AgentStatus::Active
        } else {
            e.status
        },
        ..e
    }
}

/// An agent that is discovered by its pane.
pub open spec fn discovered(tab: usize, pane: PaneView, tick: u64) -> EntryView {
    EntryView {
        pane_id: pane.id,
        name: None,
        capabilities: Seq::empty(),
        status: AgentStatus::Active,
        registered: false,
        created_at: tick,
        last_seen: tick,
        last_message: 0,
        command: pane.terminal_command,
        title: pane.title,
        tab,
        is_floating: pane.is_floating,
    }
}

/// Whether a pane can hold an agent.
pub open spec fn eligible(pane: PaneView) -> bool {
    !pane.is_plugin && pane.is_selectable
}

/// The agents after one pane of the manifest.
pub open spec fn with_pane(
    agents: Map<u32, EntryView>,
    tab: usize,
    pane: PaneView,
    tick: u64,
) -> Map<u32, EntryView> {
    if !eligible(pane) {
        agents
    } else if agents.contains_key(pane.id) {
        agents.insert(pane.id, refreshed(agents[pane.id], tab, pane, tick))
    } else if !pane.exited {
        agents.insert(pane.id, discovered(tab, pane, tick))
    } else {
        agents
    }
}

/// The agents after all the panes of the manifest.
pub open spec fn with_panes(
    agents: Map<u32, EntryView>,
    panes: Seq<(usize, PaneView)>,
    tick: u64,
) -> Map<u32, EntryView>
    decreases panes.len(),
{
    if panes.len() == 0 {
        agents
    } else {
        with_pane(
            with_panes(agents, panes.drop_last(), tick),
            panes.last().0,
            panes.last().1,
            tick,
        )
    }
}

/// Whether the manifest shows the pane `id`.
pub open spec fn shows(panes: Seq<(usize, PaneView)>, id: u32) -> bool {
    exists|i: int| 0 <= i < panes.len() && eligible((#[trigger] panes[i]).1) && panes[i].1.id == id
}

/// An agent whose pane the manifest may not show.
pub open spec fn kept_or_dead(e: EntryView, shown: bool, tick: u64) -> EntryView {
    if !shown && !(e.status is Dead) {
        EntryView { status: AgentStatus::Dead { exit_status: None, died_at: tick }, ..e }
    } else {
        e
    }
}

/// The agents after those that the manifest does not show were marked dead.
pub open spec fn missing_marked(
    agents: Map<u32, EntryView>,
    panes: Seq<(usize, PaneView)>,
    tick: u64,
) -> Map<u32, EntryView> {
    Map::new(
        |id: u32| agents.contains_key(id),
        |id: u32| kept_or_dead(agents[id], shows(panes, id), tick),
    )
}

/// An agent that may have been without messages for too long.
pub open spec fn idled(e: EntryView, tick: u64) -> EntryView {
    if e.status == AgentStatus::Active && e.last_message > 0 && tick - e.last_message
        > IDLE_THRESHOLD {
        EntryView { status: AgentStatus::Idle, ..e }
    } else {
        e
    }
}

/// The agents after those without messages for too long were marked idle.
pub open spec fn idle_marked(agents: Map<u32, EntryView>, tick: u64) -> Map<u32, EntryView> {
    Map::new(|id: u32| agents.contains_key(id), |id: u32| idled(agents[id], tick))
}

/// Whether an agent has been dead for too long.
pub open spec fn expired(e: EntryView, tick: u64) -> bool {
    e.status matches AgentStatus::Dead { died_at, .. } && tick - died_at > PRUNE_AFTER_TICKS
}

/// The agents without those that have been dead for too long.
pub open spec fn pruned(agents: Map<u32, EntryView>, tick: u64) -> Map<u32, EntryView> {
    Map::new(
        |id: u32| agents.contains_key(id) && !expired(agents[id], tick),
        |id: u32| agents[id],
    )
}

/// The registry after a manifest.
pub open spec fn updated(v: RegistryView, panes: Seq<(usize, PaneView)>) -> RegistryView {
    let tick = (v.tick + 1) as u64;
    RegistryView {
        agents: pruned(
            idle_marked(missing_marked(with_panes(v.agents, panes, tick), panes, tick), tick),
            tick,
        ),
        tick,
    }
}

/// The agents in panes below `n`, in ascending order of their panes.
pub open spec fn agents_below(agents: Map<u32, EntryView>, n: nat) -> Seq<EntryView>
    decreases n,
{
    if n == 0 {
        Seq::empty()
    } else {
        let below = agents_below(agents, (n - 1) as nat);
        if n <= u32::MAX + 1 && agents.contains_key((n - 1) as u32) {
            below.push(agents[(n - 1) as u32])
        } else {
            below
        }
    }
}

/// All the agents, in ascending order of their panes.
pub open spec fn listed(agents: Map<u32, EntryView>) -> Seq<EntryView> {
    agents_below(agents, (u32::MAX + 1) as nat)
}

/// Whether an agent takes part in the session.
pub open spec fn is_active(e: EntryView) -> bool {
    e.status is Active || e.status is Idle
}

/// Those of a list of agents that take part in the session.
pub open spec fn active_among(s: Seq<EntryView>) -> Seq<EntryView>
    decreases s.len(),
{
    if s.len() == 0 {
        Seq::empty()
    } else {
        let before = active_among(s.drop_last());
        if is_active(s.last()) {
            before.push(s.last())
        } else {
            before
        }
    }
}

/// The contents of a list of entries.
pub open spec fn entry_views(v: Seq<&AgentEntry>) -> Seq<EntryView> {
    v.map_values(|e: &AgentEntry| e@)
}

// ---------------------------------------------------------------------------
// Entries of the map
// ---------------------------------------------------------------------------

proof fn lemma_entries_insert(m: Map<u32, AgentEntry>, id: u32, e: AgentEntry)
    ensures
        entries(m.insert(id, e)) == entries(m).insert(id, e@),
{
    assert(entries(m.insert(id, e)) =~= entries(m).insert(id, e@));
}

proof fn lemma_entries_remove(m: Map<u32, AgentEntry>, id: u32)
    ensures
        entries(m.remove(id)) == entries(m).remove(id),
{
    assert(entries(m.remove(id)) =~= entries(m).remove(id));
}

/// Puts an entry into the map, in place of one with the same pane.
fn put(agents: &mut BTreeMap<u32, AgentEntry>, id: u32, entry: AgentEntry)
    ensures
        entries(final(agents)@) == entries(old(agents)@).insert(id, entry@),
{
    broadcast use vstd::std_specs::btree::group_btree_axioms;

    proof {
        lemma_entries_insert(agents@, id, entry);
    }
    agents.insert(id, entry);
}

/// Takes the entry of a pane out of the map.
fn take(agents: &mut BTreeMap<u32, AgentEntry>, id: u32) -> (r: Option<AgentEntry>)
    ensures
        entries(final(agents)@) == entries(old(agents)@).remove(id),
        match r {
            Some(e) => entries(old(agents)@).contains_key(id) && e@ == entries(old(agents)@)[id],
            None => !entries(old(agents)@).contains_key(id),
        },
{
    broadcast use vstd::std_specs::btree::group_btree_axioms;

    proof {
        lemma_entries_remove(agents@, id);
    }
    let r = agents.remove(&id);
    r
}

/// Gives the agent in a pane another status.
fn set_status(agents: &mut BTreeMap<u32, AgentEntry>, id: u32, status: AgentStatus)
    requires
        entries(old(agents)@).contains_key(id),
    ensures
        entries(final(agents)@) == entries(old(agents)@).insert(
            id,
            EntryView { status, ..entries(old(agents)@)[id] },
        ),
{
    let ghost before = entries(agents@);
    match take(agents, id) {
        Some(e) => {
            put(agents, id, AgentEntry { status, ..e });
            assert(before.remove(id).insert(id, EntryView { status, ..before[id] })
                =~= before.insert(id, EntryView { status, ..before[id] }));
        },
        None => {},
    }
}

/// The status and the last message of the agent in a pane.
fn status_of(agents: &BTreeMap<u32, AgentEntry>, id: u32) -> (r: (AgentStatus, u64))
    requires
        entries(agents@).contains_key(id),
    ensures
        r.0 == entries(agents@)[id].status,
        r.1 == entries(agents@)[id].last_message,
{
    broadcast use vstd::std_specs::btree::group_btree_axioms;

    let e = agents.get(&id).unwrap();
    (e.status, e.last_message)
}

// ---------------------------------------------------------------------------
// Manifest
// ---------------------------------------------------------------------------

/// Marks agents without messages for too long as idle.
#[verifier::loop_isolation(false)]
fn check_idle(agents: &mut BTreeMap<u32, AgentEntry>, tick: u64)
    ensures
        entries(final(agents)@) == idle_marked(entries(old(agents)@), tick),
{
    let ids = ids_of(agents);
    let ghost before = entries(agents@);
    let mut i: usize = 0;
    while i < ids.len()
        invariant
            i <= ids@.len(),
            entries(agents@).dom() == before.dom(),
            forall|j: int|
                0 <= j < i ==> entries(agents@)[#[trigger] ids@[j]] == idled(before[ids@[j]], tick),
            forall|j: int|
                i <= j < ids@.len() ==> entries(agents@)[#[trigger] ids@[j]] == before[ids@[j]],
        decreases ids@.len() - i,
    {
        let id = ids[i];
        assert(before.contains_key(id));
        assert(entries(agents@).contains_key(id));
        let (status, last_message) = status_of(agents, id);
        if status == AgentStatus::Active && last_message > 0 && tick.saturating_sub(last_message)
            > IDLE_THRESHOLD {
            set_status(agents, id, AgentStatus::Idle);
            assert(entries(agents@).dom() =~= before.dom());
        }
        i = i + 1;
    }
    assert forall|k: u32| #[trigger] before.contains_key(k) implies entries(agents@)[k] == idled(
        before[k],
        tick,
    ) by {
        assert(ids@.contains(k));
    }
    assert(entries(agents@) =~= idle_marked(before, tick));
}

/// Removes agents that have been dead for too long.
#[verifier::loop_isolation(false)]
fn prune_dead(agents: &mut BTreeMap<u32, AgentEntry>, tick: u64)
    ensures
        entries(final(agents)@) == pruned(entries(old(agents)@), tick),
{
    let ids = ids_of(agents);
    let ghost before = entries(agents@);
    let mut i: usize = 0;
    while i < ids.len()
        invariant
            i <= ids@.len(),
            entries(agents@).dom().subset_of(before.dom()),
            forall|k: u32| #[trigger]
                entries(agents@).contains_key(k) ==> entries(agents@)[k] == before[k],
            forall|j: int|
                0 <= j < i ==> (entries(agents@).contains_key(#[trigger] ids@[j]) <==> !expired(
                    before[ids@[j]],
                    tick,
                )),
            forall|j: int|
                i <= j < ids@.len() ==> entries(agents@).contains_key(#[trigger] ids@[j]),
        decreases ids@.len() - i,
    {
        let id = ids[i];
        assert(entries(agents@).contains_key(id));
        let (status, _last_message) = status_of(agents, id);
        let gone = match status {
            AgentStatus::Dead { exit_status: _, died_at } => tick.saturating_sub(died_at)
                > PRUNE_AFTER_TICKS,
            _ => false,
        };
        if gone {
            let _ = take(agents, id);
        }
        i = i + 1;
    }
    assert forall|k: u32| #[trigger] before.contains_key(k) implies (entries(agents@).contains_key(k)
        <==> !expired(before[k], tick)) by {
        assert(ids@.contains(k));
    }
    assert(entries(agents@) =~= pruned(before, tick));
}

/// Marks agents whose panes are not among those seen as dead.
#[verifier::loop_isolation(false)]
fn mark_missing(
    agents: &mut BTreeMap<u32, AgentEntry>,
    seen: &BTreeSet<u32>,
    Ghost(panes): Ghost<Seq<(usize, PaneView)>>,
    tick: u64,
)
    requires
        forall|id: u32| #[trigger] seen@.contains(id) <==> shows(panes, id),
    ensures
        entries(final(agents)@) == missing_marked(entries(old(agents)@), panes, tick),
{
    broadcast use vstd::std_specs::btree::group_btree_axioms;

    let ids = ids_of(agents);
    let ghost before = entries(agents@);
    let mut i: usize = 0;
    while i < ids.len()
        invariant
            i <= ids@.len(),
            entries(agents@).dom() == before.dom(),
            forall|j: int|
                0 <= j < i ==> entries(agents@)[#[trigger] ids@[j]] == kept_or_dead(
                    before[ids@[j]],
                    shows(panes, ids@[j]),
                    tick,
                ),
            forall|j: int|
                i <= j < ids@.len() ==> entries(agents@)[#[trigger] ids@[j]] == before[ids@[j]],
        decreases ids@.len() - i,
    {
        let id = ids[i];
        assert(before.contains_key(id));
        assert(entries(agents@).contains_key(id));
        let (status, _last_message) = status_of(agents, id);
        let dead = match status {
            AgentStatus::Dead { .. } => true,
            _ => false,
        };
        let shown = seen.contains(&id);
        if !shown && !dead {
            set_status(agents, id, AgentStatus::Dead { exit_status: None, died_at: tick });
            assert(entries(agents@).dom() =~= before.dom());
        }
        i = i + 1;
    }
    assert forall|k: u32| #[trigger] before.contains_key(k) implies entries(agents@)[k]
        == kept_or_dead(before[k], shows(panes, k), tick) by {
        assert(ids@.contains(k));
    }
    assert(entries(agents@) =~= missing_marked(before, panes, tick));
}

/// Takes one pane of the manifest into account.
fn see_pane(agents: &mut BTreeMap<u32, AgentEntry>, tab: usize, pane: &PaneInfo, tick: u64)
    requires
        eligible(pane@),
    ensures
        entries(final(agents)@) == with_pane(entries(old(agents)@), tab, pane@, tick),
{
    let ghost before = entries(agents@);
    match take(agents, pane.id) {
        Some(e) => {
            let status = if pane.exited {
                AgentStatus::Dead { exit_status: pane.exit_status, died_at: tick }
            } else {
                match e.status {
                    AgentStatus::Pending => AgentStatus::Active,
                    AgentStatus::Dead { .. } => AgentStatus::Active,
                    other => other,
                }
            };
            let entry = AgentEntry {
                title: pane.title.clone(),
                command: pane.terminal_command.clone(),
                tab,
                is_floating: pane.is_floating,
                last_seen: tick,
                status,
                ..e
            };
            assert(entry@ == refreshed(before[pane.id], tab, pane@, tick));
            put(agents, pane.id, entry);
            assert(entries(agents@) =~= with_pane(before, tab, pane@, tick));
        },
        None => {
            assert(before.remove(pane.id) =~= before);
            if !pane.exited {
                let entry = AgentEntry {
                    pane_id: pane.id,
                    name: None,
                    capabilities: Vec::new(),
                    status: AgentStatus::Active,
                    registered: false,
                    created_at: tick,
                    last_seen: tick,
                    last_message: 0,
                    command: pane.terminal_command.clone(),
                    title: pane.title.clone(),
                    tab,
                    is_floating: pane.is_floating,
                };
                assert(views(entry.capabilities@) =~= Seq::<Seq<char>>::empty());
                assert(entry@ == discovered(tab, pane@, tick));
                put(agents, pane.id, entry);
            }
        },
    }
}

proof fn lemma_with_panes_step(
    agents: Map<u32, EntryView>,
    panes: Seq<(usize, PaneView)>,
    i: int,
    tick: u64,
)
    requires
        0 <= i < panes.len(),
    ensures
        with_panes(agents, panes.take(i + 1), tick) == with_pane(
            with_panes(agents, panes.take(i), tick),
            panes[i].0,
            panes[i].1,
            tick,
        ),
{
    assert(panes.take(i + 1).drop_last() =~= panes.take(i));
}

proof fn lemma_with_panes_concat(
    agents: Map<u32, EntryView>,
    a: Seq<(usize, PaneView)>,
    b: Seq<(usize, PaneView)>,
    tick: u64,
)
    ensures
        with_panes(agents, a + b, tick) == with_panes(with_panes(agents, a, tick), b, tick),
    decreases b.len(),
{
    if b.len() == 0 {
        assert(a + b =~= a);
    } else {
        lemma_with_panes_concat(agents, a, b.drop_last(), tick);
        assert((a + b).drop_last() =~= a + b.drop_last());
    }
}

proof fn lemma_shows_step(panes: Seq<(usize, PaneView)>, i: int, id: u32)
    requires
        0 <= i < panes.len(),
    ensures
        shows(panes.take(i + 1), id) <==> shows(panes.take(i), id) || (eligible(panes[i].1)
            && panes[i].1.id == id),
{
    let a = panes.take(i);
    let b = panes.take(i + 1);
    if shows(a, id) {
        let k = choose|k: int| 0 <= k < a.len() && eligible((#[trigger] a[k]).1) && a[k].1.id == id;
        assert(b[k] == a[k]);
    }
    if shows(b, id) {
        let k = choose|k: int| 0 <= k < b.len() && eligible((#[trigger] b[k]).1) && b[k].1.id == id;
        if k < i {
            assert(a[k] == b[k]);
        }
    }
    if eligible(panes[i].1) && panes[i].1.id == id {
        assert(b[i] == panes[i]);
    }
}

proof fn lemma_shows_concat(a: Seq<(usize, PaneView)>, b: Seq<(usize, PaneView)>, id: u32)
    ensures
        shows(a + b, id) <==> shows(a, id) || shows(b, id),
{
    let c = a + b;
    if shows(a, id) {
        let k = choose|k: int| 0 <= k < a.len() && eligible((#[trigger] a[k]).1) && a[k].1.id == id;
        assert(c[k] == a[k]);
    }
    if shows(b, id) {
        let k = choose|k: int| 0 <= k < b.len() && eligible((#[trigger] b[k]).1) && b[k].1.id == id;
        assert(c[a.len() + k] == b[k]);
    }
    if shows(c, id) {
        let k = choose|k: int| 0 <= k < c.len() && eligible((#[trigger] c[k]).1) && c[k].1.id == id;
        if k < a.len() {
            assert(a[k] == c[k]);
        } else {
            assert(b[k - a.len()] == c[k]);
        }
    }
}

/// Takes the panes of one tab into account, and notes which were seen.
#[verifier::loop_isolation(false)]
fn see_tab(
    agents: &mut BTreeMap<u32, AgentEntry>,
    seen: &mut BTreeSet<u32>,
    tab: usize,
    panes: &Vec<PaneInfo>,
    tick: u64,
)
    ensures
        entries(final(agents)@) == with_panes(
            entries(old(agents)@),
            tab_panes(tab, panes@),
            tick,
        ),
        forall|id: u32| #[trigger]
            final(seen)@.contains(id) <==> old(seen)@.contains(id) || shows(
                tab_panes(tab, panes@),
                id,
            ),
{
    broadcast use vstd::std_specs::btree::group_btree_axioms;

    let ghost before = entries(agents@);
    let ghost seen_before = seen@;
    let ghost all = tab_panes(tab, panes@);
    let mut i: usize = 0;
    assert(with_panes(before, all.take(0), tick) == before);
    while i < panes.len()
        invariant
            i <= panes@.len(),
            entries(agents@) == with_panes(before, all.take(i as int), tick),
            forall|id: u32| #[trigger]
                seen@.contains(id) <==> seen_before.contains(id) || shows(all.take(i as int), id),
        decreases panes@.len() - i,
    {
        let pane = &panes[i];
        proof {
            lemma_with_panes_step(before, all, i as int, tick);
            assert forall|id: u32| shows(all.take(i + 1), id) <==> shows(all.take(i as int), id) || (
            eligible(pane@) && pane@.id == id) by {
                lemma_shows_step(all, i as int, id);
            }
        }
        if !pane.is_plugin && pane.is_selectable {
            seen.insert(pane.id);
            see_pane(agents, tab, pane, tick);
        }
        i = i + 1;
    }
    assert(all.take(i as int) =~= all);
}

/// Takes the panes of all tabs into account, and gives those that were seen.
#[verifier::loop_isolation(false)]
fn see_all(agents: &mut BTreeMap<u32, AgentEntry>, manifest: &PaneManifest, tick: u64) -> (seen:
    BTreeSet<u32>)
    ensures
        entries(final(agents)@) == with_panes(entries(old(agents)@), manifest@, tick),
        forall|id: u32| #[trigger] seen@.contains(id) <==> shows(manifest@, id),
{
    broadcast use vstd::std_specs::btree::group_btree_axioms;

    let ghost before = entries(agents@);
    let ghost tabs = manifest.panes@;
    let mut seen: BTreeSet<u32> = BTreeSet::new();
    let mut i: usize = 0;
    assert(all_panes(tabs.take(0)) =~= Seq::<(usize, PaneView)>::empty());
    while i < manifest.panes.len()
        invariant
            i <= tabs.len(),
            entries(agents@) == with_panes(before, all_panes(tabs.take(i as int)), tick),
            forall|id: u32| #[trigger]
                seen@.contains(id) <==> shows(all_panes(tabs.take(i as int)), id),
        decreases tabs.len() - i,
    {
        let tab = manifest.panes[i].0;
        let panes = &manifest.panes[i].1;
        let ghost done = all_panes(tabs.take(i as int));
        let ghost next = tab_panes(tab, panes@);
        proof {
            assert(tabs.take(i + 1).drop_last() =~= tabs.take(i as int));
            assert(all_panes(tabs.take(i + 1)) == done + next);
            lemma_with_panes_concat(before, done, next, tick);
            assert forall|id: u32| shows(done + next, id) <==> shows(done, id) || shows(next, id) by {
                lemma_shows_concat(done, next, id);
            }
        }
        see_tab(agents, &mut seen, tab, panes, tick);
        i = i + 1;
    }
    assert(tabs.take(i as int) =~= tabs);
    seen
}

// ---------------------------------------------------------------------------
// Names
// ---------------------------------------------------------------------------

/// Whether an index of names holds the pane `id`.
spec fn has_pane(index: Seq<(String, u32)>, id: u32) -> bool {
    exists|i: int| 0 <= i < index.len() && (#[trigger] index[i]).1 == id
}

/// Whether an index holds no pane twice.
spec fn panes_distinct(index: Seq<(String, u32)>) -> bool {
    forall|i: int, j: int|
        0 <= i < j < index.len() ==> (#[trigger] index[i]).1 != (#[trigger] index[j]).1
}

/// Whether an index holds exactly the names of the agents.
spec fn indexed(index: Seq<(String, u32)>, agents: Map<u32, EntryView>) -> bool {
    &&& forall|i: int|
        0 <= i < index.len() ==> named(agents, (#[trigger] index[i]).0@, index[i].1)
    &&& forall|id: u32| #[trigger]
        agents.contains_key(id) && agents[id].name is Some ==> has_pane(index, id)
    &&& panes_distinct(index)
}

proof fn lemma_holder(agents: Map<u32, EntryView>, name: Seq<char>, id: u32)
    requires
        names_unique(agents),
        named(agents, name, id),
    ensures
        holder(agents, name) == Some(id),
{
}

/// The pane of the agent with the name `name`, from an index.
#[verifier::loop_isolation(false)]
fn find_name(
    index: &Vec<(String, u32)>,
    name: &str,
    Ghost(agents): Ghost<Map<u32, EntryView>>,
) -> (r: Option<u32>)
    requires
        indexed(index@, agents),
        names_unique(agents),
    ensures
        r == holder(agents, name@),
        r matches Some(id) ==> named(agents, name@, id),
{
    let mut i: usize = 0;
    while i < index.len()
        invariant
            i <= index@.len(),
            forall|j: int| 0 <= j < i ==> (#[trigger] index@[j]).0@ != name@,
        decreases index@.len() - i,
    {
        if same(index[i].0.as_str(), name) {
            let id = index[i].1;
            proof {
                lemma_holder(agents, name@, id);
            }
            return Some(id);
        }
        i = i + 1;
    }
    assert forall|id: u32| !named(agents, name@, id) by {
        if named(agents, name@, id) {
            assert(agents.contains_key(id));
            assert(has_pane(index@, id));
            let k = choose|k: int| 0 <= k < index@.len() && (#[trigger] index@[k]).1 == id;
            assert(named(agents, index@[k].0@, id));
        }
    }
    None
}

/// Takes the name of the pane `id` out of an index.
#[verifier::loop_isolation(false)]
fn forget_name(index: &mut Vec<(String, u32)>, id: u32)
    requires
        panes_distinct(old(index)@),
    ensures
        panes_distinct(final(index)@),
        !has_pane(final(index)@, id),
        forall|i: int|
            0 <= i < final(index)@.len() ==> old(index)@.contains(#[trigger] final(index)@[i]),
        forall|k: u32| k != id ==> (has_pane(final(index)@, k) <==> has_pane(old(index)@, k)),
{
    let ghost before = index@;
    let mut i: usize = 0;
    while i < index.len()
        invariant
            index@ == before,
            i <= index@.len(),
            forall|j: int| 0 <= j < i ==> (#[trigger] index@[j]).1 != id,
        decreases index@.len() - i,
    {
        if index[i].1 == id {
            let _ = index.remove(i);
            proof {
                let after = index@;
                assert(after == before.remove(i as int));
                assert forall|j: int| 0 <= j < after.len() implies before.contains(
                    #[trigger] after[j],
                ) && after[j].1 != id by {
                    if j < i {
                        assert(after[j] == before[j]);
                    } else {
                        assert(after[j] == before[j + 1]);
                    }
                }
                assert forall|k: u32| k != id implies (has_pane(after, k) <==> has_pane(
                    before,
                    k,
                )) by {
                    if has_pane(before, k) {
                        let j = choose|j: int| 0 <= j < before.len() && (#[trigger] before[j]).1 == k;
                        if j < i {
                            assert(after[j] == before[j]);
                        } else {
                            assert(after[j - 1] == before[j]);
                        }
                    }
                }
            }
            return;
        }
        i = i + 1;
    }
}

/// An index of the names of the agents.
#[verifier::loop_isolation(false)]
fn rebuild_name_index(agents: &BTreeMap<u32, AgentEntry>) -> (index: Vec<(String, u32)>)
    ensures
        indexed(index@, entries(agents@)),
{
    broadcast use vstd::std_specs::btree::group_btree_axioms;

    let ids = ids_of(agents);
    let ghost m = entries(agents@);
    let mut index: Vec<(String, u32)> = Vec::new();
    let mut i: usize = 0;
    while i < ids.len()
        invariant
            i <= ids@.len(),
            forall|k: int|
                0 <= k < index@.len() ==> named(m, (#[trigger] index@[k]).0@, index@[k].1),
            forall|j: int|
                0 <= j < i && m[#[trigger] ids@[j]].name is Some ==> has_pane(index@, ids@[j]),
            forall|k: int|
                0 <= k < index@.len() && i < ids@.len() ==> (#[trigger] index@[k]).1
                    < ids@[i as int],
            panes_distinct(index@),
        decreases ids@.len() - i,
    {
        let id = ids[i];
        let ghost before = index@;
        assert(m.contains_key(id));
        let entry = agents.get(&id).unwrap();
        match &entry.name {
            Some(name) => {
                index.push((name.clone(), id));
                proof {
                    assert(index@[before.len() as int].1 == id);
                    assert forall|j: int| 0 <= j < i && m[#[trigger] ids@[j]].name is Some implies has_pane(
                        index@,
                        ids@[j],
                    ) by {
                        let k = choose|k: int|
                            0 <= k < before.len() && (#[trigger] before[k]).1 == ids@[j];
                        assert(index@[k] == before[k]);
                    }
                }
            },
            None => {},
        }
        i = i + 1;
    }
    assert forall|id: u32| #[trigger] m.contains_key(id) && m[id].name is Some implies has_pane(
        index@,
        id,
    ) by {
        assert(ids@.contains(id));
    }
    index
}

// ---------------------------------------------------------------------------
// Registry
// ---------------------------------------------------------------------------

/// The registry of all the agent panes of the session.
pub struct AgentRegistry {
    agents: BTreeMap<u32, AgentEntry>,
    tick: u64,
    name_index: Vec<(String, u32)>,
}

impl View for AgentRegistry {
    type V = RegistryView;

    closed spec fn view(&self) -> RegistryView {
        RegistryView { agents: entries(self.agents@), tick: self.tick }
    }
}

impl Default for AgentRegistry {
    fn default() -> (r: AgentRegistry)
        ensures
            r.wf(),
            r@ == (RegistryView { agents: Map::<u32, EntryView>::empty(), tick: 0 }),
    {
        broadcast use vstd::std_specs::btree::group_btree_axioms;

        let r = AgentRegistry { agents: BTreeMap::new(), tick: 0, name_index: Vec::new() };
        assert(entries(r.agents@) =~= Map::<u32, EntryView>::empty());
        r
    }
}

proof fn lemma_registered_consistent(
    v: RegistryView,
    pane_id: u32,
    name: Seq<char>,
    capabilities: Seq<Seq<char>>,
)
    requires
        consistent(v),
        forall|id: u32| named(v.agents, name, id) ==> id == pane_id,
    ensures
        consistent(registered(v, pane_id, name, capabilities)),
{
    let w = registered(v, pane_id, name, capabilities);
    assert forall|n: Seq<char>, a: u32, b: u32|
        #[trigger] named(w.agents, n, a) && #[trigger] named(w.agents, n, b) implies a == b by {
        if a != pane_id {
            assert(named(v.agents, n, a));
        }
        if b != pane_id {
            assert(named(v.agents, n, b));
        }
    }
}

impl AgentRegistry {
    /// What holds of the registry in every state: it is consistent, and its
    /// index holds exactly the names of the agents.
    pub closed spec fn wf(&self) -> bool {
        consistent(self@) && indexed(self.name_index@, self@.agents)
    }

    /// Registers an agent. An entry that is there already takes the name and
    /// the capabilities; where there is none, a pending one is created.
    pub fn register(
        &mut self,
        pane_id: u32,
        name: String,
        capabilities: Vec<String>,
    ) -> (r: Result<&AgentEntry, RegistryError>)
        requires
            old(self).wf(),
        ensures
            final(self).wf(),
            match r {
                Ok(e) => register_result(
                    old(self)@,
                    pane_id,
                    name@,
                    views(capabilities@),
                ) == Ok::<RegistryView, ErrorView>(final(self)@) && e@
                    == final(self)@.agents[pane_id],
                Err(e) => register_result(
                    old(self)@,
                    pane_id,
                    name@,
                    views(capabilities@),
                ) == Err::<RegistryView, ErrorView>(e@) && final(self)@ == old(self)@,
            },
    {
        let ghost before = self@;
        let ghost index_before = self.name_index@;
        match find_name(&self.name_index, name.as_str(), Ghost(self@.agents)) {
            Some(existing) => {
                if existing != pane_id {
                    return Err(RegistryError::NameConflict { name, existing_pane: existing });
                }
            },
            None => {},
        }
        assert forall|id: u32| named(before.agents, name@, id) implies id == pane_id by {
            lemma_holder(before.agents, name@, id);
        }
        let tick = self.tick;
        let base = match take(&mut self.agents, pane_id) {
            Some(e) => e,
            None => AgentEntry {
                pane_id,
                name: None,
                capabilities: Vec::new(),
                status: AgentStatus::Pending,
                registered: false,
                created_at: tick,
                last_seen: tick,
                last_message: 0,
                command: None,
                title: String::new(),
                tab: 0,
                is_floating: false,
            },
        };
        forget_name(&mut self.name_index, pane_id);
        let entry = AgentEntry { name: Some(name.clone()), capabilities, registered: true, ..base };
        put(&mut self.agents, pane_id, entry);
        let ghost trimmed = self.name_index@;
        self.name_index.push((name, pane_id));
        proof {
            let after = registered(before, pane_id, name@, views(capabilities@));
            assert(self@.agents =~= after.agents);
            lemma_registered_consistent(before, pane_id, name@, views(capabilities@));
            let index = self.name_index@;
            assert forall|i: int| 0 <= i < index.len() implies named(
                after.agents,
                (#[trigger] index[i]).0@,
                index[i].1,
            ) by {
                if i < trimmed.len() {
                    assert(index[i] == trimmed[i]);
                    assert(index_before.contains(trimmed[i]));
                    let k = index_before.index_of(trimmed[i]);
                    assert(named(before.agents, index_before[k].0@, index_before[k].1));
                    assert(trimmed[i].1 != pane_id);
                }
            }
            assert forall|id: u32| #[trigger]
                after.agents.contains_key(id) && after.agents[id].name is Some implies has_pane(
                index,
                id,
            ) by {
                if id == pane_id {
                    assert(index[trimmed.len() as int].1 == pane_id);
                } else {
                    assert(before.agents.contains_key(id));
                    assert(has_pane(index_before, id));
                    let k = choose|k: int| 0 <= k < trimmed.len() && (#[trigger] trimmed[k]).1 == id;
                    assert(index[k] == trimmed[k]);
                }
            }
        }
        broadcast use vstd::std_specs::btree::group_btree_axioms;
        Ok(self.agents.get(&pane_id).unwrap())
    }

    /// Takes the registration of an agent back. An agent that is alive stays,
    /// without a name; a dead one is forgotten.
    pub fn unregister(&mut self, pane_id: u32) -> (r: Result<(), RegistryError>)
        requires
            old(self).wf(),
        ensures
            final(self).wf(),
            match r {
                Ok(()) => unregister_result(old(self)@, pane_id) == Ok::<RegistryView, ErrorView>(
                    final(self)@,
                ),
                Err(e) => unregister_result(old(self)@, pane_id) == Err::<RegistryView, ErrorView>(
                    e@,
                ) && final(self)@ == old(self)@,
            },
    {
        let ghost before = self@;
        let ghost index_before = self.name_index@;
        let entry = match take(&mut self.agents, pane_id) {
            Some(e) => e,
            None => {
                assert(before.agents.remove(pane_id) =~= before.agents);
                return Err(RegistryError::NotFound { pane_id });
            },
        };
        forget_name(&mut self.name_index, pane_id);
        let dead = match entry.status {
            AgentStatus::Dead { .. } => true,
            _ => false,
        };
        if !dead {
            let plain = AgentEntry {
                name: None,
                capabilities: Vec::new(),
                registered: false,
                ..entry
            };
            assert(views(plain.capabilities@) =~= Seq::<Seq<char>>::empty());
            put(&mut self.agents, pane_id, plain);
        }
        proof {
            let after = unregister_result(before, pane_id)->Ok_0;
            assert(self@.agents =~= after.agents);
            let index = self.name_index@;
            assert forall|n: Seq<char>, id: u32| named(after.agents, n, id) implies named(
                before.agents,
                n,
                id,
            ) by {}
            assert forall|i: int| 0 <= i < index.len() implies named(
                after.agents,
                (#[trigger] index[i]).0@,
                index[i].1,
            ) by {
                assert(index_before.contains(index[i]));
                let k = index_before.index_of(index[i]);
                assert(named(before.agents, index_before[k].0@, index_before[k].1));
                assert(index[i].1 != pane_id);
            }
            assert forall|id: u32| #[trigger]
                after.agents.contains_key(id) && after.agents[id].name is Some implies has_pane(
                index,
                id,
            ) by {
                assert(before.agents.contains_key(id));
                assert(has_pane(index_before, id));
            }
        }
        Ok(())
    }
}

proof fn lemma_with_pane_consistent(
    v: RegistryView,
    tab: usize,
    pane: PaneView,
)
    requires
        consistent(v),
    ensures
        consistent(RegistryView { agents: with_pane(v.agents, tab, pane, v.tick), ..v }),
{
    let agents = with_pane(v.agents, tab, pane, v.tick);
    assert forall|n: Seq<char>, id: u32| named(agents, n, id) implies named(v.agents, n, id) by {}
    assert forall|id: u32| #[trigger] agents.contains_key(id) implies entry_ok(
        agents[id],
        id,
        v.tick,
    ) by {
        if id != pane.id {
            assert(v.agents.contains_key(id));
        } else if v.agents.contains_key(id) {
        }
    }
}

proof fn lemma_with_panes_consistent(v: RegistryView, panes: Seq<(usize, PaneView)>)
    requires
        consistent(v),
    ensures
        consistent(RegistryView { agents: with_panes(v.agents, panes, v.tick), ..v }),
    decreases panes.len(),
{
    if panes.len() > 0 {
        lemma_with_panes_consistent(v, panes.drop_last());
        lemma_with_pane_consistent(
            RegistryView { agents: with_panes(v.agents, panes.drop_last(), v.tick), ..v },
            panes.last().0,
            panes.last().1,
        );
    }
}

proof fn lemma_updated_consistent(v: RegistryView, panes: Seq<(usize, PaneView)>)
    requires
        consistent(v),
        v.tick < u64::MAX,
    ensures
        consistent(updated(v, panes)),
{
    let w = RegistryView { tick: (v.tick + 1) as u64, ..v };
    assert forall|id: u32| #[trigger] w.agents.contains_key(id) implies entry_ok(
        w.agents[id],
        id,
        w.tick,
    ) by {
        assert(v.agents.contains_key(id));
    }
    assert(consistent(w));
    lemma_with_panes_consistent(w, panes);
    let seen = with_panes(w.agents, panes, w.tick);
    let u = updated(v, panes);
    assert(consistent(RegistryView { agents: seen, ..w }));
    assert forall|n: Seq<char>, a: u32, b: u32|
        #[trigger] named(u.agents, n, a) && #[trigger] named(u.agents, n, b) implies a == b by {
        assert(named(seen, n, a));
        assert(named(seen, n, b));
    }
    assert forall|id: u32| #[trigger] u.agents.contains_key(id) implies entry_ok(
        u.agents[id],
        id,
        u.tick,
    ) by {
        assert(seen.contains_key(id));
    }
}

proof fn lemma_listed(agents: Map<u32, EntryView>, ids: Seq<u32>, n: nat) -> (k: int)
    requires
        forall|i: int, j: int| 0 <= i < j < ids.len() ==> ids[i] < ids[j],
        forall|i: int| 0 <= i < ids.len() ==> agents.contains_key(#[trigger] ids[i]),
        forall|id: u32| #[trigger] agents.contains_key(id) ==> ids.contains(id),
        n <= u32::MAX + 1,
    ensures
        0 <= k <= ids.len(),
        agents_below(agents, n) == ids.take(k).map_values(|id: u32| agents[id]),
        forall|i: int| 0 <= i < k ==> #[trigger] ids[i] < n,
        forall|i: int| k <= i < ids.len() ==> #[trigger] ids[i] >= n,
    decreases n,
{
    if n == 0 {
        assert(ids.take(0).map_values(|id: u32| agents[id]) =~= Seq::<EntryView>::empty());
        0
    } else {
        let k = lemma_listed(agents, ids, (n - 1) as nat);
        let id = (n - 1) as u32;
        if agents.contains_key(id) {
            assert(ids.contains(id));
            let j = ids.index_of(id);
            assert(j >= k);
            if j > k {
                assert(ids[k] < ids[j]);
            }
            assert(ids.take(k + 1).map_values(|id: u32| agents[id]) =~= ids.take(k).map_values(
                |id: u32| agents[id],
            ).push(agents[id]));
            k + 1
        } else {
            if k < ids.len() && ids[k] == id {
                assert(agents.contains_key(ids[k]));
            }
            assert forall|i: int| k <= i < ids.len() implies #[trigger] ids[i] >= n by {
                if ids[i] == id {
                    assert(agents.contains_key(ids[i]));
                }
            }
            k
        }
    }
}

impl AgentRegistry {
    /// Brings the registry up to date with a manifest of the multiplexer.
    pub fn update_from_pane_manifest(&mut self, manifest: &PaneManifest)
        requires
            old(self).wf(),
            old(self)@.tick < u64::MAX,
        ensures
            final(self).wf(),
            final(self)@ == updated(old(self)@, manifest@),
    {
        proof {
            lemma_updated_consistent(self@, manifest@);
        }
        self.tick = self.tick + 1;
        let tick = self.tick;
        let seen = see_all(&mut self.agents, manifest, tick);
        // Known agents that the manifest does not show are dead.
        mark_missing(&mut self.agents, &seen, Ghost(manifest@), tick);
        check_idle(&mut self.agents, tick);
        prune_dead(&mut self.agents, tick);
        self.name_index = rebuild_name_index(&self.agents);
    }

    /// Notes that a message was routed to or from an agent.
    pub fn touch_message(&mut self, pane_id: u32)
        requires
            old(self).wf(),
        ensures
            final(self).wf(),
            final(self)@ == touched(old(self)@, pane_id),
    {
        let ghost before = self@;
        match take(&mut self.agents, pane_id) {
            Some(e) => {
                let status = if e.status == AgentStatus::Idle {
                    AgentStatus::Active
                } else {
                    e.status
                };
                put(
                    &mut self.agents,
                    pane_id,
                    AgentEntry { last_message: self.tick, status, ..e },
                );
                assert(self@.agents =~= touched(before, pane_id).agents);
            },
            None => {
                assert(self@.agents =~= before.agents);
            },
        }
        proof {
            let after = self@;
            assert forall|n: Seq<char>, id: u32|
                named(after.agents, n, id) <==> named(before.agents, n, id) by {}
            assert forall|id: u32| #[trigger]
                after.agents.contains_key(id) && after.agents[id].name is Some implies has_pane(
                self.name_index@,
                id,
            ) by {
                assert(before.agents.contains_key(id));
            }
            assert forall|id: u32| #[trigger] after.agents.contains_key(id) implies entry_ok(
                after.agents[id],
                id,
                after.tick,
            ) by {
                assert(before.agents.contains_key(id));
            }
        }
    }

    /// The agent with the given name.
    pub fn lookup_by_name(&self, name: &str) -> (r: Option<&AgentEntry>)
        requires
            self.wf(),
        ensures
            match r {
                Some(e) => holder(self@.agents, name@) == Some(e.pane_id) && named(
                    self@.agents,
                    name@,
                    e.pane_id,
                ) && e@ == self@.agents[e.pane_id],
                None => holder(self@.agents, name@) is None,
            },
    {
        broadcast use vstd::std_specs::btree::group_btree_axioms;

        match find_name(&self.name_index, name, Ghost(self@.agents)) {
            Some(id) => {
                assert(self@.agents.contains_key(id));
                self.agents.get(&id)
            },
            None => None,
        }
    }

    /// The agents that take part in the session, by their panes.
    #[verifier::loop_isolation(false)]
    pub fn get_active(&self) -> (r: Vec<&AgentEntry>)
        requires
            self.wf(),
        ensures
            entry_views(r@) == active_among(listed(self@.agents)),
    {
        let all = self.get_all();
        let ghost views = entry_views(all@);
        let mut out: Vec<&AgentEntry> = Vec::new();
        let mut i: usize = 0;
        assert(entry_views(out@) =~= active_among(views.take(0)));
        while i < all.len()
            invariant
                i <= all@.len(),
                entry_views(out@) == active_among(views.take(i as int)),
            decreases all@.len() - i,
        {
            let e = all[i];
            let ghost before = entry_views(out@);
            assert(views.take(i + 1).drop_last() =~= views.take(i as int));
            let active = match e.status {
                AgentStatus::Active => true,
                AgentStatus::Idle => true,
                _ => false,
            };
            if active {
                out.push(e);
                assert(entry_views(out@) =~= before.push(e@));
            }
            i = i + 1;
        }
        assert(views.take(i as int) =~= views);
        out
    }

    /// All the agents, by their panes.
    #[verifier::loop_isolation(false)]
    pub fn get_all(&self) -> (r: Vec<&AgentEntry>)
        requires
            self.wf(),
        ensures
            entry_views(r@) == listed(self@.agents),
    {
        broadcast use vstd::std_specs::btree::group_btree_axioms;

        let ids = ids_of(&self.agents);
        let ghost agents = self@.agents;
        let mut out: Vec<&AgentEntry> = Vec::new();
        let mut i: usize = 0;
        while i < ids.len()
            invariant
                i <= ids@.len(),
                out@.len() == i,
                forall|j: int| 0 <= j < i ==> (#[trigger] out@[j])@ == agents[ids@[j]],
            decreases ids@.len() - i,
        {
            assert(agents.contains_key(ids@[i as int]));
            out.push(self.agents.get(&ids[i]).unwrap());
            i = i + 1;
        }
        proof {
            let k = lemma_listed(agents, ids@, (u32::MAX + 1) as nat);
            assert(k == ids@.len()) by {
                if k < ids@.len() {
                    assert(ids@[k] >= u32::MAX + 1);
                }
            }
            assert(ids@.take(k) =~= ids@);
            assert(entry_views(out@) =~= listed(agents));
        }
        out
    }

    /// How many manifests the registry has seen.
    pub fn tick(&self) -> (r: u64)
        ensures
            r == self@.tick,
    {
        self.tick
    }
}

// ---------------------------------------------------------------------------
// Laws
// ---------------------------------------------------------------------------

/// In every state, no two agents have the same name, every agent is filed under
/// its own pane, an agent has a name if and only if it is registered, and no
/// recorded time lies ahead.
pub proof fn registry_is_consistent(r: AgentRegistry)
    requires
        r.wf(),
    ensures
        consistent(r@),
{
}

/// An agent that has registered is found by its name, with its capabilities,
/// and no other agent is changed.
pub proof fn registered_agent_is_found(
    v: RegistryView,
    pane_id: u32,
    name: Seq<char>,
    capabilities: Seq<Seq<char>>,
)
    requires
        consistent(v),
    ensures
        register_result(v, pane_id, name, capabilities) matches Ok(w) ==> {
            &&& consistent(w)
            &&& holder(w.agents, name) == Some(pane_id)
            &&& w.agents[pane_id].registered
            &&& w.agents[pane_id].capabilities == capabilities
            &&& forall|id: u32|
                id != pane_id ==> (w.agents.contains_key(id) <==> v.agents.contains_key(id))
                    && w.agents[id] == v.agents[id]
        },
{
    if let Ok(w) = register_result(v, pane_id, name, capabilities) {
        assert forall|id: u32| named(v.agents, name, id) implies id == pane_id by {
            lemma_holder(v.agents, name, id);
        }
        lemma_registered_consistent(v, pane_id, name, capabilities);
        lemma_holder(w.agents, name, pane_id);
    }
}

/// A registration is refused if and only if an agent in another pane has the
/// name.
pub proof fn registration_is_refused_for_taken_names(
    v: RegistryView,
    pane_id: u32,
    name: Seq<char>,
    capabilities: Seq<Seq<char>>,
)
    requires
        consistent(v),
    ensures
        register_result(v, pane_id, name, capabilities) is Err <==> exists|id: u32|
            id != pane_id && named(v.agents, name, id),
{
    if exists|id: u32| id != pane_id && named(v.agents, name, id) {
        let id = choose|id: u32| id != pane_id && named(v.agents, name, id);
        lemma_holder(v.agents, name, id);
    }
}

/// Taking a registration back undoes it, for an agent that was known, alive and
/// not registered.
pub proof fn unregister_undoes_register(
    v: RegistryView,
    pane_id: u32,
    name: Seq<char>,
    capabilities: Seq<Seq<char>>,
)
    requires
        consistent(v),
        v.agents.contains_key(pane_id),
        !v.agents[pane_id].registered,
        !(v.agents[pane_id].status is Dead),
    ensures
        register_result(v, pane_id, name, capabilities) matches Ok(w) ==> unregister_result(
            w,
            pane_id,
        ) == Ok::<RegistryView, ErrorView>(v),
{
    if let Ok(w) = register_result(v, pane_id, name, capabilities) {
        assert(v.agents[pane_id].capabilities =~= Seq::<Seq<char>>::empty());
        assert(unnamed(w.agents[pane_id]) == v.agents[pane_id]);
        assert(w.agents.insert(pane_id, v.agents[pane_id]) =~= v.agents);
    }
}

/// The name of an agent whose registration was taken back is free.
pub proof fn unregistered_name_is_free(v: RegistryView, pane_id: u32, name: Seq<char>)
    requires
        consistent(v),
        named(v.agents, name, pane_id),
    ensures
        unregister_result(v, pane_id) matches Ok(w) && holder(w.agents, name) is None,
{
    let w = unregister_result(v, pane_id)->Ok_0;
    assert forall|id: u32| !named(w.agents, name, id) by {
        if named(w.agents, name, id) {
            assert(named(v.agents, name, id));
            assert(named(v.agents, name, pane_id));
        }
    }
}

/// Whether two entries have the same registration and history.
pub open spec fn same_agent(a: EntryView, b: EntryView) -> bool {
    &&& a.pane_id == b.pane_id
    &&& a.name == b.name
    &&& a.capabilities == b.capabilities
    &&& a.registered == b.registered
    &&& a.created_at == b.created_at
    &&& a.last_message == b.last_message
}

proof fn lemma_with_panes_at(
    agents: Map<u32, EntryView>,
    panes: Seq<(usize, PaneView)>,
    tick: u64,
    id: u32,
)
    ensures
        !shows(panes, id) ==> {
            &&& with_panes(agents, panes, tick).contains_key(id) <==> agents.contains_key(id)
            &&& agents.contains_key(id) ==> with_panes(agents, panes, tick)[id] == agents[id]
        },
        agents.contains_key(id) ==> {
            &&& with_panes(agents, panes, tick).contains_key(id)
            &&& same_agent(with_panes(agents, panes, tick)[id], agents[id])
        },
        !agents.contains_key(id) && with_panes(agents, panes, tick).contains_key(id) ==> {
            let e = with_panes(agents, panes, tick)[id];
            &&& !e.registered && e.name is None && e.last_message == 0 && e.created_at == tick
        },
    decreases panes.len(),
{
    if panes.len() > 0 {
        lemma_with_panes_at(agents, panes.drop_last(), tick, id);
        let n = panes.len() - 1;
        lemma_shows_step(panes, n, id);
        assert(panes.take(n) =~= panes.drop_last());
        assert(panes.take(n + 1) =~= panes);
    }
}

/// A manifest changes no registration: an agent that it leaves has the name and
/// the capabilities that it had, and one that it adds has none.
pub proof fn manifest_keeps_registrations(v: RegistryView, panes: Seq<(usize, PaneView)>, id: u32)
    requires
        consistent(v),
        v.tick < u64::MAX,
        updated(v, panes).agents.contains_key(id),
    ensures
        v.agents.contains_key(id) ==> same_agent(updated(v, panes).agents[id], v.agents[id]),
        !v.agents.contains_key(id) ==> !updated(v, panes).agents[id].registered,
{
    lemma_with_panes_at(v.agents, panes, (v.tick + 1) as u64, id);
}

/// An agent that was alive and that a manifest does not show is dead from then
/// on, and still known.
pub proof fn missing_agent_is_dead(v: RegistryView, panes: Seq<(usize, PaneView)>, id: u32)
    requires
        consistent(v),
        v.tick < u64::MAX,
        v.agents.contains_key(id),
        !(v.agents[id].status is Dead),
        !shows(panes, id),
    ensures
        updated(v, panes).agents.contains_key(id),
        updated(v, panes).agents[id].status == (AgentStatus::Dead {
            exit_status: None,
            died_at: (v.tick + 1) as u64,
        }),
{
    lemma_with_panes_at(v.agents, panes, (v.tick + 1) as u64, id);
}

/// A dead agent that a manifest does not show is kept as it is for as long as
/// dead agents are kept, and then forgotten.
pub proof fn dead_agent_is_forgotten_in_time(
    v: RegistryView,
    panes: Seq<(usize, PaneView)>,
    id: u32,
)
    requires
        consistent(v),
        v.tick < u64::MAX,
        v.agents.contains_key(id),
        v.agents[id].status is Dead,
        !shows(panes, id),
    ensures
        updated(v, panes).agents.contains_key(id) <==> v.tick + 1 - v.agents[id].status->died_at
            <= PRUNE_AFTER_TICKS,
        updated(v, panes).agents.contains_key(id) ==> updated(v, panes).agents[id] == v.agents[id],
{
    lemma_with_panes_at(v.agents, panes, (v.tick + 1) as u64, id);
}

proof fn lemma_alive_at(
    agents: Map<u32, EntryView>,
    panes: Seq<(usize, PaneView)>,
    tick: u64,
    id: u32,
)
    requires
        shows(panes, id),
        forall|i: int|
            0 <= i < panes.len() && eligible((#[trigger] panes[i]).1) && panes[i].1.id == id
                ==> !panes[i].1.exited,
    ensures
        with_panes(agents, panes, tick).contains_key(id),
        is_active(with_panes(agents, panes, tick)[id]),
    decreases panes.len(),
{
    let n = panes.len() - 1;
    let rest = panes.drop_last();
    lemma_shows_step(panes, n, id);
    assert(panes.take(n) =~= rest);
    assert(panes.take(n + 1) =~= panes);
    if shows(rest, id) {
        assert forall|i: int|
            0 <= i < rest.len() && eligible((#[trigger] rest[i]).1) && rest[i].1.id
                == id implies !rest[i].1.exited by {
            assert(rest[i] == panes[i]);
        }
        lemma_alive_at(agents, rest, tick, id);
    }
    assert(panes.last() == panes[n]);
}

/// A pane that a manifest shows alive holds an agent that takes part in the
/// session, whatever was known of it before.
pub proof fn shown_pane_is_active(v: RegistryView, panes: Seq<(usize, PaneView)>, id: u32)
    requires
        consistent(v),
        v.tick < u64::MAX,
        shows(panes, id),
        forall|i: int|
            0 <= i < panes.len() && eligible((#[trigger] panes[i]).1) && panes[i].1.id == id
                ==> !panes[i].1.exited,
    ensures
        updated(v, panes).agents.contains_key(id),
        is_active(updated(v, panes).agents[id]),
{
    lemma_alive_at(v.agents, panes, (v.tick + 1) as u64, id);
}

/// An agent that is idle after a manifest was known before, and its last
/// message is longer ago than an active agent may be silent.
pub proof fn idle_agent_was_silent(v: RegistryView, panes: Seq<(usize, PaneView)>, id: u32)
    requires
        consistent(v),
        v.tick < u64::MAX,
        updated(v, panes).agents.contains_key(id),
        updated(v, panes).agents[id].status is Idle,
    ensures
        v.agents.contains_key(id),
        v.agents[id].last_message > 0,
        v.tick + 1 - v.agents[id].last_message > IDLE_THRESHOLD,
{
    let tick = (v.tick + 1) as u64;
    lemma_with_panes_at(v.agents, panes, tick, id);
    lemma_not_idled(v.agents, panes, tick, id);
}

proof fn lemma_not_idled(
    agents: Map<u32, EntryView>,
    panes: Seq<(usize, PaneView)>,
    tick: u64,
    id: u32,
)
    ensures
        with_panes(agents, panes, tick).contains_key(id) && with_panes(
            agents,
            panes,
            tick,
        )[id].status is Idle ==> agents.contains_key(id) && agents[id].status is Idle,
    decreases panes.len(),
{
    if panes.len() > 0 {
        lemma_not_idled(agents, panes.drop_last(), tick, id);
    }
}

/// Whether a pane of a manifest matters to a registry with the given agents. A
/// plugin does not, nor a pane that cannot be selected, nor one that has
/// exited and is unknown.
pub open spec fn matters(agents: Map<u32, EntryView>, pane: PaneView) -> bool {
    eligible(pane) && (agents.contains_key(pane.id) || !pane.exited)
}

/// Those panes of a manifest that matter, in their order.
pub open spec fn that_matter(
    agents: Map<u32, EntryView>,
    panes: Seq<(usize, PaneView)>,
) -> Seq<(usize, PaneView)>
    decreases panes.len(),
{
    if panes.len() == 0 {
        Seq::empty()
    } else if matters(agents, panes.last().1) {
        that_matter(agents, panes.drop_last()).push(panes.last())
    } else {
        that_matter(agents, panes.drop_last())
    }
}

/// Whether no two panes that can hold an agent have the same id.
pub open spec fn shown_once(panes: Seq<(usize, PaneView)>) -> bool {
    forall|i: int, j: int|
        0 <= i < j < panes.len() && eligible((#[trigger] panes[i]).1) && eligible(
            (#[trigger] panes[j]).1,
        ) ==> panes[i].1.id != panes[j].1.id
}

proof fn lemma_that_matter(agents: Map<u32, EntryView>, panes: Seq<(usize, PaneView)>, tick: u64)
    requires
        shown_once(panes),
    ensures
        with_panes(agents, that_matter(agents, panes), tick) == with_panes(agents, panes, tick),
        forall|id: u32| #[trigger]
            with_panes(agents, panes, tick).contains_key(id) ==> (shows(
                that_matter(agents, panes),
                id,
            ) <==> shows(panes, id)),
        forall|id: u32| #[trigger] shows(that_matter(agents, panes), id) ==> shows(panes, id),
    decreases panes.len(),
{
    if panes.len() > 0 {
        let n = panes.len() - 1;
        let rest = panes.drop_last();
        let last = panes.last();
        assert forall|i: int, j: int|
            0 <= i < j < rest.len() && eligible((#[trigger] rest[i]).1) && eligible(
                (#[trigger] rest[j]).1,
            ) implies rest[i].1.id != rest[j].1.id by {
            assert(panes[i].1.id != panes[j].1.id);
        }
        lemma_that_matter(agents, rest, tick);
        let before = that_matter(agents, rest);
        let now = that_matter(agents, panes);
        assert(panes.take(n) =~= rest);
        assert(panes.take(n + 1) =~= panes);
        assert forall|id: u32| shows(panes, id) <==> shows(rest, id) || (eligible(last.1)
            && last.1.id == id) by {
            lemma_shows_step(panes, n, id);
        }
        if matters(agents, last.1) {
            assert(now.drop_last() =~= before);
            assert(now.take(before.len() as int) =~= before);
            assert(now.take(before.len() as int + 1) =~= now);
            assert forall|id: u32| shows(now, id) <==> shows(before, id) || (eligible(last.1)
                && last.1.id == id) by {
                lemma_shows_step(now, before.len() as int, id);
            }
        } else if eligible(last.1) {
            // The pane is unknown, and no other pane has its id.
            assert(!shows(rest, last.1.id)) by {
                if shows(rest, last.1.id) {
                    let i = choose|i: int|
                        0 <= i < rest.len() && eligible((#[trigger] rest[i]).1) && rest[i].1.id
                            == last.1.id;
                    assert(panes[i].1.id != panes[n].1.id);
                }
            }
            lemma_with_panes_at(agents, rest, tick, last.1.id);
        }
    }
}

/// Panes that do not matter change nothing: a manifest with them comes to the
/// same as one without: in the number of manifests, in the agents that are
/// listed and in who is found under a name. In particular a plugin with the
/// number of a terminal neither updates the agent there nor keeps it alive.
pub proof fn ignored_panes_change_nothing(v: RegistryView, panes: Seq<(usize, PaneView)>)
    requires
        shown_once(panes),
    ensures
        updated(v, panes) == updated(v, that_matter(v.agents, panes)),
        listed(updated(v, panes).agents) == listed(updated(v, that_matter(v.agents, panes)).agents),
        forall|name: Seq<char>|
            #![trigger holder(updated(v, panes).agents, name)]
            holder(updated(v, panes).agents, name) == holder(
                updated(v, that_matter(v.agents, panes)).agents,
                name,
            ),
{
    let tick = (v.tick + 1) as u64;
    let kept = that_matter(v.agents, panes);
    lemma_that_matter(v.agents, panes, tick);
    let seen = with_panes(v.agents, panes, tick);
    assert(missing_marked(seen, panes, tick) =~= missing_marked(seen, kept, tick));
}

/// A message wakes an idle agent, and changes nothing else of the session.
pub proof fn message_wakes_agent(v: RegistryView, pane_id: u32)
    requires
        consistent(v),
        v.agents.contains_key(pane_id),
    ensures
        !(touched(v, pane_id).agents[pane_id].status is Idle),
        touched(v, pane_id).agents[pane_id].last_message == v.tick,
        touched(v, pane_id).agents.dom() == v.agents.dom(),
        forall|id: u32|
            id != pane_id ==> #[trigger] touched(v, pane_id).agents[id] == v.agents[id],
{
    assert(touched(v, pane_id).agents.dom() =~= v.agents.dom());
}

/// A registration that is granted sets the name, the capabilities and that the
/// agent is registered, and nothing else of a known agent. An unknown one waits
/// for its pane to appear.
pub proof fn registration_sets_only_itself(
    v: RegistryView,
    pane_id: u32,
    name: Seq<char>,
    capabilities: Seq<Seq<char>>,
)
    ensures
        register_result(v, pane_id, name, capabilities) matches Ok(w) ==> {
            &&& w.tick == v.tick
            &&& w.agents.remove(pane_id) == v.agents.remove(pane_id)
            &&& w.agents.contains_key(pane_id)
            &&& v.agents.contains_key(pane_id) ==> w.agents[pane_id] == (EntryView {
                name: Some(name),
                capabilities,
                registered: true,
                ..v.agents[pane_id]
            })
            &&& !v.agents.contains_key(pane_id) ==> w.agents[pane_id] == (EntryView {
                pane_id,
                name: Some(name),
                capabilities,
                status: AgentStatus::Pending,
                registered: true,
                created_at: v.tick,
                last_seen: v.tick,
                last_message: 0,
                command: None,
                title: Seq::empty(),
                tab: 0,
                is_floating: false,
            })
        },
        register_result(v, pane_id, name, capabilities) matches Err(e) ==> e
            matches ErrorView::NameConflict(taken, other) && taken == name && other != pane_id && named(
            v.agents,
            name,
            other,
        ),
{
    if let Ok(w) = register_result(v, pane_id, name, capabilities) {
        assert(w.agents.remove(pane_id) =~= v.agents.remove(pane_id));
    }
}

/// Taking a registration back takes the name and the capabilities of the agent
/// and nothing else, forgets the agent where it is dead, and touches no other.
/// It is refused for a pane without an agent, and for no other.
pub proof fn unregistration_takes_only_itself(v: RegistryView, pane_id: u32)
    ensures
        unregister_result(v, pane_id) is Err <==> !v.agents.contains_key(pane_id),
        unregister_result(v, pane_id) matches Err(e) ==> e == ErrorView::NotFound(pane_id),
        unregister_result(v, pane_id) matches Ok(w) ==> {
            &&& w.tick == v.tick
            &&& w.agents.remove(pane_id) == v.agents.remove(pane_id)
            &&& w.agents.contains_key(pane_id) <==> !(v.agents[pane_id].status is Dead)
            &&& w.agents.contains_key(pane_id) ==> w.agents[pane_id] == (EntryView {
                name: None,
                capabilities: Seq::empty(),
                registered: false,
                ..v.agents[pane_id]
            })
        },
{
    if let Ok(w) = unregister_result(v, pane_id) {
        assert(w.agents.remove(pane_id) =~= v.agents.remove(pane_id));
    }
}

/// A refusal names what it is about: the name and who has it, or the pane that
/// is unknown.
pub proof fn refusals_name_their_cause(name: Seq<char>, pane: u32)
    ensures
        error_text(ErrorView::NameConflict(name, pane)) == "name '"@ + name
            + "' already taken by terminal_"@ + decimal(pane as nat),
        error_text(ErrorView::NotFound(pane)) == "no agent with pane_id terminal_"@ + decimal(
            pane as nat,
        ),
{
}

/// An agent takes part in the session if and only if its pane is there and its
/// program has not ended.
pub proof fn agents_take_part_while_alive(e: EntryView)
    ensures
        is_active(e) <==> !(e.status is Dead) && !(e.status is Pending),
{
}

proof fn lemma_last_shown(
    agents: Map<u32, EntryView>,
    panes: Seq<(usize, PaneView)>,
    tick: u64,
    i: int,
)
    requires
        shown_once(panes),
        0 <= i < panes.len(),
        eligible(panes[i].1),
    ensures
        ({
            let pane = panes[i].1;
            let after = with_panes(agents, panes, tick);
            &&& agents.contains_key(pane.id) ==> after.contains_key(pane.id) && after[pane.id]
                == refreshed(agents[pane.id], panes[i].0, pane, tick)
            &&& !agents.contains_key(pane.id) && !pane.exited ==> after.contains_key(pane.id)
                && after[pane.id] == discovered(panes[i].0, pane, tick)
            &&& !agents.contains_key(pane.id) && pane.exited ==> !after.contains_key(pane.id)
        }),
    decreases panes.len(),
{
    let rest = panes.drop_last();
    let n = panes.len() - 1;
    assert forall|a: int, b: int|
        0 <= a < b < rest.len() && eligible((#[trigger] rest[a]).1) && eligible(
            (#[trigger] rest[b]).1,
        ) implies rest[a].1.id != rest[b].1.id by {
        assert(panes[a].1.id != panes[b].1.id);
    }
    if i < n {
        assert(rest[i] == panes[i]);
        lemma_last_shown(agents, rest, tick, i);
        if eligible(panes[n].1) {
            assert(panes[i].1.id != panes[n].1.id);
        }
    } else {
        let id = panes[i].1.id;
        assert(!shows(rest, id)) by {
            if shows(rest, id) {
                let k = choose|k: int|
                    0 <= k < rest.len() && eligible((#[trigger] rest[k]).1) && rest[k].1.id == id;
                assert(panes[k].1.id != panes[n].1.id);
            }
        }
        lemma_with_panes_at(agents, rest, tick, id);
    }
}

/// After a manifest, the agent in a pane that it shows is where and as the
/// manifest shows it: its tab, its title, its command, and whether it floats.
/// What it was called, what it can do and its history stay. Where its program
/// has ended it is dead, with how the program ended.
pub proof fn shown_pane_is_as_shown(v: RegistryView, panes: Seq<(usize, PaneView)>, i: int)
    requires
        consistent(v),
        v.tick < u64::MAX,
        shown_once(panes),
        0 <= i < panes.len(),
        !panes[i].1.is_plugin,
        panes[i].1.is_selectable,
    ensures
        ({
            let (tab, pane) = panes[i];
            let id = pane.id;
            let after = updated(v, panes);
            let now = v.tick + 1;
            &&& after.tick == now
            &&& after.agents.contains_key(id) <==> v.agents.contains_key(id) || !pane.exited
            &&& after.agents.contains_key(id) ==> {
                let e = after.agents[id];
                &&& e.pane_id == id
                &&& e.tab == tab
                &&& e.title == pane.title
                &&& e.command == pane.terminal_command
                &&& e.is_floating == pane.is_floating
                &&& e.last_seen == now
                &&& v.agents.contains_key(id) ==> same_agent(e, v.agents[id])
                &&& !v.agents.contains_key(id) ==> e.created_at == now && e.name is None
                    && e.capabilities.len() == 0 && !e.registered && e.last_message == 0
                &&& pane.exited ==> e.status == (AgentStatus::Dead {
                    exit_status: pane.exit_status,
                    died_at: (v.tick + 1) as u64,
                })
                &&& !pane.exited ==> (e.status is Active || e.status is Idle)
            }
        }),
{
    let (tab, pane) = panes[i];
    let id = pane.id;
    let tick = (v.tick + 1) as u64;
    lemma_last_shown(v.agents, panes, tick, i);
    assert(shows(panes, id));
    if v.agents.contains_key(id) {
        assert(entry_ok(v.agents[id], id, v.tick));
    }
}

/// An agent that a manifest shows alive is idle after it if and only if it has
/// had a message, and the last of them is more than sixty manifests ago.
pub proof fn shown_agent_is_idle_after_silence(
    v: RegistryView,
    panes: Seq<(usize, PaneView)>,
    i: int,
)
    requires
        consistent(v),
        v.tick < u64::MAX,
        shown_once(panes),
        0 <= i < panes.len(),
        !panes[i].1.is_plugin,
        panes[i].1.is_selectable,
        !panes[i].1.exited,
        v.agents.contains_key(panes[i].1.id),
    ensures
        ({
            let before = v.agents[panes[i].1.id];
            let after = updated(v, panes).agents[panes[i].1.id];
            after.status is Idle <==> before.last_message > 0 && v.tick + 1 - before.last_message
                > 60
        }),
{
    let id = panes[i].1.id;
    lemma_last_shown(v.agents, panes, (v.tick + 1) as u64, i);
    assert(shows(panes, id));
    assert(entry_ok(v.agents[id], id, v.tick));
}

/// A dead agent is kept for a hundred and twenty manifests after it died, and
/// no longer.
pub proof fn dead_agents_are_kept_for_a_while(
    v: RegistryView,
    panes: Seq<(usize, PaneView)>,
    id: u32,
)
    requires
        consistent(v),
        v.tick < u64::MAX,
        v.agents.contains_key(id),
        v.agents[id].status is Dead,
        !shows(panes, id),
    ensures
        updated(v, panes).agents.contains_key(id) <==> v.tick + 1 - v.agents[id].status->died_at
            <= 120,
{
    dead_agent_is_forgotten_in_time(v, panes, id);
}

/// A manifest shows a pane if and only if one of its panes has that number, and
/// is a terminal that can be selected.
pub proof fn only_terminals_are_shown(panes: Seq<(usize, PaneView)>, id: u32)
    ensures
        shows(panes, id) <==> exists|i: int|
            0 <= i < panes.len() && (#[trigger] panes[i]).1.id == id && !panes[i].1.is_plugin
                && panes[i].1.is_selectable,
{
    if shows(panes, id) {
        let i = choose|i: int|
            0 <= i < panes.len() && eligible((#[trigger] panes[i]).1) && panes[i].1.id == id;
        assert(panes[i].1.id == id && !panes[i].1.is_plugin);
    }
    if exists|i: int|
        0 <= i < panes.len() && (#[trigger] panes[i]).1.id == id && !panes[i].1.is_plugin
            && panes[i].1.is_selectable {
        let i = choose|i: int|
            0 <= i < panes.len() && (#[trigger] panes[i]).1.id == id && !panes[i].1.is_plugin
                && panes[i].1.is_selectable;
        assert(eligible(panes[i].1));
    }
}

/// A message changes nothing of an agent but the time of its last message, and
/// that it is idle no more; and nothing where there is no agent.
pub proof fn message_changes_only_activity(v: RegistryView, pane_id: u32)
    ensures
        touched(v, pane_id).tick == v.tick,
        !v.agents.contains_key(pane_id) ==> touched(v, pane_id) == v,
        v.agents.contains_key(pane_id) ==> {
            let before = v.agents[pane_id];
            let after = touched(v, pane_id).agents[pane_id];
            &&& before.status is Idle ==> after.status is Active
            &&& !(before.status is Idle) ==> after.status == before.status
            &&& after == (EntryView { last_message: v.tick, status: after.status, ..before })
            &&& touched(v, pane_id).agents.remove(pane_id) == v.agents.remove(pane_id)
        },
{
    if v.agents.contains_key(pane_id) {
        assert(touched(v, pane_id).agents.remove(pane_id) =~= v.agents.remove(pane_id));
    }
}

/// In every state, an agent is filed under its own pane; no two have the same
/// name; one has a name if and only if it is registered, and capabilities only
/// then; nothing that is recorded lies ahead; and an idle one has been silent
/// for more than sixty manifests.
pub proof fn registry_keeps_its_agents_apart(r: AgentRegistry, a: u32, b: u32)
    requires
        r.wf(),
        r@.agents.contains_key(a),
        r@.agents.contains_key(b),
    ensures
        ({
            let e = r@.agents[a];
            &&& e.pane_id == a
            &&& e.registered <==> e.name is Some
            &&& e.capabilities.len() > 0 ==> e.registered
            &&& e.created_at <= r@.tick && e.last_seen <= r@.tick && e.last_message <= r@.tick
            &&& e.status matches AgentStatus::Dead { died_at, .. } ==> died_at <= r@.tick
            &&& e.status is Idle ==> e.last_message > 0 && r@.tick - e.last_message > 60
            &&& a != b && e.name is Some ==> e.name != r@.agents[b].name
        }),
{
    if r@.agents[a].name is Some && r@.agents[a].name == r@.agents[b].name {
        let name = r@.agents[a].name->0;
        assert(named(r@.agents, name, a));
        assert(named(r@.agents, name, b));
    }
}

/// A manifest is gone through tab by tab, and each pane is in the tab that holds
/// it.
pub proof fn manifests_are_gone_through_tab_by_tab(
    tabs: Seq<(usize, Vec<PaneInfo>)>,
    tab: usize,
    panes: Vec<PaneInfo>,
)
    ensures
        all_panes(Seq::empty()).len() == 0,
        ({
            let before = all_panes(tabs);
            let after = all_panes(tabs.push((tab, panes)));
            &&& after.len() == before.len() + panes@.len()
            &&& after.take(before.len() as int) == before
            &&& forall|i: int|
                0 <= i < panes@.len() ==> #[trigger] after[before.len() + i] == (tab, panes@[i]@)
        }),
{
    assert(tabs.push((tab, panes)).drop_last() =~= tabs);
    let before = all_panes(tabs);
    assert(all_panes(tabs.push((tab, panes))).take(before.len() as int) =~= before);
}

/// An agent that nobody registered is unnamed; its name is that of nobody.
pub proof fn names_are_those_of_registered_agents(v: RegistryView, name: Seq<char>)
    requires
        consistent(v),
    ensures
        holder(v.agents, name) matches Some(id) ==> v.agents.contains_key(id) && v.agents[id].name
            == Some(name) && v.agents[id].registered,
        holder(v.agents, name) is None ==> forall|id: u32| #[trigger]
            v.agents.contains_key(id) ==> v.agents[id].name != Some(name),
{
    if let Some(id) = holder(v.agents, name) {
        assert(named(v.agents, name, id));
        assert(entry_ok(v.agents[id], id, v.tick));
    } else {
        assert forall|id: u32| #[trigger] v.agents.contains_key(id) implies v.agents[id].name
            != Some(name) by {
            assert(!named(v.agents, name, id));
        }
    }
}

/// Of a list of agents those take part in the session that are active or idle,
/// as they are and in their order.
pub proof fn active_agents_keep_their_order(s: Seq<EntryView>)
    ensures
        active_among(s) == s.filter(|e: EntryView| e.status is Active || e.status is Idle),
    decreases s.len(),
{
    reveal(Seq::filter);
    if s.len() > 0 {
        active_agents_keep_their_order(s.drop_last());
    }
}

/// The contents of an agent are those of its parts, and those of a pane too.
pub proof fn contents_are_those_of_the_parts(e: AgentEntry, p: PaneInfo)
    ensures
        e@.pane_id == e.pane_id,
        e.name matches Some(name) ==> e@.name == Some(name@),
        e.name is None ==> e@.name is None,
        e@.capabilities.len() == e.capabilities@.len(),
        forall|i: int|
            0 <= i < e.capabilities@.len() ==> #[trigger] e@.capabilities[i] == e.capabilities@[i]@,
        e@.status == e.status,
        e@.registered == e.registered,
        e@.created_at == e.created_at,
        e@.last_seen == e.last_seen,
        e@.last_message == e.last_message,
        e.command matches Some(c) ==> e@.command == Some(c@),
        e.command is None ==> e@.command is None,
        e@.title == e.title@,
        e@.tab == e.tab,
        e@.is_floating == e.is_floating,
        p@.id == p.id,
        p@.is_plugin == p.is_plugin,
        p@.is_selectable == p.is_selectable,
        p@.title == p.title@,
        p.terminal_command matches Some(c) ==> p@.terminal_command == Some(c@),
        p.terminal_command is None ==> p@.terminal_command is None,
        p@.is_floating == p.is_floating,
        p@.exited == p.exited,
        p@.exit_status == p.exit_status,
{
}

} // verus!

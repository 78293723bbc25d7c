//! The directory of agents that all processes of a user share: who there is,
//! and how each is reached.

use vstd::prelude::*;
use vstd::string::StringExecFns;

use crate::number::{decimal, decimal_of};
use crate::text::{clone_strings, same, views};

verus! {

/// After how long without a sign of life an agent is forgotten unless it is
/// permanent, in milliseconds.
pub const STALE_THRESHOLD_MS: u64 = 600000;

/// The bucket of the server that holds the directory.
pub const NATS_KV_BUCKET: &'static str = "rz-agents";

// ---------------------------------------------------------------------------
// Entries
// ---------------------------------------------------------------------------

/// An agent in the directory.
#[derive(Debug, Clone)]
pub struct AgentEntry {
    pub name: String,
    /// What identifies the agent: a surface, or a process.
    pub id: String,
    /// One of `cmux`, `http`, `file` and `nats`.
    pub transport: String,
    /// A surface for `cmux`, an address for `http`, a name for `nats`.
    pub endpoint: String,
    /// What the agent can do, such as `code` or `review`.
    pub capabilities: Vec<String>,
    /// Whether the entry stays when the agent is gone.
    pub permanent: bool,
    /// When the agent first registered, in milliseconds.
    pub registered_at: u64,
    /// When the agent last gave a sign of life, in milliseconds.
    pub last_seen: u64,
}

/// The contents of an [`AgentEntry`].
pub ghost struct EntryView {
    pub name: Seq<char>,
    pub id: Seq<char>,
    pub transport: Seq<char>,
    pub endpoint: Seq<char>,
    pub capabilities: Seq<Seq<char>>,
    pub permanent: bool,
    pub registered_at: u64,
    pub last_seen: u64,
}

impl View for AgentEntry {
    type V = EntryView;

    open spec fn view(&self) -> EntryView {
        EntryView {
            name: self.name@,
            id: self.id@,
            transport: self.transport@,
            endpoint: self.endpoint@,
            capabilities: views(self.capabilities@),
            permanent: self.permanent,
            registered_at: self.registered_at,
            last_seen: self.last_seen,
        }
    }
}

/// The contents of a list of entries.
pub open spec fn entry_views(v: Seq<AgentEntry>) -> Seq<EntryView> {
    v.map_values(|e: AgentEntry| e@)
}

impl AgentEntry {
    /// An entry with the same contents.
    pub fn copy(&self) -> (r: AgentEntry)
        ensures
            r@ == self@,
    {
        AgentEntry {
            name: self.name.clone(),
            id: self.id.clone(),
            transport: self.transport.clone(),
            endpoint: self.endpoint.clone(),
            capabilities: clone_strings(&self.capabilities),
            permanent: self.permanent,
            registered_at: self.registered_at,
            last_seen: self.last_seen,
        }
    }

    /// The entry after a sign of life.
    pub fn refreshed(&self, now_ms: u64) -> (r: AgentEntry)
        ensures
            r@ == (EntryView { last_seen: now_ms, ..self@ }),
    {
        AgentEntry { last_seen: now_ms, ..self.copy() }
    }

    /// An agent that is reached through the hub, and that runs as a process of
    /// the given kind.
    pub fn of_process(kind: &str, pid: u32, name: &str, permanent: bool, now_ms: u64) -> (r:
        AgentEntry)
        ensures
            r@ == process_entry(kind@, pid, name@, permanent, now_ms),
    {
        let none: Vec<String> = Vec::new();
        assert(views(none@) =~= Seq::<Seq<char>>::empty());
        AgentEntry {
            name: name.to_owned(),
            id: kind.to_owned().concat("-").concat(decimal_of(pid as u64).as_str()),
            transport: "nats".to_owned(),
            endpoint: name.to_owned(),
            capabilities: none,
            permanent,
            registered_at: now_ms,
            last_seen: now_ms,
        }
    }
}

/// An agent that is reached through the hub, and that runs as a process of the
/// given kind.
pub open spec fn process_entry(
    kind: Seq<char>,
    pid: u32,
    name: Seq<char>,
    permanent: bool,
    now_ms: u64,
) -> EntryView {
    EntryView {
        name,
        id: kind + "-"@ + decimal(pid as nat),
        transport: "nats"@,
        endpoint: name,
        capabilities: Seq::empty(),
        permanent,
        registered_at: now_ms,
        last_seen: now_ms,
    }
}

// ---------------------------------------------------------------------------
// The local directory
// ---------------------------------------------------------------------------

/// The directory, as it is kept in a file: entries by the names under which
/// they are filed.
pub struct Registry {
    entries: Vec<(String, AgentEntry)>,
}

/// The keys and contents of filed entries.
pub open spec fn filed(v: Seq<(String, AgentEntry)>) -> Seq<(Seq<char>, EntryView)> {
    v.map_values(|p: (String, AgentEntry)| (p.0@, p.1@))
}

/// The entries by their keys; the last one counts where a key is there twice.
pub open spec fn filed_map(v: Seq<(Seq<char>, EntryView)>) -> Map<Seq<char>, EntryView>
    decreases v.len(),
{
    if v.len() == 0 {
        Map::empty()
    } else {
        filed_map(v.drop_last()).insert(v.last().0, v.last().1)
    }
}

/// Whether no key is there twice.
pub open spec fn keys_distinct(v: Seq<(Seq<char>, EntryView)>) -> bool {
    forall|i: int, j: int| 0 <= i < j < v.len() ==> (#[trigger] v[i]).0 != (#[trigger] v[j]).0
}

impl View for Registry {
    type V = Map<Seq<char>, EntryView>;

    closed spec fn view(&self) -> Map<Seq<char>, EntryView> {
        filed_map(filed(self.entries@))
    }
}

proof fn lemma_filed_map(v: Seq<(Seq<char>, EntryView)>)
    requires
        keys_distinct(v),
    ensures
        forall|i: int|
            0 <= i < v.len() ==> filed_map(v).contains_key((#[trigger] v[i]).0) && filed_map(
                v,
            )[v[i].0] == v[i].1,
        forall|k: Seq<char>| #[trigger]
            filed_map(v).contains_key(k) ==> exists|i: int|
                0 <= i < v.len() && (#[trigger] v[i]).0 == k,
    decreases v.len(),
{
    if v.len() > 0 {
        let rest = v.drop_last();
        lemma_filed_map(rest);
        assert forall|i: int| 0 <= i < v.len() implies filed_map(v).contains_key(
            (#[trigger] v[i]).0,
        ) && filed_map(v)[v[i].0] == v[i].1 by {
            if i < rest.len() {
                assert(rest[i] == v[i]);
                assert(v[i].0 != v[v.len() - 1].0);
            }
        }
        assert forall|k: Seq<char>| #[trigger] filed_map(v).contains_key(k) implies exists|i: int|
            0 <= i < v.len() && (#[trigger] v[i]).0 == k by {
            if k == v.last().0 {
                assert(v[v.len() - 1].0 == k);
            } else {
                assert(filed_map(rest).contains_key(k));
                let i = choose|i: int| 0 <= i < rest.len() && (#[trigger] rest[i]).0 == k;
                assert(v[i].0 == k);
            }
        }
    }
}

/// Two maps of filed entries are equal where they hold the same.
proof fn lemma_same_map(v: Seq<(Seq<char>, EntryView)>, m: Map<Seq<char>, EntryView>)
    requires
        keys_distinct(v),
        forall|i: int|
            0 <= i < v.len() ==> m.contains_key((#[trigger] v[i]).0) && m[v[i].0] == v[i].1,
        forall|k: Seq<char>| #[trigger]
            m.contains_key(k) ==> exists|i: int| 0 <= i < v.len() && (#[trigger] v[i]).0 == k,
    ensures
        filed_map(v) == m,
{
    lemma_filed_map(v);
    assert forall|k: Seq<char>| filed_map(v).contains_key(k) <==> m.contains_key(k) by {
        if filed_map(v).contains_key(k) {
            let i = choose|i: int| 0 <= i < v.len() && (#[trigger] v[i]).0 == k;
            assert(m.contains_key(v[i].0));
        }
        if m.contains_key(k) {
            let i = choose|i: int| 0 <= i < v.len() && (#[trigger] v[i]).0 == k;
            assert(filed_map(v).contains_key(v[i].0));
        }
    }
    assert forall|k: Seq<char>| filed_map(v).contains_key(k) implies filed_map(v)[k] == m[k] by {
        let i = choose|i: int| 0 <= i < v.len() && (#[trigger] v[i]).0 == k;
        assert(filed_map(v)[v[i].0] == m[v[i].0]);
    }
    assert(filed_map(v) =~= m);
}

impl Registry {
    /// Whether no name is filed twice.
    pub closed spec fn wf(&self) -> bool {
        keys_distinct(filed(self.entries@))
    }

    /// A directory without entries.
    pub fn new() -> (r: Registry)
        ensures
            r.wf(),
            r@ == Map::<Seq<char>, EntryView>::empty(),
    {
        Registry { entries: Vec::new() }
    }

    /// The place of the entry that is filed under `name`.
    #[verifier::loop_isolation(false)]
    fn place(&self, name: &str) -> (r: Option<usize>)
        requires
            self.wf(),
        ensures
            match r {
                Some(i) => i < self.entries@.len() && self.entries@[i as int].0@ == name@
                    && self@.contains_key(name@) && self@[name@] == self.entries@[i as int].1@,
                None => !self@.contains_key(name@),
            },
    {
        let ghost all = filed(self.entries@);
        proof {
            lemma_filed_map(all);
        }
        let mut i: usize = 0;
        while i < self.entries.len()
            invariant
                i <= self.entries@.len(),
                forall|k: int| 0 <= k < i ==> (#[trigger] all[k]).0 != name@,
            decreases self.entries@.len() - i,
        {
            if same(self.entries[i].0.as_str(), name) {
                assert(all[i as int].0 == name@);
                return Some(i);
            }
            i = i + 1;
        }
        None
    }

    /// Takes the entry that is filed under `name` out.
    fn take(&mut self, name: &str)
        requires
            old(self).wf(),
        ensures
            final(self).wf(),
            final(self)@ == old(self)@.remove(name@),
    {
        let ghost before = self@;
        match self.place(name) {
            Some(i) => {
                let ghost all = filed(self.entries@);
                let _ = self.entries.remove(i);
                proof {
                    lemma_filed_map(all);
                    let after = filed(self.entries@);
                    assert(after =~= all.remove(i as int));
                    assert forall|a: int, b: int| 0 <= a < b < after.len() implies (
                    #[trigger] after[a]).0 != (#[trigger] after[b]).0 by {
                        let x = if a < i {
                            a
                        } else {
                            a + 1
                        };
                        let y = if b < i {
                            b
                        } else {
                            b + 1
                        };
                        assert(all[x].0 != all[y].0);
                    }
                    assert forall|k: int| 0 <= k < after.len() implies before.remove(
                        name@,
                    ).contains_key((#[trigger] after[k]).0) && before.remove(name@)[after[k].0]
                        == after[k].1 by {
                        let x = if k < i {
                            k
                        } else {
                            k + 1
                        };
                        assert(after[k] == all[x]);
                        assert(all[x].0 != all[i as int].0);
                    }
                    assert forall|k: Seq<char>| #[trigger]
                        before.remove(name@).contains_key(k) implies exists|j: int|
                        0 <= j < after.len() && (#[trigger] after[j]).0 == k by {
                        let j = choose|j: int| 0 <= j < all.len() && (#[trigger] all[j]).0 == k;
                        if j < i {
                            assert(after[j].0 == k);
                        } else {
                            assert(after[j - 1].0 == k);
                        }
                    }
                    lemma_same_map(after, before.remove(name@));
                }
            },
            None => {
                assert(before.remove(name@) =~= before);
            },
        }
    }

    /// Files an entry under `key`, in place of one that is there.
    pub fn file(&mut self, key: String, entry: AgentEntry)
        requires
            old(self).wf(),
        ensures
            final(self).wf(),
            final(self)@ == old(self)@.insert(key@, entry@),
    {
        let ghost before = self@;
        self.take(key.as_str());
        let ghost all = filed(self.entries@);
        self.entries.push((key, entry));
        proof {
            lemma_filed_map(all);
            let after = filed(self.entries@);
            assert(after =~= all.push((key@, entry@)));
            assert(after.drop_last() =~= all);
            assert forall|a: int| 0 <= a < all.len() implies (#[trigger] all[a]).0 != key@ by {
                assert(filed_map(all).contains_key(all[a].0));
            }
            assert forall|a: int, b: int| 0 <= a < b < after.len() implies (#[trigger] after[a]).0
                != (#[trigger] after[b]).0 by {
                assert(after[a] == all[a]);
            }
            assert(self@ =~= before.insert(key@, entry@));
        }
    }

    /// The keys and the entries.
    pub fn into_entries(self) -> (r: Vec<(String, AgentEntry)>)
        requires
            self.wf(),
        ensures
            filed_map(filed(r@)) == self@,
            keys_distinct(filed(r@)),
    {
        self.entries
    }
}

/// Files an agent under its name, in place of one that is there.
pub fn register(reg: &mut Registry, entry: AgentEntry)
    requires
        old(reg).wf(),
    ensures
        final(reg).wf(),
        final(reg)@ == old(reg)@.insert(entry@.name, entry@),
{
    let name = entry.name.clone();
    reg.file(name, entry);
}

/// Removes an agent by its name.
pub fn deregister(reg: &mut Registry, name: &str)
    requires
        old(reg).wf(),
    ensures
        final(reg).wf(),
        final(reg)@ == old(reg)@.remove(name@),
{
    reg.take(name);
}

/// The agent with the given name.
pub fn lookup(reg: &Registry, name: &str) -> (r: Option<AgentEntry>)
    requires
        reg.wf(),
    ensures
        match r {
            Some(e) => reg@.contains_key(name@) && e@ == reg@[name@],
            None => !reg@.contains_key(name@),
        },
{
    match reg.place(name) {
        Some(i) => Some(reg.entries[i].1.copy()),
        None => None,
    }
}

/// Whether a list holds exactly the entries of a directory, each once.
pub open spec fn lists(v: Seq<EntryView>, m: Map<Seq<char>, EntryView>) -> bool {
    exists|keys: Seq<Seq<char>>| #[trigger] lists_under(v, keys, m)
}

/// Whether a list holds the entries of a directory, in the order of the given
/// keys.
pub open spec fn lists_under(
    v: Seq<EntryView>,
    keys: Seq<Seq<char>>,
    m: Map<Seq<char>, EntryView>,
) -> bool {
    &&& keys.no_duplicates()
    &&& keys.len() == v.len()
    &&& forall|i: int|
        0 <= i < v.len() ==> m.contains_key(#[trigger] keys[i]) && m[keys[i]] == v[i]
    &&& forall|k: Seq<char>| #[trigger] m.contains_key(k) ==> keys.contains(k)
}

/// All the agents, in no particular order.
#[verifier::loop_isolation(false)]
pub fn list_all(reg: &Registry) -> (r: Vec<AgentEntry>)
    requires
        reg.wf(),
    ensures
        lists(entry_views(r@), reg@),
{
    let mut out: Vec<AgentEntry> = Vec::new();
    let mut i: usize = 0;
    while i < reg.entries.len()
        invariant
            i <= reg.entries@.len(),
            out@.len() == i,
            forall|k: int| 0 <= k < i ==> (#[trigger] out@[k])@ == reg.entries@[k].1@,
        decreases reg.entries@.len() - i,
    {
        out.push(reg.entries[i].1.copy());
        i = i + 1;
    }
    proof {
        let all = filed(reg.entries@);
        lemma_filed_map(all);
        let keys = all.map_values(|p: (Seq<char>, EntryView)| p.0);
        assert forall|a: int, b: int| 0 <= a < b < keys.len() implies keys[a] != keys[b] by {
            assert(all[a].0 != all[b].0);
        }
        assert forall|k: int| 0 <= k < keys.len() implies reg@.contains_key(#[trigger] keys[k])
            && reg@[keys[k]] == entry_views(out@)[k] by {
            assert(reg@.contains_key(all[k].0));
            assert(out@[k]@ == reg.entries@[k].1@);
        }
        assert forall|k: Seq<char>| #[trigger] reg@.contains_key(k) implies keys.contains(k) by {
            let j = choose|j: int| 0 <= j < all.len() && (#[trigger] all[j]).0 == k;
            assert(keys[j] == k);
        }
        assert(lists_under(entry_views(out@), keys, reg@));
    }
    out
}

// ---------------------------------------------------------------------------
// Age
// ---------------------------------------------------------------------------

/// The time before which a sign of life is too old.
pub open spec fn cutoff(max_age_secs: u64, now_ms: u64) -> int {
    if now_ms >= max_age_secs * 1000 {
        now_ms - max_age_secs * 1000
    } else {
        0
    }
}

/// Whether an entry stays when those without a sign of life since the given
/// time are removed. That of a permanent agent does in any case.
pub open spec fn stays(e: EntryView, since: int) -> bool {
    e.permanent || e.last_seen >= since
}

/// The entries of permanent agents, and those with a sign of life at or after
/// the given time.
pub open spec fn seen_since(m: Map<Seq<char>, EntryView>, since: int) -> Map<Seq<char>, EntryView> {
    Map::new(
        |k: Seq<char>| m.contains_key(k) && stays(m[k], since),
        |k: Seq<char>| m[k],
    )
}

/// Those of a list of filed entries that stay.
spec fn fresh_of(v: Seq<(Seq<char>, EntryView)>, since: int) -> Seq<(Seq<char>, EntryView)>
    decreases v.len(),
{
    if v.len() == 0 {
        Seq::empty()
    } else if stays(v.last().1, since) {
        fresh_of(v.drop_last(), since).push(v.last())
    } else {
        fresh_of(v.drop_last(), since)
    }
}

proof fn lemma_fresh_of(v: Seq<(Seq<char>, EntryView)>, since: int)
    requires
        keys_distinct(v),
    ensures
        keys_distinct(fresh_of(v, since)),
        forall|i: int|
            0 <= i < fresh_of(v, since).len() ==> v.contains(#[trigger] fresh_of(v, since)[i]),
        filed_map(fresh_of(v, since)) == seen_since(filed_map(v), since),
        filed_map(v).dom().finite(),
        filed_map(v).len() == v.len(),
        fresh_of(v, since).len() <= v.len(),
    decreases v.len(),
{
    if v.len() == 0 {
        assert(filed_map(fresh_of(v, since)) =~= seen_since(filed_map(v), since));
    } else {
        let rest = v.drop_last();
        let last = v.last();
        assert forall|a: int, b: int| 0 <= a < b < rest.len() implies (#[trigger] rest[a]).0 != (
        #[trigger] rest[b]).0 by {
            assert(v[a].0 != v[b].0);
        }
        lemma_fresh_of(rest, since);
        lemma_filed_map(rest);
        let before = fresh_of(rest, since);
        let now = fresh_of(v, since);
        assert(!filed_map(rest).contains_key(last.0)) by {
            if filed_map(rest).contains_key(last.0) {
                let i = choose|i: int| 0 <= i < rest.len() && (#[trigger] rest[i]).0 == last.0;
                assert(v[i].0 != v[v.len() - 1].0);
            }
        }
        assert forall|i: int| 0 <= i < before.len() implies v.contains(#[trigger] before[i])
            && before[i].0 != last.0 by {
            assert(rest.contains(before[i]));
            let j = rest.index_of(before[i]);
            assert(v[j] == before[i]);
            assert(v[j].0 != v[v.len() - 1].0);
        }
        assert(v.contains(last)) by {
            assert(v[v.len() - 1] == last);
        }
        if stays(last.1, since) {
            assert(now.drop_last() =~= before);
        }
        assert(filed_map(now) =~= seen_since(filed_map(v), since));
    }
}

/// Removes the agents without a sign of life for `max_age_secs` seconds, but
/// for permanent ones. The result is how many were removed.
#[verifier::loop_isolation(false)]
pub fn cleanup_stale(reg: &mut Registry, max_age_secs: u64, now_ms: u64) -> (r: usize)
    requires
        old(reg).wf(),
        max_age_secs * 1000 <= u64::MAX,
    ensures
        final(reg).wf(),
        final(reg)@ == seen_since(old(reg)@, cutoff(max_age_secs, now_ms)),
        r == old(reg)@.len() - final(reg)@.len(),
{
    let limit: u64 = now_ms.saturating_sub(max_age_secs * 1000);
    let before: usize = reg.entries.len();
    let ghost all = filed(reg.entries@);
    let mut kept: Vec<(String, AgentEntry)> = Vec::new();
    let mut i: usize = 0;
    assert(filed(kept@) =~= fresh_of(all.take(0), limit as int));
    while i < reg.entries.len()
        invariant
            i <= reg.entries@.len(),
            filed(kept@) == fresh_of(all.take(i as int), limit as int),
        decreases reg.entries@.len() - i,
    {
        assert(all.take(i + 1).drop_last() =~= all.take(i as int));
        let ghost so_far = filed(kept@);
        if reg.entries[i].1.permanent || reg.entries[i].1.last_seen >= limit {
            kept.push((reg.entries[i].0.clone(), reg.entries[i].1.copy()));
            assert(filed(kept@) =~= so_far.push(all[i as int]));
        }
        i = i + 1;
    }
    proof {
        assert(all.take(i as int) =~= all);
        lemma_fresh_of(all, limit as int);
        lemma_fresh_of(filed(kept@), 0);
    }
    let removed: usize = before - kept.len();
    reg.entries = kept;
    removed
}

/// Notes a sign of life of an agent. The result is whether the agent is known.
pub fn touch(reg: &mut Registry, name: &str, now_ms: u64) -> (r: bool)
    requires
        old(reg).wf(),
    ensures
        final(reg).wf(),
        r == old(reg)@.contains_key(name@),
        final(reg)@ == (if old(reg)@.contains_key(name@) {
            old(reg)@.insert(name@, EntryView { last_seen: now_ms, ..old(reg)@[name@] })
        } else {
            old(reg)@
        }),
{
    match lookup(reg, name) {
        Some(e) => {
            reg.file(name.to_owned(), e.refreshed(now_ms));
            true
        },
        None => false,
    }
}

// ---------------------------------------------------------------------------
// The shared directory
// ---------------------------------------------------------------------------

/// Whether an agent in the shared directory has given no sign of life for too
/// long. A permanent agent never has.
pub open spec fn stale(e: EntryView, now_ms: u64) -> bool {
    !e.permanent && now_ms - e.last_seen > STALE_THRESHOLD_MS
}

/// Whether an agent in the shared directory has given no sign of life for too
/// long.
pub fn is_stale(entry: &AgentEntry, now_ms: u64) -> (r: bool)
    ensures
        r == stale(entry@, now_ms),
{
    !entry.permanent && now_ms.saturating_sub(entry.last_seen) > STALE_THRESHOLD_MS
}

/// Those of a list of agents that are not stale.
pub open spec fn live_among(v: Seq<EntryView>, now_ms: u64) -> Seq<EntryView>
    decreases v.len(),
{
    if v.len() == 0 {
        Seq::empty()
    } else if stale(v.last(), now_ms) {
        live_among(v.drop_last(), now_ms)
    } else {
        live_among(v.drop_last(), now_ms).push(v.last())
    }
}

/// The names of those of a list of agents that are stale.
pub open spec fn stale_names(v: Seq<EntryView>, now_ms: u64) -> Seq<Seq<char>>
    decreases v.len(),
{
    if v.len() == 0 {
        Seq::empty()
    } else if stale(v.last(), now_ms) {
        stale_names(v.drop_last(), now_ms).push(v.last().name)
    } else {
        stale_names(v.drop_last(), now_ms)
    }
}

/// Sorts the agents of the shared directory into those that are listed, and the
/// names of those that are forgotten.
#[verifier::loop_isolation(false)]
pub fn nats_list(found: Vec<AgentEntry>, now_ms: u64) -> (r: (Vec<AgentEntry>, Vec<String>))
    ensures
        entry_views(r.0@) == live_among(entry_views(found@), now_ms),
        views(r.1@) == stale_names(entry_views(found@), now_ms),
{
    let ghost all = entry_views(found@);
    let mut listed: Vec<AgentEntry> = Vec::new();
    let mut gone: Vec<String> = Vec::new();
    let mut i: usize = 0;
    assert(entry_views(listed@) =~= live_among(all.take(0), now_ms));
    assert(views(gone@) =~= stale_names(all.take(0), now_ms));
    while i < found.len()
        invariant
            i <= found@.len(),
            entry_views(listed@) == live_among(all.take(i as int), now_ms),
            views(gone@) == stale_names(all.take(i as int), now_ms),
        decreases found@.len() - i,
    {
        assert(all.take(i + 1).drop_last() =~= all.take(i as int));
        let ghost before = entry_views(listed@);
        let ghost names = views(gone@);
        if is_stale(&found[i], now_ms) {
            gone.push(found[i].name.clone());
            assert(views(gone@) =~= names.push(all[i as int].name));
        } else {
            listed.push(found[i].copy());
            assert(entry_views(listed@) =~= before.push(all[i as int]));
        }
        i = i + 1;
    }
    assert(all.take(i as int) =~= all);
    (listed, gone)
}

/// What looking up an agent in the shared directory comes to.
#[derive(Debug)]
pub enum Found {
    /// The agent is there.
    Live(AgentEntry),
    /// The agent was there, and is to be forgotten.
    Stale,
    Missing,
}

/// What looking up an agent in the shared directory comes to, from the entry
/// that is filed there.
pub fn nats_lookup(filed: Option<AgentEntry>, now_ms: u64) -> (r: Found)
    ensures
        match filed {
            Some(e) => if stale(e@, now_ms) {
                r is Stale
            } else {
                r == Found::Live(e)
            },
            None => r is Missing,
        },
{
    match filed {
        Some(e) => {
            if is_stale(&e, now_ms) {
                Found::Stale
            } else {
                Found::Live(e)
            }
        },
        None => Found::Missing,
    }
}

// ---------------------------------------------------------------------------
// Laws
// ---------------------------------------------------------------------------

/// An agent that has registered is found under its name as it registered, and
/// no other agent is changed.
pub proof fn registered_agent_is_found(m: Map<Seq<char>, EntryView>, e: EntryView)
    ensures
        m.insert(e.name, e).contains_key(e.name),
        m.insert(e.name, e)[e.name] == e,
        forall|k: Seq<char>|
            k != e.name ==> (m.insert(e.name, e).contains_key(k) <==> m.contains_key(k)) && m.insert(
                e.name,
                e,
            )[k] == m[k],
{
}

/// Taking a new agent out again leaves the directory as it was.
pub proof fn deregister_undoes_register(m: Map<Seq<char>, EntryView>, e: EntryView)
    requires
        !m.contains_key(e.name),
    ensures
        m.insert(e.name, e).remove(e.name) == m,
{
    assert(m.insert(e.name, e).remove(e.name) =~= m);
}

/// A permanent agent is never forgotten by the shared directory, however old
/// its last sign of life is.
pub proof fn permanent_agents_stay(v: Seq<EntryView>, now_ms: u64, i: int)
    requires
        0 <= i < v.len(),
        v[i].permanent,
    ensures
        live_among(v, now_ms).contains(v[i]),
    decreases v.len(),
{
    let rest = v.drop_last();
    let now = live_among(v, now_ms);
    if i < rest.len() {
        permanent_agents_stay(rest, now_ms, i);
        let before = live_among(rest, now_ms);
        let k = before.index_of(rest[i]);
        assert(now[k] == rest[i]);
    } else {
        assert(now[now.len() - 1] == v[i]);
    }
}

/// A permanent agent is not removed from the local directory for its age, and
/// every agent that stays is left as it is.
pub proof fn cleaning_up_keeps_permanent_agents(m: Map<Seq<char>, EntryView>, since: int)
    ensures
        forall|k: Seq<char>| #[trigger]
            m.contains_key(k) && m[k].permanent ==> seen_since(m, since).contains_key(k),
        forall|k: Seq<char>| #[trigger]
            seen_since(m, since).contains_key(k) ==> m.contains_key(k) && seen_since(m, since)[k]
                == m[k],
{
}

/// A temporary agent is listed for as long as its last sign of life is no more
/// than ten minutes ago, and forgotten after that.
pub proof fn temporary_agents_are_forgotten_in_time(v: Seq<EntryView>, now_ms: u64)
    requires
        forall|i: int| 0 <= i < v.len() ==> !(#[trigger] v[i]).permanent,
    ensures
        forall|i: int|
            0 <= i < v.len() && now_ms - (#[trigger] v[i]).last_seen <= 600000 ==> live_among(
                v,
                now_ms,
            ).contains(v[i]),
        forall|i: int|
            0 <= i < v.len() && now_ms - (#[trigger] v[i]).last_seen > 600000 ==> stale_names(
                v,
                now_ms,
            ).contains(v[i].name),
        forall|i: int|
            0 <= i < live_among(v, now_ms).len() ==> now_ms - (#[trigger] live_among(
                v,
                now_ms,
            )[i]).last_seen <= 600000,
    decreases v.len(),
{
    if v.len() > 0 {
        let rest = v.drop_last();
        assert forall|i: int| 0 <= i < rest.len() implies !(#[trigger] rest[i]).permanent by {
            assert(!v[i].permanent);
        }
        temporary_agents_are_forgotten_in_time(rest, now_ms);
        let live = live_among(v, now_ms);
        let names = stale_names(v, now_ms);
        let live_before = live_among(rest, now_ms);
        let names_before = stale_names(rest, now_ms);
        assert(!v[v.len() - 1].permanent);
        assert forall|i: int|
            0 <= i < v.len() && now_ms - (#[trigger] v[i]).last_seen
                <= 600000 implies live.contains(v[i]) by {
            if i < rest.len() {
                assert(rest[i] == v[i]);
                let k = live_before.index_of(rest[i]);
                assert(live[k] == rest[i]);
            } else {
                assert(live[live.len() - 1] == v[i]);
            }
        }
        assert forall|i: int|
            0 <= i < v.len() && now_ms - (#[trigger] v[i]).last_seen
                > 600000 implies names.contains(v[i].name) by {
            if i < rest.len() {
                assert(rest[i] == v[i]);
                let k = names_before.index_of(rest[i].name);
                assert(names[k] == rest[i].name);
            } else {
                assert(names[names.len() - 1] == v[i].name);
            }
        }
        assert forall|i: int| 0 <= i < live.len() implies now_ms - (#[trigger] live[i]).last_seen
            <= 600000 by {
            if i < live_before.len() {
                assert(live[i] == live_before[i]);
            }
        }
    }
}

/// A sign of life keeps a temporary agent listed.
pub proof fn sign_of_life_keeps_agent(e: EntryView, now_ms: u64)
    ensures
        !stale(EntryView { last_seen: now_ms, ..e }, now_ms),
{
}

/// The entry of a process gives its name, under which it is reached on the hub,
/// and tells the process by its kind and its number; it has no capabilities,
/// stays if and only if that is asked, and was just seen.
pub proof fn processes_are_entered_as_they_are(
    kind: Seq<char>,
    pid: u32,
    name: Seq<char>,
    permanent: bool,
    now_ms: u64,
)
    ensures
        ({
            let e = process_entry(kind, pid, name, permanent, now_ms);
            &&& e.name == name
            &&& e.id == kind + "-"@ + decimal(pid as nat)
            &&& e.transport == "nats"@
            &&& e.endpoint == name
            &&& e.capabilities.len() == 0
            &&& e.permanent == permanent
            &&& e.registered_at == now_ms
            &&& e.last_seen == now_ms
        }),
{
}

/// Cleaning up keeps an agent if and only if it is permanent or has given a sign
/// of life within the given number of seconds, and keeps it as it is. One whose
/// last sign of life is exactly so long ago is kept.
pub proof fn cleaning_up_removes_exactly_the_old(
    m: Map<Seq<char>, EntryView>,
    max_age_secs: u64,
    now_ms: u64,
    name: Seq<char>,
)
    ensures
        ({
            let after = seen_since(m, cutoff(max_age_secs, now_ms));
            &&& after.contains_key(name) <==> m.contains_key(name) && (m[name].permanent
                || m[name].last_seen + max_age_secs * 1000 >= now_ms)
            &&& after.contains_key(name) ==> after[name] == m[name]
        }),
{
}

/// An agent of the shared directory is stale if and only if it is not permanent
/// and its last sign of life is more than ten minutes ago.
pub proof fn agents_grow_stale_after_ten_minutes(e: EntryView, now_ms: u64)
    ensures
        stale(e, now_ms) <==> !e.permanent && e.last_seen + 600000 < now_ms,
{
}

/// Of the agents of the shared directory those that are not stale are listed,
/// as they are and in their order, and those that are stale are forgotten by
/// their names; every agent is one or the other.
pub proof fn shared_agents_are_listed_or_forgotten(v: Seq<EntryView>, now_ms: u64)
    ensures
        live_among(v, now_ms) == v.filter(
            |e: EntryView| e.permanent || e.last_seen + 600000 >= now_ms,
        ),
        stale_names(v, now_ms) == v.filter(
            |e: EntryView| !e.permanent && e.last_seen + 600000 < now_ms,
        ).map_values(|e: EntryView| e.name),
        live_among(v, now_ms).len() + stale_names(v, now_ms).len() == v.len(),
    decreases v.len(),
{
    reveal(Seq::filter);
    let old = |e: EntryView| !e.permanent && e.last_seen + 600000 < now_ms;
    let name = |e: EntryView| e.name;
    if v.len() > 0 {
        let rest = v.drop_last();
        shared_agents_are_listed_or_forgotten(rest, now_ms);
        let gone = rest.filter(old);
        if old(v.last()) {
            assert(gone.push(v.last()).map_values(name) =~= gone.map_values(name).push(
                v.last().name,
            ));
        }
        assert(stale_names(v, now_ms) =~= v.filter(old).map_values(name));
    } else {
        assert(stale_names(v, now_ms) =~= v.filter(old).map_values(name));
    }
}

/// The entries that are filed are found under their keys, and the last one
/// counts where a key is there twice.
pub proof fn last_entry_of_a_key_counts(v: Seq<(Seq<char>, EntryView)>, key: Seq<char>, e: EntryView)
    ensures
        filed_map(v.push((key, e))).contains_key(key),
        filed_map(v.push((key, e)))[key] == e,
        filed_map(v.push((key, e))).remove(key) == filed_map(v).remove(key),
        filed_map(Seq::empty()) == Map::<Seq<char>, EntryView>::empty(),
{
    assert(v.push((key, e)).drop_last() =~= v);
    assert(filed_map(v.push((key, e))).remove(key) =~= filed_map(v).remove(key));
}

/// A list of a directory holds every agent of it, and nobody else.
pub proof fn lists_hold_every_agent(v: Seq<EntryView>, m: Map<Seq<char>, EntryView>)
    requires
        lists(v, m),
    ensures
        forall|k: Seq<char>| #[trigger] m.contains_key(k) ==> v.contains(m[k]),
        forall|i: int| 0 <= i < v.len() ==> m.contains_value(#[trigger] v[i]),
        m.dom().finite() ==> v.len() == m.dom().len(),
{
    let keys = choose|keys: Seq<Seq<char>>| #[trigger] lists_under(v, keys, m);
    assert forall|k: Seq<char>| #[trigger] m.contains_key(k) implies v.contains(m[k]) by {
        assert(keys.contains(k));
        let i = keys.index_of(k);
        assert(m[keys[i]] == v[i]);
    }
    assert forall|i: int| 0 <= i < v.len() implies m.contains_value(#[trigger] v[i]) by {
        assert(m.dom().contains(keys[i]) && m[keys[i]] == v[i]);
    }
    keys.unique_seq_to_set();
    assert(keys.to_set() =~= m.dom()) by {
        assert forall|k: Seq<char>| keys.to_set().contains(k) <==> m.dom().contains(k) by {
            if keys.to_set().contains(k) {
                let i = keys.index_of(k);
                assert(m.contains_key(keys[i]));
            }
            if m.contains_key(k) {
                assert(keys.contains(k));
            }
        }
    }
}

/// The contents of an entry are those of its parts.
pub proof fn contents_are_those_of_the_parts(e: AgentEntry)
    ensures
        e@.name == e.name@,
        e@.id == e.id@,
        e@.transport == e.transport@,
        e@.endpoint == e.endpoint@,
        e@.capabilities.len() == e.capabilities@.len(),
        forall|i: int|
            0 <= i < e.capabilities@.len() ==> #[trigger] e@.capabilities[i] == e.capabilities@[i]@,
        e@.permanent == e.permanent,
        e@.registered_at == e.registered_at,
        e@.last_seen == e.last_seen,
{
}

} // verus!

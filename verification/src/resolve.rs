//! Finding out how an agent is reached, from whatever name a user gives it.

use vstd::prelude::*;
use vstd::string::StringExecFns;

use crate::backend::{surface_views, Surface, SurfaceView};
use crate::json::{find_member, lookup, members_view};
use crate::registry::{AgentEntry, EntryView};
use crate::text::{
    after_prefix, chars_of, contains_text, has_prefix, occurs_in, opt_view,
    prefixes_and_rests_make_the_text, same, strip_prefix,
};

verus! {

// ---------------------------------------------------------------------------
// Targets
// ---------------------------------------------------------------------------

/// How an agent is reached.
#[derive(Debug)]
pub enum Target {
    /// A surface of cmux.
    Cmux(String),
    /// The mailbox of an agent.
    File(String),
    /// An address.
    Http(String),
    /// The subject of an agent on the hub.
    Nats(String),
}

/// The contents of a [`Target`].
pub ghost enum TargetView {
    Cmux(Seq<char>),
    File(Seq<char>),
    Http(Seq<char>),
    Nats(Seq<char>),
}

impl View for Target {
    type V = TargetView;

    open spec fn view(&self) -> TargetView {
        match self {
            Target::Cmux(s) => TargetView::Cmux(s@),
            Target::File(s) => TargetView::File(s@),
            Target::Http(s) => TargetView::Http(s@),
            Target::Nats(s) => TargetView::Nats(s@),
        }
    }
}

/// How an agent in a directory is reached.
pub open spec fn target_of(e: EntryView) -> TargetView {
    if e.transport == "http"@ {
        TargetView::Http(e.endpoint)
    } else if e.transport == "file"@ {
        TargetView::File(e.name)
    } else if e.transport == "nats"@ {
        TargetView::Nats(e.name)
    } else {
        TargetView::Cmux(e.endpoint)
    }
}

/// How an agent in a directory is reached.
pub fn registry_target(entry: &AgentEntry) -> (r: Target)
    ensures
        r@ == target_of(entry@),
{
    let transport = entry.transport.as_str();
    if same(transport, "http") {
        Target::Http(entry.endpoint.clone())
    } else if same(transport, "file") {
        Target::File(entry.name.clone())
    } else if same(transport, "nats") {
        Target::Nats(entry.name.clone())
    } else {
        Target::Cmux(entry.endpoint.clone())
    }
}

/// The text that a target is known by.
pub open spec fn target_text(t: TargetView) -> Seq<char> {
    match t {
        TargetView::Cmux(s) => s,
        TargetView::File(s) => s,
        TargetView::Http(s) => s,
        TargetView::Nats(s) => s,
    }
}

impl Target {
    /// The text that the target is known by.
    pub fn id(&self) -> (r: String)
        ensures
            r@ == target_text(self@),
    {
        match self {
            Target::Cmux(s) => s.clone(),
            Target::File(s) => s.clone(),
            Target::Http(s) => s.clone(),
            Target::Nats(s) => s.clone(),
        }
    }
}

// ---------------------------------------------------------------------------
// Names
// ---------------------------------------------------------------------------

/// Whether a character is a hexadecimal digit.
pub open spec fn is_hex(c: char) -> bool {
    '0' <= c <= '9' || 'a' <= c <= 'f' || 'A' <= c <= 'F'
}

/// How many dashes a text holds.
pub open spec fn dashes(s: Seq<char>) -> nat
    decreases s.len(),
{
    if s.len() == 0 {
        0
    } else if s.last() == '-' {
        dashes(s.drop_last()) + 1
    } else {
        dashes(s.drop_last())
    }
}

/// Whether a text looks like a UUID: 36 hexadecimal digits and dashes, four of
/// them dashes.
pub open spec fn looks_like_uuid(s: Seq<char>) -> bool {
    &&& s.len() == 36
    &&& dashes(s) == 4
    &&& forall|i: int| 0 <= i < s.len() ==> is_hex(#[trigger] s[i]) || s[i] == '-'
}

/// Whether a text looks like a UUID.
#[verifier::loop_isolation(false)]
pub fn is_uuid(s: &str) -> (r: bool)
    ensures
        r == looks_like_uuid(s@),
{
    let v = chars_of(s);
    if v.len() != 36 {
        return false;
    }
    let mut count: usize = 0;
    let mut i: usize = 0;
    assert(v@.take(0) =~= Seq::<char>::empty());
    while i < v.len()
        invariant
            i <= v@.len(),
            count <= i,
            count == dashes(v@.take(i as int)),
            forall|k: int| 0 <= k < i ==> is_hex(#[trigger] v@[k]) || v@[k] == '-',
        decreases v@.len() - i,
    {
        let c = v[i];
        assert(v@.take(i + 1).drop_last() =~= v@.take(i as int));
        let hex = (c >= '0' && c <= '9') || (c >= 'a' && c <= 'f') || (c >= 'A' && c <= 'F');
        if c == '-' {
            count = count + 1;
        } else if !hex {
            assert(!(is_hex(s@[i as int]) || s@[i as int] == '-'));
            return false;
        }
        i = i + 1;
    }
    assert(v@.take(i as int) =~= v@);
    count == 4
}

/// A character in lower case, where it is an ASCII letter.
pub open spec fn lower(c: char) -> int {
    if 'A' <= c <= 'Z' {
        c as int + 32
    } else {
        c as int
    }
}

/// Whether two texts are the same but for the case of ASCII letters.
pub open spec fn same_but_case(a: Seq<char>, b: Seq<char>) -> bool {
    a.len() == b.len() && forall|i: int|
        0 <= i < a.len() ==> lower(#[trigger] a[i]) == lower(b[i])
}

fn lower_of(c: char) -> (r: u32)
    ensures
        r == lower(c),
{
    if c >= 'A' && c <= 'Z' {
        c as u32 + 32
    } else {
        c as u32
    }
}

/// Whether two texts are the same but for the case of ASCII letters.
#[verifier::loop_isolation(false)]
pub fn same_ignoring_case(a: &str, b: &str) -> (r: bool)
    ensures
        r == same_but_case(a@, b@),
{
    let x = chars_of(a);
    let y = chars_of(b);
    if x.len() != y.len() {
        return false;
    }
    let mut i: usize = 0;
    while i < x.len()
        invariant
            x@.len() == y@.len(),
            i <= x@.len(),
            forall|k: int| 0 <= k < i ==> lower(#[trigger] x@[k]) == lower(y@[k]),
        decreases x@.len() - i,
    {
        if lower_of(x[i]) != lower_of(y[i]) {
            assert(lower(a@[i as int]) != lower(b@[i as int]));
            return false;
        }
        i = i + 1;
    }
    true
}

/// Whether the title of a surface answers to a name.
pub open spec fn title_matches(title: Seq<char>, target: Seq<char>) -> bool {
    same_but_case(title, target) || occurs_in(title, target)
}

/// The first surface whose title answers to a name.
pub open spec fn titled(surfaces: Seq<SurfaceView>, target: Seq<char>) -> Option<Seq<char>>
    decreases surfaces.len(),
{
    if surfaces.len() == 0 {
        None
    } else if title_matches(surfaces[0].title, target) {
        Some(surfaces[0].id)
    } else {
        titled(surfaces.skip(1), target)
    }
}

#[verifier::loop_isolation(false)]
fn find_titled(surfaces: &Vec<Surface>, target: &str) -> (r: Option<String>)
    ensures
        opt_view(r) == titled(surface_views(surfaces@), target@),
{
    let ghost all = surface_views(surfaces@);
    let mut i: usize = 0;
    assert(all.skip(0) =~= all);
    while i < surfaces.len()
        invariant
            i <= surfaces@.len(),
            titled(all, target@) == titled(all.skip(i as int), target@),
        decreases surfaces@.len() - i,
    {
        assert(all.skip(i as int)[0] == surfaces@[i as int]@);
        assert(all.skip(i as int).skip(1) =~= all.skip(i + 1));
        let title = surfaces[i].title.as_str();
        if same_ignoring_case(title, target) || contains_text(title, target) {
            return Some(surfaces[i].id.clone());
        }
        i = i + 1;
    }
    None
}

// ---------------------------------------------------------------------------
// Resolution
// ---------------------------------------------------------------------------

/// What resolving a name needs next, or what it has come to.
#[derive(Debug)]
pub enum Resolve {
    /// Look the name up in the local directory.
    LookUpLocal,
    /// See whether the process with this number is alive, which the entry
    /// stands for.
    CheckProcess(String, AgentEntry),
    /// Take the name out of the local directory: its process is gone, and the
    /// agent is not permanent.
    Forget,
    /// Look the name up in the shared directory.
    LookUpShared,
    /// Load the names of panes.
    LoadNames,
    /// List the surfaces.
    ListSurfaces,
    /// See whether there is a hub.
    CheckHub,
    Found(Target),
    Unknown(String),
}

/// The contents of a [`Resolve`].
pub ghost enum ResolveView {
    LookUpLocal,
    CheckProcess(Seq<char>, EntryView),
    Forget,
    LookUpShared,
    LoadNames,
    ListSurfaces,
    CheckHub,
    Found(TargetView),
    Unknown(Seq<char>),
}

impl View for Resolve {
    type V = ResolveView;

    open spec fn view(&self) -> ResolveView {
        match self {
            Resolve::LookUpLocal => ResolveView::LookUpLocal,
            Resolve::CheckProcess(pid, e) => ResolveView::CheckProcess(pid@, e@),
            Resolve::Forget => ResolveView::Forget,
            Resolve::LookUpShared => ResolveView::LookUpShared,
            Resolve::LoadNames => ResolveView::LoadNames,
            Resolve::ListSurfaces => ResolveView::ListSurfaces,
            Resolve::CheckHub => ResolveView::CheckHub,
            Resolve::Found(t) => ResolveView::Found(t@),
            Resolve::Unknown(why) => ResolveView::Unknown(why@),
        }
    }
}

/// What was found out for resolving a name.
pub enum Finding {
    Local(Option<AgentEntry>),
    Alive(bool),
    Forgotten,
    Shared(Option<AgentEntry>),
    /// The panes by their names.
    Names(Vec<(String, String)>),
    /// The surfaces; none where they cannot be listed.
    Surfaces(Vec<Surface>),
    Hub(bool),
}

/// The contents of a [`Finding`].
pub ghost enum FindingView {
    Local(Option<EntryView>),
    Alive(bool),
    Forgotten,
    Shared(Option<EntryView>),
    Names(Seq<(Seq<char>, Seq<char>)>),
    Surfaces(Seq<SurfaceView>),
    Hub(bool),
}

/// The view of an optional entry.
pub open spec fn opt_entry(o: Option<AgentEntry>) -> Option<EntryView> {
    match o {
        Some(e) => Some(e@),
        None => None,
    }
}

impl View for Finding {
    type V = FindingView;

    open spec fn view(&self) -> FindingView {
        match self {
            Finding::Local(e) => FindingView::Local(opt_entry(*e)),
            Finding::Alive(b) => FindingView::Alive(*b),
            Finding::Forgotten => FindingView::Forgotten,
            Finding::Shared(e) => FindingView::Shared(opt_entry(*e)),
            Finding::Names(v) => FindingView::Names(members_view(v@)),
            Finding::Surfaces(v) => FindingView::Surfaces(surface_views(v@)),
            Finding::Hub(b) => FindingView::Hub(*b),
        }
    }
}

/// Whether a finding is what resolving a name needs.
pub open spec fn answers(step: ResolveView, finding: FindingView) -> bool {
    match step {
        ResolveView::LookUpLocal => finding is Local,
        ResolveView::CheckProcess(_, _) => finding is Alive,
        ResolveView::Forget => finding is Forgotten,
        ResolveView::LookUpShared => finding is Shared,
        ResolveView::LoadNames => finding is Names,
        ResolveView::ListSurfaces => finding is Surfaces,
        ResolveView::CheckHub => finding is Hub,
        ResolveView::Found(_) => false,
        ResolveView::Unknown(_) => false,
    }
}

/// What is said of a name that nothing answers to.
pub open spec fn unknown_text(target: Seq<char>) -> Seq<char> {
    "unknown agent '"@ + target
        + "' — use a UUID, a name from `rz run --name`, or `rz register`"@
}

/// What resolving a name comes to after a finding.
pub open spec fn resolve_after(
    target: Seq<char>,
    step: ResolveView,
    finding: FindingView,
) -> ResolveView {
    match (step, finding) {
        (ResolveView::LookUpLocal, FindingView::Local(Some(e))) => match after_prefix(
            e.id,
            "pty-"@,
        ) {
            Some(pid) => ResolveView::CheckProcess(pid, e),
            None => ResolveView::Found(target_of(e)),
        },
        (ResolveView::LookUpLocal, FindingView::Local(None)) => ResolveView::LookUpShared,
        (ResolveView::CheckProcess(_, e), FindingView::Alive(alive)) => if alive
            || e.permanent {
            ResolveView::Found(target_of(e))
        } else {
            ResolveView::Forget
        },
        (ResolveView::Forget, FindingView::Forgotten) => ResolveView::LookUpShared,
        (ResolveView::LookUpShared, FindingView::Shared(Some(e))) => ResolveView::Found(
            target_of(e),
        ),
        (ResolveView::LookUpShared, FindingView::Shared(None)) => ResolveView::LoadNames,
        (ResolveView::LoadNames, FindingView::Names(names)) => match lookup(names, target) {
            Some(id) => ResolveView::Found(TargetView::Cmux(id)),
            None => if looks_like_uuid(target) {
                ResolveView::Found(TargetView::Cmux(target))
            } else {
                ResolveView::ListSurfaces
            },
        },
        (ResolveView::ListSurfaces, FindingView::Surfaces(surfaces)) => match titled(
            surfaces,
            target,
        ) {
            Some(id) => ResolveView::Found(TargetView::Cmux(id)),
            None => ResolveView::CheckHub,
        },
        (ResolveView::CheckHub, FindingView::Hub(there)) => if there {
            ResolveView::Found(TargetView::Nats(target))
        } else {
            ResolveView::Unknown(unknown_text(target))
        },
        _ => step,
    }
}

/// Takes a finding into account, and tells what resolving the name needs next.
pub fn resolve_step(target: &str, step: Resolve, finding: Finding) -> (r: Resolve)
    requires
        answers(step@, finding@),
    ensures
        r@ == resolve_after(target@, step@, finding@),
{
    match (step, finding) {
        (Resolve::LookUpLocal, Finding::Local(Some(e))) => match strip_prefix(
            e.id.as_str(),
            "pty-",
        ) {
            // The process of the agent may be gone.
            Some(pid) => Resolve::CheckProcess(pid, e),
            None => Resolve::Found(registry_target(&e)),
        },
        (Resolve::LookUpLocal, Finding::Local(None)) => Resolve::LookUpShared,
        (Resolve::CheckProcess(_, e), Finding::Alive(alive)) => {
            if alive || e.permanent {
                Resolve::Found(registry_target(&e))
            } else {
                Resolve::Forget
            }
        },
        (Resolve::Forget, Finding::Forgotten) => Resolve::LookUpShared,
        (Resolve::LookUpShared, Finding::Shared(Some(e))) => Resolve::Found(registry_target(&e)),
        (Resolve::LookUpShared, Finding::Shared(None)) => Resolve::LoadNames,
        (Resolve::LoadNames, Finding::Names(names)) => match find_member(&names, target) {
            Some(id) => Resolve::Found(Target::Cmux(id)),
            None => {
                if is_uuid(target) {
                    Resolve::Found(Target::Cmux(target.to_owned()))
                } else {
                    Resolve::ListSurfaces
                }
            },
        },
        (Resolve::ListSurfaces, Finding::Surfaces(surfaces)) => match find_titled(
            &surfaces,
            target,
        ) {
            Some(id) => Resolve::Found(Target::Cmux(id)),
            None => Resolve::CheckHub,
        },
        (Resolve::CheckHub, Finding::Hub(there)) => {
            if there {
                Resolve::Found(Target::Nats(target.to_owned()))
            } else {
                Resolve::Unknown(
                    "unknown agent '".to_owned().concat(target).concat(
                        "' — use a UUID, a name from `rz run --name`, or `rz register`",
                    ),
                )
            }
        },
        (step, _) => step,
    }
}

/// The surface that a resolved name stands for, or what is wrong with it.
pub open spec fn surface_of(target: Seq<char>, resolved: TargetView) -> Result<Seq<char>, Seq<char>> {
    match resolved {
        TargetView::Cmux(id) => Ok(id),
        _ => Err("agent '"@ + target + "' is not a cmux terminal"@),
    }
}

/// The surface that a resolved name stands for, for what only surfaces can do.
pub fn resolve_target_cmux(target: &str, resolved: &Target) -> (r: Result<String, String>)
    ensures
        match r {
            Ok(id) => surface_of(target@, resolved@) == Ok::<Seq<char>, Seq<char>>(id@),
            Err(why) => surface_of(target@, resolved@) == Err::<Seq<char>, Seq<char>>(why@),
        },
{
    match resolved {
        Target::Cmux(id) => Ok(id.clone()),
        _ => Err("agent '".to_owned().concat(target).concat("' is not a cmux terminal")),
    }
}

// ---------------------------------------------------------------------------
// Laws
// ---------------------------------------------------------------------------

/// All that resolving a name may find.
pub ghost struct World {
    pub local: Option<EntryView>,
    pub alive: bool,
    pub shared: Option<EntryView>,
    pub names: Seq<(Seq<char>, Seq<char>)>,
    pub surfaces: Seq<SurfaceView>,
    pub hub: bool,
}

/// What resolving a name finds next.
pub open spec fn finding_in(w: World, step: ResolveView) -> FindingView {
    match step {
        ResolveView::LookUpLocal => FindingView::Local(w.local),
        ResolveView::CheckProcess(_, _) => FindingView::Alive(w.alive),
        ResolveView::Forget => FindingView::Forgotten,
        ResolveView::LookUpShared => FindingView::Shared(w.shared),
        ResolveView::LoadNames => FindingView::Names(w.names),
        ResolveView::ListSurfaces => FindingView::Surfaces(w.surfaces),
        _ => FindingView::Hub(w.hub),
    }
}

/// Where resolving a name stands after `n` findings.
pub open spec fn resolved_in(w: World, target: Seq<char>, n: nat) -> ResolveView
    decreases n,
{
    if n == 0 {
        ResolveView::LookUpLocal
    } else {
        let step = resolved_in(w, target, (n - 1) as nat);
        resolve_after(target, step, finding_in(w, step))
    }
}

/// Whether an entry of the local directory counts: unless it stands for a
/// process that is gone, and is not permanent.
pub open spec fn counts(w: World) -> bool {
    w.local matches Some(e) && (after_prefix(e.id, "pty-"@) is None || w.alive || e.permanent)
}

/// How an agent is reached: the local directory comes first, then the shared
/// one, the names of panes, what looks like a surface, the titles of surfaces,
/// and the hub.
pub open spec fn resolution(w: World, target: Seq<char>) -> ResolveView {
    if counts(w) {
        ResolveView::Found(target_of(w.local->0))
    } else if w.shared is Some {
        ResolveView::Found(target_of(w.shared->0))
    } else if lookup(w.names, target) is Some {
        ResolveView::Found(TargetView::Cmux(lookup(w.names, target)->0))
    } else if looks_like_uuid(target) {
        ResolveView::Found(TargetView::Cmux(target))
    } else if titled(w.surfaces, target) is Some {
        ResolveView::Found(TargetView::Cmux(titled(w.surfaces, target)->0))
    } else if w.hub {
        ResolveView::Found(TargetView::Nats(target))
    } else {
        ResolveView::Unknown(unknown_text(target))
    }
}

/// Resolving a name ends, within seven findings, with what the order of the
/// directories gives.
pub proof fn resolving_ends(w: World, target: Seq<char>)
    ensures
        resolved_in(w, target, 7) == resolution(w, target),
{
    reveal_with_fuel(resolved_in, 8);
}

proof fn lemma_permanent_steps(w: World, target: Seq<char>, n: nat)
    requires
        w.local matches Some(e) && e.permanent,
    ensures
        ({
            let step = resolved_in(w, target, n);
            ||| step == ResolveView::LookUpLocal
            ||| step matches ResolveView::CheckProcess(_, e) && Some(e) == w.local
            ||| step == ResolveView::Found(target_of(w.local->0))
        }),
    decreases n,
{
    if n > 0 {
        lemma_permanent_steps(w, target, (n - 1) as nat);
    }
}

/// A permanent agent of the local directory is reached there, whether or not
/// its process is gone: it is never forgotten.
pub proof fn permanent_agents_are_reached(w: World, target: Seq<char>, n: nat)
    requires
        w.local matches Some(e) && e.permanent,
    ensures
        resolution(w, target) == ResolveView::Found(target_of(w.local->0)),
        resolved_in(w, target, n) != ResolveView::Forget,
{
    lemma_permanent_steps(w, target, n);
}

/// With a hub no name is unknown.
pub proof fn hub_makes_every_name_reachable(w: World, target: Seq<char>)
    requires
        w.hub,
    ensures
        resolution(w, target) is Found,
{
}

/// An agent of a directory is reached as its entry says: at its address, in its
/// mailbox, by its subject, and else in its surface.
pub proof fn agents_are_reached_by_their_transport(e: EntryView)
    ensures
        e.transport == "http"@ ==> target_of(e) == TargetView::Http(e.endpoint),
        e.transport == "file"@ ==> target_of(e) == TargetView::File(e.name),
        e.transport == "nats"@ ==> target_of(e) == TargetView::Nats(e.name),
        e.transport != "http"@ && e.transport != "file"@ && e.transport != "nats"@ ==> target_of(e)
            == TargetView::Cmux(e.endpoint),
{
    reveal_strlit("http");
    reveal_strlit("file");
    reveal_strlit("nats");
    assert("http"@[0] == 'h' && "file"@[0] == 'f' && "nats"@[0] == 'n');
}

/// A target is known by what it is reached with, whatever it is.
pub proof fn targets_are_known_by_what_reaches_them(s: Seq<char>)
    ensures
        target_text(TargetView::Cmux(s)) == s,
        target_text(TargetView::File(s)) == s,
        target_text(TargetView::Http(s)) == s,
        target_text(TargetView::Nats(s)) == s,
{
}

/// A name is reached as the first place says that knows it: the local directory,
/// unless the process there is gone and not permanent; the shared one; the
/// names of panes; the name itself, where it looks like a surface; the titles
/// of surfaces; and the hub. Where none does, the name is unknown, and is told.
pub proof fn names_are_reached_where_they_are_known_first(w: World, target: Seq<char>)
    ensures
        ({
            let r = resolved_in(w, target, 7);
            let pane = lookup(w.names, target);
            let local = match w.local {
                Some(e) => !has_prefix(e.id, "pty-"@) || w.alive || e.permanent,
                None => false,
            };
            &&& local ==> r == ResolveView::Found(target_of(w.local->0))
            &&& !local && w.shared is Some ==> r == ResolveView::Found(target_of(w.shared->0))
            &&& !local && w.shared is None ==> {
                &&& pane is Some ==> r == ResolveView::Found(TargetView::Cmux(pane->0))
                &&& pane is None && looks_like_uuid(target) ==> r == ResolveView::Found(
                    TargetView::Cmux(target),
                )
                &&& pane is None && !looks_like_uuid(target) ==> {
                    let surface = titled(w.surfaces, target);
                    &&& surface is Some ==> r == ResolveView::Found(TargetView::Cmux(surface->0))
                    &&& surface is None && w.hub ==> r == ResolveView::Found(
                        TargetView::Nats(target),
                    )
                    &&& surface is None && !w.hub ==> r == ResolveView::Unknown(
                        "unknown agent '"@ + target
                            + "' — use a UUID, a name from `rz run --name`, or `rz register`"@,
                    )
                }
            }
        }),
{
    resolving_ends(w, target);
}

/// The process of an agent is looked at by the number in its id, and only where
/// the id tells of one; an agent whose process is gone is forgotten if and only
/// if it is not permanent.
pub proof fn processes_are_looked_at_by_number(
    target: Seq<char>,
    e: EntryView,
    pid: Seq<char>,
    alive: bool,
)
    ensures
        e.id == "pty-"@ + pid ==> resolve_after(
            target,
            ResolveView::LookUpLocal,
            FindingView::Local(Some(e)),
        ) == ResolveView::CheckProcess(pid, e),
        !has_prefix(e.id, "pty-"@) ==> resolve_after(
            target,
            ResolveView::LookUpLocal,
            FindingView::Local(Some(e)),
        ) == ResolveView::Found(target_of(e)),
        resolve_after(target, ResolveView::CheckProcess(pid, e), FindingView::Alive(alive))
            == ResolveView::Forget <==> !alive && !e.permanent,
        alive || e.permanent ==> resolve_after(
            target,
            ResolveView::CheckProcess(pid, e),
            FindingView::Alive(alive),
        ) == ResolveView::Found(target_of(e)),
{
    prefixes_and_rests_make_the_text(e.id, "pty-"@, pid);
}

/// A surface is found by its title if and only if the title answers to the
/// name: it is the name but for the case of its letters, or holds the name as
/// it is. The first such surface is taken.
pub proof fn surfaces_answer_to_their_titles(surfaces: Seq<SurfaceView>, target: Seq<char>)
    ensures
        titled(surfaces, target) matches Some(id) ==> exists|i: int|
            0 <= i < surfaces.len() && (#[trigger] surfaces[i]).id == id && (same_but_case(
                surfaces[i].title,
                target,
            ) || occurs_in(surfaces[i].title, target)) && forall|k: int|
                0 <= k < i ==> !same_but_case((#[trigger] surfaces[k]).title, target)
                    && !occurs_in(surfaces[k].title, target),
        titled(surfaces, target) is None ==> forall|i: int|
            0 <= i < surfaces.len() ==> !same_but_case((#[trigger] surfaces[i]).title, target)
                && !occurs_in(surfaces[i].title, target),
    decreases surfaces.len(),
{
    if surfaces.len() > 0 {
        if title_matches(surfaces[0].title, target) {
            assert(surfaces[0].id == surfaces[0].id);
        } else {
            let rest = surfaces.skip(1);
            surfaces_answer_to_their_titles(rest, target);
            if let Some(id) = titled(surfaces, target) {
                let i = choose|i: int|
                    0 <= i < rest.len() && (#[trigger] rest[i]).id == id && (same_but_case(
                        rest[i].title,
                        target,
                    ) || occurs_in(rest[i].title, target)) && forall|k: int|
                        0 <= k < i ==> !same_but_case((#[trigger] rest[k]).title, target)
                            && !occurs_in(rest[k].title, target);
                assert(surfaces[i + 1] == rest[i]);
                assert forall|k: int| 0 <= k < i + 1 implies !same_but_case(
                    (#[trigger] surfaces[k]).title,
                    target,
                ) && !occurs_in(surfaces[k].title, target) by {
                    if k > 0 {
                        assert(rest[k - 1] == surfaces[k]);
                    }
                }
            } else {
                assert forall|i: int| 0 <= i < surfaces.len() implies !same_but_case(
                    (#[trigger] surfaces[i]).title,
                    target,
                ) && !occurs_in(surfaces[i].title, target) by {
                    if i > 0 {
                        assert(rest[i - 1] == surfaces[i]);
                    }
                }
            }
        }
    }
}

/// Two texts are the same but for case if and only if they have the same length
/// and differ only where both have the same letter of ASCII, one of them as a
/// capital.
pub proof fn case_is_that_of_ascii_letters(a: Seq<char>, b: Seq<char>)
    ensures
        same_but_case(a, b) <==> a.len() == b.len() && forall|i: int|
            0 <= i < a.len() ==> #[trigger] a[i] == b[i] || ('A' <= a[i] <= 'Z' && b[i] as int
                == a[i] as int + 32) || ('A' <= b[i] <= 'Z' && a[i] as int == b[i] as int + 32),
{
    if a.len() == b.len() && forall|i: int|
        0 <= i < a.len() ==> #[trigger] a[i] == b[i] || ('A' <= a[i] <= 'Z' && b[i] as int
            == a[i] as int + 32) || ('A' <= b[i] <= 'Z' && a[i] as int == b[i] as int + 32) {
        assert forall|i: int| 0 <= i < a.len() implies lower(#[trigger] a[i]) == lower(b[i]) by {}
    }
}

/// What looks like a surface has thirty-two hexadecimal digits and four dashes,
/// and nothing else.
pub proof fn surfaces_look_like_uuids(s: Seq<char>)
    ensures
        looks_like_uuid(s) <==> {
            &&& s.filter(|c: char| c == '-').len() == 4
            &&& s.filter(
                |c: char| '0' <= c <= '9' || 'a' <= c <= 'f' || 'A' <= c <= 'F',
            ).len() == 32
            &&& s.len() == 36
        },
{
    lemma_uuid_count(s);
}

proof fn lemma_uuid_count(s: Seq<char>)
    ensures
        dashes(s) == s.filter(|c: char| c == '-').len(),
        dashes(s) + s.filter(
            |c: char| '0' <= c <= '9' || 'a' <= c <= 'f' || 'A' <= c <= 'F',
        ).len() <= s.len(),
        dashes(s) + s.filter(
            |c: char| '0' <= c <= '9' || 'a' <= c <= 'f' || 'A' <= c <= 'F',
        ).len() == s.len() <==> forall|i: int|
            0 <= i < s.len() ==> is_hex(#[trigger] s[i]) || s[i] == '-',
    decreases s.len(),
{
    reveal(Seq::filter);
    if s.len() > 0 {
        let rest = s.drop_last();
        lemma_uuid_count(rest);
        let last = s.len() - 1;
        let fine = |t: Seq<char>|
            forall|i: int| 0 <= i < t.len() ==> is_hex(#[trigger] t[i]) || t[i] == '-';
        assert(fine(s) <==> fine(rest) && (is_hex(s.last()) || s.last() == '-')) by {
            if fine(s) {
                assert(is_hex(s[last]) || s[last] == '-');
                assert forall|i: int| 0 <= i < rest.len() implies is_hex(#[trigger] rest[i])
                    || rest[i] == '-' by {
                    assert(rest[i] == s[i]);
                }
            }
            if fine(rest) && (is_hex(s.last()) || s.last() == '-') {
                assert forall|i: int| 0 <= i < s.len() implies is_hex(#[trigger] s[i]) || s[i]
                    == '-' by {
                    if i < last {
                        assert(rest[i] == s[i]);
                    }
                }
            }
        }
    }
}

/// Only a surface can do what surfaces do: a name that was resolved to one gives
/// it, and any other is told so.
pub proof fn only_surfaces_are_surfaces(target: Seq<char>, id: Seq<char>)
    ensures
        surface_of(target, TargetView::Cmux(id)) == Ok::<Seq<char>, Seq<char>>(id),
        surface_of(target, TargetView::File(id)) == Err::<Seq<char>, Seq<char>>(
            "agent '"@ + target + "' is not a cmux terminal"@,
        ),
        surface_of(target, TargetView::Http(id)) == Err::<Seq<char>, Seq<char>>(
            "agent '"@ + target + "' is not a cmux terminal"@,
        ),
        surface_of(target, TargetView::Nats(id)) == Err::<Seq<char>, Seq<char>>(
            "agent '"@ + target + "' is not a cmux terminal"@,
        ),
{
}

/// Resolving goes on with whatever is found next, until the name was resolved or
/// is unknown.
pub proof fn findings_answer_what_is_asked(w: World, step: ResolveView, finding: FindingView)
    ensures
        answers(step, finding_in(w, step)) <==> !(step is Found) && !(step is Unknown),
        step is Found || step is Unknown ==> !answers(step, finding),
        answers(ResolveView::LookUpLocal, finding) ==> finding is Local,
        answers(ResolveView::LookUpShared, finding) ==> finding is Shared,
        answers(ResolveView::LoadNames, finding) ==> finding is Names,
        answers(ResolveView::ListSurfaces, finding) ==> finding is Surfaces,
        answers(ResolveView::CheckHub, finding) ==> finding is Hub,
        answers(ResolveView::Forget, finding) ==> finding is Forgotten,
        step is CheckProcess && answers(step, finding) ==> finding is Alive,
{
}

/// What is found is taken as it is: an entry or none, whether a process is alive
/// and whether there is a hub, and the names and the surfaces one by one.
pub proof fn findings_are_taken_as_they_are(f: Finding, t: Target)
    ensures
        match f {
            Finding::Local(Some(e)) => f@ == FindingView::Local(Some(e@)),
            Finding::Local(None) => f@ == FindingView::Local(None),
            Finding::Alive(b) => f@ == FindingView::Alive(b),
            Finding::Forgotten => f@ == FindingView::Forgotten,
            Finding::Shared(Some(e)) => f@ == FindingView::Shared(Some(e@)),
            Finding::Shared(None) => f@ == FindingView::Shared(None),
            Finding::Names(v) => f@ is Names && f@->Names_0.len() == v@.len() && forall|i: int|
                0 <= i < v@.len() ==> #[trigger] f@->Names_0[i] == (v@[i].0@, v@[i].1@),
            Finding::Surfaces(v) => f@ is Surfaces && f@->Surfaces_0.len() == v@.len() && forall|i: int|
                0 <= i < v@.len() ==> #[trigger] f@->Surfaces_0[i] == v@[i]@,
            Finding::Hub(b) => f@ == FindingView::Hub(b),
        },
        match t {
            Target::Cmux(s) => t@ == TargetView::Cmux(s@),
            Target::File(s) => t@ == TargetView::File(s@),
            Target::Http(s) => t@ == TargetView::Http(s@),
            Target::Nats(s) => t@ == TargetView::Nats(s@),
        },
{
}

} // verus!

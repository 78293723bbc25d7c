//! The hub: a registry of the agent panes of a session, and the messages that
//! are routed between them.

use vstd::prelude::*;

use crate::hub::registry::{
    consistent, updated, AgentRegistry, EntryView, PaneManifest, RegistryView,
};
use crate::hub::router::{
    actions_lead_to_their_handlers, broadcast_handled, broadcasting_notes_a_message, cancel_handled,
    deliver_timer, handle_pipe, meets, pipe_handled, send_handled, sending_notes_a_message, stamped,
    starts_timer, timer_handled, typed, without_timer, Delivery, HubState, Outcome, PaneId,
    PipeMessage, PipeView, Stamp,
};
use crate::json::{find_member, lookup, members_view};
use crate::protocol::{encoded, EnvelopeView, KindView};
use crate::text::same;

pub mod registry;
pub mod router;

verus! {

/// A timer that has not gone off.
pub struct PendingTimer {
    pub id: u64,
    pub pane_id: u32,
    pub label: String,
    /// How long the timer was set for: the bits of a number of seconds as a
    /// 64-bit floating-point number.
    pub seconds: u64,
}

/// The contents of a [`PendingTimer`].
pub ghost struct TimerView {
    pub id: u64,
    pub pane_id: u32,
    pub label: Seq<char>,
    pub seconds: u64,
}

impl View for PendingTimer {
    type V = TimerView;

    open spec fn view(&self) -> TimerView {
        TimerView {
            id: self.id,
            pane_id: self.pane_id,
            label: self.label@,
            seconds: self.seconds,
        }
    }
}

/// The contents of a list of timers.
pub open spec fn timer_views(v: Seq<PendingTimer>) -> Seq<TimerView> {
    v.map_values(|t: PendingTimer| t@)
}

/// Something that happens to the hub.
pub enum HubEvent {
    /// The panes of the session have changed.
    PaneUpdate(PaneManifest),
    /// A timeout has passed. It belongs to the pending timer at this place in
    /// the list, where there is one.
    Timer(Option<usize>),
    Other,
}

/// The hub.
pub struct RzHub {
    registry: AgentRegistry,
    dirty: bool,
    timers: Vec<PendingTimer>,
    next_timer_id: u64,
}

/// The contents of a [`RzHub`].
pub ghost struct HubView {
    pub state: HubState,
    pub dirty: bool,
}

impl View for RzHub {
    type V = HubView;

    closed spec fn view(&self) -> HubView {
        HubView {
            state: HubState {
                registry: self.registry@,
                timers: timer_views(self.timers@),
                next_timer_id: self.next_timer_id,
            },
            dirty: self.dirty,
        }
    }
}

/// Whether no id was given to two pending timers, nor is still to be given.
pub open spec fn timers_ok(timers: Seq<TimerView>, next_timer_id: u64) -> bool {
    &&& forall|i: int| 0 <= i < timers.len() ==> (#[trigger] timers[i]).id < next_timer_id
    &&& forall|i: int, j: int|
        0 <= i < j < timers.len() ==> (#[trigger] timers[i]).id != (#[trigger] timers[j]).id
}

/// The timers after the one at place `i` was taken out. The last one takes its
/// place.
pub open spec fn timer_taken(timers: Seq<TimerView>, i: int) -> Seq<TimerView> {
    timers.update(i, timers.last()).drop_last()
}

/// The hub after a timeout.
pub open spec fn fired(h: HubView, place: Option<usize>) -> HubView {
    match place {
        Some(i) => HubView {
            state: HubState { timers: timer_taken(h.state.timers, i as int), ..h.state },
            ..h
        },
        None => h,
    }
}

/// Whether a request changes what the hub shows.
pub open spec fn changes_view(msg: PipeView) -> bool {
    lookup(msg.args, "action"@) == Some("register"@) || lookup(msg.args, "action"@) == Some(
        "unregister"@,
    )
}

proof fn lemma_timer_taken(timers: Seq<TimerView>, i: int, next: u64)
    requires
        0 <= i < timers.len(),
        timers_ok(timers, next),
    ensures
        timers_ok(timer_taken(timers, i), next),
        forall|k: int|
            0 <= k < timer_taken(timers, i).len() ==> (#[trigger] timer_taken(timers, i)[k]).id
                != timers[i].id,
{
    let after = timer_taken(timers, i);
    let last = timers.len() - 1;
    assert forall|k: int| 0 <= k < after.len() implies #[trigger] after[k] == (if k == i {
        timers[last]
    } else {
        timers[k]
    }) by {}
    assert forall|a: int, b: int| 0 <= a < b < after.len() implies (#[trigger] after[a]).id != (
    #[trigger] after[b]).id by {
        assert(timers[a].id != timers[b].id);
        assert(timers[a].id != timers[last].id);
        assert(timers[b].id != timers[last].id);
    }
}

proof fn lemma_without_ok(timers: Seq<TimerView>, id: u64, next: u64)
    requires
        timers_ok(timers, next),
    ensures
        timers_ok(without_timer(timers, id), next),
        forall|k: int|
            0 <= k < without_timer(timers, id).len() ==> timers.contains(
                #[trigger] without_timer(timers, id)[k],
            ),
    decreases timers.len(),
{
    if timers.len() > 0 {
        let rest = timers.drop_last();
        assert forall|i: int, j: int| 0 <= i < j < rest.len() implies (#[trigger] rest[i]).id != (
        #[trigger] rest[j]).id by {
            assert(timers[i].id != timers[j].id);
        }
        lemma_without_ok(rest, id, next);
        let before = without_timer(rest, id);
        let after = without_timer(timers, id);
        assert forall|k: int| 0 <= k < before.len() implies timers.contains(#[trigger] before[k])
            && before[k].id != timers.last().id by {
            assert(rest.contains(before[k]));
            let j = rest.index_of(before[k]);
            assert(timers[j] == before[k]);
            assert(timers[j].id != timers[timers.len() - 1].id);
        }
        assert(timers.contains(timers.last())) by {
            assert(timers[timers.len() - 1] == timers.last());
        }
    }
}

/// A request keeps the ids of the pending timers apart.
proof fn lemma_pipe_timers(
    s: HubState,
    msg: PipeView,
    id: Seq<char>,
    ts: u64,
    seconds: Option<u64>,
)
    requires
        timers_ok(s.timers, s.next_timer_id),
        starts_timer(s.registry, msg, seconds) ==> s.next_timer_id < u64::MAX,
    ensures
        ({
            let h = pipe_handled(s, msg, id, ts, seconds);
            timers_ok(h.state.timers, h.state.next_timer_id)
        }),
{
    if lookup(msg.args, "action"@) == Some("timer"@) {
        let set = timer_handled(s.registry, s.timers, s.next_timer_id, msg, seconds);
        assert(timers_ok(set.timers, set.next_timer_id));
    }
    let cancelled = cancel_handled(s.timers, s.next_timer_id, msg);
    assert(timers_ok(cancelled.timers, cancelled.next_timer_id)) by {
        assert forall|k: u64| timers_ok(without_timer(s.timers, k), s.next_timer_id) by {
            lemma_without_ok(s.timers, k, s.next_timer_id);
        }
    }
}

impl Default for RzHub {
    fn default() -> (r: RzHub)
        ensures
            r.wf(),
            r@ == (HubView {
                state: HubState {
                    registry: RegistryView {
                        agents: Map::<u32, EntryView>::empty(),
                        tick: 0,
                    },
                    timers: Seq::empty(),
                    next_timer_id: 1,
                },
                dirty: false,
            }),
    {
        let r = RzHub {
            registry: AgentRegistry::default(),
            dirty: false,
            timers: Vec::new(),
            next_timer_id: 1,
        };
        assert(timer_views(r.timers@) =~= Seq::<TimerView>::empty());
        r
    }
}

/// Whether the hub hides itself: unless its configuration says that it is
/// visible.
pub fn hides_itself(configuration: &Vec<(String, String)>) -> (r: bool)
    ensures
        r == (lookup(members_view(configuration@), "visible"@) != Some("true"@)),
{
    match find_member(configuration, "visible") {
        Some(v) => !same(v.as_str(), "true"),
        None => true,
    }
}

impl RzHub {
    /// What holds of the hub in every state: of its registry, and that the ids
    /// of its pending timers are apart.
    pub closed spec fn wf(&self) -> bool {
        self.registry.wf() && timers_ok(timer_views(self.timers@), self.next_timer_id)
    }

    /// The pending timers.
    pub fn timers(&self) -> (r: &Vec<PendingTimer>)
        ensures
            timer_views(r@) == self@.state.timers,
    {
        &self.timers
    }

    /// How many manifests the hub has seen.
    pub fn tick(&self) -> (r: u64)
        ensures
            r == self@.state.registry.tick,
    {
        self.registry.tick()
    }

    /// The id that the next timer gets.
    pub fn next_timer_id(&self) -> (r: u64)
        ensures
            r == self@.state.next_timer_id,
    {
        self.next_timer_id
    }

    /// Takes an event into account. The result is what is to be typed into a
    /// pane, and whether the hub wants to be drawn.
    pub fn update(&mut self, event: &HubEvent, stamp: Stamp) -> (r: (Option<Delivery>, bool))
        requires
            old(self).wf(),
            event is PaneUpdate ==> old(self)@.state.registry.tick < u64::MAX,
            event matches HubEvent::Timer(Some(i)) ==> i < old(self)@.state.timers.len(),
        ensures
            final(self).wf(),
            r.1 == final(self)@.dirty,
            match event {
                HubEvent::PaneUpdate(manifest) => {
                    &&& r.0 is None
                    &&& final(self)@ == (HubView {
                        state: HubState {
                            registry: updated(old(self)@.state.registry, manifest@),
                            ..old(self)@.state
                        },
                        dirty: true,
                    })
                },
                HubEvent::Timer(place) => {
                    &&& final(self)@ == fired(old(self)@, *place)
                    &&& match (r.0, *place) {
                        (Some(d), Some(i)) => {
                            let t = old(self)@.state.timers[i as int];
                            &&& d.target == PaneId::Terminal(t.pane_id)
                            &&& d.text@ == typed(
                                stamped(stamp.id@, stamp.ts, "hub"@, KindView::Timer(t.label)),
                            )
                            &&& d.text@ == encoded(
                                EnvelopeView {
                                    id: stamp.id@,
                                    from: "hub"@,
                                    to: None,
                                    reference: None,
                                    kind: KindView::Timer(t.label),
                                    ts: stamp.ts as nat,
                                },
                            ) + "\r"@
                        },
                        (None, None) => true,
                        _ => false,
                    }
                },
                HubEvent::Other => r.0 is None && final(self)@ == old(self)@,
            },
    {
        let delivery = match event {
            HubEvent::PaneUpdate(manifest) => {
                self.registry.update_from_pane_manifest(manifest);
                self.dirty = true;
                None
            },
            HubEvent::Timer(Some(i)) => {
                proof {
                    lemma_timer_taken(timer_views(self.timers@), *i as int, self.next_timer_id);
                }
                let ghost before = self.timers@;
                let timer = self.timers.swap_remove(*i);
                assert(timer_views(self.timers@) =~= timer_taken(timer_views(before), *i as int));
                Some(deliver_timer(timer.pane_id, timer.label.as_str(), stamp))
            },
            HubEvent::Timer(None) => None,
            HubEvent::Other => None,
        };
        (delivery, self.dirty)
    }

    /// Handles a message on a pipe, if it is a request to the hub. The result
    /// is what is to be done, and whether the hub wants to be drawn.
    pub fn pipe(&mut self, msg: &PipeMessage, stamp: Stamp, seconds: Option<u64>) -> (r: (
        Option<Outcome>,
        bool,
    ))
        requires
            old(self).wf(),
            msg@.name == "rz"@ && starts_timer(old(self)@.state.registry, msg@, seconds) ==> old(
                self,
            )@.state.next_timer_id < u64::MAX,
        ensures
            final(self).wf(),
            if msg@.name != "rz"@ {
                r == (None::<Outcome>, false) && final(self)@ == old(self)@
            } else {
                let h = pipe_handled(old(self)@.state, msg@, stamp.id@, stamp.ts, seconds);
                &&& final(self)@ == (HubView { state: h.state, dirty: changes_view(msg@) })
                &&& r.1 == changes_view(msg@)
                &&& r.0 matches Some(o) && meets(o, msg@, h)
            },
    {
        if !same(msg.name.as_str(), "rz") {
            return (None, false);
        }
        proof {
            lemma_pipe_timers(self@.state, msg@, stamp.id@, stamp.ts, seconds);
        }
        let outcome = handle_pipe(
            &mut self.registry,
            msg,
            &mut self.timers,
            &mut self.next_timer_id,
            stamp,
            seconds,
        );
        self.dirty = match msg.arg("action") {
            Some(a) => same(a.as_str(), "register") || same(a.as_str(), "unregister"),
            None => false,
        };
        (Some(outcome), self.dirty)
    }

    /// Notes that the hub was drawn.
    pub fn render(&mut self)
        requires
            old(self).wf(),
        ensures
            final(self).wf(),
            final(self)@ == (HubView { dirty: false, ..old(self)@ }),
    {
        self.dirty = false;
    }
}

/// A timeout takes exactly one timer, and every other timer stays pending.
pub proof fn timeout_takes_one_timer(h: HubView, i: usize)
    requires
        timers_ok(h.state.timers, h.state.next_timer_id),
        i < h.state.timers.len(),
    ensures
        ({
            let before = h.state.timers;
            let after = fired(h, Some(i)).state.timers;
            &&& after.len() == before.len() - 1
            &&& !after.contains(before[i as int])
            &&& forall|j: int|
                0 <= j < before.len() && j != i ==> after.contains(#[trigger] before[j])
        }),
{
    let before = h.state.timers;
    let after = fired(h, Some(i)).state.timers;
    lemma_timer_taken(before, i as int, h.state.next_timer_id);
    assert forall|j: int| 0 <= j < before.len() && j != i implies after.contains(
        #[trigger] before[j],
    ) by {
        if j == before.len() - 1 {
            assert(after[i as int] == before[j]);
        } else {
            assert(after[j] == before[j]);
        }
    }
}

/// A timeout changes nothing but the timers, and where it belongs to none, not
/// those either.
pub proof fn timeouts_change_only_timers(h: HubView, place: Option<usize>)
    ensures
        fired(h, place).state.registry == h.state.registry,
        fired(h, place).state.next_timer_id == h.state.next_timer_id,
        fired(h, place).dirty == h.dirty,
        place is None ==> fired(h, place).state.timers == h.state.timers,
{
}

/// The hub is drawn anew after requests to register and to take a registration
/// back, and after no others: those change no name, no capability and no
/// registration of any agent, and no agent comes or goes.
pub proof fn only_registrations_are_drawn(
    s: HubState,
    msg: PipeView,
    id: Seq<char>,
    ts: u64,
    seconds: Option<u64>,
    pane: u32,
)
    requires
        consistent(s.registry),
    ensures
        lookup(msg.args, "action"@) == Some("register"@) ==> changes_view(msg),
        lookup(msg.args, "action"@) == Some("unregister"@) ==> changes_view(msg),
        changes_view(msg) ==> lookup(msg.args, "action"@) == Some("register"@) || lookup(
            msg.args,
            "action"@,
        ) == Some("unregister"@),
        !changes_view(msg) ==> {
            let before = s.registry.agents;
            let after = pipe_handled(s, msg, id, ts, seconds).state.registry.agents;
            &&& after.contains_key(pane) <==> before.contains_key(pane)
            &&& before.contains_key(pane) ==> after[pane].name == before[pane].name
                && after[pane].capabilities == before[pane].capabilities && after[pane].registered
                == before[pane].registered && after[pane].title == before[pane].title
        },
{
    actions_lead_to_their_handlers(s, msg, id, ts, seconds);
    if send_handled(s.registry, msg, id, ts).reply is Done {
        sending_notes_a_message(s.registry, msg, id, ts, pane);
    }
    if broadcast_handled(s.registry, msg, id, ts).reply is Done {
        broadcasting_notes_a_message(s.registry, msg, id, ts, pane);
    }
}

/// In every state of the hub no two pending timers have the same id, and the
/// next timer gets one that none of them has.
pub proof fn timers_have_ids_of_their_own(h: RzHub, i: int, j: int)
    requires
        h.wf(),
        0 <= i < j < h@.state.timers.len(),
    ensures
        h@.state.timers[i].id != h@.state.timers[j].id,
        h@.state.timers[i].id < h@.state.next_timer_id,
        h@.state.timers[j].id < h@.state.next_timer_id,
{
}

/// The timer that a timeout belongs to gives its place to the last one, and all
/// others keep theirs.
pub proof fn last_timer_takes_the_free_place(h: HubView, i: usize, k: int)
    requires
        i < h.state.timers.len(),
        0 <= k < h.state.timers.len() - 1,
    ensures
        k != i ==> fired(h, Some(i)).state.timers[k] == h.state.timers[k],
        k == i ==> fired(h, Some(i)).state.timers[k] == h.state.timers.last(),
{
}

} // verus!

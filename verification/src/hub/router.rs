//! Requests to the hub: each is answered, and changes the registry, the panes
//! or the timers.

use vstd::prelude::*;
use vstd::string::StringExecFns;

use crate::hub::registry::{
    active_among, agents_below, consistent, entry_ok, entry_views, error_text, holder, is_active,
    listed, named, register_result, touched, unregister_result, woken, AgentEntry, AgentRegistry,
    AgentStatus, EntryView, RegistryView,
};
use crate::hub::{timer_views, PendingTimer, TimerView};
use crate::json::{
    bool_text, find_member, json_quote, lemma_lookup, list_text, lookup, members_view, object_text,
    opt_json, opt_quote, quoted, write_list, write_strings, ObjectWriter,
};
use crate::log::{tells, typed_messages_are_found};
use crate::number::{
    all_digits, decimal, decimal_of, is_all_digits, is_digit, lemma_decimal_digits,
    parse_reads_decimal, parse_u32, parse_u64, parsed, signed_decimal, signed_decimal_of,
};
use crate::pieces::{comma_list, lines, trimmed_pieces};
use crate::protocol::{
    encoded, messages_are_writable, one_line_body, writable, Envelope, EnvelopeView, KindView,
    MessageKind,
};
use crate::text::{after_prefix, occurs_at, occurs_in, opt_view, same, strip_prefix, views};

verus! {

// ---------------------------------------------------------------------------
// Requests, replies and deliveries
// ---------------------------------------------------------------------------

/// A pane of the multiplexer.
#[derive(Debug, Clone, Copy, PartialEq, Eq, Structural)]
pub enum PaneId {
    Terminal(u32),
    Plugin(u32),
}

/// Who sent a request.
pub enum PipeSource {
    /// A command line that waits for a reply on the pipe with this name.
    Cli(String),
    Other,
}

/// A request to the hub.
pub struct PipeMessage {
    pub source: PipeSource,
    pub name: String,
    pub payload: Option<String>,
    /// The arguments by their names, no name twice.
    pub args: Vec<(String, String)>,
}

/// The contents of a [`PipeMessage`]; `pipe` is where a reply is awaited.
pub ghost struct PipeView {
    pub pipe: Option<Seq<char>>,
    pub name: Seq<char>,
    pub payload: Option<Seq<char>>,
    pub args: Seq<(Seq<char>, Seq<char>)>,
}

impl View for PipeMessage {
    type V = PipeView;

    open spec fn view(&self) -> PipeView {
        PipeView {
            pipe: match self.source {
                PipeSource::Cli(id) => Some(id@),
                PipeSource::Other => None,
            },
            name: self.name@,
            payload: opt_view(self.payload),
            args: members_view(self.args@),
        }
    }
}

impl PipeMessage {
    /// The argument with the given name.
    pub fn arg(&self, key: &str) -> (r: Option<String>)
        ensures
            opt_view(r) == lookup(self@.args, key@),
    {
        find_member(&self.args, key)
    }
}

/// The identity and the time of a message that the hub sends.
pub struct Stamp {
    pub id: String,
    pub ts: u64,
}

/// What a request is answered.
#[derive(Debug)]
pub enum PipeResponse {
    /// The request was met; with data as JSON text where there is any.
    Done(Option<String>),
    Failed(String),
}

/// The contents of a [`PipeResponse`].
pub ghost enum ReplyView {
    Done(Option<Seq<char>>),
    Failed(Seq<char>),
}

impl View for PipeResponse {
    type V = ReplyView;

    open spec fn view(&self) -> ReplyView {
        match self {
            PipeResponse::Done(data) => ReplyView::Done(opt_view(*data)),
            PipeResponse::Failed(e) => ReplyView::Failed(e@),
        }
    }
}

/// The JSON text of a reply.
pub open spec fn reply_text(r: ReplyView) -> Seq<char> {
    match r {
        ReplyView::Done(Some(data)) => object_text(seq![("ok"@, bool_text(true)), ("data"@, data)]),
        ReplyView::Done(None) => object_text(seq![("ok"@, bool_text(true))]),
        ReplyView::Failed(e) => object_text(
            seq![("ok"@, bool_text(false)), ("error"@, json_quote(e))],
        ),
    }
}

impl PipeResponse {
    /// The JSON text of the reply.
    pub fn to_json(&self) -> (r: String)
        ensures
            r@ == reply_text(self@),
    {
        match self {
            PipeResponse::Done(Some(data)) => {
                let w = ObjectWriter::new().boolean("ok", true).member("data", data.as_str());
                assert(w@ =~= seq![("ok"@, bool_text(true)), ("data"@, data@)]);
                w.finish()
            },
            PipeResponse::Done(None) => {
                let w = ObjectWriter::new().boolean("ok", true);
                assert(w@ =~= seq![("ok"@, bool_text(true))]);
                w.finish()
            },
            PipeResponse::Failed(e) => {
                let w = ObjectWriter::new().boolean("ok", false).string("error", e.as_str());
                assert(w@ =~= seq![("ok"@, bool_text(false)), ("error"@, json_quote(e@))]);
                w.finish()
            },
        }
    }
}

/// What is typed into a pane.
#[derive(Debug)]
pub struct Delivery {
    pub target: PaneId,
    pub text: String,
}

/// The contents of a list of deliveries.
pub open spec fn deliveries(v: Seq<Delivery>) -> Seq<(PaneId, Seq<char>)> {
    v.map_values(|d: Delivery| (d.target, d.text@))
}

/// How an envelope is typed into a pane: its line, and a return.
pub open spec fn typed(e: EnvelopeView) -> Seq<char> {
    encoded(e) + "\r"@
}

/// The delivery of an envelope to a pane.
pub fn deliver(envelope: &Envelope, target: PaneId) -> (r: Delivery)
    ensures
        r.target == target,
        r.text@ == typed(envelope@),
        r.text@ == encoded(envelope@) + "\r"@,
{
    Delivery { target, text: envelope.encode().concat("\r") }
}

/// An envelope that the hub sends.
pub open spec fn stamped(id: Seq<char>, ts: u64, from: Seq<char>, kind: KindView) -> EnvelopeView {
    EnvelopeView { id, from, to: None, reference: None, kind, ts: ts as nat }
}

// ---------------------------------------------------------------------------
// Panes
// ---------------------------------------------------------------------------

/// The terminal that a text names: `terminal_3` or `3`.
pub open spec fn terminal_id(s: Seq<char>) -> Option<u32> {
    let digits = match after_prefix(s, "terminal_"@) {
        Some(n) => parsed(n, u32::MAX as nat),
        None => if all_digits(s) && s.len() > 0 {
            parsed(s, u32::MAX as nat)
        } else {
            None
        },
    };
    match digits {
        Some(n) => Some(n as u32),
        None => None,
    }
}

/// The terminal that a text names: `terminal_3` and `3` name terminal 3, and
/// `plugin_1` names none.
pub fn parse_terminal_id(s: &str) -> (r: Option<u32>)
    ensures
        r == terminal_id(s@),
{
    match strip_prefix(s, "terminal_") {
        Some(n) => parse_u32(n.as_str()),
        None => {
            if is_all_digits(s) && !s.is_empty() {
                parse_u32(s)
            } else {
                None
            }
        },
    }
}

/// The name of a pane.
pub open spec fn pane_text(p: PaneId) -> Seq<char> {
    match p {
        PaneId::Terminal(n) => "terminal_"@ + decimal(n as nat),
        PaneId::Plugin(n) => "plugin_"@ + decimal(n as nat),
    }
}

/// The name of a pane.
pub fn format_pane_id(pane_id: PaneId) -> (r: String)
    ensures
        r@ == pane_text(pane_id),
{
    match pane_id {
        PaneId::Terminal(n) => "terminal_".to_owned().concat(decimal_of(n as u64).as_str()),
        PaneId::Plugin(n) => "plugin_".to_owned().concat(decimal_of(n as u64).as_str()),
    }
}

/// The pane that a target names: a terminal by its id, or an agent by its name.
pub open spec fn resolved(v: RegistryView, raw: Seq<char>) -> Option<PaneId> {
    match terminal_id(raw) {
        Some(id) => Some(PaneId::Terminal(id)),
        None => match holder(v.agents, raw) {
            Some(id) => Some(PaneId::Terminal(id)),
            None => None,
        },
    }
}

/// The pane that a target names: `terminal_3`, `3`, or the name of a
/// registered agent.
pub fn resolve_target(registry: &AgentRegistry, raw: &str) -> (r: Option<PaneId>)
    requires
        registry.wf(),
    ensures
        r == resolved(registry@, raw@),
{
    match parse_terminal_id(raw) {
        Some(id) => Some(PaneId::Terminal(id)),
        None => match registry.lookup_by_name(raw) {
            Some(entry) => Some(PaneId::Terminal(entry.pane_id)),
            None => None,
        },
    }
}

// ---------------------------------------------------------------------------
// Sending
// ---------------------------------------------------------------------------

/// What a request leads to: what is typed into panes, and the reply.
#[derive(Debug)]
pub struct Answer {
    pub deliveries: Vec<Delivery>,
    pub response: PipeResponse,
}

/// What a request leads to, and the registry after it.
pub ghost struct Handled {
    pub registry: RegistryView,
    pub sent: Seq<(PaneId, Seq<char>)>,
    pub reply: ReplyView,
}

/// A request that is refused.
pub open spec fn refused(v: RegistryView, why: Seq<char>) -> Handled {
    Handled { registry: v, sent: Seq::empty(), reply: ReplyView::Failed(why) }
}

fn refuse(why: String) -> (r: Answer)
    ensures
        r.deliveries@.len() == 0,
        deliveries(r.deliveries@) == Seq::<(PaneId, Seq<char>)>::empty(),
        r.response@ == ReplyView::Failed(why@),
{
    let r = Answer { deliveries: Vec::new(), response: PipeResponse::Failed(why) };
    assert(deliveries(r.deliveries@) =~= Seq::<(PaneId, Seq<char>)>::empty());
    r
}

/// The registry after a message to or from a terminal, where there is one.
pub open spec fn touched_opt(v: RegistryView, id: Option<u32>) -> RegistryView {
    match id {
        Some(id) => touched(v, id),
        None => v,
    }
}

/// The terminal that a pane is.
pub open spec fn terminal_of(p: PaneId) -> Option<u32> {
    match p {
        PaneId::Terminal(id) => Some(id),
        PaneId::Plugin(_) => None,
    }
}

fn touch(registry: &mut AgentRegistry, id: Option<u32>)
    requires
        old(registry).wf(),
    ensures
        final(registry).wf(),
        final(registry)@ == touched_opt(old(registry)@, id),
{
    match id {
        Some(id) => registry.touch_message(id),
        None => {},
    }
}

/// A chat message from `from`, as an answer to `reference`.
pub open spec fn chat_message(
    id: Seq<char>,
    ts: u64,
    from: Seq<char>,
    text: Seq<char>,
    reference: Option<Seq<char>>,
) -> EnvelopeView {
    EnvelopeView { reference, ..stamped(id, ts, from, KindView::Chat(text)) }
}

/// What a request to send a message to one agent leads to.
pub open spec fn send_handled(v: RegistryView, msg: PipeView, id: Seq<char>, ts: u64) -> Handled {
    match (lookup(msg.args, "target"@), lookup(msg.args, "from"@), msg.payload) {
        (None, _, _) => refused(v, "missing required arg: target"@),
        (Some(_), None, _) => refused(v, "missing required arg: from"@),
        (Some(_), Some(_), None) => refused(v, "send requires a payload"@),
        (Some(target), Some(from), Some(text)) => match resolved(v, target) {
            None => refused(v, "unknown target: "@ + target),
            Some(pane) => Handled {
                registry: touched_opt(touched_opt(v, terminal_id(from)), terminal_of(pane)),
                sent: seq![
                    (
                        pane,
                        typed(chat_message(id, ts, from, text, lookup(msg.args, "ref"@))),
                    ),
                ],
                reply: ReplyView::Done(
                    Some(object_text(seq![("message_id"@, json_quote(id))])),
                ),
            },
        },
    }
}

/// Sends a message to one agent.
pub fn handle_send(registry: &mut AgentRegistry, msg: &PipeMessage, stamp: Stamp) -> (r: Answer)
    requires
        old(registry).wf(),
    ensures
        final(registry).wf(),
        (Handled {
            registry: final(registry)@,
            sent: deliveries(r.deliveries@),
            reply: r.response@,
        }) == send_handled(old(registry)@, msg@, stamp.id@, stamp.ts),
        forall|i: int|
            0 <= i < r.deliveries@.len() ==> (#[trigger] r.deliveries@[i]).text@ == encoded(
                EnvelopeView {
                    id: stamp.id@,
                    from: lookup(msg@.args, "from"@)->0,
                    to: None,
                    reference: lookup(msg@.args, "ref"@),
                    kind: KindView::Chat(msg@.payload->0),
                    ts: stamp.ts as nat,
                },
            ) + "\r"@,
{
    let target_raw = match msg.arg("target") {
        Some(v) => v,
        None => {
            return refuse("missing required arg: target".to_owned());
        },
    };
    let from = match msg.arg("from") {
        Some(v) => v,
        None => {
            return refuse("missing required arg: from".to_owned());
        },
    };
    let text = match &msg.payload {
        Some(p) => p.clone(),
        None => {
            return refuse("send requires a payload".to_owned());
        },
    };
    let target_pane = match resolve_target(registry, target_raw.as_str()) {
        Some(p) => p,
        None => {
            return refuse("unknown target: ".to_owned().concat(target_raw.as_str()));
        },
    };
    let msg_id = stamp.id.clone();
    let envelope = Envelope::new(stamp.id, stamp.ts, from.as_str(), MessageKind::Chat { text })
        .maybe_with_ref(msg.arg("ref"));
    let mut out: Vec<Delivery> = Vec::new();
    out.push(deliver(&envelope, target_pane));
    // Both the sender and the receiver took part in a message.
    touch(registry, parse_terminal_id(from.as_str()));
    match target_pane {
        PaneId::Terminal(tid) => touch(registry, Some(tid)),
        PaneId::Plugin(_) => {},
    }
    let data = ObjectWriter::new().string("message_id", msg_id.as_str());
    assert(data@ =~= seq![("message_id"@, json_quote(msg_id@))]);
    let ghost sent = send_handled(old(registry)@, msg@, stamp.id@, stamp.ts).sent;
    assert(deliveries(out@) =~= sent);
    Answer { deliveries: out, response: PipeResponse::Done(Some(data.finish())) }
}

/// The panes that a broadcast reaches: every active agent but the sender.
pub open spec fn broadcast_targets(s: Seq<EntryView>, from: Option<u32>) -> Seq<u32>
    decreases s.len(),
{
    if s.len() == 0 {
        Seq::empty()
    } else {
        let before = broadcast_targets(s.drop_last(), from);
        if from == Some(s.last().pane_id) {
            before
        } else {
            before.push(s.last().pane_id)
        }
    }
}

/// The registry after messages to several terminals.
pub open spec fn touched_all(v: RegistryView, ids: Seq<u32>) -> RegistryView
    decreases ids.len(),
{
    if ids.len() == 0 {
        v
    } else {
        touched(touched_all(v, ids.drop_last()), ids.last())
    }
}

/// The same text for each of several terminals.
pub open spec fn copies(ids: Seq<u32>, text: Seq<char>) -> Seq<(PaneId, Seq<char>)> {
    ids.map_values(|id: u32| (PaneId::Terminal(id), text))
}

/// What a request to send a message to all agents leads to.
pub open spec fn broadcast_handled(v: RegistryView, msg: PipeView, id: Seq<char>, ts: u64) -> Handled {
    match (lookup(msg.args, "from"@), msg.payload) {
        (None, _) => refused(v, "missing required arg: from"@),
        (Some(_), None) => refused(v, "broadcast requires a payload"@),
        (Some(from), Some(text)) => {
            let targets = broadcast_targets(active_among(listed(v.agents)), terminal_id(from));
            Handled {
                registry: touched_opt(touched_all(v, targets), terminal_id(from)),
                sent: copies(
                    targets,
                    typed(chat_message(id, ts, from, text, lookup(msg.args, "ref"@))),
                ),
                reply: ReplyView::Done(
                    Some(
                        object_text(
                            seq![("delivered"@, decimal((targets.len() as u32) as nat))],
                        ),
                    ),
                ),
            }
        },
    }
}

/// The panes that a broadcast reaches.
#[verifier::loop_isolation(false)]
fn targets_of(registry: &AgentRegistry, from: Option<u32>) -> (r: Vec<u32>)
    requires
        registry.wf(),
    ensures
        r@ == broadcast_targets(active_among(listed(registry@.agents)), from),
{
    let active = registry.get_active();
    let ghost all = entry_views(active@);
    let mut out: Vec<u32> = Vec::new();
    let mut i: usize = 0;
    assert(out@ =~= broadcast_targets(all.take(0), from));
    while i < active.len()
        invariant
            i <= active@.len(),
            out@ == broadcast_targets(all.take(i as int), from),
        decreases active@.len() - i,
    {
        let id = active[i].pane_id;
        assert(all.take(i + 1).drop_last() =~= all.take(i as int));
        let own = match from {
            Some(f) => f == id,
            None => false,
        };
        if !own {
            out.push(id);
        }
        i = i + 1;
    }
    assert(all.take(i as int) =~= all);
    out
}

/// Sends a message to every active agent but the sender.
#[verifier::loop_isolation(false)]
pub fn handle_broadcast(registry: &mut AgentRegistry, msg: &PipeMessage, stamp: Stamp) -> (r: Answer)
    requires
        old(registry).wf(),
    ensures
        final(registry).wf(),
        (Handled {
            registry: final(registry)@,
            sent: deliveries(r.deliveries@),
            reply: r.response@,
        }) == broadcast_handled(old(registry)@, msg@, stamp.id@, stamp.ts),
        forall|i: int|
            0 <= i < r.deliveries@.len() ==> (#[trigger] r.deliveries@[i]).text@ == encoded(
                EnvelopeView {
                    id: stamp.id@,
                    from: lookup(msg@.args, "from"@)->0,
                    to: None,
                    reference: lookup(msg@.args, "ref"@),
                    kind: KindView::Chat(msg@.payload->0),
                    ts: stamp.ts as nat,
                },
            ) + "\r"@,
{
    let from = match msg.arg("from") {
        Some(v) => v,
        None => {
            return refuse("missing required arg: from".to_owned());
        },
    };
    let text = match &msg.payload {
        Some(p) => p.clone(),
        None => {
            return refuse("broadcast requires a payload".to_owned());
        },
    };
    let envelope = Envelope::new(stamp.id, stamp.ts, from.as_str(), MessageKind::Chat { text })
        .maybe_with_ref(msg.arg("ref"));
    let from_id = parse_terminal_id(from.as_str());
    let targets = targets_of(registry, from_id);
    let ghost before = registry@;
    let mut out: Vec<Delivery> = Vec::new();
    let mut i: usize = 0;
    assert(targets@.take(0) =~= Seq::<u32>::empty());
    while i < targets.len()
        invariant
            i <= targets@.len(),
            registry.wf(),
            registry@ == touched_all(before, targets@.take(i as int)),
            deliveries(out@) =~= copies(targets@.take(i as int), typed(envelope@)),
            forall|k: int|
                0 <= k < out@.len() ==> (#[trigger] out@[k]).text@ == encoded(envelope@) + "\r"@,
        decreases targets@.len() - i,
    {
        let tid = targets[i];
        assert(targets@.take(i + 1).drop_last() =~= targets@.take(i as int));
        let ghost sent = deliveries(out@);
        out.push(deliver(&envelope, PaneId::Terminal(tid)));
        proof {
            let pair = (PaneId::Terminal(tid), typed(envelope@));
            assert(deliveries(out@) =~= sent.push(pair));
            assert(copies(targets@.take(i + 1), pair.1) =~= copies(
                targets@.take(i as int),
                pair.1,
            ).push(pair));
        }
        registry.touch_message(tid);
        i = i + 1;
    }
    assert(targets@.take(i as int) =~= targets@);
    touch(registry, from_id);
    let delivered: u32 = targets.len() as u32;
    let data = ObjectWriter::new().number("delivered", delivered as u64);
    assert(data@ =~= seq![("delivered"@, decimal(delivered as nat))]);
    Answer { deliveries: out, response: PipeResponse::Done(Some(data.finish())) }
}

// ---------------------------------------------------------------------------
// Registration
// ---------------------------------------------------------------------------

/// The pane that a request names in its argument `pane_id`, or what is wrong
/// with it.
pub open spec fn requested_pane(msg: PipeView) -> Result<u32, Seq<char>> {
    match lookup(msg.args, "pane_id"@) {
        None => Err("missing required arg: pane_id"@),
        Some(s) => match terminal_id(s) {
            Some(id) => Ok(id),
            None => Err("invalid pane_id: "@ + s),
        },
    }
}

fn pane_of(msg: &PipeMessage) -> (r: Result<u32, String>)
    ensures
        match r {
            Ok(id) => requested_pane(msg@) == Ok::<u32, Seq<char>>(id),
            Err(e) => requested_pane(msg@) == Err::<u32, Seq<char>>(e@),
        },
{
    match msg.arg("pane_id") {
        None => Err("missing required arg: pane_id".to_owned()),
        Some(s) => match parse_terminal_id(s.as_str()) {
            Some(id) => Ok(id),
            None => Err("invalid pane_id: ".to_owned().concat(s.as_str())),
        },
    }
}

/// The name that a request to register gives, or else that of the pane.
pub open spec fn requested_name(msg: PipeView, pane_id: u32) -> Seq<char> {
    match lookup(msg.args, "name"@) {
        Some(s) => s,
        None => "terminal_"@ + decimal(pane_id as nat),
    }
}

/// The capabilities that a request to register gives.
pub open spec fn requested_capabilities(msg: PipeView) -> Seq<Seq<char>> {
    match lookup(msg.args, "capabilities"@) {
        Some(s) => trimmed_pieces(s),
        None => Seq::empty(),
    }
}

/// What a request to register leads to.
pub open spec fn register_handled(v: RegistryView, msg: PipeView) -> Handled {
    match requested_pane(msg) {
        Err(why) => refused(v, why),
        Ok(pane_id) => match register_result(
            v,
            pane_id,
            requested_name(msg, pane_id),
            requested_capabilities(msg),
        ) {
            Ok(w) => Handled { registry: w, sent: Seq::empty(), reply: ReplyView::Done(None) },
            Err(e) => refused(v, error_text(e)),
        },
    }
}

fn done(data: Option<String>) -> (r: Answer)
    ensures
        r.deliveries@.len() == 0,
        deliveries(r.deliveries@) == Seq::<(PaneId, Seq<char>)>::empty(),
        r.response@ == ReplyView::Done(opt_view(data)),
{
    let r = Answer { deliveries: Vec::new(), response: PipeResponse::Done(data) };
    assert(deliveries(r.deliveries@) =~= Seq::<(PaneId, Seq<char>)>::empty());
    r
}

/// Registers an agent.
pub fn handle_register(registry: &mut AgentRegistry, msg: &PipeMessage) -> (r: Answer)
    requires
        old(registry).wf(),
    ensures
        final(registry).wf(),
        (Handled {
            registry: final(registry)@,
            sent: deliveries(r.deliveries@),
            reply: r.response@,
        }) == register_handled(old(registry)@, msg@),
{
    let pane_id = match pane_of(msg) {
        Ok(id) => id,
        Err(why) => {
            return refuse(why);
        },
    };
    let name = match msg.arg("name") {
        Some(s) => s,
        None => "terminal_".to_owned().concat(decimal_of(pane_id as u64).as_str()),
    };
    let capabilities: Vec<String> = match msg.arg("capabilities") {
        Some(s) => comma_list(s.as_str()),
        None => Vec::new(),
    };
    assert(views(capabilities@) =~= requested_capabilities(msg@));
    let error = match registry.register(pane_id, name, capabilities) {
        Ok(_) => None,
        Err(e) => Some(e.to_string()),
    };
    match error {
        None => done(None),
        Some(why) => refuse(why),
    }
}

/// What a request to take a registration back leads to.
pub open spec fn unregister_handled(v: RegistryView, msg: PipeView) -> Handled {
    match requested_pane(msg) {
        Err(why) => refused(v, why),
        Ok(pane_id) => match unregister_result(v, pane_id) {
            Ok(w) => Handled { registry: w, sent: Seq::empty(), reply: ReplyView::Done(None) },
            Err(e) => refused(v, error_text(e)),
        },
    }
}

/// Takes a registration back.
pub fn handle_unregister(registry: &mut AgentRegistry, msg: &PipeMessage) -> (r: Answer)
    requires
        old(registry).wf(),
    ensures
        final(registry).wf(),
        (Handled {
            registry: final(registry)@,
            sent: deliveries(r.deliveries@),
            reply: r.response@,
        }) == unregister_handled(old(registry)@, msg@),
{
    let pane_id = match pane_of(msg) {
        Ok(id) => id,
        Err(why) => {
            return refuse(why);
        },
    };
    match registry.unregister(pane_id) {
        Ok(()) => done(None),
        Err(e) => refuse(e.to_string()),
    }
}

// ---------------------------------------------------------------------------
// Reports
// ---------------------------------------------------------------------------

/// The JSON text of an exit status.
pub open spec fn exit_text(code: Option<i32>) -> Seq<char> {
    match code {
        Some(n) => signed_decimal(n as int),
        None => "null"@,
    }
}

/// The JSON text of a status.
pub open spec fn status_text(s: AgentStatus) -> Seq<char> {
    match s {
        AgentStatus::Active => object_text(seq![("status"@, json_quote("active"@))]),
        AgentStatus::Idle => object_text(seq![("status"@, json_quote("idle"@))]),
        AgentStatus::Dead { exit_status, died_at } => object_text(
            seq![
                ("status"@, json_quote("dead"@)),
                ("exit_status"@, exit_text(exit_status)),
                ("died_at"@, decimal(died_at as nat)),
            ],
        ),
        AgentStatus::Pending => object_text(seq![("status"@, json_quote("pending"@))]),
    }
}

fn status_json(s: AgentStatus) -> (r: String)
    ensures
        r@ == status_text(s),
{
    match s {
        AgentStatus::Active => {
            let w = ObjectWriter::new().string("status", "active");
            assert(w@ =~= seq![("status"@, json_quote("active"@))]);
            w.finish()
        },
        AgentStatus::Idle => {
            let w = ObjectWriter::new().string("status", "idle");
            assert(w@ =~= seq![("status"@, json_quote("idle"@))]);
            w.finish()
        },
        AgentStatus::Dead { exit_status, died_at } => {
            let code = match exit_status {
                Some(n) => signed_decimal_of(n as i64),
                None => "null".to_owned(),
            };
            let w = ObjectWriter::new().string("status", "dead").member(
                "exit_status",
                code.as_str(),
            ).number("died_at", died_at);
            assert(w@ =~= seq![
                ("status"@, json_quote("dead"@)),
                ("exit_status"@, exit_text(exit_status)),
                ("died_at"@, decimal(died_at as nat)),
            ]);
            w.finish()
        },
        AgentStatus::Pending => {
            let w = ObjectWriter::new().string("status", "pending");
            assert(w@ =~= seq![("status"@, json_quote("pending"@))]);
            w.finish()
        },
    }
}

/// The JSON text of an agent in a list.
pub open spec fn agent_text(e: EntryView) -> Seq<char> {
    object_text(
        seq![
            ("pane_id"@, json_quote("terminal_"@ + decimal(e.pane_id as nat))),
            ("name"@, opt_quote(e.name)),
            ("status"@, status_text(e.status)),
            ("command"@, opt_quote(e.command)),
            ("title"@, json_quote(e.title)),
            ("tab"@, decimal(e.tab as nat)),
            ("registered"@, bool_text(e.registered)),
            ("capabilities"@, list_text(quoted(e.capabilities))),
        ],
    )
}

fn agent_json(e: &AgentEntry) -> (r: String)
    ensures
        r@ == agent_text(e@),
{
    let pane = "terminal_".to_owned().concat(decimal_of(e.pane_id as u64).as_str());
    let name = opt_json(&e.name);
    let status = status_json(e.status);
    let command = opt_json(&e.command);
    let capabilities = write_strings(&e.capabilities);
    let w = ObjectWriter::new().string("pane_id", pane.as_str()).member("name", name.as_str()).member(
        "status",
        status.as_str(),
    ).member("command", command.as_str()).string("title", e.title.as_str()).number(
        "tab",
        e.tab as u64,
    ).boolean("registered", e.registered).member("capabilities", capabilities.as_str());
    assert(w@ =~= seq![
        ("pane_id"@, json_quote("terminal_"@ + decimal(e@.pane_id as nat))),
        ("name"@, opt_quote(e@.name)),
        ("status"@, status_text(e@.status)),
        ("command"@, opt_quote(e@.command)),
        ("title"@, json_quote(e@.title)),
        ("tab"@, decimal(e@.tab as nat)),
        ("registered"@, bool_text(e@.registered)),
        ("capabilities"@, list_text(quoted(e@.capabilities))),
    ]);
    w.finish()
}

/// What a request for the list of agents leads to.
pub open spec fn list_handled(v: RegistryView) -> Handled {
    Handled {
        registry: v,
        sent: Seq::empty(),
        reply: ReplyView::Done(
            Some(list_text(listed(v.agents).map_values(|e: EntryView| agent_text(e)))),
        ),
    }
}

/// Lists all the agents.
#[verifier::loop_isolation(false)]
pub fn handle_list(registry: &AgentRegistry) -> (r: Answer)
    requires
        registry.wf(),
    ensures
        (Handled {
            registry: registry@,
            sent: deliveries(r.deliveries@),
            reply: r.response@,
        }) == list_handled(registry@),
{
    let all = registry.get_all();
    let mut texts: Vec<String> = Vec::new();
    let mut i: usize = 0;
    while i < all.len()
        invariant
            i <= all@.len(),
            texts@.len() == i,
            forall|j: int| 0 <= j < i ==> (#[trigger] texts@[j])@ == agent_text(all@[j]@),
        decreases all@.len() - i,
    {
        texts.push(agent_json(all[i]));
        i = i + 1;
    }
    assert(views(texts@) =~= listed(registry@.agents).map_values(|e: EntryView| agent_text(e))) by {
        assert(entry_views(all@) == listed(registry@.agents));
        assert forall|j: int| 0 <= j < all@.len() implies (#[trigger] texts@[j])@ == agent_text(
            listed(registry@.agents)[j],
        ) by {
            assert(entry_views(all@)[j] == all@[j]@);
        }
    }
    done(Some(write_list(&texts)))
}

/// What a request for the state of the hub leads to.
pub open spec fn status_handled(v: RegistryView) -> Handled {
    let total = listed(v.agents).len();
    let active = active_among(listed(v.agents)).len();
    Handled {
        registry: v,
        sent: Seq::empty(),
        reply: ReplyView::Done(
            Some(
                object_text(
                    seq![
                        ("total"@, decimal(total)),
                        ("active"@, decimal(active)),
                        ("dead"@, decimal((total - active) as nat)),
                        ("tick"@, decimal(v.tick as nat)),
                    ],
                ),
            ),
        ),
    }
}

pub proof fn lemma_active_among(s: Seq<EntryView>)
    ensures
        active_among(s).len() <= s.len(),
        forall|i: int| 0 <= i < active_among(s).len() ==> is_active(#[trigger] active_among(s)[i]),
        forall|i: int|
            0 <= i < active_among(s).len() ==> s.contains(#[trigger] active_among(s)[i]),
        forall|i: int|
            0 <= i < s.len() && is_active(#[trigger] s[i]) ==> active_among(s).contains(s[i]),
    decreases s.len(),
{
    if s.len() > 0 {
        let rest = s.drop_last();
        let before = active_among(rest);
        lemma_active_among(rest);
        let now = active_among(s);
        assert forall|i: int| 0 <= i < now.len() implies s.contains(#[trigger] now[i]) by {
            if i < before.len() {
                assert(now[i] == before[i]);
                assert(rest.contains(before[i]));
                let k = rest.index_of(before[i]);
                assert(s[k] == rest[k]);
            } else {
                assert(s[s.len() - 1] == s.last());
            }
        }
        assert forall|i: int| 0 <= i < now.len() implies is_active(#[trigger] now[i]) by {
            if i < before.len() {
                assert(now[i] == before[i]);
            }
        }
        assert forall|i: int| 0 <= i < s.len() && is_active(#[trigger] s[i]) implies now.contains(
            s[i],
        ) by {
            if i < rest.len() {
                assert(rest[i] == s[i]);
                assert(before.contains(rest[i]));
                let k = before.index_of(rest[i]);
                assert(now[k] == before[k]);
            } else {
                assert(now[now.len() - 1] == s.last());
            }
        }
    }
}

/// Reports how many agents there are.
pub fn handle_status(registry: &AgentRegistry) -> (r: Answer)
    requires
        registry.wf(),
    ensures
        (Handled {
            registry: registry@,
            sent: deliveries(r.deliveries@),
            reply: r.response@,
        }) == status_handled(registry@),
{
    let total: usize = registry.get_all().len();
    let active: usize = registry.get_active().len();
    proof {
        lemma_active_among(listed(registry@.agents));
        assert(total == listed(registry@.agents).len());
        assert(active == active_among(listed(registry@.agents)).len());
    }
    let w = ObjectWriter::new().number("total", total as u64).number("active", active as u64).number(
        "dead",
        (total - active) as u64,
    ).number("tick", registry.tick());
    assert(w@ =~= seq![
        ("total"@, decimal(total as nat)),
        ("active"@, decimal(active as nat)),
        ("dead"@, decimal((total - active) as nat)),
        ("tick"@, decimal(registry@.tick as nat)),
    ]);
    done(Some(w.finish()))
}

// ---------------------------------------------------------------------------
// Pings
// ---------------------------------------------------------------------------

/// Who a ping comes from: the hub where nobody is named.
pub open spec fn ping_sender(msg: PipeView) -> Seq<char> {
    match lookup(msg.args, "from"@) {
        Some(s) => s,
        None => "hub"@,
    }
}

/// What a ping leads to: it is passed on to its target, or answered by the hub
/// itself where it has none.
pub open spec fn ping_handled(v: RegistryView, msg: PipeView, id: Seq<char>, ts: u64) -> Handled {
    let from = ping_sender(msg);
    match lookup(msg.args, "target"@) {
        Some(target) => match resolved(v, target) {
            None => refused(v, "unknown ping target: "@ + target),
            Some(pane) => Handled {
                registry: v,
                sent: seq![(pane, typed(stamped(id, ts, from, KindView::Ping)))],
                reply: ReplyView::Done(
                    Some(object_text(seq![("forwarded_to"@, json_quote(pane_text(pane)))])),
                ),
            },
        },
        None => Handled {
            registry: v,
            sent: match terminal_id(from) {
                Some(t) => seq![
                    (PaneId::Terminal(t), typed(stamped(id, ts, "hub"@, KindView::Pong))),
                ],
                None => Seq::empty(),
            },
            reply: ReplyView::Done(None),
        },
    }
}

/// Passes a ping on, or answers it.
pub fn handle_ping(registry: &AgentRegistry, msg: &PipeMessage, stamp: Stamp) -> (r: Answer)
    requires
        registry.wf(),
    ensures
        (Handled {
            registry: registry@,
            sent: deliveries(r.deliveries@),
            reply: r.response@,
        }) == ping_handled(registry@, msg@, stamp.id@, stamp.ts),
        lookup(msg@.args, "target"@) is Some ==> forall|i: int|
            0 <= i < r.deliveries@.len() ==> (#[trigger] r.deliveries@[i]).text@ == encoded(
                EnvelopeView {
                    id: stamp.id@,
                    from: match lookup(msg@.args, "from"@) {
                        Some(from) => from,
                        None => "hub"@,
                    },
                    to: None,
                    reference: None,
                    kind: KindView::Ping,
                    ts: stamp.ts as nat,
                },
            ) + "\r"@,
{
    let from = match msg.arg("from") {
        Some(s) => s,
        None => "hub".to_owned(),
    };
    let ghost handled = ping_handled(registry@, msg@, stamp.id@, stamp.ts);
    let mut out: Vec<Delivery> = Vec::new();
    match msg.arg("target") {
        Some(target_raw) => {
            let target_pane = match resolve_target(registry, target_raw.as_str()) {
                Some(p) => p,
                None => {
                    return refuse("unknown ping target: ".to_owned().concat(target_raw.as_str()));
                },
            };
            let envelope = Envelope::new(stamp.id, stamp.ts, from.as_str(), MessageKind::Ping);
            out.push(deliver(&envelope, target_pane));
            assert(deliveries(out@) =~= handled.sent);
            let name = format_pane_id(target_pane);
            let w = ObjectWriter::new().string("forwarded_to", name.as_str());
            assert(w@ =~= seq![("forwarded_to"@, json_quote(name@))]);
            Answer { deliveries: out, response: PipeResponse::Done(Some(w.finish())) }
        },
        None => {
            match parse_terminal_id(from.as_str()) {
                Some(t) => {
                    let envelope = Envelope::new(stamp.id, stamp.ts, "hub", MessageKind::Pong);
                    out.push(deliver(&envelope, PaneId::Terminal(t)));
                },
                None => {},
            }
            assert(deliveries(out@) =~= handled.sent);
            Answer { deliveries: out, response: PipeResponse::Done(None) }
        },
    }
}

// ---------------------------------------------------------------------------
// Timers
// ---------------------------------------------------------------------------

/// What a request about timers leads to, and the timers after it. `timeout` is
/// how long a new timer is set for.
pub ghost struct TimersHandled {
    pub timers: Seq<TimerView>,
    pub next_timer_id: u64,
    pub timeout: Option<u64>,
    pub reply: ReplyView,
}

/// The label of a timer.
pub open spec fn timer_label(msg: PipeView) -> Seq<char> {
    match msg.payload {
        Some(s) => s,
        None => Seq::empty(),
    }
}

/// Whether a request to set a timer is granted.
pub open spec fn sets_timer(v: RegistryView, msg: PipeView, seconds: Option<u64>) -> bool {
    &&& match lookup(msg.args, "target"@) {
        Some(target) => resolved(v, target) is Some && resolved(v, target)->0 is Terminal,
        None => false,
    }
    &&& lookup(msg.args, "seconds"@) is Some
    &&& seconds is Some
}

/// Whether a request to the hub sets a timer.
pub open spec fn starts_timer(v: RegistryView, msg: PipeView, seconds: Option<u64>) -> bool {
    lookup(msg.args, "action"@) == Some("timer"@) && sets_timer(v, msg, seconds)
}

/// What a request to set a timer leads to. `seconds` is the duration that the
/// request names, where it is a positive number.
pub open spec fn timer_handled(
    v: RegistryView,
    timers: Seq<TimerView>,
    next_timer_id: u64,
    msg: PipeView,
    seconds: Option<u64>,
) -> TimersHandled {
    let failed = |why: Seq<char>|
        TimersHandled { timers, next_timer_id, timeout: None, reply: ReplyView::Failed(why) };
    match (lookup(msg.args, "target"@), lookup(msg.args, "seconds"@), seconds) {
        (None, _, _) => failed("missing required arg: target"@),
        (Some(_), None, _) => failed("missing required arg: seconds"@),
        (Some(_), Some(text), None) => failed("invalid seconds: "@ + text),
        (Some(target), Some(_), Some(seconds)) => match resolved(v, target) {
            None => failed("unknown target: "@ + target),
            Some(PaneId::Plugin(_)) => failed("timer target must be a terminal pane"@),
            Some(PaneId::Terminal(pane_id)) => TimersHandled {
                timers: timers.push(
                    TimerView { id: next_timer_id, pane_id, label: timer_label(msg), seconds },
                ),
                next_timer_id: (next_timer_id + 1) as u64,
                timeout: Some(seconds),
                reply: ReplyView::Done(
                    Some(object_text(seq![("timer_id"@, decimal(next_timer_id as nat))])),
                ),
            },
        },
    }
}

/// Sets a timer.
pub fn handle_timer(
    registry: &AgentRegistry,
    msg: &PipeMessage,
    timers: &mut Vec<PendingTimer>,
    next_timer_id: &mut u64,
    seconds: Option<u64>,
) -> (r: (PipeResponse, Option<u64>))
    requires
        registry.wf(),
        sets_timer(registry@, msg@, seconds) ==> *old(next_timer_id) < u64::MAX,
    ensures
        (TimersHandled {
            timers: timer_views(final(timers)@),
            next_timer_id: *final(next_timer_id),
            timeout: r.1,
            reply: r.0@,
        }) == timer_handled(
            registry@,
            timer_views(old(timers)@),
            *old(next_timer_id),
            msg@,
            seconds,
        ),
{
    let target_raw = match msg.arg("target") {
        Some(v) => v,
        None => {
            return (PipeResponse::Failed("missing required arg: target".to_owned()), None);
        },
    };
    let seconds_str = match msg.arg("seconds") {
        Some(v) => v,
        None => {
            return (PipeResponse::Failed("missing required arg: seconds".to_owned()), None);
        },
    };
    let seconds = match seconds {
        Some(v) => v,
        None => {
            return (
                PipeResponse::Failed("invalid seconds: ".to_owned().concat(seconds_str.as_str())),
                None,
            );
        },
    };
    let label = match &msg.payload {
        Some(p) => p.clone(),
        None => String::new(),
    };
    let pane_id = match resolve_target(registry, target_raw.as_str()) {
        Some(PaneId::Terminal(id)) => id,
        Some(PaneId::Plugin(_)) => {
            return (
                PipeResponse::Failed("timer target must be a terminal pane".to_owned()),
                None,
            );
        },
        None => {
            return (
                PipeResponse::Failed("unknown target: ".to_owned().concat(target_raw.as_str())),
                None,
            );
        },
    };
    let id: u64 = *next_timer_id;
    *next_timer_id = id + 1;
    let ghost before = timer_views(timers@);
    timers.push(PendingTimer { id, pane_id, label, seconds });
    assert(label@ =~= timer_label(msg@));
    assert(timer_views(timers@) =~= before.push(TimerView { id, pane_id, label: label@, seconds }));
    let w = ObjectWriter::new().number("timer_id", id);
    assert(w@ =~= seq![("timer_id"@, decimal(id as nat))]);
    (PipeResponse::Done(Some(w.finish())), Some(seconds))
}

/// The timers without the one with the given id.
pub open spec fn without_timer(timers: Seq<TimerView>, id: u64) -> Seq<TimerView>
    decreases timers.len(),
{
    if timers.len() == 0 {
        Seq::empty()
    } else {
        let before = without_timer(timers.drop_last(), id);
        if timers.last().id == id {
            before
        } else {
            before.push(timers.last())
        }
    }
}

/// Whether a timer with the given id is pending.
pub open spec fn is_pending(timers: Seq<TimerView>, id: u64) -> bool {
    exists|i: int| 0 <= i < timers.len() && (#[trigger] timers[i]).id == id
}

/// What a request to cancel a timer leads to.
pub open spec fn cancel_handled(
    timers: Seq<TimerView>,
    next_timer_id: u64,
    msg: PipeView,
) -> TimersHandled {
    let failed = |why: Seq<char>|
        TimersHandled { timers, next_timer_id, timeout: None, reply: ReplyView::Failed(why) };
    match lookup(msg.args, "timer_id"@) {
        None => failed("missing required arg: timer_id"@),
        Some(text) => match parsed(text, u64::MAX as nat) {
            None => failed("invalid timer_id: "@ + text),
            Some(id) => if is_pending(timers, id as u64) {
                TimersHandled {
                    timers: without_timer(timers, id as u64),
                    next_timer_id,
                    timeout: None,
                    reply: ReplyView::Done(
                        Some(object_text(seq![("cancelled"@, decimal(id))])),
                    ),
                }
            } else {
                failed("timer "@ + decimal(id) + " not found"@)
            },
        },
    }
}

pub proof fn lemma_without_timer(timers: Seq<TimerView>, id: u64)
    ensures
        !is_pending(timers, id) ==> without_timer(timers, id) == timers,
    decreases timers.len(),
{
    if timers.len() > 0 && !is_pending(timers, id) {
        let rest = timers.drop_last();
        assert(!is_pending(rest, id)) by {
            if is_pending(rest, id) {
                let i = choose|i: int| 0 <= i < rest.len() && (#[trigger] rest[i]).id == id;
                assert(timers[i] == rest[i]);
            }
        }
        lemma_without_timer(rest, id);
        assert(timers[timers.len() - 1] == timers.last());
        assert(rest.push(timers.last()) =~= timers);
    }
}

/// Takes the timers with the given id out of the list, and tells whether there
/// were any.
#[verifier::loop_isolation(false)]
fn remove_timer(timers: &mut Vec<PendingTimer>, id: u64) -> (r: bool)
    ensures
        timer_views(final(timers)@) == without_timer(timer_views(old(timers)@), id),
        r == is_pending(timer_views(old(timers)@), id),
{
    let ghost all = timer_views(timers@);
    let ghost start = timers@;
    let ghost mut seen: int = 0;
    let mut i: usize = 0;
    let mut found = false;
    assert(timer_views(timers@.take(0)) =~= without_timer(all.take(0), id));
    while i < timers.len()
        invariant
            0 <= i <= timers@.len(),
            0 <= seen <= start.len(),
            timers@.skip(i as int) == start.skip(seen),
            timer_views(timers@.take(i as int)) == without_timer(all.take(seen), id),
            found == is_pending(all.take(seen), id),
        decreases timers@.len() - i,
    {
        let ghost kept = timers@.take(i as int);
        proof {
            assert(timers@.skip(i as int)[0] == start.skip(seen)[0]);
            assert(all.take(seen + 1).drop_last() =~= all.take(seen));
            assert(all.take(seen + 1).last() == all[seen]);
            lemma_pending_step(all, seen, id);
        }
        let ghost current = timers@;
        if timers[i].id == id {
            let _ = timers.remove(i);
            found = true;
            assert(timers@.take(i as int) =~= kept);
            assert(timers@.skip(i as int) =~= current.skip(i as int).skip(1));
        } else {
            i = i + 1;
            assert(timer_views(timers@.take(i as int)) =~= timer_views(kept).push(all[seen]));
            assert(timers@.skip(i as int) =~= current.skip(i - 1).skip(1));
        }
        proof {
            assert(start.skip(seen).skip(1) =~= start.skip(seen + 1));
            seen = seen + 1;
        }
    }
    proof {
        assert(timers@.skip(i as int).len() == 0);
        assert(all.take(seen) =~= all);
        assert(timers@.take(i as int) =~= timers@);
    }
    found
}

proof fn lemma_pending_step(all: Seq<TimerView>, k: int, id: u64)
    requires
        0 <= k < all.len(),
    ensures
        is_pending(all.take(k + 1), id) <==> is_pending(all.take(k), id) || all[k].id == id,
{
    let a = all.take(k);
    let b = all.take(k + 1);
    if is_pending(a, id) {
        let i = choose|i: int| 0 <= i < a.len() && (#[trigger] a[i]).id == id;
        assert(b[i] == a[i]);
    }
    if all[k].id == id {
        assert(b[k] == all[k]);
    }
    if is_pending(b, id) {
        let i = choose|i: int| 0 <= i < b.len() && (#[trigger] b[i]).id == id;
        if i < k {
            assert(a[i] == b[i]);
        }
    }
}

/// Cancels a timer.
pub fn handle_cancel_timer(msg: &PipeMessage, timers: &mut Vec<PendingTimer>) -> (r: PipeResponse)
    ensures
        forall|next: u64|
            (TimersHandled {
                timers: timer_views(final(timers)@),
                next_timer_id: next,
                timeout: None,
                reply: r@,
            }) == #[trigger] cancel_handled(timer_views(old(timers)@), next, msg@),
{
    let id_str = match msg.arg("timer_id") {
        Some(v) => v,
        None => {
            return PipeResponse::Failed("missing required arg: timer_id".to_owned());
        },
    };
    let id: u64 = match parse_u64(id_str.as_str()) {
        Some(v) => v,
        None => {
            return PipeResponse::Failed("invalid timer_id: ".to_owned().concat(id_str.as_str()));
        },
    };
    proof {
        lemma_without_timer(timer_views(timers@), id);
    }
    if remove_timer(timers, id) {
        let w = ObjectWriter::new().number("cancelled", id);
        assert(w@ =~= seq![("cancelled"@, decimal(id as nat))]);
        PipeResponse::Done(Some(w.finish()))
    } else {
        PipeResponse::Failed(
            "timer ".to_owned().concat(decimal_of(id).as_str()).concat(" not found"),
        )
    }
}

/// The delivery of a timer that has gone off.
pub fn deliver_timer(pane_id: u32, label: &str, stamp: Stamp) -> (r: Delivery)
    ensures
        r.target == PaneId::Terminal(pane_id),
        r.text@ == typed(stamped(stamp.id@, stamp.ts, "hub"@, KindView::Timer(label@))),
        r.text@ == encoded(
            EnvelopeView {
                id: stamp.id@,
                from: "hub"@,
                to: None,
                reference: None,
                kind: KindView::Timer(label@),
                ts: stamp.ts as nat,
            },
        ) + "\r"@,
{
    let envelope = Envelope::new(
        stamp.id,
        stamp.ts,
        "hub",
        MessageKind::Timer { label: label.to_owned() },
    );
    deliver(&envelope, PaneId::Terminal(pane_id))
}

// ---------------------------------------------------------------------------
// Dispatch
// ---------------------------------------------------------------------------

/// What a request may change.
pub ghost struct HubState {
    pub registry: RegistryView,
    pub timers: Seq<TimerView>,
    pub next_timer_id: u64,
}

/// What a request leads to, and the state after it.
pub ghost struct PipeHandled {
    pub state: HubState,
    pub sent: Seq<(PaneId, Seq<char>)>,
    pub timeout: Option<u64>,
    pub reply: ReplyView,
}

/// A request that touches no timer.
pub open spec fn agents_part(s: HubState, h: Handled) -> PipeHandled {
    PipeHandled {
        state: HubState { registry: h.registry, ..s },
        sent: h.sent,
        timeout: None,
        reply: h.reply,
    }
}

/// A request about timers.
pub open spec fn timers_part(s: HubState, t: TimersHandled) -> PipeHandled {
    PipeHandled {
        state: HubState { timers: t.timers, next_timer_id: t.next_timer_id, ..s },
        sent: Seq::empty(),
        timeout: t.timeout,
        reply: t.reply,
    }
}

/// What a request leads to. A message that the hub sends on its account has the
/// given id and time; `seconds` is the duration that the request names, where
/// it is a positive number.
pub open spec fn pipe_handled(
    s: HubState,
    msg: PipeView,
    id: Seq<char>,
    ts: u64,
    seconds: Option<u64>,
) -> PipeHandled {
    let v = s.registry;
    match lookup(msg.args, "action"@) {
        None => agents_part(s, refused(v, "missing 'action' arg"@)),
        Some(action) => if action == "send"@ {
            agents_part(s, send_handled(v, msg, id, ts))
        } else if action == "broadcast"@ {
            agents_part(s, broadcast_handled(v, msg, id, ts))
        } else if action == "register"@ {
            agents_part(s, register_handled(v, msg))
        } else if action == "unregister"@ {
            agents_part(s, unregister_handled(v, msg))
        } else if action == "list"@ {
            agents_part(s, list_handled(v))
        } else if action == "status"@ {
            agents_part(s, status_handled(v))
        } else if action == "ping"@ {
            agents_part(s, ping_handled(v, msg, id, ts))
        } else if action == "timer"@ {
            timers_part(s, timer_handled(v, s.timers, s.next_timer_id, msg, seconds))
        } else if action == "cancel_timer"@ {
            timers_part(s, cancel_handled(s.timers, s.next_timer_id, msg))
        } else {
            agents_part(s, refused(v, "unknown action: "@ + action))
        },
    }
}

/// The reply on the pipe where it is awaited.
pub open spec fn awaited(msg: PipeView, reply: ReplyView) -> Option<(Seq<char>, Seq<char>)> {
    match msg.pipe {
        Some(pipe) => Some((pipe, reply_text(reply))),
        None => None,
    }
}

/// What is to be done for a request: texts to be typed into panes, a reply to
/// be written to a pipe, and a timeout to be set.
#[derive(Debug)]
pub struct Outcome {
    pub deliveries: Vec<Delivery>,
    pub response: Option<(String, String)>,
    pub timeout: Option<u64>,
}

/// The view of a reply on a pipe.
pub open spec fn response_view(r: Option<(String, String)>) -> Option<(Seq<char>, Seq<char>)> {
    match r {
        Some((pipe, json)) => Some((pipe@, json@)),
        None => None,
    }
}

/// The reply to a request, where one is awaited.
fn respond(msg: &PipeMessage, response: &PipeResponse) -> (r: Option<(String, String)>)
    ensures
        response_view(r) == awaited(msg@, response@),
{
    match &msg.source {
        PipeSource::Cli(pipe) => Some((pipe.clone(), response.to_json())),
        PipeSource::Other => None,
    }
}

/// Whether an outcome is what a request leads to.
pub open spec fn meets(o: Outcome, msg: PipeView, h: PipeHandled) -> bool {
    &&& deliveries(o.deliveries@) == h.sent
    &&& response_view(o.response) == awaited(msg, h.reply)
    &&& o.timeout == h.timeout
}

/// Handles a request to the hub.
pub fn handle_pipe(
    registry: &mut AgentRegistry,
    msg: &PipeMessage,
    timers: &mut Vec<PendingTimer>,
    next_timer_id: &mut u64,
    stamp: Stamp,
    seconds: Option<u64>,
) -> (r: Outcome)
    requires
        old(registry).wf(),
        starts_timer(old(registry)@, msg@, seconds) ==> *old(next_timer_id) < u64::MAX,
    ensures
        final(registry).wf(),
        ({
            let h = pipe_handled(
                HubState {
                    registry: old(registry)@,
                    timers: timer_views(old(timers)@),
                    next_timer_id: *old(next_timer_id),
                },
                msg@,
                stamp.id@,
                stamp.ts,
                seconds,
            );
            &&& meets(r, msg@, h)
            &&& h.state == (HubState {
                registry: final(registry)@,
                timers: timer_views(final(timers)@),
                next_timer_id: *final(next_timer_id),
            })
        }),
{
    let action = match msg.arg("action") {
        Some(a) => a,
        None => {
            let answer = refuse("missing 'action' arg".to_owned());
            return Outcome {
                response: respond(msg, &answer.response),
                deliveries: answer.deliveries,
                timeout: None,
            };
        },
    };
    let action = action.as_str();
    if same(action, "timer") {
        proof {
            lemma_actions();
        }
        let (response, timeout) = handle_timer(registry, msg, timers, next_timer_id, seconds);
        let out: Vec<Delivery> = Vec::new();
        assert(deliveries(out@) =~= Seq::<(PaneId, Seq<char>)>::empty());
        return Outcome { response: respond(msg, &response), deliveries: out, timeout };
    }
    if same(action, "cancel_timer") {
        proof {
            lemma_actions();
        }
        let response = handle_cancel_timer(msg, timers);
        let out: Vec<Delivery> = Vec::new();
        assert(deliveries(out@) =~= Seq::<(PaneId, Seq<char>)>::empty());
        assert((TimersHandled {
            timers: timer_views(timers@),
            next_timer_id: *next_timer_id,
            timeout: None,
            reply: response@,
        }) == cancel_handled(timer_views(old(timers)@), *next_timer_id, msg@));
        return Outcome { response: respond(msg, &response), deliveries: out, timeout: None };
    }
    let answer = if same(action, "send") {
        handle_send(registry, msg, stamp)
    } else if same(action, "broadcast") {
        handle_broadcast(registry, msg, stamp)
    } else if same(action, "register") {
        handle_register(registry, msg)
    } else if same(action, "unregister") {
        handle_unregister(registry, msg)
    } else if same(action, "list") {
        handle_list(registry)
    } else if same(action, "status") {
        handle_status(registry)
    } else if same(action, "ping") {
        handle_ping(registry, msg, stamp)
    } else {
        refuse("unknown action: ".to_owned().concat(action))
    };
    Outcome {
        response: respond(msg, &answer.response),
        deliveries: answer.deliveries,
        timeout: None,
    }
}

proof fn lemma_actions()
    ensures
        "timer"@ != "send"@,
        "timer"@ != "broadcast"@,
        "timer"@ != "register"@,
        "timer"@ != "unregister"@,
        "timer"@ != "list"@,
        "timer"@ != "status"@,
        "timer"@ != "ping"@,
        "cancel_timer"@ != "send"@,
        "cancel_timer"@ != "broadcast"@,
        "cancel_timer"@ != "register"@,
        "cancel_timer"@ != "unregister"@,
        "cancel_timer"@ != "list"@,
        "cancel_timer"@ != "status"@,
        "cancel_timer"@ != "ping"@,
        "cancel_timer"@ != "timer"@,
{
    reveal_strlit("timer");
    reveal_strlit("cancel_timer");
    reveal_strlit("send");
    reveal_strlit("broadcast");
    reveal_strlit("register");
    reveal_strlit("unregister");
    reveal_strlit("list");
    reveal_strlit("status");
    reveal_strlit("ping");
    assert("timer"@.len() == 5);
    assert("cancel_timer"@.len() == 12);
}

// ---------------------------------------------------------------------------
// Laws
// ---------------------------------------------------------------------------

/// The name of a terminal and its bare number name that terminal, and the name
/// of a plugin pane names none.
pub proof fn pane_names_read_back(n: u32)
    ensures
        terminal_id(pane_text(PaneId::Terminal(n))) == Some(n),
        terminal_id(decimal(n as nat)) == Some(n),
        terminal_id(pane_text(PaneId::Plugin(n))) is None,
{
    reveal_strlit("terminal_");
    reveal_strlit("plugin_");
    let d = decimal(n as nat);
    parse_reads_decimal(n as nat, u32::MAX as nat);
    lemma_decimal_digits(n as nat);
    let t = "terminal_"@ + d;
    assert("terminal_"@.len() == 9);
    assert(t.take(9) =~= "terminal_"@);
    assert(t.skip(9) =~= d);
    assert(crate::text::has_prefix(t, "terminal_"@));
    assert(is_digit(d[0]));
    if crate::text::has_prefix(d, "terminal_"@) {
        assert(d.take(9)[0] == 't');
    }
    let p = "plugin_"@ + d;
    assert(p[0] == 'p');
    if crate::text::has_prefix(p, "terminal_"@) {
        assert(p.take(9)[0] == 't');
    }
    assert(!is_digit(p[0]));
}

/// The name of an agent names its pane, unless the name itself reads as that of
/// a terminal.
pub proof fn agent_names_resolve(v: RegistryView, name: Seq<char>, id: u32)
    requires
        consistent(v),
        named(v.agents, name, id),
        terminal_id(name) is None,
    ensures
        resolved(v, name) == Some(PaneId::Terminal(id)),
{
}

/// A request that is refused changes nothing: no agent, no timer, and nothing
/// is typed into any pane.
pub proof fn refused_request_changes_nothing(
    s: HubState,
    msg: PipeView,
    id: Seq<char>,
    ts: u64,
    seconds: Option<u64>,
)
    requires
        pipe_handled(s, msg, id, ts, seconds).reply is Failed,
    ensures
        pipe_handled(s, msg, id, ts, seconds).state == s,
        pipe_handled(s, msg, id, ts, seconds).sent.len() == 0,
        pipe_handled(s, msg, id, ts, seconds).timeout is None,
{
}

/// Reports change nothing either.
pub proof fn reports_change_nothing(
    s: HubState,
    msg: PipeView,
    id: Seq<char>,
    ts: u64,
    seconds: Option<u64>,
)
    requires
        lookup(msg.args, "action"@) == Some("list"@) || lookup(msg.args, "action"@) == Some(
            "status"@,
        ),
    ensures
        pipe_handled(s, msg, id, ts, seconds).state == s,
        pipe_handled(s, msg, id, ts, seconds).sent.len() == 0,
        pipe_handled(s, msg, id, ts, seconds).reply is Done,
{
    reveal_strlit("list");
    reveal_strlit("status");
    reveal_strlit("send");
    reveal_strlit("broadcast");
    reveal_strlit("register");
    reveal_strlit("unregister");
    assert("list"@.len() == 4 && "status"@.len() == 6);
    assert("send"@.len() == 4 && "list"@[0] == 'l' && "send"@[0] == 's');
}

proof fn lemma_targets(s: Seq<EntryView>, from: Option<u32>)
    requires
        forall|i: int, j: int|
            0 <= i < j < s.len() ==> (#[trigger] s[i]).pane_id < (#[trigger] s[j]).pane_id,
    ensures
        forall|id: u32|
            broadcast_targets(s, from).contains(id) <==> from != Some(id) && exists|i: int|
                0 <= i < s.len() && (#[trigger] s[i]).pane_id == id,
        forall|i: int, j: int|
            0 <= i < j < broadcast_targets(s, from).len() ==> broadcast_targets(s, from)[i]
                < broadcast_targets(s, from)[j],
    decreases s.len(),
{
    if s.len() > 0 {
        let rest = s.drop_last();
        lemma_targets(rest, from);
        let before = broadcast_targets(rest, from);
        let now = broadcast_targets(s, from);
        let last = s.last().pane_id;
        assert forall|i: int| 0 <= i < before.len() implies #[trigger] before[i] < last by {
            assert(before.contains(before[i]));
            let k = choose|k: int| 0 <= k < rest.len() && (#[trigger] rest[k]).pane_id == before[i];
            assert(s[k] == rest[k]);
            assert(s[k].pane_id < s[s.len() - 1].pane_id);
        }
        assert forall|id: u32|
            now.contains(id) <==> from != Some(id) && exists|i: int|
                0 <= i < s.len() && (#[trigger] s[i]).pane_id == id by {
            if now.contains(id) {
                let k = now.index_of(id);
                if k < before.len() {
                    assert(before[k] == id);
                    assert(before.contains(id));
                    let i = choose|i: int| 0 <= i < rest.len() && (#[trigger] rest[i]).pane_id == id;
                    assert(s[i] == rest[i]);
                } else {
                    assert(s[s.len() - 1].pane_id == id);
                }
            }
            if from != Some(id) && exists|i: int|
                0 <= i < s.len() && (#[trigger] s[i]).pane_id == id {
                let i = choose|i: int| 0 <= i < s.len() && (#[trigger] s[i]).pane_id == id;
                if i < rest.len() {
                    assert(rest[i] == s[i]);
                    assert(before.contains(id));
                    let k = before.index_of(id);
                    assert(now[k] == id);
                } else {
                    assert(now[now.len() - 1] == id);
                }
            }
        }
    }
}

proof fn lemma_listed_order(agents: Map<u32, EntryView>, n: nat)
    requires
        forall|id: u32| #[trigger] agents.contains_key(id) ==> agents[id].pane_id == id,
        n <= u32::MAX + 1,
    ensures
        forall|i: int|
            0 <= i < agents_below(agents, n).len() ==> {
                let e = #[trigger] agents_below(agents, n)[i];
                e.pane_id < n && agents.contains_key(e.pane_id) && agents[e.pane_id] == e
            },
        forall|i: int, j: int|
            0 <= i < j < agents_below(agents, n).len() ==> (#[trigger] agents_below(
                agents,
                n,
            )[i]).pane_id < (#[trigger] agents_below(agents, n)[j]).pane_id,
        forall|id: u32|
            id < n && #[trigger] agents.contains_key(id) ==> agents_below(agents, n).contains(
                agents[id],
            ),
    decreases n,
{
    if n > 0 {
        let m = (n - 1) as nat;
        lemma_listed_order(agents, m);
        let before = agents_below(agents, m);
        let now = agents_below(agents, n);
        assert forall|id: u32| id < n && #[trigger] agents.contains_key(id) implies now.contains(
            agents[id],
        ) by {
            if id < m {
                assert(before.contains(agents[id]));
                let k = before.index_of(agents[id]);
                assert(now[k] == before[k]);
            } else {
                assert(now[now.len() - 1] == agents[id]);
            }
        }
    }
}

proof fn lemma_active_order(s: Seq<EntryView>)
    requires
        forall|i: int, j: int|
            0 <= i < j < s.len() ==> (#[trigger] s[i]).pane_id < (#[trigger] s[j]).pane_id,
    ensures
        forall|i: int, j: int|
            0 <= i < j < active_among(s).len() ==> (#[trigger] active_among(s)[i]).pane_id < (
            #[trigger] active_among(s)[j]).pane_id,
    decreases s.len(),
{
    if s.len() > 0 {
        let rest = s.drop_last();
        lemma_active_order(rest);
        lemma_active_among(rest);
        let before = active_among(rest);
        assert forall|i: int| 0 <= i < before.len() implies (#[trigger] before[i]).pane_id
            < s.last().pane_id by {
            assert(rest.contains(before[i]));
            let k = rest.index_of(before[i]);
            assert(s[k] == rest[k]);
            assert(s[k].pane_id < s[s.len() - 1].pane_id);
        }
    }
}

/// A list of agents holds every agent once, in ascending order of the panes.
pub proof fn list_holds_every_agent(v: RegistryView)
    requires
        consistent(v),
    ensures
        forall|id: u32| #[trigger]
            v.agents.contains_key(id) ==> listed(v.agents).contains(v.agents[id]),
        forall|i: int|
            0 <= i < listed(v.agents).len() ==> {
                let e = #[trigger] listed(v.agents)[i];
                v.agents.contains_key(e.pane_id) && v.agents[e.pane_id] == e
            },
        forall|i: int, j: int|
            0 <= i < j < listed(v.agents).len() ==> (#[trigger] listed(v.agents)[i]).pane_id < (
            #[trigger] listed(v.agents)[j]).pane_id,
{
    assert forall|id: u32| #[trigger] v.agents.contains_key(id) implies v.agents[id].pane_id
        == id by {
        assert(entry_ok(v.agents[id], id, v.tick));
    }
    lemma_listed_order(v.agents, (u32::MAX + 1) as nat);
}

/// A broadcast reaches every active agent but the sender, each once, and nobody
/// else.
pub proof fn broadcast_reaches_all_but_sender(v: RegistryView, from: Option<u32>)
    requires
        consistent(v),
    ensures
        forall|id: u32|
            broadcast_targets(active_among(listed(v.agents)), from).contains(id) <==> {
                &&& from != Some(id)
                &&& v.agents.contains_key(id)
                &&& is_active(v.agents[id])
            },
        broadcast_targets(active_among(listed(v.agents)), from).no_duplicates(),
{
    let all = listed(v.agents);
    let active = active_among(all);
    list_holds_every_agent(v);
    lemma_active_among(all);
    lemma_active_order(all);
    lemma_targets(active, from);
    assert forall|id: u32|
        broadcast_targets(active, from).contains(id) <==> {
            &&& from != Some(id)
            &&& v.agents.contains_key(id)
            &&& is_active(v.agents[id])
        } by {
        if broadcast_targets(active, from).contains(id) {
            let k = choose|k: int| 0 <= k < active.len() && (#[trigger] active[k]).pane_id == id;
            assert(all.contains(active[k]));
            let j = all.index_of(active[k]);
            assert(all[j] == active[k]);
        }
        if v.agents.contains_key(id) && is_active(v.agents[id]) {
            assert(entry_ok(v.agents[id], id, v.tick));
            assert(all.contains(v.agents[id]));
            let j = all.index_of(v.agents[id]);
            assert(is_active(all[j]));
            assert(active.contains(all[j]));
            let k = active.index_of(all[j]);
            assert(active[k].pane_id == id);
        }
    }
}

/// A timer that was cancelled is pending no more, and every other timer stays.
pub proof fn cancelled_timer_is_gone(timers: Seq<TimerView>, id: u64)
    ensures
        !is_pending(without_timer(timers, id), id),
        forall|i: int|
            0 <= i < timers.len() && (#[trigger] timers[i]).id != id ==> without_timer(
                timers,
                id,
            ).contains(timers[i]),
    decreases timers.len(),
{
    if timers.len() > 0 {
        let rest = timers.drop_last();
        cancelled_timer_is_gone(rest, id);
        let before = without_timer(rest, id);
        let now = without_timer(timers, id);
        if is_pending(now, id) {
            let k = choose|k: int| 0 <= k < now.len() && (#[trigger] now[k]).id == id;
            if k < before.len() {
                assert(before[k] == now[k]);
            }
        }
        assert forall|i: int| 0 <= i < timers.len() && (#[trigger] timers[i]).id
            != id implies now.contains(timers[i]) by {
            if i < rest.len() {
                assert(rest[i] == timers[i]);
                assert(before.contains(rest[i]));
                let k = before.index_of(rest[i]);
                assert(now[k] == before[k]);
            } else {
                assert(now[now.len() - 1] == timers[i]);
            }
        }
    }
}

/// A text names a terminal if and only if it is `terminal_` and a number, or a
/// bare number, and the number is that of the terminal.
pub proof fn terminals_are_named_by_numbers(s: Seq<char>, n: u32)
    ensures
        terminal_id(s) == Some(n) ==> parsed(s, u32::MAX as nat) == Some(n as nat) && all_digits(s)
            || exists|d: Seq<char>|
            s == "terminal_"@ + d && #[trigger] parsed(d, u32::MAX as nat) == Some(n as nat),
        terminal_id("terminal_"@ + decimal(n as nat)) == Some(n),
        terminal_id(decimal(n as nat)) == Some(n),
        terminal_id("plugin_"@ + decimal(n as nat)) is None,
{
    pane_names_read_back(n);
    if terminal_id(s) == Some(n) {
        if let Some(d) = after_prefix(s, "terminal_"@) {
            assert(s =~= "terminal_"@ + d);
            assert(parsed(d, u32::MAX as nat) == Some(n as nat));
        }
    }
}

/// A target that reads as a terminal stands for that terminal; any other stands
/// for the terminal of the agent that has it as its name, and for nothing where
/// no agent has.
pub proof fn targets_stand_for_terminals(v: RegistryView, raw: Seq<char>)
    requires
        consistent(v),
    ensures
        terminal_id(raw) matches Some(n) ==> resolved(v, raw) == Some(PaneId::Terminal(n)),
        terminal_id(raw) is None ==> (resolved(v, raw) matches Some(p) ==> {
            &&& p is Terminal
            &&& v.agents.contains_key(p->Terminal_0)
            &&& v.agents[p->Terminal_0].name == Some(raw)
        }),
        terminal_id(raw) is None && resolved(v, raw) is None ==> forall|id: u32| #[trigger]
            v.agents.contains_key(id) ==> v.agents[id].name != Some(raw),
{
    assert forall|id: u32| #[trigger]
        v.agents.contains_key(id) && v.agents[id].name == Some(raw) implies named(
        v.agents,
        raw,
        id,
    ) by {}
}

/// A name of a pane is that of a terminal or of a plugin, with its number.
pub proof fn panes_are_named_by_their_kind(n: u32)
    ensures
        pane_text(PaneId::Terminal(n)) == "terminal_"@ + decimal(n as nat),
        pane_text(PaneId::Plugin(n)) == "plugin_"@ + decimal(n as nat),
{
}

/// What a request to send types is one line into the pane of its target, and
/// that line carries a chat message: from whom the request names, with the whole
/// payload as its text, and as an answer to what the request refers to, if to
/// anything. The line can be read back whatever it holds, and what the pane then
/// shows tells that message and no other. The reply gives the id of that message.
pub proof fn sent_message_is_the_one_requested(
    v: RegistryView,
    msg: PipeView,
    id: Seq<char>,
    ts: u64,
    target: Seq<char>,
    from: Seq<char>,
    text: Seq<char>,
)
    requires
        lookup(msg.args, "target"@) == Some(target),
        lookup(msg.args, "from"@) == Some(from),
        msg.payload == Some(text),
    ensures
        ({
            let h = send_handled(v, msg, id, ts);
            let e = EnvelopeView {
                id,
                from,
                to: None,
                reference: lookup(msg.args, "ref"@),
                kind: KindView::Chat(text),
                ts: ts as nat,
            };
            &&& writable(e)
            &&& resolved(v, target) matches Some(pane) ==> {
                &&& h.sent.len() == 1
                &&& h.sent[0].0 == pane
                &&& h.sent[0].1 == encoded(e) + "\r"@
                &&& tells(lines(h.sent[0].1 + "\n"@), seq![e])
                &&& h.reply == ReplyView::Done(
                    Some(object_text(seq![("message_id"@, json_quote(id))])),
                )
            }
            &&& resolved(v, target) is None ==> {
                &&& h.sent.len() == 0
                &&& h.registry == v
                &&& h.reply == ReplyView::Failed("unknown target: "@ + target)
            }
        }),
{
    messages_are_writable(chat_message(id, ts, from, text, lookup(msg.args, "ref"@)));
    lemma_typed_line(chat_message(id, ts, from, text, lookup(msg.args, "ref"@)));
}

proof fn lemma_typed_line(e: EnvelopeView)
    requires
        writable(e),
        one_line_body(e.kind),
    ensures
        tells(lines(encoded(e) + "\r"@ + "\n"@), seq![e]),
{
    let none = Seq::<char>::empty();
    reveal_strlit("@@RZ:");
    assert(!occurs_in(none, "@@RZ:"@)) by {
        assert forall|k: int| !occurs_at(none, "@@RZ:"@, k) by {}
    }
    assert(lines(none) =~= Seq::<Seq<char>>::empty());
    typed_messages_are_found(none, e, none, Seq::empty());
    assert(none + encoded(e) + "\r"@ + "\n"@ + none =~= encoded(e) + "\r"@ + "\n"@);
    assert(seq![e] + Seq::<EnvelopeView>::empty() =~= seq![e]);
}

/// A request to send that lacks its target, its sender or its payload is
/// refused, and told the first of these that it lacks.
pub proof fn incomplete_sends_are_refused(v: RegistryView, msg: PipeView, id: Seq<char>, ts: u64)
    ensures
        ({
            let h = send_handled(v, msg, id, ts);
            let target = lookup(msg.args, "target"@);
            let from = lookup(msg.args, "from"@);
            &&& target is None ==> h.reply == ReplyView::Failed("missing required arg: target"@)
            &&& target is Some && from is None ==> h.reply == ReplyView::Failed(
                "missing required arg: from"@,
            )
            &&& target is Some && from is Some && msg.payload is None ==> h.reply
                == ReplyView::Failed("send requires a payload"@)
            &&& h.reply is Done <==> target is Some && from is Some && msg.payload is Some
                && resolved(v, target->0) is Some
        }),
{
}

/// A request to send notes a message for the pane that it goes to and, where
/// the sender is a terminal, for that one; of no agent it changes more than
/// the time of the last message and whether it is idle, and no agent comes or
/// goes.
pub proof fn sending_notes_a_message(
    v: RegistryView,
    msg: PipeView,
    id: Seq<char>,
    ts: u64,
    agent: u32,
)
    requires
        consistent(v),
        send_handled(v, msg, id, ts).reply is Done,
    ensures
        ({
            let w = send_handled(v, msg, id, ts).registry;
            let pane = resolved(v, lookup(msg.args, "target"@)->0)->0;
            let taking_part = pane == PaneId::Terminal(agent) || terminal_id(
                lookup(msg.args, "from"@)->0,
            ) == Some(agent);
            &&& w.tick == v.tick
            &&& w.agents.contains_key(agent) <==> v.agents.contains_key(agent)
            &&& v.agents.contains_key(agent) && taking_part ==> w.agents[agent] == (EntryView {
                last_message: v.tick,
                status: w.agents[agent].status,
                ..v.agents[agent]
            }) && !(w.agents[agent].status is Idle)
            &&& v.agents.contains_key(agent) && !(v.agents[agent].status is Idle)
                ==> w.agents[agent].status == v.agents[agent].status
            &&& v.agents.contains_key(agent) && !taking_part ==> w.agents[agent] == v.agents[agent]
        }),
{
}

proof fn lemma_touched_all(v: RegistryView, ids: Seq<u32>, agent: u32)
    ensures
        ({
            let w = touched_all(v, ids);
            &&& w.tick == v.tick
            &&& w.agents.contains_key(agent) <==> v.agents.contains_key(agent)
            &&& v.agents.contains_key(agent) && ids.contains(agent) ==> w.agents[agent] == woken(
                v.agents[agent],
                v.tick,
            )
            &&& v.agents.contains_key(agent) && !ids.contains(agent) ==> w.agents[agent]
                == v.agents[agent]
        }),
    decreases ids.len(),
{
    if ids.len() > 0 {
        let rest = ids.drop_last();
        lemma_touched_all(v, rest, agent);
        if rest.contains(agent) {
            let k = rest.index_of(agent);
            assert(ids[k] == agent);
        }
        if ids.contains(agent) && ids.last() != agent {
            let k = ids.index_of(agent);
            assert(rest[k] == agent);
        }
        if ids.last() == agent {
            assert(ids[ids.len() - 1] == agent);
        }
    }
}

/// Every line that a broadcast types carries a chat message from whom the
/// request names, with the whole payload as its text, and as an answer to what
/// the request refers to, if to anything: the same for all. The line can be
/// read back whatever it holds, and what a pane then shows tells that message
/// and no other. One line goes to the terminal of each agent
/// that takes part in the session, none to the sender and none to anyone else,
/// and the reply tells how many there were.
pub proof fn broadcast_message_is_the_one_requested(
    v: RegistryView,
    msg: PipeView,
    id: Seq<char>,
    ts: u64,
    from: Seq<char>,
    text: Seq<char>,
)
    requires
        consistent(v),
        lookup(msg.args, "from"@) == Some(from),
        msg.payload == Some(text),
    ensures
        ({
            let h = broadcast_handled(v, msg, id, ts);
            let e = EnvelopeView {
                id,
                from,
                to: None,
                reference: lookup(msg.args, "ref"@),
                kind: KindView::Chat(text),
                ts: ts as nat,
            };
            &&& writable(e)
            &&& forall|i: int|
                0 <= i < h.sent.len() ==> (#[trigger] h.sent[i]).1 == encoded(e) + "\r"@ && tells(
                    lines(h.sent[i].1 + "\n"@),
                    seq![e],
                )
            &&& forall|i: int|
                0 <= i < h.sent.len() ==> {
                    let pane = (#[trigger] h.sent[i]).0;
                    &&& pane is Terminal
                    &&& v.agents.contains_key(pane->Terminal_0)
                    &&& v.agents[pane->Terminal_0].status is Active
                        || v.agents[pane->Terminal_0].status is Idle
                    &&& terminal_id(from) != Some(pane->Terminal_0)
                }
            &&& forall|n: u32| #[trigger]
                v.agents.contains_key(n) && (v.agents[n].status is Active
                    || v.agents[n].status is Idle) && terminal_id(from) != Some(n)
                    ==> h.sent.contains((PaneId::Terminal(n), encoded(e) + "\r"@))
            &&& forall|i: int, j: int|
                0 <= i < j < h.sent.len() ==> (#[trigger] h.sent[i]).0 != (#[trigger] h.sent[j]).0
            &&& h.sent.len() <= u32::MAX ==> h.reply == ReplyView::Done(
                Some(object_text(seq![("delivered"@, decimal(h.sent.len()))])),
            )
        }),
{
    let h = broadcast_handled(v, msg, id, ts);
    let sender = terminal_id(from);
    let targets = broadcast_targets(active_among(listed(v.agents)), sender);
    messages_are_writable(chat_message(id, ts, from, text, lookup(msg.args, "ref"@)));
    lemma_typed_line(chat_message(id, ts, from, text, lookup(msg.args, "ref"@)));
    let line = typed(chat_message(id, ts, from, text, lookup(msg.args, "ref"@)));
    broadcast_reaches_all_but_sender(v, sender);
    assert forall|i: int| 0 <= i < h.sent.len() implies {
        let pane = (#[trigger] h.sent[i]).0;
        &&& pane is Terminal
        &&& v.agents.contains_key(pane->Terminal_0)
        &&& v.agents[pane->Terminal_0].status is Active || v.agents[pane->Terminal_0].status is Idle
        &&& sender != Some(pane->Terminal_0)
    } by {
        assert(targets.contains(targets[i]));
        assert(h.sent[i] == (PaneId::Terminal(targets[i]), line));
    }
    assert forall|n: u32| #[trigger]
        v.agents.contains_key(n) && (v.agents[n].status is Active || v.agents[n].status is Idle)
            && sender != Some(n) implies h.sent.contains((PaneId::Terminal(n), line)) by {
        assert(targets.contains(n));
        let k = targets.index_of(n);
        assert(h.sent[k] == (PaneId::Terminal(n), line));
    }
}

/// A broadcast that lacks its sender or its payload is refused, and any other
/// is met, even where there is nobody to tell.
pub proof fn incomplete_broadcasts_are_refused(
    v: RegistryView,
    msg: PipeView,
    id: Seq<char>,
    ts: u64,
)
    ensures
        ({
            let h = broadcast_handled(v, msg, id, ts);
            let from = lookup(msg.args, "from"@);
            &&& from is None ==> h.reply == ReplyView::Failed("missing required arg: from"@)
            &&& from is Some && msg.payload is None ==> h.reply == ReplyView::Failed(
                "broadcast requires a payload"@,
            )
            &&& h.reply is Done <==> from is Some && msg.payload is Some
            &&& h.reply is Failed ==> h.sent.len() == 0 && h.registry == v
        }),
{
}

/// A broadcast notes a message for everyone it reaches and for the sender,
/// where that is a terminal, and changes nothing else of any agent.
pub proof fn broadcasting_notes_a_message(
    v: RegistryView,
    msg: PipeView,
    id: Seq<char>,
    ts: u64,
    agent: u32,
)
    requires
        consistent(v),
        broadcast_handled(v, msg, id, ts).reply is Done,
    ensures
        ({
            let w = broadcast_handled(v, msg, id, ts).registry;
            let taking_part = v.agents[agent].status is Active || v.agents[agent].status is Idle
                || terminal_id(lookup(msg.args, "from"@)->0) == Some(agent);
            &&& w.tick == v.tick
            &&& w.agents.contains_key(agent) <==> v.agents.contains_key(agent)
            &&& v.agents.contains_key(agent) && taking_part ==> w.agents[agent] == (EntryView {
                last_message: v.tick,
                status: w.agents[agent].status,
                ..v.agents[agent]
            }) && !(w.agents[agent].status is Idle)
            &&& v.agents.contains_key(agent) && !(v.agents[agent].status is Idle)
                ==> w.agents[agent].status == v.agents[agent].status
            &&& v.agents.contains_key(agent) && !taking_part ==> w.agents[agent] == v.agents[agent]
        }),
{
    let sender = terminal_id(lookup(msg.args, "from"@)->0);
    let targets = broadcast_targets(active_among(listed(v.agents)), sender);
    broadcast_reaches_all_but_sender(v, sender);
    lemma_touched_all(v, targets, agent);
}

/// A ping that is passed on is one line into the pane of its target, and that
/// line carries a ping: from whom the request names, and from the hub only
/// where it names nobody. What the pane then shows tells that ping and no other
/// message. The reply tells the pane.
pub proof fn forwarded_ping_keeps_its_sender(
    v: RegistryView,
    msg: PipeView,
    id: Seq<char>,
    ts: u64,
    target: Seq<char>,
    pane: PaneId,
)
    requires
        lookup(msg.args, "target"@) == Some(target),
        resolved(v, target) == Some(pane),
    ensures
        ({
            let h = ping_handled(v, msg, id, ts);
            let from = lookup(msg.args, "from"@);
            let ping = |sender: Seq<char>|
                EnvelopeView {
                    id,
                    from: sender,
                    to: None,
                    reference: None,
                    kind: KindView::Ping,
                    ts: ts as nat,
                };
            &&& h.sent.len() == 1
            &&& h.sent[0].0 == pane
            &&& from matches Some(sender) ==> h.sent[0].1 == encoded(ping(sender)) + "\r"@
                && writable(ping(sender)) && tells(
                lines(h.sent[0].1 + "\n"@),
                seq![ping(sender)],
            )
            &&& from is None ==> h.sent[0].1 == encoded(ping("hub"@)) + "\r"@ && writable(
                ping("hub"@),
            ) && tells(lines(h.sent[0].1 + "\n"@), seq![ping("hub"@)])
            &&& h.registry == v
            &&& h.reply == ReplyView::Done(
                Some(
                    object_text(
                        seq![
                            (
                                "forwarded_to"@,
                                json_quote(
                                    match pane {
                                        PaneId::Terminal(n) => "terminal_"@ + decimal(n as nat),
                                        PaneId::Plugin(n) => "plugin_"@ + decimal(n as nat),
                                    },
                                ),
                            ),
                        ],
                    ),
                ),
            )
        }),
{
    let from = match lookup(msg.args, "from"@) {
        Some(s) => s,
        None => "hub"@,
    };
    messages_are_writable(stamped(id, ts, from, KindView::Ping));
    lemma_typed_line(stamped(id, ts, from, KindView::Ping));
}

/// A ping without a target is for the hub, which answers with a pong of its own
/// into the terminal that the ping came from. Where it came from no terminal,
/// nothing is typed anywhere. A ping to a target that stands for nothing is
/// refused.
pub proof fn hub_answers_pings(v: RegistryView, msg: PipeView, id: Seq<char>, ts: u64)
    ensures
        ({
            let h = ping_handled(v, msg, id, ts);
            let from = lookup(msg.args, "from"@);
            let target = lookup(msg.args, "target"@);
            let pong = EnvelopeView {
                id,
                from: "hub"@,
                to: None,
                reference: None,
                kind: KindView::Pong,
                ts: ts as nat,
            };
            &&& writable(pong)
            &&& h.registry == v
            &&& target is None ==> h.reply == ReplyView::Done(None)
            &&& target is None && from is Some && terminal_id(from->0) is Some ==> h.sent == seq![
                (PaneId::Terminal(terminal_id(from->0)->0), encoded(pong) + "\r"@),
            ]
            &&& target is None && (from is None || terminal_id(from->0) is None) ==> h.sent.len()
                == 0
            &&& target is Some && resolved(v, target->0) is None ==> h.sent.len() == 0 && h.reply
                == ReplyView::Failed("unknown ping target: "@ + target->0)
        }),
{
    messages_are_writable(stamped(id, ts, "hub"@, KindView::Pong));
    reveal_strlit("hub");
    reveal_strlit("terminal_");
    assert(terminal_id("hub"@) is None) by {
        assert("hub"@.len() == 3 && "terminal_"@.len() == 9);
        assert(!is_digit("hub"@[0]));
    }
}

/// A request to register that names no terminal is refused, and told so.
pub proof fn registration_needs_a_terminal(v: RegistryView, msg: PipeView)
    ensures
        ({
            let h = register_handled(v, msg);
            let pane = lookup(msg.args, "pane_id"@);
            &&& pane is None ==> h.reply == ReplyView::Failed("missing required arg: pane_id"@)
            &&& pane is Some && terminal_id(pane->0) is None ==> h.reply == ReplyView::Failed(
                "invalid pane_id: "@ + pane->0,
            )
            &&& h.sent.len() == 0
            &&& h.reply is Failed ==> h.registry == v
        }),
{
}

/// A request to register files the agent in the pane `n` that it names, under
/// the name that it gives, or else that of the terminal, with the capabilities
/// that it lists. It is refused if and only if an agent in another pane has the
/// name, and told which.
pub proof fn registration_is_as_requested(v: RegistryView, msg: PipeView, n: u32, name: Seq<char>)
    requires
        consistent(v),
        lookup(msg.args, "pane_id"@) is Some,
        terminal_id(lookup(msg.args, "pane_id"@)->0) == Some(n),
        lookup(msg.args, "name"@) is Some ==> name == lookup(msg.args, "name"@)->0,
        lookup(msg.args, "name"@) is None ==> name == "terminal_"@ + decimal(n as nat),
    ensures
        ({
            let h = register_handled(v, msg);
            let capabilities = lookup(msg.args, "capabilities"@);
            let taken = exists|other: u32| other != n && #[trigger] named(v.agents, name, other);
            &&& h.reply is Failed <==> taken
            &&& !taken ==> {
                &&& h.reply == ReplyView::Done(None)
                &&& h.registry.agents.contains_key(n)
                &&& h.registry.agents[n].name == Some(name)
                &&& h.registry.agents[n].registered
                &&& capabilities is None ==> h.registry.agents[n].capabilities.len() == 0
                &&& capabilities matches Some(s) ==> h.registry.agents[n].capabilities
                    == trimmed_pieces(s)
                &&& h.registry.tick == v.tick
                &&& h.registry.agents.remove(n) == v.agents.remove(n)
            }
            &&& taken ==> exists|other: u32|
                other != n && #[trigger] named(v.agents, name, other) && h.reply
                    == ReplyView::Failed(
                    "name '"@ + name + "' already taken by terminal_"@ + decimal(other as nat),
                )
        }),
{
    let capabilities = requested_capabilities(msg);
    crate::hub::registry::registration_is_refused_for_taken_names(v, n, name, capabilities);
    assert(requested_name(msg, n) == name);
    let h = register_handled(v, msg);
    assert(h.registry.agents.remove(n) =~= v.agents.remove(n));
    if exists|other: u32| other != n && #[trigger] named(v.agents, name, other) {
        let other = holder(v.agents, name)->0;
        assert(named(v.agents, name, other) && other != n);
    }
}

/// A request to take a registration back takes that of the pane that it names,
/// and of no other. It is refused where it names no terminal, or one without an
/// agent.
pub proof fn unregistration_is_as_requested(v: RegistryView, msg: PipeView)
    ensures
        ({
            let h = unregister_handled(v, msg);
            let pane = lookup(msg.args, "pane_id"@);
            &&& pane is None ==> h.reply == ReplyView::Failed("missing required arg: pane_id"@)
            &&& pane is Some && terminal_id(pane->0) is None ==> h.reply == ReplyView::Failed(
                "invalid pane_id: "@ + pane->0,
            )
            &&& h.sent.len() == 0
            &&& h.reply is Failed ==> h.registry == v
            &&& pane is Some && terminal_id(pane->0) is Some ==> {
                let n = terminal_id(pane->0)->0;
                &&& !v.agents.contains_key(n) ==> h.reply == ReplyView::Failed(
                    "no agent with pane_id terminal_"@ + decimal(n as nat),
                )
                &&& v.agents.contains_key(n) ==> {
                    &&& h.reply == ReplyView::Done(None)
                    &&& h.registry.agents.contains_key(n) <==> !(v.agents[n].status is Dead)
                    &&& h.registry.agents.contains_key(n) ==> h.registry.agents[n] == (EntryView {
                        name: None,
                        capabilities: Seq::empty(),
                        registered: false,
                        ..v.agents[n]
                    })
                    &&& h.registry.tick == v.tick
                    &&& h.registry.agents.remove(n) == v.agents.remove(n)
                }
            }
        }),
{
    if let Ok(n) = requested_pane(msg) {
        let h = unregister_handled(v, msg);
        assert(h.registry.agents.remove(n) =~= v.agents.remove(n));
    }
}

/// The report of the state of the hub counts all the agents, those that take
/// part in the session and those that do not, and gives the number of
/// manifests. None is counted twice or left out.
pub proof fn status_report_counts_the_agents(v: RegistryView) -> (m: Seq<(Seq<char>, Seq<char>)>)
    ensures
        status_handled(v).reply == ReplyView::Done(Some(object_text(m))),
        lookup(m, "total"@) == Some(decimal(listed(v.agents).len())),
        lookup(m, "active"@) == Some(
            decimal(listed(v.agents).filter(|e: EntryView| e.status is Active || e.status is Idle).len()),
        ),
        lookup(m, "dead"@) == Some(
            decimal(
                listed(v.agents).filter(
                    |e: EntryView| !(e.status is Active) && !(e.status is Idle),
                ).len(),
            ),
        ),
        lookup(m, "tick"@) == Some(decimal(v.tick as nat)),
{
    reveal_strlit("total");
    reveal_strlit("active");
    reveal_strlit("dead");
    reveal_strlit("tick");
    let all = listed(v.agents);
    lemma_active_count(all);
    let total = all.len();
    let active = active_among(all).len();
    let m = seq![
        ("total"@, decimal(total)),
        ("active"@, decimal(active)),
        ("dead"@, decimal((total - active) as nat)),
        ("tick"@, decimal(v.tick as nat)),
    ];
    assert("total"@.len() == 5 && "active"@.len() == 6 && "dead"@.len() == 4 && "tick"@.len() == 4);
    assert("dead"@[0] != "tick"@[0]);
    lemma_lookup(m, "total"@, 0);
    lemma_lookup(m, "active"@, 1);
    lemma_lookup(m, "dead"@, 2);
    lemma_lookup(m, "tick"@, 3);
    m
}

proof fn lemma_active_count(s: Seq<EntryView>)
    ensures
        active_among(s) == s.filter(|e: EntryView| e.status is Active || e.status is Idle),
        s.filter(|e: EntryView| !(e.status is Active) && !(e.status is Idle)).len() == s.len()
            - active_among(s).len(),
    decreases s.len(),
{
    reveal(Seq::filter);
    if s.len() > 0 {
        lemma_active_count(s.drop_last());
    }
}

/// An agent in a list is given with all that is known of it, each part under
/// its name.
pub proof fn listed_agents_are_given_whole(e: EntryView) -> (m: Seq<(Seq<char>, Seq<char>)>)
    ensures
        agent_text(e) == object_text(m),
        lookup(m, "pane_id"@) == Some(json_quote("terminal_"@ + decimal(e.pane_id as nat))),
        e.name matches Some(name) ==> lookup(m, "name"@) == Some(json_quote(name)),
        e.name is None ==> lookup(m, "name"@) == Some("null"@),
        lookup(m, "status"@) == Some(status_text(e.status)),
        e.command matches Some(command) ==> lookup(m, "command"@) == Some(json_quote(command)),
        e.command is None ==> lookup(m, "command"@) == Some("null"@),
        lookup(m, "title"@) == Some(json_quote(e.title)),
        lookup(m, "tab"@) == Some(decimal(e.tab as nat)),
        e.registered ==> lookup(m, "registered"@) == Some("true"@),
        !e.registered ==> lookup(m, "registered"@) == Some("false"@),
        lookup(m, "capabilities"@) == Some(
            list_text(Seq::new(e.capabilities.len(), |i: int| json_quote(e.capabilities[i]))),
        ),
{
    reveal_strlit("pane_id");
    reveal_strlit("name");
    reveal_strlit("status");
    reveal_strlit("command");
    reveal_strlit("title");
    reveal_strlit("tab");
    reveal_strlit("registered");
    reveal_strlit("capabilities");
    let m = seq![
        ("pane_id"@, json_quote("terminal_"@ + decimal(e.pane_id as nat))),
        ("name"@, opt_quote(e.name)),
        ("status"@, status_text(e.status)),
        ("command"@, opt_quote(e.command)),
        ("title"@, json_quote(e.title)),
        ("tab"@, decimal(e.tab as nat)),
        ("registered"@, bool_text(e.registered)),
        ("capabilities"@, list_text(quoted(e.capabilities))),
    ];
    assert(quoted(e.capabilities) =~= Seq::new(
        e.capabilities.len(),
        |i: int| json_quote(e.capabilities[i]),
    ));
    assert("pane_id"@.len() == 7 && "pane_id"@[0] == 'p');
    assert("name"@.len() == 4);
    assert("status"@.len() == 6);
    assert("command"@.len() == 7 && "command"@[0] == 'c');
    assert("title"@.len() == 5);
    assert("tab"@.len() == 3);
    assert("registered"@.len() == 10);
    assert("capabilities"@.len() == 12);
    lemma_lookup(m, "pane_id"@, 0);
    lemma_lookup(m, "name"@, 1);
    lemma_lookup(m, "status"@, 2);
    lemma_lookup(m, "command"@, 3);
    lemma_lookup(m, "title"@, 4);
    lemma_lookup(m, "tab"@, 5);
    lemma_lookup(m, "registered"@, 6);
    lemma_lookup(m, "capabilities"@, 7);
    m
}

/// A status is given by its name, and that of a dead agent with how its program
/// ended, where that is known, and when.
pub proof fn statuses_are_given_by_name(code: i32, died_at: u64)
    ensures
        status_text(AgentStatus::Active) == object_text(seq![("status"@, json_quote("active"@))]),
        status_text(AgentStatus::Idle) == object_text(seq![("status"@, json_quote("idle"@))]),
        status_text(AgentStatus::Pending) == object_text(seq![("status"@, json_quote("pending"@))]),
        status_text(AgentStatus::Dead { exit_status: Some(code), died_at }) == object_text(
            seq![
                ("status"@, json_quote("dead"@)),
                ("exit_status"@, signed_decimal(code as int)),
                ("died_at"@, decimal(died_at as nat)),
            ],
        ),
        status_text(AgentStatus::Dead { exit_status: None, died_at }) == object_text(
            seq![
                ("status"@, json_quote("dead"@)),
                ("exit_status"@, "null"@),
                ("died_at"@, decimal(died_at as nat)),
            ],
        ),
{
}

/// The reply to a request for the list of agents gives each agent of the
/// registry, once and in ascending order of the panes.
pub proof fn list_reply_gives_each_agent(v: RegistryView) -> (texts: Seq<Seq<char>>)
    requires
        consistent(v),
    ensures
        list_handled(v).reply == ReplyView::Done(Some(list_text(texts))),
        list_handled(v).registry == v,
        list_handled(v).sent.len() == 0,
        texts.len() == listed(v.agents).len(),
        forall|i: int| 0 <= i < texts.len() ==> #[trigger] texts[i] == agent_text(listed(v.agents)[i]),
        forall|id: u32| #[trigger]
            v.agents.contains_key(id) ==> texts.contains(agent_text(v.agents[id])),
{
    let all = listed(v.agents);
    let texts = all.map_values(|e: EntryView| agent_text(e));
    list_holds_every_agent(v);
    assert forall|id: u32| #[trigger] v.agents.contains_key(id) implies texts.contains(
        agent_text(v.agents[id]),
    ) by {
        let k = all.index_of(v.agents[id]);
        assert(texts[k] == agent_text(v.agents[id]));
    }
    texts
}

/// A request to set a timer sets one more, behind those that are pending, which
/// stay as they are: for the terminal that the target stands for, with the
/// whole payload as its label, for the time that was asked, and with an id that
/// the reply tells.
pub proof fn timer_is_set_as_requested(
    v: RegistryView,
    timers: Seq<TimerView>,
    next_timer_id: u64,
    msg: PipeView,
    seconds: u64,
    pane_id: u32,
)
    requires
        next_timer_id < u64::MAX,
        lookup(msg.args, "target"@) is Some,
        resolved(v, lookup(msg.args, "target"@)->0) == Some(PaneId::Terminal(pane_id)),
        lookup(msg.args, "seconds"@) is Some,
    ensures
        ({
            let h = timer_handled(v, timers, next_timer_id, msg, Some(seconds));
            &&& h.timers.len() == timers.len() + 1
            &&& forall|i: int| 0 <= i < timers.len() ==> #[trigger] h.timers[i] == timers[i]
            &&& h.timers.last().id == next_timer_id
            &&& h.timers.last().pane_id == pane_id
            &&& h.timers.last().seconds == seconds
            &&& msg.payload matches Some(label) ==> h.timers.last().label == label
            &&& msg.payload is None ==> h.timers.last().label.len() == 0
            &&& h.next_timer_id == next_timer_id + 1
            &&& h.timeout == Some(seconds)
            &&& h.reply == ReplyView::Done(
                Some(object_text(seq![("timer_id"@, decimal(next_timer_id as nat))])),
            )
        }),
{
}

/// A request to set a timer is refused, and sets none, where it lacks its
/// target or its time, where the time is none, and where the target stands for
/// no terminal. It is told the first of these.
pub proof fn unclear_timers_are_refused(
    v: RegistryView,
    timers: Seq<TimerView>,
    next_timer_id: u64,
    msg: PipeView,
    seconds: Option<u64>,
)
    ensures
        ({
            let h = timer_handled(v, timers, next_timer_id, msg, seconds);
            let target = lookup(msg.args, "target"@);
            let text = lookup(msg.args, "seconds"@);
            &&& target is None ==> h.reply == ReplyView::Failed("missing required arg: target"@)
            &&& target is Some && text is None ==> h.reply == ReplyView::Failed(
                "missing required arg: seconds"@,
            )
            &&& target is Some && text is Some && seconds is None ==> h.reply == ReplyView::Failed(
                "invalid seconds: "@ + text->0,
            )
            &&& target is Some && text is Some && seconds is Some && resolved(v, target->0) is None
                ==> h.reply == ReplyView::Failed("unknown target: "@ + target->0)
            &&& h.reply is Failed ==> h.timers == timers && h.next_timer_id == next_timer_id
                && h.timeout is None
            &&& h.reply is Done <==> target is Some && text is Some && seconds is Some && resolved(
                v,
                target->0,
            ) is Some && resolved(v, target->0)->0 is Terminal
        }),
{
}

/// A request to cancel a timer takes the timer with the id that it names, and
/// no other, out of those that are pending; the others stay in their order. It
/// is refused where it names no number, or one that no pending timer has.
pub proof fn timer_is_cancelled_as_requested(
    timers: Seq<TimerView>,
    next_timer_id: u64,
    msg: PipeView,
)
    ensures
        ({
            let h = cancel_handled(timers, next_timer_id, msg);
            let text = lookup(msg.args, "timer_id"@);
            &&& h.next_timer_id == next_timer_id
            &&& h.timeout is None
            &&& text is None ==> h.reply == ReplyView::Failed("missing required arg: timer_id"@)
            &&& text is Some && parsed(text->0, u64::MAX as nat) is None ==> h.reply
                == ReplyView::Failed("invalid timer_id: "@ + text->0)
            &&& h.reply is Failed ==> h.timers == timers
            &&& text is Some && parsed(text->0, u64::MAX as nat) is Some ==> {
                let id = parsed(text->0, u64::MAX as nat)->0;
                let there = exists|i: int| 0 <= i < timers.len() && (#[trigger] timers[i]).id == id;
                &&& h.timers == timers.filter(|t: TimerView| t.id != id)
                &&& there ==> h.reply == ReplyView::Done(
                    Some(object_text(seq![("cancelled"@, decimal(id))])),
                )
                &&& !there ==> h.reply == ReplyView::Failed(
                    "timer "@ + decimal(id) + " not found"@,
                )
            }
        }),
{
    if let Some(text) = lookup(msg.args, "timer_id"@) {
        if let Some(id) = parsed(text, u64::MAX as nat) {
            lemma_without_filter(timers, id as u64);
            lemma_without_timer(timers, id as u64);
            assert(timers.filter(|t: TimerView| t.id != id as u64) =~= timers.filter(
                |t: TimerView| t.id != id,
            )) by {
                lemma_same_filter(timers, id);
            }
        }
    }
}

proof fn lemma_same_filter(timers: Seq<TimerView>, id: nat)
    requires
        id <= u64::MAX,
    ensures
        timers.filter(|t: TimerView| t.id != id as u64) == timers.filter(|t: TimerView| t.id != id),
    decreases timers.len(),
{
    reveal(Seq::filter);
    if timers.len() > 0 {
        lemma_same_filter(timers.drop_last(), id);
    }
}

proof fn lemma_without_filter(timers: Seq<TimerView>, id: u64)
    ensures
        without_timer(timers, id) == timers.filter(|t: TimerView| t.id != id),
    decreases timers.len(),
{
    reveal(Seq::filter);
    if timers.len() > 0 {
        lemma_without_filter(timers.drop_last(), id);
    }
}

/// A reply says whether the request was met, and gives the data, if there is
/// any, or why the request was refused.
pub proof fn replies_tell_the_outcome(data: Seq<char>, why: Seq<char>)
    ensures
        reply_text(ReplyView::Done(Some(data))) == object_text(
            seq![("ok"@, "true"@), ("data"@, data)],
        ),
        reply_text(ReplyView::Done(None)) == object_text(seq![("ok"@, "true"@)]),
        reply_text(ReplyView::Failed(why)) == object_text(
            seq![("ok"@, "false"@), ("error"@, json_quote(why))],
        ),
{
}

/// A reply goes to the pipe on which it is awaited, and nowhere where it is
/// not.
pub proof fn replies_go_where_they_are_awaited(msg: PipeView, reply: ReplyView)
    ensures
        msg.pipe matches Some(pipe) ==> awaited(msg, reply) == Some((pipe, reply_text(reply))),
        msg.pipe is None ==> awaited(msg, reply) is None,
{
}

/// Each action leads to what it is named after: what is typed, what is replied,
/// and how the agents and the timers change. An action that does not touch the
/// agents leaves them, and one that does not touch the timers leaves those. An
/// unknown action is refused, and so is a request without one.
pub proof fn actions_lead_to_their_handlers(
    s: HubState,
    msg: PipeView,
    id: Seq<char>,
    ts: u64,
    seconds: Option<u64>,
)
    ensures
        ({
            let h = pipe_handled(s, msg, id, ts, seconds);
            let action = lookup(msg.args, "action"@);
            let agents = |part: Handled|
                h.state.registry == part.registry && h.sent == part.sent && h.reply == part.reply
                    && h.state.timers == s.timers && h.state.next_timer_id == s.next_timer_id
                    && h.timeout is None;
            let clocks = |part: TimersHandled|
                h.state.registry == s.registry && h.sent.len() == 0 && h.reply == part.reply
                    && h.state.timers == part.timers && h.state.next_timer_id
                    == part.next_timer_id && h.timeout == part.timeout;
            &&& action == Some("send"@) ==> agents(send_handled(s.registry, msg, id, ts))
            &&& action == Some("broadcast"@) ==> agents(broadcast_handled(s.registry, msg, id, ts))
            &&& action == Some("register"@) ==> agents(register_handled(s.registry, msg))
            &&& action == Some("unregister"@) ==> agents(unregister_handled(s.registry, msg))
            &&& action == Some("list"@) ==> agents(list_handled(s.registry))
            &&& action == Some("status"@) ==> agents(status_handled(s.registry))
            &&& action == Some("ping"@) ==> agents(ping_handled(s.registry, msg, id, ts))
            &&& action == Some("timer"@) ==> clocks(
                timer_handled(s.registry, s.timers, s.next_timer_id, msg, seconds),
            )
            &&& action == Some("cancel_timer"@) ==> clocks(
                cancel_handled(s.timers, s.next_timer_id, msg),
            )
            &&& action is None ==> h.reply == ReplyView::Failed("missing 'action' arg"@)
            &&& action is Some && action->0 != "send"@ && action->0 != "broadcast"@ && action->0
                != "register"@ && action->0 != "unregister"@ && action->0 != "list"@ && action->0
                != "status"@ && action->0 != "ping"@ && action->0 != "timer"@ && action->0
                != "cancel_timer"@ ==> h.reply == ReplyView::Failed(
                "unknown action: "@ + action->0,
            )
        }),
{
    reveal_strlit("timer");
    reveal_strlit("cancel_timer");
    reveal_strlit("send");
    reveal_strlit("broadcast");
    reveal_strlit("register");
    reveal_strlit("unregister");
    reveal_strlit("list");
    reveal_strlit("status");
    reveal_strlit("ping");
    assert("timer"@.len() == 5);
    assert("cancel_timer"@.len() == 12);
    assert("send"@.len() == 4 && "send"@[0] == 's');
    assert("broadcast"@.len() == 9);
    assert("register"@.len() == 8);
    assert("unregister"@.len() == 10);
    assert("list"@.len() == 4 && "list"@[0] == 'l');
    assert("status"@.len() == 6);
    assert("ping"@.len() == 4 && "ping"@[0] == 'p');
}

/// An outcome that meets a request holds what the request leads to: each text
/// for its pane, in their order, the reply for the pipe that awaits it, and the
/// time of a timer that was set.
pub proof fn outcomes_hold_what_requests_lead_to(o: Outcome, msg: PipeView, h: PipeHandled)
    requires
        meets(o, msg, h),
    ensures
        o.deliveries@.len() == h.sent.len(),
        forall|i: int|
            0 <= i < h.sent.len() ==> (#[trigger] o.deliveries@[i]).target == h.sent[i].0
                && o.deliveries@[i].text@ == h.sent[i].1,
        msg.pipe matches Some(pipe) ==> o.response is Some && (o.response->0).0@ == pipe
            && (o.response->0).1@ == reply_text(h.reply),
        msg.pipe is None ==> o.response is None,
        o.timeout == h.timeout,
{
    assert forall|i: int| 0 <= i < h.sent.len() implies (#[trigger] o.deliveries@[i]).target
        == h.sent[i].0 && o.deliveries@[i].text@ == h.sent[i].1 by {
        assert(deliveries(o.deliveries@)[i] == h.sent[i]);
    }
}

/// A request is read as it came: its name, its payload, its arguments, and the
/// pipe on which a reply is awaited, which is that of the command line.
pub proof fn requests_are_read_as_they_came(m: PipeMessage)
    ensures
        m@.name == m.name@,
        m.payload matches Some(p) ==> m@.payload == Some(p@),
        m.payload is None ==> m@.payload is None,
        m.source matches PipeSource::Cli(pipe) ==> m@.pipe == Some(pipe@),
        m.source is Other ==> m@.pipe is None,
        m@.args.len() == m.args@.len(),
        forall|i: int|
            0 <= i < m.args@.len() ==> #[trigger] m@.args[i] == (m.args@[i].0@, m.args@[i].1@),
{
}

/// A timer is set if and only if the request to set one is met, and only then
/// is there a time to wait for.
pub proof fn timers_are_set_where_requests_are_met(
    s: HubState,
    msg: PipeView,
    id: Seq<char>,
    ts: u64,
    seconds: Option<u64>,
)
    ensures
        sets_timer(s.registry, msg, seconds) <==> timer_handled(
            s.registry,
            s.timers,
            s.next_timer_id,
            msg,
            seconds,
        ).reply is Done,
        starts_timer(s.registry, msg, seconds) <==> pipe_handled(
            s,
            msg,
            id,
            ts,
            seconds,
        ).timeout is Some,
        starts_timer(s.registry, msg, seconds) ==> pipe_handled(s, msg, id, ts, seconds).timeout
            == seconds,
{
    actions_lead_to_their_handlers(s, msg, id, ts, seconds);
}

} // verus!

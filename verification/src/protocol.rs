//! The wire format: one line per message, `@@RZ:` and a JSON envelope.

use vstd::prelude::*;
use vstd::string::StringExecFns;

use crate::json::{
    bool_at, bool_json, bool_text, find_member, fits, json_level, json_quote, json_text, lookup,
    member_at, member_texts, members_view, no_object, object_at, object_text,
    objects_of_lines_are_one_line, quoted_text_is_one_line, read_bool, read_level, read_object,
    read_string, read_u64, string_at, u64_at, JsonTree, Level, LevelView, ObjectWriter,
    MAX_DEPTH,
};
use crate::number::{decimal, is_digit, lemma_decimal_digits};
use crate::text::{after_prefix, one_line, opt_view, same, strip_prefix};

verus! {

/// What every line of the protocol starts with.
pub const SENTINEL: &'static str = "@@RZ:";

// ---------------------------------------------------------------------------
// Types
// ---------------------------------------------------------------------------

/// What a message says.
#[derive(Debug, Clone)]
pub enum MessageKind {
    Chat { text: String },
    Ping,
    Pong,
    Error { message: String },
    Timer { label: String },
    Status { state: String, detail: String },
    /// A tool call. `body` is the JSON text of the whole body, the name with it.
    ToolCall { name: String, body: String },
    ToolResult { name: String, result: String, is_error: bool },
    /// A delegated task. `body` is the JSON text of the whole body, the task with it.
    Delegate { task: String, body: String },
    Hello { name: String },
}

/// The contents of a [`MessageKind`].
pub ghost enum KindView {
    Chat(Seq<char>),
    Ping,
    Pong,
    Error(Seq<char>),
    Timer(Seq<char>),
    Status(Seq<char>, Seq<char>),
    ToolCall(Seq<char>, Seq<char>),
    ToolResult(Seq<char>, Seq<char>, bool),
    Delegate(Seq<char>, Seq<char>),
    Hello(Seq<char>),
}

impl View for MessageKind {
    type V = KindView;

    open spec fn view(&self) -> KindView {
        match self {
            MessageKind::Chat { text } => KindView::Chat(text@),
            MessageKind::Ping => KindView::Ping,
            MessageKind::Pong => KindView::Pong,
            MessageKind::Error { message } => KindView::Error(message@),
            MessageKind::Timer { label } => KindView::Timer(label@),
            MessageKind::Status { state, detail } => KindView::Status(state@, detail@),
            MessageKind::ToolCall { name, body } => KindView::ToolCall(name@, body@),
            MessageKind::ToolResult { name, result, is_error } => KindView::ToolResult(
                name@,
                result@,
                *is_error,
            ),
            MessageKind::Delegate { task, body } => KindView::Delegate(task@, body@),
            MessageKind::Hello { name } => KindView::Hello(name@),
        }
    }
}

/// A message between two agents.
#[derive(Debug, Clone)]
pub struct Envelope {
    pub id: String,
    pub from: String,
    pub to: Option<String>,
    /// The message that this one answers.
    pub reference: Option<String>,
    pub kind: MessageKind,
    pub ts: u64,
}

/// The contents of an [`Envelope`].
pub ghost struct EnvelopeView {
    pub id: Seq<char>,
    pub from: Seq<char>,
    pub to: Option<Seq<char>>,
    pub reference: Option<Seq<char>>,
    pub kind: KindView,
    pub ts: nat,
}

impl View for Envelope {
    type V = EnvelopeView;

    open spec fn view(&self) -> EnvelopeView {
        EnvelopeView {
            id: self.id@,
            from: self.from@,
            to: opt_view(self.to),
            reference: opt_view(self.reference),
            kind: self.kind@,
            ts: self.ts as nat,
        }
    }
}

// ---------------------------------------------------------------------------
// Encoding
// ---------------------------------------------------------------------------

/// The name of a kind on the wire.
pub open spec fn kind_tag(k: KindView) -> Seq<char> {
    match k {
        KindView::Chat(_) => "chat"@,
        KindView::Ping => "ping"@,
        KindView::Pong => "pong"@,
        KindView::Error(_) => "error"@,
        KindView::Timer(_) => "timer"@,
        KindView::Status(_, _) => "status"@,
        KindView::ToolCall(_, _) => "tool_call"@,
        KindView::ToolResult(_, _, _) => "tool_result"@,
        KindView::Delegate(_, _) => "delegate"@,
        KindView::Hello(_) => "hello"@,
    }
}

/// The JSON text of the body of a kind; a ping and a pong have none.
pub open spec fn body_text(k: KindView) -> Option<Seq<char>> {
    match k {
        KindView::Chat(text) => Some(object_text(seq![("text"@, json_quote(text))])),
        KindView::Ping => None,
        KindView::Pong => None,
        KindView::Error(message) => Some(object_text(seq![("message"@, json_quote(message))])),
        KindView::Timer(label) => Some(object_text(seq![("label"@, json_quote(label))])),
        KindView::Status(state, detail) => Some(
            object_text(seq![("state"@, json_quote(state)), ("detail"@, json_quote(detail))]),
        ),
        KindView::ToolCall(_, body) => Some(body),
        KindView::ToolResult(name, result, is_error) => Some(
            object_text(
                seq![
                    ("name"@, json_quote(name)),
                    ("result"@, json_quote(result)),
                    ("is_error"@, bool_text(is_error)),
                ],
            ),
        ),
        KindView::Delegate(_, body) => Some(body),
        KindView::Hello(name) => Some(object_text(seq![("name"@, json_quote(name))])),
    }
}

/// The JSON text of a kind.
pub open spec fn kind_text(k: KindView) -> Seq<char> {
    match body_text(k) {
        Some(b) => object_text(seq![("kind"@, json_quote(kind_tag(k))), ("body"@, b)]),
        None => object_text(seq![("kind"@, json_quote(kind_tag(k)))]),
    }
}

/// A member that is written only where there is a value.
pub open spec fn opt_member(key: Seq<char>, value: Option<Seq<char>>) -> Seq<(Seq<char>, Seq<char>)> {
    match value {
        Some(s) => seq![(key, json_quote(s))],
        None => Seq::empty(),
    }
}

/// The members of the JSON object of an envelope.
pub open spec fn envelope_members(e: EnvelopeView) -> Seq<(Seq<char>, Seq<char>)> {
    seq![("id"@, json_quote(e.id)), ("from"@, json_quote(e.from))] + opt_member("to"@, e.to)
        + opt_member("ref"@, e.reference) + seq![("kind"@, kind_text(e.kind)), ("ts"@, decimal(e.ts))]
}

/// The JSON text of an envelope.
pub open spec fn envelope_text(e: EnvelopeView) -> Seq<char> {
    object_text(envelope_members(e))
}

/// The line of the protocol that carries an envelope.
pub open spec fn encoded(e: EnvelopeView) -> Seq<char> {
    SENTINEL@ + envelope_text(e)
}

/// Whether the body of a kind, where it is carried as JSON text, stands on one
/// line.
pub open spec fn one_line_body(k: KindView) -> bool {
    match k {
        KindView::ToolCall(_, body) => one_line(body),
        KindView::Delegate(_, body) => one_line(body),
        _ => true,
    }
}

impl MessageKind {
    /// The name of the kind on the wire.
    pub fn tag(&self) -> (r: &'static str)
        ensures
            r@ == kind_tag(self@),
    {
        match self {
            MessageKind::Chat { .. } => "chat",
            MessageKind::Ping => "ping",
            MessageKind::Pong => "pong",
            MessageKind::Error { .. } => "error",
            MessageKind::Timer { .. } => "timer",
            MessageKind::Status { .. } => "status",
            MessageKind::ToolCall { .. } => "tool_call",
            MessageKind::ToolResult { .. } => "tool_result",
            MessageKind::Delegate { .. } => "delegate",
            MessageKind::Hello { .. } => "hello",
        }
    }

    /// The JSON text of the body.
    pub fn body_json(&self) -> (r: Option<String>)
        ensures
            opt_view(r) == body_text(self@),
            one_line_body(self@) && r is Some ==> one_line(r->0@),
    {
        let r = match self {
            MessageKind::Chat { text } => Some(
                ObjectWriter::new().string("text", text.as_str()).finish(),
            ),
            MessageKind::Ping => None,
            MessageKind::Pong => None,
            MessageKind::Error { message } => Some(
                ObjectWriter::new().string("message", message.as_str()).finish(),
            ),
            MessageKind::Timer { label } => Some(
                ObjectWriter::new().string("label", label.as_str()).finish(),
            ),
            MessageKind::Status { state, detail } => Some(
                ObjectWriter::new().string("state", state.as_str()).string(
                    "detail",
                    detail.as_str(),
                ).finish(),
            ),
            MessageKind::ToolCall { name: _, body } => Some(body.clone()),
            MessageKind::ToolResult { name, result, is_error } => Some(
                ObjectWriter::new().string("name", name.as_str()).string(
                    "result",
                    result.as_str(),
                ).boolean("is_error", *is_error).finish(),
            ),
            MessageKind::Delegate { task: _, body } => Some(body.clone()),
            MessageKind::Hello { name } => Some(
                ObjectWriter::new().string("name", name.as_str()).finish(),
            ),
        };
        proof {
            let empty = Seq::<(Seq<char>, Seq<char>)>::empty();
            match self@ {
                KindView::Chat(t) => {
                    assert(empty.push(("text"@, json_quote(t))) =~= seq![("text"@, json_quote(t))]);
                },
                KindView::Error(t) => {
                    assert(empty.push(("message"@, json_quote(t))) =~= seq![
                        ("message"@, json_quote(t)),
                    ]);
                },
                KindView::Timer(t) => {
                    assert(empty.push(("label"@, json_quote(t))) =~= seq![
                        ("label"@, json_quote(t)),
                    ]);
                },
                KindView::Hello(t) => {
                    assert(empty.push(("name"@, json_quote(t))) =~= seq![("name"@, json_quote(t))]);
                },
                KindView::Status(a, b) => {
                    assert(empty.push(("state"@, json_quote(a))).push(("detail"@, json_quote(b)))
                        =~= seq![("state"@, json_quote(a)), ("detail"@, json_quote(b))]);
                },
                KindView::ToolResult(a, b, c) => {
                    assert(empty.push(("name"@, json_quote(a))).push(
                        ("result"@, json_quote(b)),
                    ).push(("is_error"@, bool_text(c))) =~= seq![
                        ("name"@, json_quote(a)),
                        ("result"@, json_quote(b)),
                        ("is_error"@, bool_text(c)),
                    ]);
                },
                _ => {},
            }
        }
        r
    }

    /// The JSON text of the kind.
    pub fn to_json(&self) -> (r: String)
        ensures
            r@ == kind_text(self@),
            one_line_body(self@) ==> one_line(r@),
    {
        let w = ObjectWriter::new().string("kind", self.tag());
        let ghost tag = ("kind"@, json_quote(kind_tag(self@)));
        assert(w@ =~= seq![tag]);
        match self.body_json() {
            Some(b) => {
                let w = w.member("body", b.as_str());
                assert(w@ =~= seq![tag, ("body"@, b@)]);
                w.finish()
            },
            None => w.finish(),
        }
    }

    /// A message kind with the same contents.
    pub fn copy(&self) -> (r: MessageKind)
        ensures
            r@ == self@,
    {
        match self {
            MessageKind::Chat { text } => MessageKind::Chat { text: text.clone() },
            MessageKind::Ping => MessageKind::Ping,
            MessageKind::Pong => MessageKind::Pong,
            MessageKind::Error { message } => MessageKind::Error { message: message.clone() },
            MessageKind::Timer { label } => MessageKind::Timer { label: label.clone() },
            MessageKind::Status { state, detail } => MessageKind::Status {
                state: state.clone(),
                detail: detail.clone(),
            },
            MessageKind::ToolCall { name, body } => MessageKind::ToolCall {
                name: name.clone(),
                body: body.clone(),
            },
            MessageKind::ToolResult { name, result, is_error } => MessageKind::ToolResult {
                name: name.clone(),
                result: result.clone(),
                is_error: *is_error,
            },
            MessageKind::Delegate { task, body } => MessageKind::Delegate {
                task: task.clone(),
                body: body.clone(),
            },
            MessageKind::Hello { name } => MessageKind::Hello { name: name.clone() },
        }
    }
}

impl Envelope {
    /// A message with the given identity and time, addressed to nobody.
    pub fn new(id: String, ts: u64, from: &str, kind: MessageKind) -> (r: Envelope)
        ensures
            r@ == (EnvelopeView {
                id: id@,
                from: from@,
                to: None,
                reference: None,
                kind: kind@,
                ts: ts as nat,
            }),
    {
        Envelope { id, from: from.to_owned(), to: None, reference: None, kind, ts }
    }

    /// A chat message.
    pub fn chat(id: String, ts: u64, from: &str, text: &str) -> (r: Envelope)
        ensures
            r@ == (EnvelopeView {
                id: id@,
                from: from@,
                to: None,
                reference: None,
                kind: KindView::Chat(text@),
                ts: ts as nat,
            }),
    {
        Envelope::new(id, ts, from, MessageKind::Chat { text: text.to_owned() })
    }

    /// The message, addressed to `to`.
    pub fn with_to(self, to: &str) -> (r: Envelope)
        ensures
            r@ == (EnvelopeView { to: Some(to@), ..self@ }),
    {
        Envelope { to: Some(to.to_owned()), ..self }
    }

    /// The message, as an answer to the message `reference`.
    pub fn with_ref(self, reference: &str) -> (r: Envelope)
        ensures
            r@ == (EnvelopeView { reference: Some(reference@), ..self@ }),
    {
        Envelope { reference: Some(reference.to_owned()), ..self }
    }

    /// The message, as an answer where `reference` names a message.
    pub fn maybe_with_ref(self, reference: Option<String>) -> (r: Envelope)
        ensures
            r@ == (match reference {
                Some(s) => EnvelopeView { reference: Some(s@), ..self@ },
                None => self@,
            }),
    {
        match reference {
            Some(s) => Envelope { reference: Some(s), ..self },
            None => self,
        }
    }

    /// The JSON text of the envelope.
    pub fn to_json(&self) -> (r: String)
        ensures
            r@ == envelope_text(self@),
            one_line_body(self@.kind) ==> one_line(r@),
    {
        let kind = self.kind.to_json();
        let w = ObjectWriter::new().string("id", self.id.as_str()).string(
            "from",
            self.from.as_str(),
        );
        let ghost head = seq![("id"@, json_quote(self.id@)), ("from"@, json_quote(self.from@))];
        assert(w@ =~= head);
        let w = match &self.to {
            Some(s) => w.string("to", s.as_str()),
            None => w,
        };
        let ghost second = head + opt_member("to"@, self@.to);
        assert(w@ =~= second);
        let w = match &self.reference {
            Some(s) => w.string("ref", s.as_str()),
            None => w,
        };
        let ghost third = second + opt_member("ref"@, self@.reference);
        assert(w@ =~= third);
        let w = w.member("kind", kind.as_str()).number("ts", self.ts);
        assert(w@ =~= envelope_members(self@));
        w.finish()
    }

    /// The line of the protocol that carries the envelope. It is one line
    /// whatever the message says.
    pub fn encode(&self) -> (r: String)
        ensures
            r@ == encoded(self@),
            one_line_body(self@.kind) ==> one_line(r@),
    {
        proof {
            reveal_strlit("@@RZ:");
        }
        SENTINEL.to_owned().concat(self.to_json().as_str())
    }

    /// An envelope with the same contents.
    pub fn copy(&self) -> (r: Envelope)
        ensures
            r@ == self@,
    {
        Envelope {
            id: self.id.clone(),
            from: self.from.clone(),
            to: self.to.clone(),
            reference: self.reference.clone(),
            kind: self.kind.copy(),
            ts: self.ts,
        }
    }
}

// ---------------------------------------------------------------------------
// Showing
// ---------------------------------------------------------------------------

/// A string as the `Debug` formatting of `str` shows it: quotes around it, and
/// escapes inside.
pub uninterp spec fn debug_quote(s: Seq<char>) -> Seq<char>;

/// Formats `s` with the `Debug` formatting of `str`. The result depends on `s`
/// alone.
#[verifier::external_body]
fn debug_text(s: &str) -> (r: String)
    ensures
        r@ == debug_quote(s@),
{
    format!("{s:?}")
}

/// A kind as it is shown to programs that know nothing of it: its name, and its
/// parts by their names.
pub open spec fn kind_debug(k: KindView) -> Seq<char> {
    match k {
        KindView::Chat(text) => "Chat { text: "@ + debug_quote(text) + " }"@,
        KindView::Ping => "Ping"@,
        KindView::Pong => "Pong"@,
        KindView::Error(message) => "Error { message: "@ + debug_quote(message) + " }"@,
        KindView::Timer(label) => "Timer { label: "@ + debug_quote(label) + " }"@,
        KindView::Status(state, detail) => "Status { state: "@ + debug_quote(state) + ", detail: "@
            + debug_quote(detail) + " }"@,
        KindView::ToolCall(name, body) => "ToolCall { name: "@ + debug_quote(name) + ", body: "@
            + debug_quote(body) + " }"@,
        KindView::ToolResult(name, result, is_error) => "ToolResult { name: "@ + debug_quote(name)
            + ", result: "@ + debug_quote(result) + ", is_error: "@ + bool_text(is_error) + " }"@,
        KindView::Delegate(task, body) => "Delegate { task: "@ + debug_quote(task) + ", body: "@
            + debug_quote(body) + " }"@,
        KindView::Hello(name) => "Hello { name: "@ + debug_quote(name) + " }"@,
    }
}

impl MessageKind {
    /// The kind as it is shown to programs that know nothing of it.
    pub fn to_debug(&self) -> (r: String)
        ensures
            r@ == kind_debug(self@),
    {
        match self {
            MessageKind::Chat { text } => "Chat { text: ".to_owned().concat(
                debug_text(text.as_str()).as_str(),
            ).concat(" }"),
            MessageKind::Ping => "Ping".to_owned(),
            MessageKind::Pong => "Pong".to_owned(),
            MessageKind::Error { message } => "Error { message: ".to_owned().concat(
                debug_text(message.as_str()).as_str(),
            ).concat(" }"),
            MessageKind::Timer { label } => "Timer { label: ".to_owned().concat(
                debug_text(label.as_str()).as_str(),
            ).concat(" }"),
            MessageKind::Status { state, detail } => "Status { state: ".to_owned().concat(
                debug_text(state.as_str()).as_str(),
            ).concat(", detail: ").concat(debug_text(detail.as_str()).as_str()).concat(" }"),
            MessageKind::ToolCall { name, body } => "ToolCall { name: ".to_owned().concat(
                debug_text(name.as_str()).as_str(),
            ).concat(", body: ").concat(debug_text(body.as_str()).as_str()).concat(" }"),
            MessageKind::ToolResult { name, result, is_error } => "ToolResult { name: ".to_owned()
                .concat(debug_text(name.as_str()).as_str()).concat(", result: ").concat(
                debug_text(result.as_str()).as_str(),
            ).concat(", is_error: ").concat(bool_json(*is_error).as_str()).concat(" }"),
            MessageKind::Delegate { task, body } => "Delegate { task: ".to_owned().concat(
                debug_text(task.as_str()).as_str(),
            ).concat(", body: ").concat(debug_text(body.as_str()).as_str()).concat(" }"),
            MessageKind::Hello { name } => "Hello { name: ".to_owned().concat(
                debug_text(name.as_str()).as_str(),
            ).concat(" }"),
        }
    }
}

// ---------------------------------------------------------------------------
// Decoding
// ---------------------------------------------------------------------------

/// Why a line carries no envelope.
#[derive(Debug, Clone, Copy, PartialEq, Eq, Structural)]
pub enum DecodeError {
    /// What stands there is no JSON.
    NotJson,
    /// It is JSON, but no envelope.
    NotEnvelope,
}

/// The string that is the member `key`.
pub open spec fn member_string(m: Seq<(Seq<char>, Seq<char>)>, key: Seq<char>) -> Option<Seq<char>> {
    match lookup(m, key) {
        Some(t) => string_at(t),
        None => None,
    }
}

/// The member `key` where it may be missing or `null`: `None` where it is
/// neither of these nor a string.
pub open spec fn optional_string(m: Seq<(Seq<char>, Seq<char>)>, key: Seq<char>) -> Option<
    Option<Seq<char>>,
> {
    match lookup(m, key) {
        Some(t) => match json_level(t) {
            Some(LevelView::Null) => Some(None),
            Some(LevelView::Text(s)) => Some(Some(s)),
            _ => None,
        },
        None => Some(None),
    }
}

/// The string that is the member `key` of a body.
pub open spec fn body_string(body: Option<Seq<char>>, key: Seq<char>) -> Option<Seq<char>> {
    match body {
        Some(t) => match object_at(t) {
            Some(m) => member_string(m, key),
            None => None,
        },
        None => None,
    }
}

/// The truth value that is the member `key` of a body.
pub open spec fn body_bool(body: Option<Seq<char>>, key: Seq<char>) -> Option<bool> {
    match body {
        Some(t) => match member_at(t, key) {
            Some(v) => bool_at(v),
            None => None,
        },
        None => None,
    }
}

/// The kind with the name `tag` and the given body, where the body holds what
/// the kind needs.
pub open spec fn kind_from(tag: Seq<char>, body: Option<Seq<char>>) -> Option<KindView> {
    if tag == "chat"@ {
        match body_string(body, "text"@) {
            Some(s) => Some(KindView::Chat(s)),
            None => None,
        }
    } else if tag == "ping"@ {
        Some(KindView::Ping)
    } else if tag == "pong"@ {
        Some(KindView::Pong)
    } else if tag == "error"@ {
        match body_string(body, "message"@) {
            Some(s) => Some(KindView::Error(s)),
            None => None,
        }
    } else if tag == "timer"@ {
        match body_string(body, "label"@) {
            Some(s) => Some(KindView::Timer(s)),
            None => None,
        }
    } else if tag == "status"@ {
        match (body_string(body, "state"@), body_string(body, "detail"@)) {
            (Some(a), Some(b)) => Some(KindView::Status(a, b)),
            _ => None,
        }
    } else if tag == "tool_call"@ {
        match (body_string(body, "name"@), body) {
            (Some(a), Some(b)) => Some(KindView::ToolCall(a, b)),
            _ => None,
        }
    } else if tag == "tool_result"@ {
        match (body_string(body, "name"@), body_string(body, "result"@), body_bool(body, "is_error"@)) {
            (Some(a), Some(b), Some(c)) => Some(KindView::ToolResult(a, b, c)),
            _ => None,
        }
    } else if tag == "delegate"@ {
        match (body_string(body, "task"@), body) {
            (Some(a), Some(b)) => Some(KindView::Delegate(a, b)),
            _ => None,
        }
    } else if tag == "hello"@ {
        match body_string(body, "name"@) {
            Some(s) => Some(KindView::Hello(s)),
            None => None,
        }
    } else {
        None
    }
}

/// The kind that a JSON text holds.
pub open spec fn kind_at(text: Seq<char>) -> Option<KindView> {
    match object_at(text) {
        Some(m) => match member_string(m, "kind"@) {
            Some(tag) => kind_from(tag, lookup(m, "body"@)),
            None => None,
        },
        None => None,
    }
}

/// The envelope with the given members.
pub open spec fn envelope_from(m: Seq<(Seq<char>, Seq<char>)>) -> Option<EnvelopeView> {
    let kind = match lookup(m, "kind"@) {
        Some(t) => kind_at(t),
        None => None,
    };
    let ts = match lookup(m, "ts"@) {
        Some(t) => u64_at(t),
        None => None,
    };
    match (
        member_string(m, "id"@),
        member_string(m, "from"@),
        optional_string(m, "to"@),
        optional_string(m, "ref"@),
        kind,
        ts,
    ) {
        (Some(id), Some(from), Some(to), Some(reference), Some(kind), Some(ts)) => Some(
            EnvelopeView { id, from, to, reference, kind, ts: ts as nat },
        ),
        _ => None,
    }
}

/// The JSON text that a line carries: what follows the sentinel, or the whole
/// line where there is none.
pub open spec fn unframed(line: Seq<char>) -> Seq<char> {
    match after_prefix(line, SENTINEL@) {
        Some(rest) => rest,
        None => line,
    }
}

/// The envelope that a line carries.
pub open spec fn decoded(line: Seq<char>) -> Result<EnvelopeView, DecodeError> {
    match json_level(unframed(line)) {
        Some(LevelView::Object(m)) => match envelope_from(m) {
            Some(e) => Ok(e),
            None => Err(DecodeError::NotEnvelope),
        },
        Some(_) => Err(DecodeError::NotEnvelope),
        None => Err(DecodeError::NotJson),
    }
}

/// The contents of a decoding result.
pub open spec fn decode_view(r: Result<Envelope, DecodeError>) -> Result<EnvelopeView, DecodeError> {
    match r {
        Ok(e) => Ok(e@),
        Err(x) => Err(x),
    }
}

fn read_member_string(m: &Vec<(String, String)>, key: &str) -> (r: Option<String>)
    ensures
        opt_view(r) == member_string(members_view(m@), key@),
        forall|s: Seq<char>|
            lookup(members_view(m@), key@) == Some(#[trigger] json_quote(s)) ==> opt_view(r) == Some(
                s,
            ),
{
    match find_member(m, key) {
        Some(t) => read_string(t.as_str()),
        None => None,
    }
}

fn read_optional_string(m: &Vec<(String, String)>, key: &str) -> (r: Option<Option<String>>)
    ensures
        match r {
            Some(o) => optional_string(members_view(m@), key@) == Some(opt_view(o)),
            None => optional_string(members_view(m@), key@) is None,
        },
        forall|s: Seq<char>|
            lookup(members_view(m@), key@) == Some(#[trigger] json_quote(s)) ==> optional_string(
                members_view(m@),
                key@,
            ) == Some(Some(s)),
{
    match find_member(m, key) {
        Some(t) => {
            let level = read_level(t.as_str());
            proof {
                assert forall|s: Seq<char>| t@ == #[trigger] json_quote(s) implies json_level(t@)
                    == Some(LevelView::Text(s)) by {
                    assert(json_text(JsonTree::Text(s)) == json_quote(s));
                }
            }
            match level {
                Some(Level::Null) => Some(None),
                Some(Level::Text(s)) => Some(Some(s)),
                _ => None,
            }
        },
        None => Some(None),
    }
}

fn read_body_string(body: &Option<String>, key: &str) -> (r: Option<String>)
    ensures
        opt_view(r) == body_string(opt_view(*body), key@),
        forall|mt: Seq<(Seq<char>, JsonTree)>, i: int|
            #![trigger member_texts(mt), mt[i]]
            body_is(*body, mt) && 0 <= i < mt.len() && mt[i].0 == key@ && mt[i].1 is Text
                ==> body_string(opt_view(*body), key@) == Some(mt[i].1->Text_0),
{
    match body {
        Some(t) => match read_object(t.as_str()) {
            Some(m) => {
                let r = read_member_string(&m, key);
                proof {
                    assert forall|mt: Seq<(Seq<char>, JsonTree)>, i: int|
                        #![trigger member_texts(mt), mt[i]]
                        body_is(*body, mt) && 0 <= i < mt.len() && mt[i].0 == key@
                            && mt[i].1 is Text implies body_string(opt_view(*body), key@) == Some(
                        mt[i].1->Text_0,
                    ) by {
                        assert(object_at(t@) == Some(member_texts(mt)));
                        lemma_tree_lookup(mt, i);
                        assert(json_text(mt[i].1) == json_quote(mt[i].1->Text_0));
                    }
                }
                r
            },
            None => None,
        },
        None => None,
    }
}

fn read_body_bool(body: &Option<String>, key: &str) -> (r: Option<bool>)
    ensures
        r == body_bool(opt_view(*body), key@),
        forall|mt: Seq<(Seq<char>, JsonTree)>, i: int|
            #![trigger member_texts(mt), mt[i]]
            body_is(*body, mt) && 0 <= i < mt.len() && mt[i].0 == key@ && mt[i].1 is Bool
                ==> body_bool(opt_view(*body), key@) == Some(mt[i].1->Bool_0),
{
    match body {
        Some(t) => {
            let object = read_object(t.as_str());
            let found = match &object {
                Some(m) => find_member(m, key),
                None => None,
            };
            let r = match &found {
                Some(v) => read_bool(v.as_str()),
                None => None,
            };
            proof {
                assert forall|mt: Seq<(Seq<char>, JsonTree)>, i: int|
                    #![trigger member_texts(mt), mt[i]]
                    body_is(*body, mt) && 0 <= i < mt.len() && mt[i].0 == key@ && mt[i].1 is Bool
                     implies body_bool(opt_view(*body), key@) == Some(mt[i].1->Bool_0) by {
                    assert(object_at(t@) == Some(member_texts(mt)));
                    lemma_tree_lookup(mt, i);
                    assert(json_text(mt[i].1) == bool_text(mt[i].1->Bool_0));
                }
            }
            r
        },
        None => None,
    }
}

/// Whether a body was written from the members `mt`.
spec fn body_is(body: Option<String>, mt: Seq<(Seq<char>, JsonTree)>) -> bool {
    opt_view(body) == Some(object_text(member_texts(mt))) && fits(
        JsonTree::Object(mt),
        MAX_DEPTH as nat,
    )
}

proof fn lemma_tree_lookup(mt: Seq<(Seq<char>, JsonTree)>, i: int)
    requires
        0 <= i < mt.len(),
        crate::json::distinct_keys(mt),
    ensures
        lookup(member_texts(mt), mt[i].0) == Some(json_text(mt[i].1)),
{
    crate::json::lemma_member_texts(mt);
    assert forall|k: int| 0 <= k < i implies (#[trigger] member_texts(mt)[k]).0 != mt[i].0 by {
        assert(mt[k].0 != mt[i].0);
    }
    crate::json::lemma_lookup(member_texts(mt), mt[i].0, i);
}

/// Whether `mt` is the body of the kind `k`. The body of a tool call and of a
/// delegated task is carried as it came, so that it may be any object that
/// holds the name or the task.
pub open spec fn is_body(k: KindView, mt: Seq<(Seq<char>, JsonTree)>) -> bool {
    match k {
        KindView::Chat(t) => mt == seq![("text"@, JsonTree::Text(t))],
        KindView::Ping | KindView::Pong => mt.len() == 0,
        KindView::Error(t) => mt == seq![("message"@, JsonTree::Text(t))],
        KindView::Timer(t) => mt == seq![("label"@, JsonTree::Text(t))],
        KindView::Status(a, b) => mt == seq![
            ("state"@, JsonTree::Text(a)),
            ("detail"@, JsonTree::Text(b)),
        ],
        KindView::ToolCall(name, body) => carried(mt, "name"@, name, body),
        KindView::ToolResult(a, b, c) => mt == seq![
            ("name"@, JsonTree::Text(a)),
            ("result"@, JsonTree::Text(b)),
            ("is_error"@, JsonTree::Bool(c)),
        ],
        KindView::Delegate(task, body) => carried(mt, "task"@, task, body),
        KindView::Hello(t) => mt == seq![("name"@, JsonTree::Text(t))],
    }
}

/// Whether `body` is the text of the object with the members `mt`, one of
/// which is the string `value` under `key`.
pub open spec fn carried(
    mt: Seq<(Seq<char>, JsonTree)>,
    key: Seq<char>,
    value: Seq<char>,
    body: Seq<char>,
) -> bool {
    &&& body == object_text(member_texts(mt))
    &&& fits(JsonTree::Object(mt), (MAX_DEPTH - 2) as nat)
    &&& exists|i: int| 0 <= i < mt.len() && #[trigger] mt[i] == (key, JsonTree::Text(value))
}

/// Whether a kind can be written so that it is read back: what it carries as
/// JSON is a JSON object that holds what the kind says.
pub open spec fn writable_kind(k: KindView) -> bool {
    exists|mt: Seq<(Seq<char>, JsonTree)>| #[trigger] is_body(k, mt)
}

/// Whether an envelope can be written so that it is read back.
pub open spec fn writable(e: EnvelopeView) -> bool {
    writable_kind(e.kind) && e.ts <= u64::MAX
}

proof fn lemma_tags()
    ensures
        "chat"@ != "ping"@,
        "chat"@ != "pong"@,
        "chat"@ != "error"@,
        "chat"@ != "timer"@,
        "chat"@ != "status"@,
        "chat"@ != "tool_call"@,
        "chat"@ != "tool_result"@,
        "chat"@ != "delegate"@,
        "chat"@ != "hello"@,
        "ping"@ != "pong"@,
        "ping"@ != "error"@,
        "ping"@ != "timer"@,
        "ping"@ != "status"@,
        "ping"@ != "tool_call"@,
        "ping"@ != "tool_result"@,
        "ping"@ != "delegate"@,
        "ping"@ != "hello"@,
        "pong"@ != "error"@,
        "pong"@ != "timer"@,
        "pong"@ != "status"@,
        "pong"@ != "tool_call"@,
        "pong"@ != "tool_result"@,
        "pong"@ != "delegate"@,
        "pong"@ != "hello"@,
        "error"@ != "timer"@,
        "error"@ != "status"@,
        "error"@ != "tool_call"@,
        "error"@ != "tool_result"@,
        "error"@ != "delegate"@,
        "error"@ != "hello"@,
        "timer"@ != "status"@,
        "timer"@ != "tool_call"@,
        "timer"@ != "tool_result"@,
        "timer"@ != "delegate"@,
        "timer"@ != "hello"@,
        "status"@ != "tool_call"@,
        "status"@ != "tool_result"@,
        "status"@ != "delegate"@,
        "status"@ != "hello"@,
        "tool_call"@ != "tool_result"@,
        "tool_call"@ != "delegate"@,
        "tool_call"@ != "hello"@,
        "tool_result"@ != "delegate"@,
        "tool_result"@ != "hello"@,
        "delegate"@ != "hello"@,
{
    reveal_strlit("chat");
    assert("chat"@.len() == 4);
    reveal_strlit("ping");
    assert("ping"@.len() == 4);
    reveal_strlit("pong");
    assert("pong"@.len() == 4);
    reveal_strlit("error");
    assert("error"@.len() == 5);
    reveal_strlit("timer");
    assert("timer"@.len() == 5);
    reveal_strlit("status");
    assert("status"@.len() == 6);
    reveal_strlit("tool_call");
    assert("tool_call"@.len() == 9);
    reveal_strlit("tool_result");
    assert("tool_result"@.len() == 11);
    reveal_strlit("delegate");
    assert("delegate"@.len() == 8);
    reveal_strlit("hello");
    assert("hello"@.len() == 5);
    assert("chat"@[0] != "ping"@[0]);
    assert("chat"@[0] != "pong"@[0]);
    assert("ping"@[1] != "pong"@[1]);
    assert("error"@[0] != "timer"@[0]);
    assert("error"@[0] != "hello"@[0]);
    assert("timer"@[0] != "hello"@[0]);
}

proof fn lemma_keys()
    ensures
        "state"@ != "detail"@,
        "name"@ != "result"@,
        "name"@ != "is_error"@,
        "result"@ != "is_error"@,
        "kind"@ != "body"@,
        "id"@ != "from"@,
        "id"@ != "to"@,
        "id"@ != "ref"@,
        "id"@ != "kind"@,
        "id"@ != "ts"@,
        "from"@ != "to"@,
        "from"@ != "ref"@,
        "from"@ != "kind"@,
        "from"@ != "ts"@,
        "to"@ != "ref"@,
        "to"@ != "kind"@,
        "to"@ != "ts"@,
        "ref"@ != "kind"@,
        "ref"@ != "ts"@,
        "kind"@ != "ts"@,
{
    reveal_strlit("state");
    assert("state"@.len() == 5);
    reveal_strlit("detail");
    assert("detail"@.len() == 6);
    reveal_strlit("name");
    assert("name"@.len() == 4);
    reveal_strlit("result");
    assert("result"@.len() == 6);
    reveal_strlit("is_error");
    assert("is_error"@.len() == 8);
    reveal_strlit("kind");
    assert("kind"@.len() == 4);
    reveal_strlit("body");
    assert("body"@.len() == 4);
    reveal_strlit("id");
    assert("id"@.len() == 2);
    reveal_strlit("from");
    assert("from"@.len() == 4);
    reveal_strlit("to");
    assert("to"@.len() == 2);
    reveal_strlit("ref");
    assert("ref"@.len() == 3);
    reveal_strlit("ts");
    assert("ts"@.len() == 2);
    assert("kind"@[0] != "body"@[0]);
    assert("id"@[0] != "to"@[0]);
    assert("id"@[0] != "ts"@[0]);
    assert("from"@[0] != "kind"@[0]);
    assert("to"@[1] != "ts"@[1]);
}

/// The members of the JSON object of a kind, as a tree.
spec fn kind_tree(k: KindView, mt: Seq<(Seq<char>, JsonTree)>) -> Seq<(Seq<char>, JsonTree)> {
    if body_text(k) is Some {
        seq![("kind"@, JsonTree::Text(kind_tag(k))), ("body"@, JsonTree::Object(mt))]
    } else {
        seq![("kind"@, JsonTree::Text(kind_tag(k)))]
    }
}

proof fn lemma_body_tree(k: KindView, mt: Seq<(Seq<char>, JsonTree)>)
    requires
        is_body(k, mt),
    ensures
        body_text(k) is Some ==> body_text(k) == Some(object_text(member_texts(mt))),
        fits(JsonTree::Object(mt), (MAX_DEPTH - 2) as nat),
{
    lemma_keys();
    crate::json::lemma_member_texts(mt);
    reveal_with_fuel(fits, 2);
    match k {
        KindView::Chat(t) => {
            assert(member_texts(mt) =~= seq![("text"@, json_quote(t))]);
        },
        KindView::Error(t) => {
            assert(member_texts(mt) =~= seq![("message"@, json_quote(t))]);
        },
        KindView::Timer(t) => {
            assert(member_texts(mt) =~= seq![("label"@, json_quote(t))]);
        },
        KindView::Hello(t) => {
            assert(member_texts(mt) =~= seq![("name"@, json_quote(t))]);
        },
        KindView::Status(a, b) => {
            assert(member_texts(mt) =~= seq![("state"@, json_quote(a)), ("detail"@, json_quote(b))]);
        },
        KindView::ToolResult(a, b, c) => {
            assert(member_texts(mt) =~= seq![
                ("name"@, json_quote(a)),
                ("result"@, json_quote(b)),
                ("is_error"@, bool_text(c)),
            ]);
        },
        _ => {},
    }
}

proof fn lemma_kind_tree(k: KindView, mt: Seq<(Seq<char>, JsonTree)>)
    requires
        is_body(k, mt),
    ensures
        kind_text(k) == object_text(member_texts(kind_tree(k, mt))),
        fits(JsonTree::Object(kind_tree(k, mt)), (MAX_DEPTH - 1) as nat),
{
    lemma_keys();
    lemma_body_tree(k, mt);
    let kt = kind_tree(k, mt);
    crate::json::lemma_member_texts(kt);
    if body_text(k) is Some {
        assert(json_text(kt[1].1) == object_text(member_texts(mt)));
        assert(member_texts(kt) =~= seq![
            ("kind"@, json_quote(kind_tag(k))),
            ("body"@, body_text(k)->0),
        ]);
        assert(fits(kt[1].1, (MAX_DEPTH - 2) as nat));
    } else {
        assert(member_texts(kt) =~= seq![("kind"@, json_quote(kind_tag(k)))]);
    }
    assert(fits(kt[0].1, (MAX_DEPTH - 2) as nat));
}

/// The kind that a JSON text holds. What was written is read as it was.
fn decode_kind(text: &str) -> (r: Option<MessageKind>)
    ensures
        match r {
            Some(k) => kind_at(text@) == Some(k@),
            None => kind_at(text@) is None,
        },
        forall|k: KindView|
            text@ == #[trigger] kind_text(k) && writable_kind(k) ==> kind_at(text@) == Some(k),
{
    let members = match read_object(text) {
        Some(m) => m,
        None => {
            proof {
                assert forall|k: KindView| text@ == #[trigger] kind_text(k) && writable_kind(
                    k,
                ) implies kind_at(text@) == Some(k) by {
                    let mt = choose|mt: Seq<(Seq<char>, JsonTree)>| #[trigger] is_body(k, mt);
                    lemma_kind_tree(k, mt);
                    crate::json::lemma_fits_deeper(
                        JsonTree::Object(kind_tree(k, mt)),
                        (MAX_DEPTH - 1) as nat,
                        MAX_DEPTH as nat,
                    );
                }
            }
            return None;
        },
    };
    let tag = read_member_string(&members, "kind");
    let body = find_member(&members, "body");
    let r = match &tag {
        Some(tag) => kind_of_body(tag.as_str(), &body),
        None => None,
    };
    proof {
        assert forall|k: KindView| text@ == #[trigger] kind_text(k) && writable_kind(k) implies kind_at(
            text@,
        ) == Some(k) by {
            let mt = choose|mt: Seq<(Seq<char>, JsonTree)>| #[trigger] is_body(k, mt);
            let kt = kind_tree(k, mt);
            lemma_kind_tree(k, mt);
            crate::json::lemma_fits_deeper(
                JsonTree::Object(kt),
                (MAX_DEPTH - 1) as nat,
                MAX_DEPTH as nat,
            );
            assert(object_at(text@) == Some(member_texts(kt)));
            lemma_tree_lookup(kt, 0);
            assert(json_text(kt[0].1) == json_quote(kind_tag(k)));
            assert(tag is Some && tag->0@ == kind_tag(k));
            if body_text(k) is Some {
                lemma_tree_lookup(kt, 1);
                lemma_body_tree(k, mt);
                assert(json_text(kt[1].1) == object_text(member_texts(mt)));
                assert(opt_view(body) == body_text(k));
            }
        }
    }
    r
}

/// The kind with the name `tag` and the given body.
fn kind_of_body(tag: &str, body: &Option<String>) -> (r: Option<MessageKind>)
    ensures
        match r {
            Some(k) => kind_from(tag@, opt_view(*body)) == Some(k@),
            None => kind_from(tag@, opt_view(*body)) is None,
        },
        forall|k: KindView|
            tag@ == #[trigger] kind_tag(k) && (body_text(k) is Some ==> opt_view(*body) == body_text(
                k,
            )) && writable_kind(k) ==> kind_from(tag@, opt_view(*body)) == Some(k),
{
    proof {
        lemma_tags();
        lemma_keys();
        assert forall|k: KindView, mt: Seq<(Seq<char>, JsonTree)>| #[trigger] is_body(k, mt)
            && body_text(k) is Some && opt_view(*body) == body_text(k) implies body_is(*body, mt) by {
            lemma_body_tree(k, mt);
            crate::json::lemma_fits_deeper(
                JsonTree::Object(mt),
                (MAX_DEPTH - 2) as nat,
                MAX_DEPTH as nat,
            );
        }
    }
    let r = if same(tag, "chat") {
        match read_body_string(body, "text") {
            Some(text) => Some(MessageKind::Chat { text }),
            None => None,
        }
    } else if same(tag, "ping") {
        Some(MessageKind::Ping)
    } else if same(tag, "pong") {
        Some(MessageKind::Pong)
    } else if same(tag, "error") {
        match read_body_string(body, "message") {
            Some(message) => Some(MessageKind::Error { message }),
            None => None,
        }
    } else if same(tag, "timer") {
        match read_body_string(body, "label") {
            Some(label) => Some(MessageKind::Timer { label }),
            None => None,
        }
    } else if same(tag, "status") {
        match (read_body_string(body, "state"), read_body_string(body, "detail")) {
            (Some(state), Some(detail)) => Some(MessageKind::Status { state, detail }),
            _ => None,
        }
    } else if same(tag, "tool_call") {
        match (read_body_string(body, "name"), body) {
            (Some(name), Some(b)) => Some(MessageKind::ToolCall { name, body: b.clone() }),
            _ => None,
        }
    } else if same(tag, "tool_result") {
        match (
            read_body_string(body, "name"),
            read_body_string(body, "result"),
            read_body_bool(body, "is_error"),
        ) {
            (Some(name), Some(result), Some(is_error)) => Some(
                MessageKind::ToolResult { name, result, is_error },
            ),
            _ => None,
        }
    } else if same(tag, "delegate") {
        match (read_body_string(body, "task"), body) {
            (Some(task), Some(b)) => Some(MessageKind::Delegate { task, body: b.clone() }),
            _ => None,
        }
    } else if same(tag, "hello") {
        match read_body_string(body, "name") {
            Some(name) => Some(MessageKind::Hello { name }),
            None => None,
        }
    } else {
        None
    };
    proof {
        assert forall|k: KindView|
            tag@ == #[trigger] kind_tag(k) && (body_text(k) is Some ==> opt_view(*body) == body_text(
                k,
            )) && writable_kind(k) implies kind_from(tag@, opt_view(*body)) == Some(k) by {
            let mt = choose|mt: Seq<(Seq<char>, JsonTree)>| #[trigger] is_body(k, mt);
            let _ = member_texts(mt);
            match k {
                KindView::Ping | KindView::Pong => {},
                KindView::ToolCall(a, b) => {
                    let i = choose|i: int|
                        0 <= i < mt.len() && #[trigger] mt[i] == ("name"@, JsonTree::Text(a));
                    assert(mt[i].1 is Text);
                },
                KindView::Delegate(a, b) => {
                    let i = choose|i: int|
                        0 <= i < mt.len() && #[trigger] mt[i] == ("task"@, JsonTree::Text(a));
                    assert(mt[i].1 is Text);
                },
                _ => {
                    assert(mt[0].1 is Text);
                    if mt.len() > 1 {
                        assert(mt[1].1 is Text);
                    }
                    if mt.len() > 2 {
                        assert(mt[2].1 is Bool);
                    }
                },
            }
        }
    }
    r
}

/// A member of a tree that is there only where there is a value.
spec fn opt_tree(key: Seq<char>, value: Option<Seq<char>>) -> Seq<(Seq<char>, JsonTree)> {
    match value {
        Some(s) => seq![(key, JsonTree::Text(s))],
        None => Seq::empty(),
    }
}

/// The members of the JSON object of an envelope, as a tree.
spec fn wire_tree(e: EnvelopeView, mt: Seq<(Seq<char>, JsonTree)>) -> Seq<(Seq<char>, JsonTree)> {
    seq![("id"@, JsonTree::Text(e.id)), ("from"@, JsonTree::Text(e.from))] + opt_tree("to"@, e.to)
        + opt_tree("ref"@, e.reference) + seq![
        ("kind"@, JsonTree::Object(kind_tree(e.kind, mt))),
        ("ts"@, JsonTree::Number(e.ts as int)),
    ]
}

proof fn lemma_wire_tree(e: EnvelopeView, mt: Seq<(Seq<char>, JsonTree)>)
    requires
        is_body(e.kind, mt),
        e.ts <= u64::MAX,
    ensures
        envelope_members(e) == member_texts(wire_tree(e, mt)),
        fits(JsonTree::Object(wire_tree(e, mt)), MAX_DEPTH as nat),
{
    lemma_keys();
    lemma_kind_tree(e.kind, mt);
    let wt = wire_tree(e, mt);
    crate::json::lemma_member_texts(wt);
    let n = wt.len();
    assert(json_text(wt[n - 2].1) == kind_text(e.kind));
    assert(json_text(wt[n - 1].1) == decimal(e.ts));
    assert(member_texts(wt) =~= envelope_members(e));
    assert forall|i: int| 0 <= i < n implies fits(#[trigger] wt[i].1, (MAX_DEPTH - 1) as nat) by {
        if i == n - 2 {
        } else if i == n - 1 {
        } else {
            assert(wt[i].1 is Text);
        }
    }
}

proof fn lemma_wire_lookup(e: EnvelopeView)
    ensures
        lookup(envelope_members(e), "id"@) == Some(json_quote(e.id)),
        lookup(envelope_members(e), "from"@) == Some(json_quote(e.from)),
        lookup(envelope_members(e), "to"@) == (match e.to {
            Some(s) => Some(json_quote(s)),
            None => None,
        }),
        lookup(envelope_members(e), "ref"@) == (match e.reference {
            Some(s) => Some(json_quote(s)),
            None => None,
        }),
        lookup(envelope_members(e), "kind"@) == Some(kind_text(e.kind)),
        lookup(envelope_members(e), "ts"@) == Some(decimal(e.ts)),
{
    lemma_keys();
    let m = envelope_members(e);
    let n = m.len() as int;
    let to = if e.to is Some {
        2
    } else {
        n
    };
    let reference = if e.reference is Some {
        n - 3
    } else {
        n
    };
    crate::json::lemma_lookup(m, "id"@, 0);
    crate::json::lemma_lookup(m, "from"@, 1);
    crate::json::lemma_lookup(m, "to"@, to);
    crate::json::lemma_lookup(m, "ref"@, reference);
    crate::json::lemma_lookup(m, "kind"@, n - 2);
    crate::json::lemma_lookup(m, "ts"@, n - 1);
}

pub proof fn lemma_unframed(text: Seq<char>)
    ensures
        unframed(SENTINEL@ + text) == text,
        text.len() > 0 && text[0] == '{' ==> unframed(text) == text,
{
    reveal_strlit("@@RZ:");
    let line = SENTINEL@ + text;
    assert(line.take(SENTINEL@.len() as int) =~= SENTINEL@);
    assert(line.skip(SENTINEL@.len() as int) =~= text);
    if text.len() > 0 && text[0] == '{' && crate::text::has_prefix(text, SENTINEL@) {
        assert(text.take(SENTINEL@.len() as int)[0] == SENTINEL@[0]);
    }
}

/// Whether a line carries the envelope `e`, behind the sentinel or bare.
pub open spec fn carries(line: Seq<char>, e: EnvelopeView) -> bool {
    line == encoded(e) || line == envelope_text(e)
}

/// Whether a line is the start of the line that carries the envelope `e`, cut
/// off behind the sentinel.
pub open spec fn begins(line: Seq<char>, e: EnvelopeView) -> bool {
    SENTINEL@.len() <= line.len() < encoded(e).len() && line == encoded(e).take(line.len() as int)
}

proof fn lemma_begins(line: Seq<char>, e: EnvelopeView)
    requires
        begins(line, e),
    ensures
        ({
            let n = line.len() - SENTINEL@.len();
            0 <= n < envelope_text(e).len() && unframed(line) == envelope_text(e).take(n)
        }),
{
    let n = line.len() - SENTINEL@.len();
    assert(line =~= SENTINEL@ + envelope_text(e).take(n));
    lemma_unframed(envelope_text(e).take(n));
}

impl Envelope {
    /// The envelope that a line carries. The sentinel in front of the JSON may
    /// be missing: what travels over a subject has none. What was encoded is
    /// decoded as it was, and a part of it that was cut off is not decoded.
    pub fn decode(line: &str) -> (r: Result<Envelope, DecodeError>)
        ensures
            decode_view(r) == decoded(line@),
            forall|e: EnvelopeView|
                #[trigger] carries(line@, e) && writable(e) ==> decode_view(r) == Ok::<
                    EnvelopeView,
                    DecodeError,
                >(e),
            forall|e: EnvelopeView| #[trigger] begins(line@, e) && writable(e) ==> r is Err,
            no_object(unframed(line@)) ==> r is Err,
    {
        let json = match strip_prefix(line, SENTINEL) {
            Some(rest) => rest,
            None => line.to_owned(),
        };
        let level = read_level(json.as_str());
        proof {
            assert forall|e: EnvelopeView| #[trigger] carries(line@, e) && writable(e) implies {
                &&& json@ == envelope_text(e)
                &&& json_level(json@) == Some(LevelView::Object(envelope_members(e)))
            } by {
                let mt = choose|mt: Seq<(Seq<char>, JsonTree)>| #[trigger] is_body(e.kind, mt);
                lemma_wire_tree(e, mt);
                let t = JsonTree::Object(wire_tree(e, mt));
                assert(json_text(t) == envelope_text(e));
                lemma_unframed(envelope_text(e));
            }
            assert forall|e: EnvelopeView| #[trigger] begins(line@, e) && writable(
                e,
            ) implies level is None by {
                let mt = choose|mt: Seq<(Seq<char>, JsonTree)>| #[trigger] is_body(e.kind, mt);
                lemma_wire_tree(e, mt);
                let t = JsonTree::Object(wire_tree(e, mt));
                assert(json_text(t) == envelope_text(e));
                lemma_begins(line@, e);
                assert(json@ == json_text(t).take(line@.len() - SENTINEL@.len()));
            }
        }
        match level {
            Some(Level::Object(m)) => {
                let id = read_member_string(&m, "id");
                let from = read_member_string(&m, "from");
                let to = read_optional_string(&m, "to");
                let reference = read_optional_string(&m, "ref");
                let kind_json = find_member(&m, "kind");
                let kind = match &kind_json {
                    Some(t) => decode_kind(t.as_str()),
                    None => None,
                };
                let ts_json = find_member(&m, "ts");
                let ts = match &ts_json {
                    Some(t) => read_u64(t.as_str()),
                    None => None,
                };
                proof {
                    assert forall|e: EnvelopeView| #[trigger] carries(line@, e) && writable(e) implies envelope_from(
                        members_view(m@),
                    ) == Some(e) by {
                        lemma_wire_lookup(e);
                        assert(members_view(m@) == envelope_members(e));
                        assert(kind_json is Some && kind_json->0@ == kind_text(e.kind));
                    }
                }
                match (id, from, to, reference, kind, ts) {
                    (Some(id), Some(from), Some(to), Some(reference), Some(kind), Some(ts)) => Ok(
                        Envelope { id, from, to, reference, kind, ts },
                    ),
                    _ => Err(DecodeError::NotEnvelope),
                }
            },
            Some(_) => Err(DecodeError::NotEnvelope),
            None => Err(DecodeError::NotJson),
        }
    }
}

// ---------------------------------------------------------------------------
// Laws
// ---------------------------------------------------------------------------

/// Every part of a message is on the wire under its own name, whole and as it
/// is: the id, the sender, the time, and where there are any, whom it is for
/// and what it answers.
pub proof fn wire_holds_every_part(e: EnvelopeView) -> (m: Seq<(Seq<char>, Seq<char>)>)
    ensures
        encoded(e) == "@@RZ:"@ + object_text(m),
        lookup(m, "id"@) == Some(json_quote(e.id)),
        lookup(m, "from"@) == Some(json_quote(e.from)),
        e.to matches Some(to) ==> lookup(m, "to"@) == Some(json_quote(to)),
        e.to is None ==> lookup(m, "to"@) is None,
        e.reference matches Some(r) ==> lookup(m, "ref"@) == Some(json_quote(r)),
        e.reference is None ==> lookup(m, "ref"@) is None,
        lookup(m, "kind"@) == Some(kind_text(e.kind)),
        lookup(m, "ts"@) == Some(decimal(e.ts)),
{
    lemma_wire_lookup(e);
    envelope_members(e)
}

/// What a message says is on the wire under the name of its kind, whole and as
/// it is. A ping and a pong say nothing more.
pub proof fn wire_holds_what_is_said(k: KindView) -> (m: Seq<(Seq<char>, Seq<char>)>)
    ensures
        kind_text(k) == object_text(m),
        match k {
            KindView::Chat(text) => lookup(m, "kind"@) == Some(json_quote("chat"@)) && lookup(
                m,
                "body"@,
            ) == Some(object_text(seq![("text"@, json_quote(text))])),
            KindView::Ping => lookup(m, "kind"@) == Some(json_quote("ping"@)) && lookup(
                m,
                "body"@,
            ) is None,
            KindView::Pong => lookup(m, "kind"@) == Some(json_quote("pong"@)) && lookup(
                m,
                "body"@,
            ) is None,
            KindView::Error(message) => lookup(m, "kind"@) == Some(json_quote("error"@)) && lookup(
                m,
                "body"@,
            ) == Some(object_text(seq![("message"@, json_quote(message))])),
            KindView::Timer(label) => lookup(m, "kind"@) == Some(json_quote("timer"@)) && lookup(
                m,
                "body"@,
            ) == Some(object_text(seq![("label"@, json_quote(label))])),
            KindView::Status(state, detail) => lookup(m, "kind"@) == Some(json_quote("status"@))
                && lookup(m, "body"@) == Some(
                object_text(seq![("state"@, json_quote(state)), ("detail"@, json_quote(detail))]),
            ),
            KindView::ToolCall(_, body) => lookup(m, "kind"@) == Some(json_quote("tool_call"@))
                && lookup(m, "body"@) == Some(body),
            KindView::ToolResult(name, result, is_error) => lookup(m, "kind"@) == Some(
                json_quote("tool_result"@),
            ) && lookup(m, "body"@) == Some(
                object_text(
                    seq![
                        ("name"@, json_quote(name)),
                        ("result"@, json_quote(result)),
                        ("is_error"@, if is_error {
                            "true"@
                        } else {
                            "false"@
                        }),
                    ],
                ),
            ),
            KindView::Delegate(_, body) => lookup(m, "kind"@) == Some(json_quote("delegate"@))
                && lookup(m, "body"@) == Some(body),
            KindView::Hello(name) => lookup(m, "kind"@) == Some(json_quote("hello"@)) && lookup(
                m,
                "body"@,
            ) == Some(object_text(seq![("name"@, json_quote(name))])),
        },
{
    lemma_keys();
    let tag = ("kind"@, json_quote(kind_tag(k)));
    let m = match body_text(k) {
        Some(b) => seq![tag, ("body"@, b)],
        None => seq![tag],
    };
    crate::json::lemma_lookup(m, "kind"@, 0);
    crate::json::lemma_lookup(m, "body"@, 1);
    m
}

/// Every message can be written so that it is read back, whatever its parts
/// hold and however long they are, but for one that carries JSON of others:
/// that has to be the JSON that the kind needs.
pub proof fn messages_are_writable(e: EnvelopeView)
    requires
        e.ts <= u64::MAX,
        !(e.kind is ToolCall),
        !(e.kind is Delegate),
    ensures
        writable(e),
{
    match e.kind {
        KindView::Chat(t) => {
            assert(is_body(e.kind, seq![("text"@, JsonTree::Text(t))]));
        },
        KindView::Ping | KindView::Pong => {
            assert(is_body(e.kind, Seq::empty()));
        },
        KindView::Error(t) => {
            assert(is_body(e.kind, seq![("message"@, JsonTree::Text(t))]));
        },
        KindView::Timer(t) => {
            assert(is_body(e.kind, seq![("label"@, JsonTree::Text(t))]));
        },
        KindView::Status(a, b) => {
            assert(is_body(
                e.kind,
                seq![("state"@, JsonTree::Text(a)), ("detail"@, JsonTree::Text(b))],
            ));
        },
        KindView::ToolResult(a, b, c) => {
            assert(is_body(
                e.kind,
                seq![
                    ("name"@, JsonTree::Text(a)),
                    ("result"@, JsonTree::Text(b)),
                    ("is_error"@, JsonTree::Bool(c)),
                ],
            ));
        },
        KindView::Hello(t) => {
            assert(is_body(e.kind, seq![("name"@, JsonTree::Text(t))]));
        },
        _ => {},
    }
}

/// A line that reads as a message reads as one with the parts that stand in it
/// under their names. What is missing is not made up: only whom the message is
/// for and what it answers may be missing.
pub proof fn read_messages_are_as_written(line: Seq<char>)
    ensures
        decoded(line) matches Ok(e) ==> {
            let text = unframed(line);
            &&& line == text || line == "@@RZ:"@ + text
            &&& member_at(text, "id"@) is Some && string_at(member_at(text, "id"@)->0) == Some(e.id)
            &&& member_at(text, "from"@) is Some && string_at(member_at(text, "from"@)->0) == Some(
                e.from,
            )
            &&& member_at(text, "ts"@) is Some && u64_at(member_at(text, "ts"@)->0) is Some
            &&& e.ts == u64_at(member_at(text, "ts"@)->0)->0 as nat
            &&& e.to matches Some(to) ==> member_at(text, "to"@) is Some && string_at(
                member_at(text, "to"@)->0,
            ) == Some(to)
            &&& e.to is None ==> member_at(text, "to"@) is None || json_level(
                member_at(text, "to"@)->0,
            ) == Some(LevelView::Null)
            &&& e.reference matches Some(r) ==> member_at(text, "ref"@) is Some && string_at(
                member_at(text, "ref"@)->0,
            ) == Some(r)
            &&& e.reference is None ==> member_at(text, "ref"@) is None || json_level(
                member_at(text, "ref"@)->0,
            ) == Some(LevelView::Null)
            &&& member_at(text, "kind"@) is Some && kind_at(member_at(text, "kind"@)->0) == Some(
                e.kind,
            )
        },
        json_level(unframed(line)) is None ==> decoded(line) == Err::<EnvelopeView, DecodeError>(
            DecodeError::NotJson,
        ),
        decoded(line) matches Err(x) ==> (x == DecodeError::NotJson <==> json_level(
            unframed(line),
        ) is None),
{
    let text = unframed(line);
    if after_prefix(line, SENTINEL@) is Some {
        assert(line =~= SENTINEL@ + text);
    }
}

/// What a message that was read says is what stands in its body, under the name
/// that its kind has for it.
pub proof fn read_kinds_are_as_written(text: Seq<char>)
    ensures
        kind_at(text) matches Some(k) ==> {
            let tag = member_at(text, "kind"@);
            let body = member_at(text, "body"@);
            let part = |key: Seq<char>| member_at(body->0, key);
            &&& tag is Some
            &&& match k {
                KindView::Chat(t) => string_at(tag->0) == Some("chat"@) && body is Some && part(
                    "text"@,
                ) is Some && string_at(part("text"@)->0) == Some(t),
                KindView::Ping => string_at(tag->0) == Some("ping"@),
                KindView::Pong => string_at(tag->0) == Some("pong"@),
                KindView::Error(t) => string_at(tag->0) == Some("error"@) && body is Some && part(
                    "message"@,
                ) is Some && string_at(part("message"@)->0) == Some(t),
                KindView::Timer(t) => string_at(tag->0) == Some("timer"@) && body is Some && part(
                    "label"@,
                ) is Some && string_at(part("label"@)->0) == Some(t),
                KindView::Status(a, b) => string_at(tag->0) == Some("status"@) && body is Some
                    && part("state"@) is Some && string_at(part("state"@)->0) == Some(a) && part(
                    "detail"@,
                ) is Some && string_at(part("detail"@)->0) == Some(b),
                KindView::ToolCall(a, b) => string_at(tag->0) == Some("tool_call"@) && body == Some(b)
                    && part("name"@) is Some && string_at(part("name"@)->0) == Some(a),
                KindView::ToolResult(a, b, c) => string_at(tag->0) == Some("tool_result"@)
                    && body is Some && part("name"@) is Some && string_at(part("name"@)->0) == Some(
                    a,
                ) && part("result"@) is Some && string_at(part("result"@)->0) == Some(b) && part(
                    "is_error"@,
                ) is Some && bool_at(part("is_error"@)->0) == Some(c),
                KindView::Delegate(a, b) => string_at(tag->0) == Some("delegate"@) && body == Some(b)
                    && part("task"@) is Some && string_at(part("task"@)->0) == Some(a),
                KindView::Hello(t) => string_at(tag->0) == Some("hello"@) && body is Some && part(
                    "name"@,
                ) is Some && string_at(part("name"@)->0) == Some(t),
            }
        },
{
}

/// A kind is shown to programs with all its parts, each whole.
pub proof fn shown_kinds_hold_their_parts(a: Seq<char>, b: Seq<char>, c: bool)
    ensures
        kind_debug(KindView::Chat(a)) == "Chat { text: "@ + debug_quote(a) + " }"@,
        kind_debug(KindView::Ping) == "Ping"@,
        kind_debug(KindView::Pong) == "Pong"@,
        kind_debug(KindView::Error(a)) == "Error { message: "@ + debug_quote(a) + " }"@,
        kind_debug(KindView::Timer(a)) == "Timer { label: "@ + debug_quote(a) + " }"@,
        kind_debug(KindView::Hello(a)) == "Hello { name: "@ + debug_quote(a) + " }"@,
        kind_debug(KindView::Status(a, b)) == "Status { state: "@ + debug_quote(a) + ", detail: "@
            + debug_quote(b) + " }"@,
        kind_debug(KindView::ToolCall(a, b)) == "ToolCall { name: "@ + debug_quote(a) + ", body: "@
            + debug_quote(b) + " }"@,
        kind_debug(KindView::Delegate(a, b)) == "Delegate { task: "@ + debug_quote(a) + ", body: "@
            + debug_quote(b) + " }"@,
        kind_debug(KindView::ToolResult(a, b, c)) == "ToolResult { name: "@ + debug_quote(a)
            + ", result: "@ + debug_quote(b) + ", is_error: "@ + (if c {
            "true"@
        } else {
            "false"@
        }) + " }"@,
{
}

/// The contents of a message are those of its parts, each of them whole.
pub proof fn contents_are_those_of_the_parts(e: Envelope)
    ensures
        e@.id == e.id@,
        e@.from == e.from@,
        e.to matches Some(to) ==> e@.to == Some(to@),
        e.to is None ==> e@.to is None,
        e.reference matches Some(r) ==> e@.reference == Some(r@),
        e.reference is None ==> e@.reference is None,
        e@.ts == e.ts,
        match e.kind {
            MessageKind::Chat { text } => e@.kind == KindView::Chat(text@),
            MessageKind::Ping => e@.kind == KindView::Ping,
            MessageKind::Pong => e@.kind == KindView::Pong,
            MessageKind::Error { message } => e@.kind == KindView::Error(message@),
            MessageKind::Timer { label } => e@.kind == KindView::Timer(label@),
            MessageKind::Status { state, detail } => e@.kind == KindView::Status(state@, detail@),
            MessageKind::ToolCall { name, body } => e@.kind == KindView::ToolCall(name@, body@),
            MessageKind::ToolResult { name, result, is_error } => e@.kind == KindView::ToolResult(
                name@,
                result@,
                is_error,
            ),
            MessageKind::Delegate { task, body } => e@.kind == KindView::Delegate(task@, body@),
            MessageKind::Hello { name } => e@.kind == KindView::Hello(name@),
        },
{
}

/// A line carries a message if and only if it is the JSON of the message, with
/// the sentinel in front of it or without.
pub proof fn lines_carry_messages_with_or_without_sentinel(line: Seq<char>, e: EnvelopeView)
    ensures
        encoded(e) == "@@RZ:"@ + envelope_text(e),
        carries(encoded(e), e),
        carries(envelope_text(e), e),
        carries(line, e) ==> line == encoded(e) || line == envelope_text(e),
        begins(line, e) ==> line.len() < encoded(e).len() && line == encoded(e).take(
            line.len() as int,
        ),
{
}

/// The line of a message is one line, whatever its parts hold, unless it carries
/// JSON of others that is not.
pub proof fn only_carried_json_can_break_a_line(k: KindView)
    ensures
        !(k is ToolCall) && !(k is Delegate) ==> one_line_body(k),
        k matches KindView::ToolCall(_, body) ==> one_line_body(k) == one_line(body),
        k matches KindView::Delegate(_, body) ==> one_line_body(k) == one_line(body),
{
}

/// A tool call and a task can be written so that they are read back where the
/// JSON that they carry is an object that holds the name, or the task, as a
/// string, and is not nested too deeply.
pub proof fn carried_json_is_writable(e: EnvelopeView, mt: Seq<(Seq<char>, JsonTree)>, i: int)
    requires
        e.ts <= u64::MAX,
        fits(JsonTree::Object(mt), 125),
        0 <= i < mt.len(),
        match e.kind {
            KindView::ToolCall(name, body) => body == json_text(JsonTree::Object(mt)) && mt[i] == (
                "name"@,
                JsonTree::Text(name),
            ),
            KindView::Delegate(task, body) => body == json_text(JsonTree::Object(mt)) && mt[i] == (
                "task"@,
                JsonTree::Text(task),
            ),
            _ => false,
        },
    ensures
        writable(e),
{
    assert(is_body(e.kind, mt));
}

/// The line of a message is one line, whatever the message says.
pub proof fn messages_take_one_line(e: EnvelopeView)
    requires
        one_line_body(e.kind),
    ensures
        one_line(encoded(e)),
{
    reveal_strlit("@@RZ:");
    lemma_body_line(e.kind);
    let tag = ("kind"@, json_quote(kind_tag(e.kind)));
    quoted_text_is_one_line(kind_tag(e.kind));
    let km = match body_text(e.kind) {
        Some(b) => seq![tag, ("body"@, b)],
        None => seq![tag],
    };
    objects_of_lines_are_one_line(km);
    let m = envelope_members(e);
    quoted_text_is_one_line(e.id);
    quoted_text_is_one_line(e.from);
    if let Some(to) = e.to {
        quoted_text_is_one_line(to);
    }
    if let Some(r) = e.reference {
        quoted_text_is_one_line(r);
    }
    lemma_decimal_digits(e.ts);
    assert(one_line(decimal(e.ts))) by {
        assert forall|i: int| 0 <= i < decimal(e.ts).len() implies #[trigger] decimal(e.ts)[i]
            >= ' ' by {
            assert(is_digit(decimal(e.ts)[i]));
        }
    }
    assert forall|i: int| 0 <= i < m.len() implies one_line((#[trigger] m[i]).1) by {}
    objects_of_lines_are_one_line(m);
}

proof fn lemma_body_line(k: KindView)
    requires
        one_line_body(k),
    ensures
        body_text(k) matches Some(b) ==> one_line(b),
{
    reveal_strlit("true");
    reveal_strlit("false");
    match k {
        KindView::Chat(t) => {
            quoted_text_is_one_line(t);
            objects_of_lines_are_one_line(seq![("text"@, json_quote(t))]);
        },
        KindView::Error(t) => {
            quoted_text_is_one_line(t);
            objects_of_lines_are_one_line(seq![("message"@, json_quote(t))]);
        },
        KindView::Timer(t) => {
            quoted_text_is_one_line(t);
            objects_of_lines_are_one_line(seq![("label"@, json_quote(t))]);
        },
        KindView::Hello(t) => {
            quoted_text_is_one_line(t);
            objects_of_lines_are_one_line(seq![("name"@, json_quote(t))]);
        },
        KindView::Status(a, b) => {
            quoted_text_is_one_line(a);
            quoted_text_is_one_line(b);
            objects_of_lines_are_one_line(
                seq![("state"@, json_quote(a)), ("detail"@, json_quote(b))],
            );
        },
        KindView::ToolResult(a, b, c) => {
            quoted_text_is_one_line(a);
            quoted_text_is_one_line(b);
            objects_of_lines_are_one_line(
                seq![
                    ("name"@, json_quote(a)),
                    ("result"@, json_quote(b)),
                    ("is_error"@, bool_text(c)),
                ],
            );
        },
        _ => {},
    }
}

/// A line reads as a message wherever it holds what a message needs, whoever
/// wrote it: an id and a sender as strings, a time, and a kind that reads as
/// one. Whom it is for and what it answers may be missing or `null`.
pub proof fn complete_messages_are_read(line: Seq<char>, id: Seq<char>, from: Seq<char>, ts: int)
    requires
        ({
            let text = unframed(line);
            let to = member_at(text, "to"@);
            let answered = member_at(text, "ref"@);
            &&& member_at(text, "id"@) is Some && string_at(member_at(text, "id"@)->0) == Some(id)
            &&& member_at(text, "from"@) is Some && string_at(member_at(text, "from"@)->0) == Some(
                from,
            )
            &&& member_at(text, "ts"@) is Some && u64_at(member_at(text, "ts"@)->0) == Some(ts)
            &&& member_at(text, "kind"@) is Some && kind_at(member_at(text, "kind"@)->0) is Some
            &&& to is None || json_level(to->0) == Some(LevelView::Null) || string_at(to->0) is Some
            &&& answered is None || json_level(answered->0) == Some(LevelView::Null) || string_at(
                answered->0,
            ) is Some
        }),
    ensures
        decoded(line) is Ok,
{
}

/// A kind is read wherever its name and what it needs are there: nothing but
/// the name for a ping and a pong, and the parts of its body for any other.
pub proof fn complete_kinds_are_read(
    text: Seq<char>,
    body: Seq<char>,
    a: Seq<char>,
    b: Seq<char>,
    c: bool,
)
    requires
        member_at(text, "kind"@) is Some,
        member_at(text, "body"@) == Some(body),
    ensures
        ({
            let tag = string_at(member_at(text, "kind"@)->0);
            let is = |key: Seq<char>, value: Seq<char>|
                member_at(body, key) is Some && string_at(member_at(body, key)->0) == Some(value);
            &&& tag == Some("chat"@) && is("text"@, a) ==> kind_at(text) == Some(KindView::Chat(a))
            &&& tag == Some("ping"@) ==> kind_at(text) == Some(KindView::Ping)
            &&& tag == Some("pong"@) ==> kind_at(text) == Some(KindView::Pong)
            &&& tag == Some("error"@) && is("message"@, a) ==> kind_at(text) == Some(
                KindView::Error(a),
            )
            &&& tag == Some("timer"@) && is("label"@, a) ==> kind_at(text) == Some(
                KindView::Timer(a),
            )
            &&& tag == Some("status"@) && is("state"@, a) && is("detail"@, b) ==> kind_at(text)
                == Some(KindView::Status(a, b))
            &&& tag == Some("tool_call"@) && is("name"@, a) ==> kind_at(text) == Some(
                KindView::ToolCall(a, body),
            )
            &&& tag == Some("tool_result"@) && is("name"@, a) && is("result"@, b) && member_at(
                body,
                "is_error"@,
            ) is Some && bool_at(member_at(body, "is_error"@)->0) == Some(c) ==> kind_at(text)
                == Some(KindView::ToolResult(a, b, c))
            &&& tag == Some("delegate"@) && is("task"@, a) ==> kind_at(text) == Some(
                KindView::Delegate(a, body),
            )
            &&& tag == Some("hello"@) && is("name"@, a) ==> kind_at(text) == Some(
                KindView::Hello(a),
            )
        }),
{
    lemma_tags();
}

} // verus!

//! An HTTP service as an agent: messages to it are posted to its webhook, and
//! what it posts to the bridge is sent to other agents.

use vstd::prelude::*;
use vstd::string::StringExecFns;

use crate::json::{
    json_quote, lemma_lookup, lookup, member_at, object_text, opt_json, opt_quote, read_member,
    read_string, string_at, ObjectWriter,
};
use crate::number::{
    decimal, is_digit, lemma_decimal_digits, parse_at_most, parse_reads_decimal, parsed,
};
use crate::pieces::{trim, trimmed, trimming_takes_only_white_space, white_space};
use crate::protocol::{
    carries, decoded, envelope_text, kind_debug, lemma_unframed, unframed, writable, Envelope,
    EnvelopeView, KindView, MessageKind, SENTINEL,
};
use crate::registry::{process_entry, stale, AgentEntry, EntryView};
use crate::text::{
    after_prefix, has_prefix, prefixes_and_rests_make_the_text, starts_with, strip_prefix, views,
};

verus! {

/// How often the bridge gives a sign of life, in seconds.
pub const HEARTBEAT_SECS: u64 = 120;

/// The entry of a bridge in the directory of agents.
pub fn bridge_entry(name: &str, pid: u32, permanent: bool, now_ms: u64) -> (r: AgentEntry)
    ensures
        r@ == process_entry("bridge"@, pid, name@, permanent, now_ms),
{
    AgentEntry::of_process("bridge", pid, name, permanent, now_ms)
}

/// The name under which a bridge reads the stream of its agent.
pub fn bridge_consumer_name(name: &str) -> (r: String)
    ensures
        r@ == "rz_bridge_"@ + name@,
{
    "rz_bridge_".to_owned().concat(name)
}

// ---------------------------------------------------------------------------
// From agents to the service
// ---------------------------------------------------------------------------

/// What the service is told a message says: the text of a chat message, and
/// any other kind as programs show it.
pub open spec fn plain_text(k: KindView) -> Seq<char> {
    match k {
        KindView::Chat(text) => text,
        _ => kind_debug(k),
    }
}

/// What is posted to the webhook for a payload that holds an envelope.
pub open spec fn webhook_object(e: EnvelopeView, payload: Seq<char>) -> Seq<char> {
    object_text(
        seq![
            ("id"@, json_quote(e.id)),
            ("from"@, json_quote(e.from)),
            ("to"@, opt_quote(e.to)),
            ("text"@, json_quote(plain_text(e.kind))),
            ("ts"@, decimal(e.ts)),
            ("raw"@, json_quote(payload)),
        ],
    )
}

/// What is posted to the webhook for a payload.
pub open spec fn webhook_text(payload: Seq<char>) -> Seq<char> {
    match decoded(unframed(payload)) {
        Ok(e) => webhook_object(e, payload),
        Err(_) => object_text(seq![("raw"@, json_quote(payload))]),
    }
}

/// What is posted to the webhook for a payload: the parts of the envelope that
/// the service needs and the payload itself, or only the payload where it holds
/// no envelope. Every envelope that was encoded is posted.
pub fn webhook_body(payload: &str) -> (r: String)
    ensures
        r@ == webhook_text(payload@),
        forall|e: EnvelopeView| #[trigger]
            carries(payload@, e) && writable(e) ==> r@ == webhook_object(e, payload@),
{
    let stripped = match strip_prefix(payload, SENTINEL) {
        Some(rest) => rest,
        None => payload.to_owned(),
    };
    proof {
        assert forall|e: EnvelopeView| #[trigger] carries(payload@, e) implies carries(
            stripped@,
            e,
        ) by {
            lemma_unframed(envelope_text(e));
        }
    }
    match Envelope::decode(stripped.as_str()) {
        Ok(env) => {
            let to = opt_json(&env.to);
            let text = match &env.kind {
                MessageKind::Chat { text } => text.clone(),
                other => other.to_debug(),
            };
            let w = ObjectWriter::new().string("id", env.id.as_str()).string(
                "from",
                env.from.as_str(),
            ).member("to", to.as_str()).string("text", text.as_str()).number("ts", env.ts).string(
                "raw",
                payload,
            );
            assert(w@ =~= seq![
                ("id"@, json_quote(env@.id)),
                ("from"@, json_quote(env@.from)),
                ("to"@, opt_quote(env@.to)),
                ("text"@, json_quote(plain_text(env@.kind))),
                ("ts"@, decimal(env@.ts)),
                ("raw"@, json_quote(payload@)),
            ]);
            w.finish()
        },
        Err(_) => {
            let w = ObjectWriter::new().string("raw", payload);
            assert(w@ =~= seq![("raw"@, json_quote(payload@))]);
            w.finish()
        },
    }
}

/// The arguments of the command that posts a body to the webhook.
pub open spec fn post_args(body: Seq<char>, webhook: Seq<char>) -> Seq<Seq<char>> {
    seq![
        "-s"@,
        "-X"@,
        "POST"@,
        "-H"@,
        "Content-Type: application/json"@,
        "--max-time"@,
        "5"@,
        "-d"@,
        body,
        webhook,
    ]
}

/// The arguments of `curl` that post a payload to the webhook.
pub fn forward_to_webhook(webhook: &str, payload: &str) -> (r: Vec<String>)
    ensures
        views(r@) == post_args(webhook_text(payload@), webhook@),
{
    let body = webhook_body(payload);
    let mut args: Vec<String> = Vec::new();
    args.push("-s".to_owned());
    args.push("-X".to_owned());
    args.push("POST".to_owned());
    args.push("-H".to_owned());
    args.push("Content-Type: application/json".to_owned());
    args.push("--max-time".to_owned());
    args.push("5".to_owned());
    args.push("-d".to_owned());
    args.push(body);
    args.push(webhook.to_owned());
    assert(views(args@) =~= post_args(webhook_text(payload@), webhook@));
    args
}

// ---------------------------------------------------------------------------
// From the service to agents
// ---------------------------------------------------------------------------

/// The value of a header that gives the length of the body.
pub open spec fn length_value(header: Seq<char>) -> Option<Seq<char>> {
    match after_prefix(header, "Content-Length: "@) {
        Some(v) => Some(v),
        None => after_prefix(header, "content-length: "@),
    }
}

/// The length of the body after one more header.
pub open spec fn length_after(header: Seq<char>, length: nat) -> nat {
    match length_value(header) {
        Some(v) => match parsed(trim(v), usize::MAX as nat) {
            Some(n) => n,
            None => 0,
        },
        None => length,
    }
}

/// The length of the body after all the headers up to the first blank line.
pub open spec fn body_length(headers: Seq<Seq<char>>, length: nat) -> nat
    decreases headers.len(),
{
    if headers.len() == 0 || trim(headers[0]).len() == 0 {
        length
    } else {
        body_length(headers.skip(1), length_after(headers[0], length))
    }
}

/// Takes one more line of a request into account, after the first. The result
/// is the length of the body so far, or nothing where the headers end.
pub fn header_step(header: &str, length: usize) -> (r: Option<usize>)
    ensures
        match r {
            Some(n) => trim(header@).len() > 0 && n == length_after(header@, length as nat),
            None => trim(header@).len() == 0,
        },
{
    if trimmed(header).as_str().is_empty() {
        return None;
    }
    let value = match strip_prefix(header, "Content-Length: ") {
        Some(v) => Some(v),
        None => strip_prefix(header, "content-length: "),
    };
    match value {
        Some(v) => match parse_at_most(trimmed(v.as_str()).as_str(), usize::MAX as u64) {
            Some(n) => Some(n as usize),
            None => Some(0),
        },
        None => Some(length),
    }
}

/// The length of the body that the headers of a request give.
#[verifier::loop_isolation(false)]
pub fn content_length(headers: &Vec<String>) -> (r: usize)
    ensures
        r == body_length(views(headers@), 0),
{
    let ghost all = views(headers@);
    let mut length: usize = 0;
    let mut i: usize = 0;
    assert(all.skip(0) =~= all);
    while i < headers.len()
        invariant
            i <= headers@.len(),
            body_length(all, 0) == body_length(all.skip(i as int), length as nat),
        decreases headers@.len() - i,
    {
        assert(all.skip(i as int)[0] == headers@[i as int]@);
        assert(all.skip(i as int).skip(1) =~= all.skip(i + 1));
        match header_step(headers[i].as_str(), length) {
            Some(n) => {
                length = n;
            },
            None => {
                return length;
            },
        }
        i = i + 1;
    }
    length
}

/// A string member of the body of a request, or nothing.
pub open spec fn field(body: Seq<char>, key: Seq<char>) -> Seq<char> {
    match member_at(body, key) {
        Some(t) => match string_at(t) {
            Some(s) => s,
            None => Seq::empty(),
        },
        None => Seq::empty(),
    }
}

fn field_of(body: &str, key: &str) -> (r: String)
    ensures
        r@ == field(body@, key@),
{
    match read_member(body, key) {
        Some(t) => match read_string(t.as_str()) {
            Some(s) => s,
            None => String::new(),
        },
        None => String::new(),
    }
}

/// The start of every answer with a JSON body.
pub open spec fn json_head(status: Seq<char>) -> Seq<char> {
    "HTTP/1.1 "@ + status
        + "\r\nContent-Type: application/json\r\nConnection: close\r\n\r\n"@
}

/// What a request is answered.
pub open spec fn http_text(name: Seq<char>, request_line: Seq<char>, body: Seq<char>) -> Seq<char> {
    if has_prefix(request_line, "POST /send"@) {
        if outgoing(request_line, body) is Some {
            json_head("200 OK"@) + "{\"ok\":true,\"from\":\""@ + name + "\"}"@
        } else {
            json_head("400 Bad Request"@)
                + "{\"error\":\"need {\\\"to\\\":\\\"name\\\",\\\"text\\\":\\\"msg\\\"}\"}"@
        }
    } else if has_prefix(request_line, "GET /health"@) {
        json_head("200 OK"@) + "{\"name\":\""@ + name + "\",\"status\":\"ok\"}"@
    } else {
        "HTTP/1.1 404 Not Found\r\nConnection: close\r\n\r\n"@
    }
}

/// The message that a request asks to be sent: to whom, and what. Both must be
/// there.
pub open spec fn outgoing(request_line: Seq<char>, body: Seq<char>) -> Option<
    (Seq<char>, Seq<char>),
> {
    if has_prefix(request_line, "POST /send"@) && field(body, "to"@).len() > 0 && field(
        body,
        "text"@,
    ).len() > 0 {
        Some((field(body, "to"@), field(body, "text"@)))
    } else {
        None
    }
}

/// What follows a request to the bridge.
#[derive(Debug)]
pub struct HttpAnswer {
    pub response: String,
    /// The agent that a message goes to, and the message.
    pub outgoing: Option<(String, String)>,
}

fn head_of(status: &str) -> (r: String)
    ensures
        r@ == json_head(status@),
{
    "HTTP/1.1 ".to_owned().concat(status).concat(
        "\r\nContent-Type: application/json\r\nConnection: close\r\n\r\n",
    )
}

/// Answers a request to the bridge `name`: `POST /send` sends a message, and
/// `GET /health` tells that the bridge is alive.
pub fn answer_request(name: &str, request_line: &str, body: &str) -> (r: HttpAnswer)
    ensures
        r.response@ == http_text(name@, request_line@, body@),
        match r.outgoing {
            Some((to, text)) => outgoing(request_line@, body@) == Some((to@, text@)),
            None => outgoing(request_line@, body@) is None,
        },
{
    if starts_with(request_line, "POST /send") {
        let to = field_of(body, "to");
        let text = field_of(body, "text");
        if !to.as_str().is_empty() && !text.as_str().is_empty() {
            let response = head_of("200 OK").concat("{\"ok\":true,\"from\":\"").concat(name).concat(
                "\"}",
            );
            return HttpAnswer { response, outgoing: Some((to, text)) };
        }
        let response = head_of("400 Bad Request").concat(
            "{\"error\":\"need {\\\"to\\\":\\\"name\\\",\\\"text\\\":\\\"msg\\\"}\"}",
        );
        HttpAnswer { response, outgoing: None }
    } else if starts_with(request_line, "GET /health") {
        let response = head_of("200 OK").concat("{\"name\":\"").concat(name).concat(
            "\",\"status\":\"ok\"}",
        );
        HttpAnswer { response, outgoing: None }
    } else {
        HttpAnswer {
            response: "HTTP/1.1 404 Not Found\r\nConnection: close\r\n\r\n".to_owned(),
            outgoing: None,
        }
    }
}

/// The envelope of a message that the service sends.
pub fn outgoing_envelope(id: String, ts: u64, name: &str, to: &str, text: &str) -> (r: Envelope)
    ensures
        r@ == (EnvelopeView {
            id: id@,
            from: name@,
            to: Some(to@),
            reference: None,
            kind: KindView::Chat(text@),
            ts: ts as nat,
        }),
{
    Envelope::chat(id, ts, name, text).with_to(to)
}

/// Whether the entry of an agent or a bridge is taken out of the directory when
/// it ends.
pub fn leaves_directory(permanent: bool) -> (r: bool)
    ensures
        r == !permanent,
{
    !permanent
}

// ---------------------------------------------------------------------------
// Laws
// ---------------------------------------------------------------------------

/// What is posted to the webhook for a message gives its parts, each under its
/// name and whole, and the payload as it came. The text of a chat message is
/// given as it is, whatever its length.
pub proof fn posted_messages_hold_their_parts(e: EnvelopeView, payload: Seq<char>) -> (m: Seq<
    (Seq<char>, Seq<char>),
>)
    ensures
        webhook_object(e, payload) == object_text(m),
        lookup(m, "id"@) == Some(json_quote(e.id)),
        lookup(m, "from"@) == Some(json_quote(e.from)),
        e.to matches Some(to) ==> lookup(m, "to"@) == Some(json_quote(to)),
        e.to is None ==> lookup(m, "to"@) == Some("null"@),
        e.kind matches KindView::Chat(text) ==> lookup(m, "text"@) == Some(json_quote(text)),
        !(e.kind is Chat) ==> lookup(m, "text"@) == Some(json_quote(kind_debug(e.kind))),
        lookup(m, "ts"@) == Some(decimal(e.ts)),
        lookup(m, "raw"@) == Some(json_quote(payload)),
{
    reveal_strlit("id");
    reveal_strlit("from");
    reveal_strlit("to");
    reveal_strlit("text");
    reveal_strlit("ts");
    reveal_strlit("raw");
    let m = seq![
        ("id"@, json_quote(e.id)),
        ("from"@, json_quote(e.from)),
        ("to"@, opt_quote(e.to)),
        ("text"@, json_quote(plain_text(e.kind))),
        ("ts"@, decimal(e.ts)),
        ("raw"@, json_quote(payload)),
    ];
    assert("id"@.len() == 2 && "id"@[0] == 'i');
    assert("from"@.len() == 4 && "from"@[0] == 'f');
    assert("to"@.len() == 2 && "to"@[0] == 't' && "to"@[1] == 'o');
    assert("text"@.len() == 4 && "text"@[0] == 't');
    assert("ts"@.len() == 2 && "ts"@[0] == 't' && "ts"@[1] == 's');
    assert("raw"@.len() == 3);
    lemma_lookup(m, "id"@, 0);
    lemma_lookup(m, "from"@, 1);
    lemma_lookup(m, "to"@, 2);
    lemma_lookup(m, "text"@, 3);
    lemma_lookup(m, "ts"@, 4);
    lemma_lookup(m, "raw"@, 5);
    m
}

/// A payload that holds no message is posted all the same, alone and as it
/// came; one that holds a message is posted with it.
pub proof fn every_payload_is_posted(payload: Seq<char>)
    ensures
        decoded(unframed(payload)) is Err ==> webhook_text(payload) == object_text(
            seq![("raw"@, json_quote(payload))],
        ),
        decoded(unframed(payload)) matches Ok(e) ==> webhook_text(payload) == webhook_object(
            e,
            payload,
        ),
{
}

/// A post to the webhook carries the body as it is, goes to the webhook, and
/// gives up after five seconds.
pub proof fn posts_carry_the_body(body: Seq<char>, webhook: Seq<char>)
    ensures
        ({
            let args = post_args(body, webhook);
            let n = args.len();
            &&& args.last() == webhook
            &&& args[n - 2] == body
            &&& args[n - 3] == "-d"@
            &&& args.contains("POST"@)
            &&& exists|i: int|
                0 <= i < n - 1 && #[trigger] args[i] == "-X"@ && args[i + 1] == "POST"@
            &&& exists|i: int|
                0 <= i < n - 1 && #[trigger] args[i] == "-H"@ && args[i + 1]
                    == "Content-Type: application/json"@
            &&& exists|i: int|
                0 <= i < n - 1 && #[trigger] args[i] == "--max-time"@ && args[i + 1] == "5"@
        }),
{
    let args = post_args(body, webhook);
    assert(args[1] == "-X"@ && args[2] == "POST"@);
    assert(args[3] == "-H"@ && args[4] == "Content-Type: application/json"@);
    assert(args[5] == "--max-time"@ && args[6] == "5"@);
}

/// The length of the body is the number in the last header that gives it before
/// the first blank line, in either way to write its name, with white space
/// around it or not. A header that gives it badly gives none, and any other
/// header changes nothing.
pub proof fn length_is_read_from_its_header(
    n: nat,
    pad: Seq<char>,
    bad: Seq<char>,
    header: Seq<char>,
    length: nat,
)
    requires
        n <= usize::MAX,
        forall|i: int| 0 <= i < pad.len() ==> white_space(#[trigger] pad[i]),
        parsed(trim(bad), usize::MAX as nat) is None,
    ensures
        length_after("Content-Length: "@ + bad, length) == 0,
        length_after("content-length: "@ + bad, length) == 0,
        length_after("Content-Length: "@ + pad + decimal(n) + pad, length) == n,
        length_after("content-length: "@ + pad + decimal(n) + pad, length) == n,
        !has_prefix(header, "Content-Length: "@) && !has_prefix(header, "content-length: "@)
            ==> length_after(header, length) == length,
{
    reveal_strlit("Content-Length: ");
    reveal_strlit("content-length: ");
    let value = pad + decimal(n) + pad;
    let upper = "Content-Length: "@ + pad + decimal(n) + pad;
    let other = "content-length: "@ + pad + decimal(n) + pad;
    assert(upper =~= "Content-Length: "@ + value);
    assert(other =~= "content-length: "@ + value);
    prefixes_and_rests_make_the_text(upper, "Content-Length: "@, value);
    prefixes_and_rests_make_the_text(other, "content-length: "@, value);
    lemma_lower_case_header(value);
    lemma_lower_case_header(bad);
    prefixes_and_rests_make_the_text("Content-Length: "@ + bad, "Content-Length: "@, bad);
    prefixes_and_rests_make_the_text("content-length: "@ + bad, "content-length: "@, bad);
    lemma_trim_padded(pad, decimal(n));
    parse_reads_decimal(n, usize::MAX as nat);
}

proof fn lemma_lower_case_header(value: Seq<char>)
    ensures
        !has_prefix("content-length: "@ + value, "Content-Length: "@),
{
    reveal_strlit("Content-Length: ");
    reveal_strlit("content-length: ");
    let header = "content-length: "@ + value;
    assert(header[0] == 'c');
    if has_prefix(header, "Content-Length: "@) {
        assert(header.take("Content-Length: "@.len() as int)[0] == 'C');
    }
}

proof fn lemma_trim_padded(pad: Seq<char>, d: Seq<char>)
    requires
        forall|i: int| 0 <= i < pad.len() ==> white_space(#[trigger] pad[i]),
        exists|n: nat| d == #[trigger] decimal(n),
    ensures
        trim(pad + d + pad) == d,
{
    let n = choose|n: nat| d == #[trigger] decimal(n);
    lemma_decimal_digits(n);
    let s = pad + d + pad;
    let at = trimming_takes_only_white_space(s);
    let p = pad.len() as int;
    let k = trim(s).len() as int;
    let last = p + d.len() - 1;
    assert(is_digit(d[0]) && is_digit(d[d.len() - 1]));
    assert(s[p] == d[0] && s[last] == d[d.len() - 1]);
    assert(!white_space(s[p]) && !white_space(s[last]));
    assert(at <= p);
    assert(at + k > last);
    if at < p {
        assert(white_space(s[at]));
        assert(trim(s)[0] == s[at]);
    }
    if at + k - 1 > last {
        assert(s[at + k - 1] == pad[at + k - 1 - p - d.len()]);
        assert(trim(s).last() == s[at + k - 1]);
    }
    assert(s.subrange(p, p + d.len()) =~= d);
}

/// Each header counts in its turn up to the first blank line, and none behind
/// it.
pub proof fn headers_end_at_a_blank_line(
    header: Seq<char>,
    rest: Seq<Seq<char>>,
    length: nat,
)
    ensures
        trim(header).len() == 0 ==> body_length(seq![header] + rest, length) == length,
        trim(header).len() > 0 ==> body_length(seq![header] + rest, length) == body_length(
            rest,
            length_after(header, length),
        ),
        body_length(Seq::empty(), length) == length,
{
    assert((seq![header] + rest).skip(1) =~= rest);
}

/// A request to send a message leads to one if and only if its body names whom
/// it is for and what it says, neither of them empty: to exactly that agent,
/// with exactly that text. No other request leads to one.
pub proof fn requests_send_what_they_say(request_line: Seq<char>, body: Seq<char>)
    ensures
        outgoing(request_line, body) matches Some((to, text)) ==> {
            &&& has_prefix(request_line, "POST /send"@)
            &&& to.len() > 0
            &&& text.len() > 0
            &&& member_at(body, "to"@) is Some
            &&& string_at(member_at(body, "to"@)->0) == Some(to)
            &&& member_at(body, "text"@) is Some
            &&& string_at(member_at(body, "text"@)->0) == Some(text)
        },
        outgoing(request_line, body) is None ==> {
            ||| !has_prefix(request_line, "POST /send"@)
            ||| member_at(body, "to"@) is None
            ||| string_at(member_at(body, "to"@)->0) is None
            ||| string_at(member_at(body, "to"@)->0)->0.len() == 0
            ||| member_at(body, "text"@) is None
            ||| string_at(member_at(body, "text"@)->0) is None
            ||| string_at(member_at(body, "text"@)->0)->0.len() == 0
        },
{
}

/// A request to send is told whether it led to a message, and from whom that
/// comes; a request for a sign of life is answered with the name of the bridge;
/// and any other is told that there is no such thing.
pub proof fn requests_are_told_their_outcome(
    name: Seq<char>,
    request_line: Seq<char>,
    body: Seq<char>,
)
    ensures
        ({
            let head = |status: Seq<char>|
                "HTTP/1.1 "@ + status
                    + "\r\nContent-Type: application/json\r\nConnection: close\r\n\r\n"@;
            let answer = http_text(name, request_line, body);
            let sends = has_prefix(request_line, "POST /send"@);
            let asks = has_prefix(request_line, "GET /health"@);
            &&& sends && outgoing(request_line, body) is Some ==> answer == head("200 OK"@)
                + "{\"ok\":true,\"from\":\""@ + name + "\"}"@
            &&& sends && outgoing(request_line, body) is None ==> answer == head(
                "400 Bad Request"@,
            ) + "{\"error\":\"need {\\\"to\\\":\\\"name\\\",\\\"text\\\":\\\"msg\\\"}\"}"@
            &&& !sends && asks ==> answer == head("200 OK"@) + "{\"name\":\""@ + name
                + "\",\"status\":\"ok\"}"@
            &&& !sends && !asks ==> answer
                == "HTTP/1.1 404 Not Found\r\nConnection: close\r\n\r\n"@
        }),
{
}

/// A bridge that gives its signs of life is never stale: the next comes before
/// the last is too old, whether or not the bridge is permanent.
pub proof fn living_bridges_are_not_stale(e: EntryView, now_ms: u64)
    requires
        now_ms <= e.last_seen + HEARTBEAT_SECS * 1000,
    ensures
        !stale(e, now_ms),
        HEARTBEAT_SECS == 120,
{
}

} // verus!

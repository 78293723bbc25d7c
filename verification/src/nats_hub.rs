//! Messages between machines: subjects and streams of a NATS server, and what
//! is done with what comes from them.
//!
//! Messages are published through a stream where the server keeps streams, so
//! that they survive until the agent reads them, and without one otherwise.

use vstd::prelude::*;
use vstd::string::StringExecFns;

use crate::pieces::{replace, replace_char, replacing_one_by_one_keeps_places};
use crate::protocol::{
    decode_view, decoded, encoded, envelope_text, DecodeError, Envelope, EnvelopeView,
};
use crate::text::{
    after_prefix, has_prefix, payload_text, prefixes_and_rests_make_the_text, starts_with,
    strip_prefix, text_of_payload,
};

verus! {

/// How long a stream keeps a message that nobody reads, in seconds.
pub const STREAM_MAX_AGE_SECS: u64 = 604800;

/// How many bytes of messages a stream keeps.
pub const STREAM_MAX_BYTES: i64 = 52428800;

/// The pause after a message was typed into a surface, in milliseconds. The
/// program there needs the time to take it in.
pub const SURFACE_PACE_MS: u64 = 1500;

/// The address of the hub, from the value of its environment variable: none
/// where the variable is not set, or empty.
pub fn hub_url(value: Option<String>) -> (r: Option<String>)
    ensures
        match value {
            Some(s) => if s@.len() > 0 {
                r == Some(s)
            } else {
                r is None
            },
            None => r is None,
        },
{
    match value {
        Some(s) => {
            if s.as_str().is_empty() {
                None
            } else {
                Some(s)
            }
        },
        None => None,
    }
}

// ---------------------------------------------------------------------------
// Names
// ---------------------------------------------------------------------------

/// The name of the stream of an agent.
pub open spec fn stream_text(agent_name: Seq<char>) -> Seq<char> {
    "RZ_"@ + replace(replace(agent_name, '.', "_"@), '-', "_"@)
}

/// The subject of the messages to an agent.
pub open spec fn subject_text(agent_name: Seq<char>) -> Seq<char> {
    "agent."@ + agent_name
}

/// The name under which an agent reads its stream.
pub open spec fn consumer_text(agent_name: Seq<char>) -> Seq<char> {
    "rz_"@ + agent_name
}

/// The name of the stream of an agent. The server takes neither dots nor
/// dashes in it.
pub fn stream_name(agent_name: &str) -> (r: String)
    ensures
        r@ == stream_text(agent_name@),
{
    let no_dots = replace_char(agent_name, '.', "_");
    "RZ_".to_owned().concat(replace_char(no_dots.as_str(), '-', "_").as_str())
}

/// The subject of the messages to an agent.
pub fn subject(agent_name: &str) -> (r: String)
    ensures
        r@ == subject_text(agent_name@),
{
    "agent.".to_owned().concat(agent_name)
}

/// The name under which an agent reads its stream.
pub fn consumer_name(agent_name: &str) -> (r: String)
    ensures
        r@ == consumer_text(agent_name@),
{
    "rz_".to_owned().concat(agent_name)
}

// ---------------------------------------------------------------------------
// Publishing
// ---------------------------------------------------------------------------

/// What is published of an envelope: its JSON text, without the sentinel.
pub fn publish_payload(envelope: &Envelope) -> (r: String)
    ensures
        r@ == envelope_text(envelope@),
{
    envelope.to_json()
}

/// The stages of publishing a message.
#[derive(Debug, Clone, Copy, PartialEq, Eq, Structural)]
pub enum PublishStage {
    /// The stream of the agent is looked up or created.
    EnsureStream,
    /// The message is published to the stream.
    Stream,
    /// The server confirms that the stream holds the message.
    Confirm,
    /// The message is published without a stream.
    Core,
    Done,
    Failed,
}

/// The stage that follows a stage. Whatever goes wrong with the stream, the
/// message is then published without it.
pub open spec fn stage_after(stage: PublishStage, succeeded: bool) -> PublishStage {
    match stage {
        PublishStage::EnsureStream => if succeeded {
            PublishStage::Stream
        } else {
            PublishStage::Core
        },
        PublishStage::Stream => if succeeded {
            PublishStage::Confirm
        } else {
            PublishStage::Core
        },
        PublishStage::Confirm => if succeeded {
            PublishStage::Done
        } else {
            PublishStage::Core
        },
        PublishStage::Core => if succeeded {
            PublishStage::Done
        } else {
            PublishStage::Failed
        },
        PublishStage::Done => PublishStage::Done,
        PublishStage::Failed => PublishStage::Failed,
    }
}

/// The stage that follows a stage.
pub fn next_stage(stage: PublishStage, succeeded: bool) -> (r: PublishStage)
    ensures
        r == stage_after(stage, succeeded),
{
    match stage {
        PublishStage::EnsureStream => {
            if succeeded {
                PublishStage::Stream
            } else {
                PublishStage::Core
            }
        },
        PublishStage::Stream => {
            if succeeded {
                PublishStage::Confirm
            } else {
                PublishStage::Core
            }
        },
        PublishStage::Confirm => {
            if succeeded {
                PublishStage::Done
            } else {
                PublishStage::Core
            }
        },
        PublishStage::Core => {
            if succeeded {
                PublishStage::Done
            } else {
                PublishStage::Failed
            }
        },
        PublishStage::Done => PublishStage::Done,
        PublishStage::Failed => PublishStage::Failed,
    }
}

/// The stage after several steps, given which of them succeed.
pub open spec fn stage_after_all(stage: PublishStage, succeeded: Seq<bool>) -> PublishStage
    decreases succeeded.len(),
{
    if succeeded.len() == 0 {
        stage
    } else {
        stage_after(stage_after_all(stage, succeeded.drop_last()), succeeded.last())
    }
}

/// Publishing comes to an end within four steps, and fails only where publishing
/// without a stream fails.
pub proof fn publishing_ends(succeeded: Seq<bool>)
    requires
        succeeded.len() == 4,
    ensures
        ({
            let end = stage_after_all(PublishStage::EnsureStream, succeeded);
            &&& end is Done || end is Failed
            &&& end is Failed ==> exists|i: int|
                0 <= i < 4 && !#[trigger] succeeded[i] && stage_after_all(
                    PublishStage::EnsureStream,
                    succeeded.take(i),
                ) is Core
            &&& succeeded[0] && succeeded[1] && succeeded[2] ==> end is Done
        }),
{
    let start = PublishStage::EnsureStream;
    let s3 = succeeded.drop_last();
    let s2 = s3.drop_last();
    let s1 = s2.drop_last();
    assert(s1.drop_last() =~= Seq::<bool>::empty());
    assert(stage_after_all(start, Seq::<bool>::empty()) == start);
    assert(succeeded.take(1) =~= s1);
    assert(succeeded.take(2) =~= s2);
    assert(succeeded.take(3) =~= s3);
    assert(stage_after_all(start, s1) == stage_after(start, succeeded[0]));
    assert(stage_after_all(start, s2) == stage_after(stage_after_all(start, s1), succeeded[1]));
    assert(stage_after_all(start, s3) == stage_after(stage_after_all(start, s2), succeeded[2]));
    assert(stage_after_all(start, succeeded) == stage_after(
        stage_after_all(start, s3),
        succeeded[3],
    ));
    if stage_after_all(start, succeeded) is Failed {
        let i = if stage_after_all(start, s2) is Failed {
            1int
        } else if stage_after_all(start, s3) is Failed {
            2
        } else {
            3
        };
        assert(!succeeded[i]);
    }
}

// ---------------------------------------------------------------------------
// Receiving
// ---------------------------------------------------------------------------

/// The envelope that a payload holds.
pub fn read_payload(payload: &[u8]) -> (r: Result<Envelope, DecodeError>)
    ensures
        decode_view(r) == decoded(payload_text(payload@)),
{
    let text = text_of_payload(payload);
    Envelope::decode(text.as_str())
}

/// Where a message goes on this machine.
#[derive(Debug)]
pub enum LocalDelivery {
    /// Into the mailbox of an agent.
    Mailbox(String),
    /// Into a surface, as this text.
    Surface { id: String, text: String },
    /// To the standard output, as this line.
    Print(String),
}

/// Where a message goes on this machine, and as what.
pub open spec fn delivers(d: LocalDelivery, delivery: Seq<char>, e: EnvelopeView) -> bool {
    match (after_prefix(delivery, "file:"@), after_prefix(delivery, "cmux:"@)) {
        (Some(mailbox), _) => d matches LocalDelivery::Mailbox(name) && name@ == mailbox,
        (None, Some(surface)) => d matches LocalDelivery::Surface { id, text } && id@ == surface
            && text@ == encoded(e),
        (None, None) => d matches LocalDelivery::Print(line) && line@ == encoded(e),
    }
}

/// Where a message goes on this machine: into a mailbox for `file:<name>`, into
/// a surface for `cmux:<id>`, and to the standard output for anything else.
pub fn deliver_locally(delivery: &str, envelope: &Envelope) -> (r: LocalDelivery)
    ensures
        delivers(r, delivery@, envelope@),
{
    match strip_prefix(delivery, "file:") {
        Some(name) => LocalDelivery::Mailbox(name),
        None => match strip_prefix(delivery, "cmux:") {
            Some(id) => LocalDelivery::Surface { id, text: envelope.encode() },
            None => LocalDelivery::Print(envelope.encode()),
        },
    }
}

/// What became of a message that was received.
#[derive(Debug, Clone, Copy, PartialEq, Eq, Structural)]
pub enum Fate {
    /// It holds no envelope.
    Unreadable,
    Delivered,
    NotDelivered,
}

/// What follows a message: whether the server is told that it was taken, and
/// the pause before the next, in milliseconds.
#[derive(Debug, Clone, Copy, PartialEq, Eq, Structural)]
pub struct FollowUp {
    pub acknowledge: bool,
    pub pause_ms: u64,
}

/// The pause after a message was delivered.
pub open spec fn pace(delivery: Seq<char>) -> u64 {
    if has_prefix(delivery, "cmux:"@) {
        SURFACE_PACE_MS
    } else {
        0
    }
}

fn pace_of(delivery: &str) -> (r: u64)
    ensures
        r == pace(delivery@),
{
    if starts_with(delivery, "cmux:") {
        SURFACE_PACE_MS
    } else {
        0
    }
}

/// What follows a message from a stream. One that holds no envelope is taken
/// all the same, or it would come back for ever; one that was not delivered is
/// not, and comes back.
pub fn after_stream_message(fate: Fate, delivery: &str) -> (r: FollowUp)
    ensures
        r.acknowledge == (fate != Fate::NotDelivered),
        r.pause_ms == (if fate == Fate::Delivered {
            pace(delivery@)
        } else {
            0
        }),
{
    match fate {
        Fate::Unreadable => FollowUp { acknowledge: true, pause_ms: 0 },
        Fate::NotDelivered => FollowUp { acknowledge: false, pause_ms: 0 },
        Fate::Delivered => FollowUp { acknowledge: true, pause_ms: pace_of(delivery) },
    }
}

/// What follows a message that came without a stream: nobody waits to be told,
/// and the pause is made whether or not it was delivered.
pub fn after_core_message(fate: Fate, delivery: &str) -> (r: FollowUp)
    ensures
        !r.acknowledge,
        r.pause_ms == (if fate == Fate::Unreadable {
            0
        } else {
            pace(delivery@)
        }),
{
    match fate {
        Fate::Unreadable => FollowUp { acknowledge: false, pause_ms: 0 },
        _ => FollowUp { acknowledge: false, pause_ms: pace_of(delivery) },
    }
}

// ---------------------------------------------------------------------------
// Laws
// ---------------------------------------------------------------------------

/// The subject of an agent and the name under which it reads its stream hold
/// its whole name as it is, so that no two agents share them.
pub proof fn subjects_hold_the_name(a: Seq<char>, b: Seq<char>)
    ensures
        subject_text(a) == "agent."@ + a,
        consumer_text(a) == "rz_"@ + a,
        subject_text(a) == subject_text(b) ==> a == b,
        consumer_text(a) == consumer_text(b) ==> a == b,
{
    prefixes_and_rests_make_the_text(subject_text(a), "agent."@, a);
    prefixes_and_rests_make_the_text(subject_text(b), "agent."@, b);
    prefixes_and_rests_make_the_text(consumer_text(a), "rz_"@, a);
    prefixes_and_rests_make_the_text(consumer_text(b), "rz_"@, b);
}

/// The name of the stream of an agent is that of the agent behind a mark, with
/// an underscore in the place of each dot and of each dash, and every other
/// character in its place. So it holds neither dots nor dashes.
pub proof fn stream_names_keep_all_but_dots_and_dashes(name: Seq<char>)
    ensures
        ({
            let s = stream_text(name);
            &&& s.len() == 3 + name.len()
            &&& s.take(3) == "RZ_"@
            &&& forall|i: int|
                0 <= i < name.len() ==> #[trigger] s[3 + i] == (if name[i] == '.' || name[i]
                    == '-' {
                    '_'
                } else {
                    name[i]
                })
            &&& forall|i: int| 0 <= i < s.len() ==> #[trigger] s[i] != '.' && s[i] != '-'
        }),
{
    reveal_strlit("RZ_");
    reveal_strlit("_");
    assert("_"@ =~= seq!['_']);
    let a = replace(name, '.', "_"@);
    let b = replace(a, '-', "_"@);
    replacing_one_by_one_keeps_places(name, '.', '_');
    replacing_one_by_one_keeps_places(a, '-', '_');
    let s = stream_text(name);
    assert(s.take(3) =~= "RZ_"@);
    assert forall|i: int| 0 <= i < name.len() implies #[trigger] s[3 + i] == (if name[i] == '.'
        || name[i] == '-' {
        '_'
    } else {
        name[i]
    }) by {
        assert(s[3 + i] == b[i]);
    }
    assert forall|i: int| 0 <= i < s.len() implies #[trigger] s[i] != '.' && s[i] != '-' by {
        if i >= 3 {
            assert(s[3 + (i - 3)] == b[i - 3]);
        }
    }
}

/// A message goes through a stream where the server has one, and without it
/// where anything goes wrong with that: no failure of a stream loses a message,
/// and a message that a stream holds is not published again.
pub proof fn failures_of_streams_fall_back(succeeded: bool)
    ensures
        stage_after(PublishStage::EnsureStream, true) == PublishStage::Stream,
        stage_after(PublishStage::Stream, true) == PublishStage::Confirm,
        stage_after(PublishStage::Confirm, true) == PublishStage::Done,
        stage_after(PublishStage::EnsureStream, false) == PublishStage::Core,
        stage_after(PublishStage::Stream, false) == PublishStage::Core,
        stage_after(PublishStage::Confirm, false) == PublishStage::Core,
        stage_after(PublishStage::Core, true) == PublishStage::Done,
        stage_after(PublishStage::Core, false) == PublishStage::Failed,
        stage_after(PublishStage::Done, succeeded) == PublishStage::Done,
        stage_after(PublishStage::Failed, succeeded) == PublishStage::Failed,
{
}

/// A message is delivered where it is said, and as the line that carries it:
/// into the mailbox that is named, into the surface that is named, and to the
/// standard output for whatever names neither.
pub proof fn messages_are_delivered_where_said(
    d: LocalDelivery,
    delivery: Seq<char>,
    name: Seq<char>,
    e: EnvelopeView,
)
    requires
        delivers(d, delivery, e),
    ensures
        delivery == "file:"@ + name ==> (d matches LocalDelivery::Mailbox(mailbox) && mailbox@
            == name),
        delivery == "cmux:"@ + name ==> (d matches LocalDelivery::Surface { id, text } && id@ == name
            && text@ == encoded(e)),
        !has_prefix(delivery, "file:"@) && !has_prefix(delivery, "cmux:"@) ==> (
        d matches LocalDelivery::Print(line) && line@ == encoded(e)),
{
    reveal_strlit("file:");
    reveal_strlit("cmux:");
    prefixes_and_rests_make_the_text(delivery, "file:"@, name);
    prefixes_and_rests_make_the_text(delivery, "cmux:"@, name);
    if delivery == "cmux:"@ + name {
        assert(delivery[0] == 'c');
        if has_prefix(delivery, "file:"@) {
            assert(delivery.take("file:"@.len() as int)[0] == 'f');
        }
    }
}

/// Only a surface needs a pause, of a second and a half.
pub proof fn only_surfaces_need_a_pause(delivery: Seq<char>, name: Seq<char>)
    ensures
        pace("cmux:"@ + name) == 1500,
        !has_prefix(delivery, "cmux:"@) ==> pace(delivery) == 0,
{
    prefixes_and_rests_make_the_text("cmux:"@ + name, "cmux:"@, name);
}

/// A stream keeps messages for a week, and fifty megabytes of them.
pub proof fn streams_keep_messages_for_a_week()
    ensures
        STREAM_MAX_AGE_SECS == 7 * 24 * 60 * 60,
        STREAM_MAX_BYTES == 50 * 1024 * 1024,
{
}

} // verus!

//! The command line: who sends, what is sent to whom, and what is shown.

use vstd::prelude::*;
use vstd::string::StringExecFns;

use crate::backend::{surface_views, Surface, SurfaceView};
use crate::command::{args_of, push_arg};
use crate::json::{
    distinct_keys, json_quote, lemma_lookup, lookup, members_view, object_at, pretty_text,
    quoted_members, read_object, read_string, string_at, write_pretty,
};
use crate::log::{extract_messages, extracted, format_message, formatted, messages};
use crate::number::{decimal, decimal_of};
use crate::pieces::{
    comma_list, last_of, lines, lines_of, replace, replace_char, trim, trimmed, trimmed_pieces,
};
use crate::protocol::{
    messages_are_writable, writable, Envelope, EnvelopeView, KindView, MessageKind,
};
use crate::registry::{entry_views, AgentEntry, EntryView};
use crate::resolve::{target_text, Target, TargetView};
use crate::text::{chars_of, opt_view, same, views};

verus! {

/// The view of an optional text.
pub open spec fn opt_str(o: Option<&str>) -> Option<Seq<char>> {
    match o {
        Some(s) => Some(s@),
        None => None,
    }
}

// ---------------------------------------------------------------------------
// Names of panes
// ---------------------------------------------------------------------------

/// The strings that the members of an object hold, where all of them do.
pub open spec fn string_members(m: Seq<(Seq<char>, Seq<char>)>) -> Option<
    Seq<(Seq<char>, Seq<char>)>,
>
    decreases m.len(),
{
    if m.len() == 0 {
        Some(Seq::empty())
    } else {
        match (string_members(m.drop_last()), string_at(m.last().1)) {
            (Some(before), Some(s)) => Some(before.push((m.last().0, s))),
            _ => None,
        }
    }
}

/// The panes by their names, as a file holds them: none where it holds anything
/// else than names.
pub open spec fn names_in(text: Seq<char>) -> Seq<(Seq<char>, Seq<char>)> {
    match object_at(text) {
        Some(m) => match string_members(m) {
            Some(names) => names,
            None => Seq::empty(),
        },
        None => Seq::empty(),
    }
}

/// The panes by their names, as a file holds them. Names that were written are
/// read as they were.
#[verifier::loop_isolation(false)]
pub fn load_names(text: &str) -> (r: Vec<(String, String)>)
    ensures
        members_view(r@) == names_in(text@),
        distinct_keys(members_view(r@)),
        forall|names: Seq<(Seq<char>, Seq<char>)>|
            distinct_keys(names) && text@ == #[trigger] pretty_text(names) ==> members_view(r@)
                == names,
{
    let mut out: Vec<(String, String)> = Vec::new();
    assert(members_view(out@) =~= Seq::<(Seq<char>, Seq<char>)>::empty());
    let m = match read_object(text) {
        Some(m) => m,
        None => {
            return out;
        },
    };
    let ghost all = members_view(m@);
    let mut i: usize = 0;
    assert(all.take(0) =~= Seq::<(Seq<char>, Seq<char>)>::empty());
    while i < m.len()
        invariant
            i <= m@.len(),
            string_members(all.take(i as int)) == Some(members_view(out@)),
            out@.len() == i,
            forall|k: int| 0 <= k < i ==> (#[trigger] members_view(out@)[k]).0 == all[k].0,
            forall|names: Seq<(Seq<char>, Seq<char>)>|
                all == #[trigger] quoted_members(names) ==> members_view(out@) == names.take(
                    i as int,
                ),
        decreases m@.len() - i,
    {
        assert(all.take(i + 1).drop_last() =~= all.take(i as int));
        assert(all.take(i + 1).last() == (m@[i as int].0@, m@[i as int].1@));
        let ghost before = members_view(out@);
        match read_string(m[i].1.as_str()) {
            Some(s) => {
                out.push((m[i].0.clone(), s));
                proof {
                    assert(members_view(out@) =~= before.push((all[i as int].0, s@)));
                    assert forall|names: Seq<(Seq<char>, Seq<char>)>|
                        all == #[trigger] quoted_members(names) implies members_view(out@)
                        == names.take(i + 1) by {
                        assert(all[i as int] == (names[i as int].0, json_quote(names[i as int].1)));
                        assert(members_view(out@) =~= names.take(i + 1));
                    }
                }
            },
            None => {
                let none: Vec<(String, String)> = Vec::new();
                proof {
                    lemma_not_all_strings(all, i as int);
                    assert forall|names: Seq<(Seq<char>, Seq<char>)>|
                        all == #[trigger] quoted_members(names) implies false by {
                        assert(all[i as int] == (names[i as int].0, json_quote(names[i as int].1)));
                    }
                    assert(members_view(none@) =~= Seq::<(Seq<char>, Seq<char>)>::empty());
                }
                return none;
            },
        }
        i = i + 1;
    }
    proof {
        assert(all.take(i as int) =~= all);
        let got = members_view(out@);
        assert forall|a: int, b: int| 0 <= a < b < got.len() implies #[trigger] got[a].0
            != #[trigger] got[b].0 by {
            assert(all[a].0 != all[b].0);
        }
        assert forall|names: Seq<(Seq<char>, Seq<char>)>|
            all == #[trigger] quoted_members(names) implies got == names by {
            assert(names.take(i as int) =~= names);
        }
    }
    out
}

proof fn lemma_not_all_strings(m: Seq<(Seq<char>, Seq<char>)>, i: int)
    requires
        0 <= i < m.len(),
        string_at(m[i].1) is None,
    ensures
        string_members(m) is None,
    decreases m.len(),
{
    if i < m.len() - 1 {
        assert(m.drop_last()[i] == m[i]);
        lemma_not_all_strings(m.drop_last(), i);
    }
}

/// The first place of a name.
pub open spec fn name_place(names: Seq<(Seq<char>, Seq<char>)>, name: Seq<char>) -> int
    decreases names.len(),
{
    if names.len() == 0 {
        0
    } else if names[0].0 == name {
        0
    } else {
        1 + name_place(names.skip(1), name)
    }
}

/// The names with one more, or with another pane for it where it is there.
pub open spec fn with_name(
    names: Seq<(Seq<char>, Seq<char>)>,
    name: Seq<char>,
    id: Seq<char>,
) -> Seq<(Seq<char>, Seq<char>)> {
    let i = name_place(names, name);
    if i < names.len() {
        names.update(i, (name, id))
    } else {
        names.push((name, id))
    }
}

proof fn lemma_name_place(names: Seq<(Seq<char>, Seq<char>)>, name: Seq<char>, i: int)
    requires
        0 <= i <= names.len(),
        forall|k: int| 0 <= k < i ==> (#[trigger] names[k]).0 != name,
        i < names.len() ==> names[i].0 == name,
    ensures
        name_place(names, name) == i,
    decreases names.len(),
{
    if names.len() > 0 && names[0].0 != name {
        assert forall|k: int| 0 <= k < i - 1 implies (#[trigger] names.skip(1)[k]).0 != name by {
            assert(names.skip(1)[k] == names[k + 1]);
        }
        lemma_name_place(names.skip(1), name, i - 1);
    }
}

proof fn lemma_name_place_bounds(names: Seq<(Seq<char>, Seq<char>)>, name: Seq<char>)
    ensures
        0 <= name_place(names, name) <= names.len(),
        forall|k: int| 0 <= k < name_place(names, name) ==> (#[trigger] names[k]).0 != name,
        name_place(names, name) < names.len() ==> names[name_place(names, name)].0 == name,
    decreases names.len(),
{
    if names.len() > 0 && names[0].0 != name {
        let rest = names.skip(1);
        lemma_name_place_bounds(rest, name);
        assert forall|k: int| 0 <= k < name_place(names, name) implies (#[trigger] names[k]).0
            != name by {
            if k > 0 {
                assert(names[k] == rest[k - 1]);
            }
        }
    }
}

/// Gives a pane a name.
#[verifier::loop_isolation(false)]
pub fn save_name(names: &mut Vec<(String, String)>, name: &str, id: &str)
    ensures
        members_view(final(names)@) == with_name(members_view(old(names)@), name@, id@),
{
    let ghost all = members_view(names@);
    let mut i: usize = 0;
    while i < names.len()
        invariant
            members_view(names@) == all,
            i <= names@.len(),
            forall|k: int| 0 <= k < i ==> (#[trigger] all[k]).0 != name@,
        decreases names@.len() - i,
    {
        if same(names[i].0.as_str(), name) {
            proof {
                assert(all[i as int].0 == name@);
                lemma_name_place(all, name@, i as int);
            }
            names.set(i, (name.to_owned(), id.to_owned()));
            assert(members_view(names@) =~= with_name(all, name@, id@));
            return;
        }
        i = i + 1;
    }
    proof {
        lemma_name_place(all, name@, i as int);
    }
    names.push((name.to_owned(), id.to_owned()));
    assert(members_view(names@) =~= with_name(all, name@, id@));
}

proof fn lemma_with_name_distinct(
    names: Seq<(Seq<char>, Seq<char>)>,
    name: Seq<char>,
    id: Seq<char>,
)
    requires
        distinct_keys(names),
    ensures
        distinct_keys(with_name(names, name, id)),
{
    let after = with_name(names, name, id);
    let place = name_place(names, name);
    lemma_name_place_bounds(names, name);
    assert forall|a: int, b: int| 0 <= a < b < after.len() implies #[trigger] after[a].0
        != #[trigger] after[b].0 by {
        if a < names.len() && b < names.len() {
            assert(names[a].0 != names[b].0);
        } else {
            assert(names[a].0 != name);
        }
    }
}

/// The text of the file of names after a pane was given a name, from its text
/// before. [`load_names`] reads it as it was written.
pub fn saved_names(text: &str, name: &str, id: &str) -> (r: String)
    ensures
        r@ == pretty_text(with_name(names_in(text@), name@, id@)),
        distinct_keys(with_name(names_in(text@), name@, id@)),
{
    let mut names = load_names(text);
    proof {
        lemma_with_name_distinct(members_view(names@), name@, id@);
    }
    save_name(&mut names, name, id);
    write_pretty(&names)
}

/// A name that was given stands for its pane, and every other name for what it
/// stood for.
pub proof fn saved_names_are_found(
    names: Seq<(Seq<char>, Seq<char>)>,
    name: Seq<char>,
    id: Seq<char>,
    other: Seq<char>,
)
    ensures
        lookup(with_name(names, name, id), name) == Some(id),
        other != name ==> lookup(with_name(names, name, id), other) == lookup(names, other),
{
    let i = name_place(names, name);
    let after = with_name(names, name, id);
    lemma_name_place_bounds(names, name);
    assert forall|k: int| 0 <= k < i implies (#[trigger] after[k]).0 != name by {
        assert(after[k] == names[k]);
    }
    lemma_lookup(after, name, i);
    if other != name {
        let j = name_place(names, other);
        lemma_name_place_bounds(names, other);
        lemma_lookup(names, other, j);
        assert forall|k: int| 0 <= k < j implies (#[trigger] after[k]).0 != other by {
            if k != i {
                assert(after[k] == names[k]);
            }
        }
        if j < names.len() {
            assert(after[j] == names[j]);
            lemma_lookup(after, other, j);
        } else {
            assert forall|k: int| 0 <= k < after.len() implies (#[trigger] after[k]).0 != other by {
                if k < names.len() && k != i {
                    assert(after[k] == names[k]);
                }
            }
            lemma_lookup(after, other, after.len() as int);
        }
    }
}

// ---------------------------------------------------------------------------
// Who sends
// ---------------------------------------------------------------------------

/// The own pane: a surface, or else a pane of Zellij.
pub fn own_id(surface: Option<String>, zellij_pane: Option<String>) -> (r: Option<String>)
    ensures
        opt_view(r) == (match (surface, zellij_pane) {
            (Some(s), _) => Some(s@),
            (None, Some(z)) => Some("terminal_"@ + z@),
            (None, None) => None,
        }),
{
    match surface {
        Some(s) => Some(s),
        None => match zellij_pane {
            Some(z) => Some("terminal_".to_owned().concat(z.as_str())),
            None => None,
        },
    }
}

/// The first name of a pane.
pub open spec fn name_of(names: Seq<(Seq<char>, Seq<char>)>, id: Seq<char>) -> Option<Seq<char>>
    decreases names.len(),
{
    if names.len() == 0 {
        None
    } else if names[0].1 == id {
        Some(names[0].0)
    } else {
        name_of(names.skip(1), id)
    }
}

/// The first name of a pane.
#[verifier::loop_isolation(false)]
pub fn find_name(names: &Vec<(String, String)>, id: &str) -> (r: Option<String>)
    ensures
        opt_view(r) == name_of(members_view(names@), id@),
{
    let ghost all = members_view(names@);
    let mut i: usize = 0;
    assert(all.skip(0) =~= all);
    while i < names.len()
        invariant
            i <= names@.len(),
            name_of(all, id@) == name_of(all.skip(i as int), id@),
        decreases names@.len() - i,
    {
        assert(all.skip(i as int)[0] == all[i as int]);
        assert(all.skip(i as int).skip(1) =~= all.skip(i + 1));
        if same(names[i].1.as_str(), id) {
            return Some(names[i].0.clone());
        }
        i = i + 1;
    }
    None
}

/// Who a message comes from: who is named, else the name of the agent, else the
/// name of the own pane, else the own pane itself.
pub open spec fn sender(
    from: Option<Seq<char>>,
    agent_name: Option<Seq<char>>,
    own: Option<Seq<char>>,
    names: Seq<(Seq<char>, Seq<char>)>,
) -> Seq<char> {
    match (from, agent_name, own) {
        (Some(f), _, _) => f,
        (None, Some(a), _) => a,
        (None, None, Some(id)) => match name_of(names, id) {
            Some(n) => n,
            None => id,
        },
        (None, None, None) => "unknown"@,
    }
}

/// Who a message comes from.
pub fn sender_id(
    from: Option<&str>,
    agent_name: Option<&str>,
    own: Option<&str>,
    names: &Vec<(String, String)>,
) -> (r: String)
    ensures
        r@ == sender(opt_str(from), opt_str(agent_name), opt_str(own), members_view(names@)),
{
    match from {
        Some(f) => f.to_owned(),
        None => match agent_name {
            Some(a) => a.to_owned(),
            None => match own {
                Some(id) => match find_name(names, id) {
                    Some(n) => n,
                    None => id.to_owned(),
                },
                None => "unknown".to_owned(),
            },
        },
    }
}

// ---------------------------------------------------------------------------
// Sending
// ---------------------------------------------------------------------------

/// A message that is ready to be sent.
#[derive(Debug)]
pub enum SendPlan {
    /// Type this text into a surface as it is.
    Raw { surface: String, text: String },
    /// Send this envelope to the target.
    Message(Envelope),
}

/// The envelope of a message to a target.
pub open spec fn addressed(
    id: Seq<char>,
    ts: u64,
    from: Seq<char>,
    target: TargetView,
    text: Seq<char>,
    reference: Option<Seq<char>>,
) -> EnvelopeView {
    EnvelopeView {
        id,
        from,
        to: Some(target_text(target)),
        reference,
        kind: KindView::Chat(text),
        ts: ts as nat,
    }
}

/// What sending a message comes to. A plain text can only be typed into a
/// surface, and nobody answers it.
pub fn plan_send(
    target: &Target,
    text: &str,
    raw: bool,
    waits: bool,
    from: &str,
    reference: Option<String>,
    id: String,
    ts: u64,
) -> (r: Result<SendPlan, String>)
    ensures
        match (raw, waits, target@) {
            (true, true, _) => r matches Err(why) && why@
                == "--wait requires protocol mode (cannot use with --raw)"@,
            (true, false, TargetView::Cmux(surface_id)) => r matches Ok(
                SendPlan::Raw { surface, text: typed },
            ) && surface@ == surface_id && typed@ == text@,
            (true, false, _) => r matches Err(why) && why@ == "--raw only works with cmux targets"@,
            (false, _, _) => r matches Ok(SendPlan::Message(e)) && e@ == addressed(
                id@,
                ts,
                from@,
                target@,
                text@,
                opt_view(reference),
            ),
        },
        r matches Ok(SendPlan::Message(e)) ==> {
            &&& e@.id == id@
            &&& e@.from == from@
            &&& e@.to == Some(
                match target@ {
                    TargetView::Cmux(s) => s,
                    TargetView::File(s) => s,
                    TargetView::Http(s) => s,
                    TargetView::Nats(s) => s,
                },
            )
            &&& e@.reference == opt_view(reference)
            &&& e@.kind == KindView::Chat(text@)
            &&& e@.ts == ts
        },
{
    if raw {
        if waits {
            return Err("--wait requires protocol mode (cannot use with --raw)".to_owned());
        }
        match target {
            Target::Cmux(surface) => Ok(
                SendPlan::Raw { surface: surface.clone(), text: text.to_owned() },
            ),
            _ => Err("--raw only works with cmux targets".to_owned()),
        }
    } else {
        let to = target.id();
        let e = Envelope::chat(id, ts, from, text).with_to(to.as_str()).maybe_with_ref(reference);
        Ok(SendPlan::Message(e))
    }
}

/// A message that is planned is what the user gave: to the text that the target
/// is known by, from the sender, with the whole text, and as an answer to what
/// the user refers to, and to nothing where the user refers to nothing. It
/// answers itself only where the user says so. It can be read back, whatever it
/// holds.
pub proof fn planned_message_is_the_one_given(
    id: Seq<char>,
    ts: u64,
    from: Seq<char>,
    target: TargetView,
    text: Seq<char>,
    reference: Option<Seq<char>>,
)
    ensures
        ({
            let e = addressed(id, ts, from, target, text, reference);
            &&& e.id == id
            &&& e.from == from
            &&& e.to == Some(
                match target {
                    TargetView::Cmux(surface) => surface,
                    TargetView::File(name) => name,
                    TargetView::Http(address) => address,
                    TargetView::Nats(name) => name,
                },
            )
            &&& e.kind == KindView::Chat(text)
            &&& e.ts == ts
            &&& reference is None ==> e.reference is None
            &&& reference matches Some(other) ==> e.reference == Some(other)
            &&& e.reference == Some(e.id) ==> reference == Some(id)
            &&& writable(e)
        }),
{
    messages_are_writable(addressed(id, ts, from, target, text, reference));
}

/// The surfaces that a message to all goes to: all but the own.
pub open spec fn others(peers: Seq<Seq<char>>, own: Option<Seq<char>>) -> Seq<Seq<char>>
    decreases peers.len(),
{
    if peers.len() == 0 {
        Seq::empty()
    } else if own == Some(peers.last()) {
        others(peers.drop_last(), own)
    } else {
        others(peers.drop_last(), own).push(peers.last())
    }
}

/// The surfaces that a message to all goes to.
#[verifier::loop_isolation(false)]
pub fn broadcast_peers(peers: &Vec<String>, own: Option<&str>) -> (r: Vec<String>)
    ensures
        views(r@) == others(views(peers@), opt_str(own)),
{
    let ghost all = views(peers@);
    let mut out: Vec<String> = Vec::new();
    let mut i: usize = 0;
    assert(views(out@) =~= others(all.take(0), opt_str(own)));
    while i < peers.len()
        invariant
            i <= peers@.len(),
            views(out@) == others(all.take(i as int), opt_str(own)),
        decreases peers@.len() - i,
    {
        assert(all.take(i + 1).drop_last() =~= all.take(i as int));
        assert(all.take(i + 1).last() == peers@[i as int]@);
        let mine = match own {
            Some(o) => same(o, peers[i].as_str()),
            None => false,
        };
        if !mine {
            push_arg(&mut out, peers[i].as_str());
        }
        i = i + 1;
    }
    assert(all.take(i as int) =~= all);
    out
}

/// A message to all goes to every surface but the own.
pub proof fn broadcast_spares_only_the_sender(peers: Seq<Seq<char>>, own: Option<Seq<char>>)
    ensures
        forall|i: int|
            0 <= i < peers.len() && own != Some(#[trigger] peers[i]) ==> others(peers, own).contains(
                peers[i],
            ),
        own matches Some(o) ==> !others(peers, own).contains(o),
    decreases peers.len(),
{
    if peers.len() > 0 {
        let rest = peers.drop_last();
        broadcast_spares_only_the_sender(rest, own);
        let before = others(rest, own);
        let now = others(peers, own);
        assert forall|i: int|
            0 <= i < peers.len() && own != Some(#[trigger] peers[i]) implies now.contains(
            peers[i],
        ) by {
            if i < rest.len() {
                assert(rest[i] == peers[i]);
                assert(before.contains(rest[i]));
                let k = before.index_of(rest[i]);
                assert(now[k] == before[k]);
            } else {
                assert(now[now.len() - 1] == peers[i]);
            }
        }
        if let Some(o) = own {
            if now.contains(o) {
                let k = now.index_of(o);
                if k < before.len() {
                    assert(before[k] == o);
                }
            }
        }
    }
}

// ---------------------------------------------------------------------------
// Replies
// ---------------------------------------------------------------------------

/// The last of several messages that answers the message `id`.
pub open spec fn last_reply(s: Seq<EnvelopeView>, id: Seq<char>) -> Option<EnvelopeView>
    decreases s.len(),
{
    if s.len() == 0 {
        None
    } else if s.last().reference == Some(id) {
        Some(s.last())
    } else {
        last_reply(s.drop_last(), id)
    }
}

/// Whether a message answers the message `id`.
fn is_answer(e: &Envelope, id: &str) -> (r: bool)
    ensures
        r == (e@.reference == Some(id@)),
{
    match &e.reference {
        Some(s) => same(s.as_str(), id),
        None => false,
    }
}

/// The last of several messages that answers the message `id`.
#[verifier::loop_isolation(false)]
pub fn find_reply(all: &Vec<Envelope>, id: &str) -> (r: Option<Envelope>)
    ensures
        match r {
            Some(e) => last_reply(messages(all@), id@) == Some(e@),
            None => last_reply(messages(all@), id@) is None,
        },
{
    let ghost s = messages(all@);
    let mut i: usize = all.len();
    assert(s.take(i as int) =~= s);
    while i > 0
        invariant
            i <= all@.len(),
            last_reply(s, id@) == last_reply(s.take(i as int), id@),
        decreases i,
    {
        i = i - 1;
        assert(s.take(i + 1).drop_last() =~= s.take(i as int));
        assert(s.take(i + 1).last() == all@[i as int]@);
        if is_answer(&all[i], id) {
            return Some(all[i].copy());
        }
    }
    None
}

/// What is said when nothing came in time.
pub open spec fn timeout_text(timeout_secs: u64, what: Seq<char>, whom: Seq<char>) -> Seq<char> {
    "timeout ("@ + decimal(timeout_secs as nat) + "s) — "@ + what + whom
}

fn timeout_of(timeout_secs: u64, what: &str, whom: &str) -> (r: String)
    ensures
        r@ == timeout_text(timeout_secs, what@, whom@),
{
    "timeout (".to_owned().concat(decimal_of(timeout_secs).as_str()).concat("s) — ").concat(
        what,
    ).concat(whom)
}

/// The pause between two looks for a reply, in milliseconds.
pub const REPLY_PAUSE_MS: u64 = 250;

/// The pause between two looks for the answer to a ping, in milliseconds.
pub const PONG_PAUSE_MS: u64 = 100;

/// What follows a look for an answer.
#[derive(Debug)]
pub enum AnswerStep {
    /// Nothing came in time. This is said of it.
    TimeOut(String),
    /// The answer is there, and shown by this line.
    Answer(String),
    /// Look again after a pause.
    LookAgain,
}

/// What follows a look for a reply to the message `id`: whether the time is up
/// comes first, and then whether the scrollback shows a reply.
pub fn wait_for_reply(time_is_up: bool, scrollback: &str, id: &str, timeout_secs: u64) -> (r:
    AnswerStep)
    ensures
        if time_is_up {
            r matches AnswerStep::TimeOut(why) && why@ == timeout_text(
                timeout_secs,
                "no reply to "@,
                id@,
            )
        } else {
            match last_reply(extracted(lines(scrollback@)), id@) {
                Some(e) => r matches AnswerStep::Answer(line) && line@ == formatted(e, None),
                None => r is LookAgain,
            }
        },
{
    if time_is_up {
        return AnswerStep::TimeOut(timeout_of(timeout_secs, "no reply to ", id));
    }
    let all = extract_messages(scrollback);
    match find_reply(&all, id) {
        Some(e) => AnswerStep::Answer(format_message(&e, None)),
        None => AnswerStep::LookAgain,
    }
}

/// Whether a message answers the ping `id`.
pub open spec fn is_pong(e: EnvelopeView, id: Seq<char>) -> bool {
    e.kind is Pong && e.reference == Some(id)
}

/// Whether several messages hold an answer to the ping `id`.
#[verifier::loop_isolation(false)]
pub fn has_pong(all: &Vec<Envelope>, id: &str) -> (r: bool)
    ensures
        r == holds_pong(messages(all@), id@),
{
    let mut i: usize = 0;
    while i < all.len()
        invariant
            i <= all@.len(),
            forall|k: int| 0 <= k < i ==> !is_pong((#[trigger] all@[k])@, id@),
        decreases all@.len() - i,
    {
        let pong = match all[i].kind {
            MessageKind::Pong => true,
            _ => false,
        };
        if pong && is_answer(&all[i], id) {
            assert(is_pong(messages(all@)[i as int], id@));
            return true;
        }
        i = i + 1;
    }
    assert forall|k: int| 0 <= k < messages(all@).len() implies !is_pong(
        #[trigger] messages(all@)[k],
        id@,
    ) by {
        assert(!is_pong(all@[k]@, id@));
    }
    false
}

// ---------------------------------------------------------------------------
// Showing
// ---------------------------------------------------------------------------

/// Whether several messages hold an answer to the ping `id`.
pub open spec fn holds_pong(s: Seq<EnvelopeView>, id: Seq<char>) -> bool {
    exists|i: int| 0 <= i < s.len() && is_pong(#[trigger] s[i], id)
}

/// What follows a look for the answer to the ping `id` of a pane: whether the
/// time is up comes first, and then whether the scrollback shows the answer.
/// How long it took is for the caller to add.
pub fn wait_for_pong(
    time_is_up: bool,
    scrollback: &str,
    id: &str,
    pane: &str,
    timeout_secs: u64,
) -> (r: AnswerStep)
    ensures
        if time_is_up {
            r matches AnswerStep::TimeOut(why) && why@ == timeout_text(
                timeout_secs,
                "no pong from "@,
                pane@,
            )
        } else if holds_pong(extracted(lines(scrollback@)), id@) {
            r matches AnswerStep::Answer(line) && line@ == "pong from "@ + pane@
        } else {
            r is LookAgain
        },
{
    if time_is_up {
        return AnswerStep::TimeOut(timeout_of(timeout_secs, "no pong from ", pane));
    }
    let all = extract_messages(scrollback);
    if has_pong(&all, id) {
        AnswerStep::Answer("pong from ".to_owned().concat(pane))
    } else {
        AnswerStep::LookAgain
    }
}

/// The lines that show messages.
pub open spec fn shown(s: Seq<EnvelopeView>, own: Option<Seq<char>>) -> Seq<Seq<char>> {
    s.map_values(|e: EnvelopeView| formatted(e, own))
}

/// The lines that show the last messages, all of them where there is no limit.
#[verifier::loop_isolation(false)]
pub fn show_last(all: &Vec<Envelope>, last: Option<usize>, own: Option<&str>) -> (r: Vec<String>)
    ensures
        views(r@) == shown(
            match last {
                Some(n) => last_of(messages(all@), n as nat),
                None => messages(all@),
            },
            opt_str(own),
        ),
{
    let from: usize = match last {
        Some(n) => {
            if all.len() <= n {
                0
            } else {
                all.len() - n
            }
        },
        None => 0,
    };
    let ghost wanted = match last {
        Some(n) => last_of(messages(all@), n as nat),
        None => messages(all@),
    };
    assert(wanted =~= messages(all@).skip(from as int));
    let mut out: Vec<String> = Vec::new();
    let mut i: usize = from;
    while i < all.len()
        invariant
            from <= i <= all@.len(),
            out@.len() == i - from,
            forall|k: int|
                0 <= k < i - from ==> (#[trigger] out@[k])@ == formatted(wanted[k], opt_str(own)),
        decreases all@.len() - i,
    {
        assert(wanted[i - from] == all@[i as int]@);
        out.push(format_message(&all[i], own));
        i = i + 1;
    }
    assert(views(out@) =~= shown(wanted, opt_str(own)));
    out
}

/// The last lines of a text, all of them where there are fewer.
#[verifier::loop_isolation(false)]
pub fn last_lines(text: &str, n: usize) -> (r: Vec<String>)
    ensures
        views(r@) == last_of(lines(text@), n as nat),
{
    let rows = lines_of(text);
    let from: usize = if rows.len() <= n {
        0
    } else {
        rows.len() - n
    };
    let ghost wanted = views(rows@).skip(from as int);
    assert(views(rows@).len() == rows@.len());
    assert(wanted =~= last_of(lines(text@), n as nat));
    let mut out: Vec<String> = Vec::new();
    let mut i: usize = from;
    while i < rows.len()
        invariant
            from <= i <= rows@.len(),
            out@.len() == i - from,
            forall|k: int| 0 <= k < i - from ==> (#[trigger] out@[k])@ == wanted[k],
        decreases rows@.len() - i,
    {
        out.push(rows[i].clone());
        i = i + 1;
    }
    assert(views(out@) =~= wanted);
    out
}

/// What is shown of an agent whose messages are gathered: a line for each of
/// the last messages, behind the name of the agent.
pub open spec fn gathered(
    pane: Seq<char>,
    all: Seq<EnvelopeView>,
    last: nat,
    own: Option<Seq<char>>,
) -> Seq<Seq<char>> {
    if all.len() == 0 {
        seq![pane + "  (no messages)"@]
    } else {
        shown(last_of(all, last), own).map_values(|row: Seq<char>| pane + "  "@ + row)
    }
}

/// What is shown of an agent whose messages are gathered.
#[verifier::loop_isolation(false)]
pub fn gather(pane: &str, all: &Vec<Envelope>, last: usize, own: Option<&str>) -> (r: Vec<String>)
    ensures
        views(r@) == gathered(pane@, messages(all@), last as nat, opt_str(own)),
{
    let mut out: Vec<String> = Vec::new();
    if all.len() == 0 {
        let line = pane.to_owned().concat("  (no messages)");
        out.push(line);
        assert(views(out@) =~= seq![line@]);
        return out;
    }
    let rows = show_last(all, Some(last), own);
    let ghost wanted = shown(last_of(messages(all@), last as nat), opt_str(own));
    let mut i: usize = 0;
    while i < rows.len()
        invariant
            i <= rows@.len(),
            out@.len() == i,
            forall|k: int| 0 <= k < i ==> (#[trigger] out@[k])@ == pane@ + "  "@ + wanted[k],
        decreases rows@.len() - i,
    {
        assert(views(rows@)[i as int] == wanted[i as int]);
        out.push(pane.to_owned().concat("  ").concat(rows[i].as_str()));
        i = i + 1;
    }
    assert(views(rows@).len() == rows@.len());
    assert(views(out@) =~= gathered(pane@, messages(all@), last as nat, opt_str(own)));
    out
}

// ---------------------------------------------------------------------------
// The list of agents
// ---------------------------------------------------------------------------

/// So many spaces.
pub open spec fn spaces(n: int) -> Seq<char>
    decreases n,
{
    if n <= 0 {
        Seq::empty()
    } else {
        spaces(n - 1).push(' ')
    }
}

/// A text with spaces behind it, up to a width in characters.
pub open spec fn padded(s: Seq<char>, width: nat) -> Seq<char> {
    s + spaces(width - s.len())
}

/// A text with spaces behind it, up to a width in characters.
#[verifier::loop_isolation(false)]
pub fn pad(s: &str, width: usize) -> (r: String)
    ensures
        r@ == padded(s@, width as nat),
{
    let n: usize = chars_of(s).len();
    let mut out = s.to_owned();
    let mut i: usize = n;
    assert(out@ =~= s@ + spaces(0));
    while i < width
        invariant
            n <= i,
            i <= width || i == n,
            out@ =~= s@ + spaces(i - n),
        decreases width - i,
    {
        out.push(' ');
        i = i + 1;
    }
    assert(width < n ==> spaces(width - n) =~= spaces(0));
    out
}

/// A line of the list.
pub open spec fn row_text(name: Seq<char>, id: Seq<char>, title: Seq<char>, kind: Seq<char>) -> Seq<
    char,
> {
    padded(name, 18) + " "@ + padded(id, 38) + " "@ + padded(title, 20) + " "@ + padded(kind, 8)
}

/// A line of the list.
pub fn row(name: &str, id: &str, title: &str, kind: &str) -> (r: String)
    ensures
        r@ == row_text(name@, id@, title@, kind@),
{
    pad(name, 18).concat(" ").concat(pad(id, 38).as_str()).concat(" ").concat(
        pad(title, 20).as_str(),
    ).concat(" ").concat(pad(kind, 8).as_str())
}

/// What marks the own line.
pub open spec fn me(own: Option<Seq<char>>, id: Seq<char>) -> Seq<char> {
    if own == Some(id) {
        " (me)"@
    } else {
        ""@
    }
}

fn me_of(own: Option<&str>, id: &str) -> (r: &'static str)
    ensures
        r@ == me(opt_str(own), id@),
{
    match own {
        Some(o) => {
            if same(o, id) {
                " (me)"
            } else {
                ""
            }
        },
        None => "",
    }
}

/// The last name of a pane.
pub open spec fn last_name_of(names: Seq<(Seq<char>, Seq<char>)>, id: Seq<char>) -> Option<
    Seq<char>,
>
    decreases names.len(),
{
    if names.len() == 0 {
        None
    } else if names.last().1 == id {
        Some(names.last().0)
    } else {
        last_name_of(names.drop_last(), id)
    }
}

#[verifier::loop_isolation(false)]
fn find_last_name(names: &Vec<(String, String)>, id: &str) -> (r: Option<String>)
    ensures
        opt_view(r) == last_name_of(members_view(names@), id@),
{
    let ghost all = members_view(names@);
    let mut i: usize = names.len();
    assert(all.take(i as int) =~= all);
    while i > 0
        invariant
            i <= names@.len(),
            last_name_of(all, id@) == last_name_of(all.take(i as int), id@),
        decreases i,
    {
        i = i - 1;
        assert(all.take(i + 1).drop_last() =~= all.take(i as int));
        assert(all.take(i + 1).last() == all[i as int]);
        if same(names[i].1.as_str(), id) {
            return Some(names[i].0.clone());
        }
    }
    None
}

/// The line of a surface.
pub open spec fn surface_row(
    s: SurfaceView,
    names: Seq<(Seq<char>, Seq<char>)>,
    own: Option<Seq<char>>,
) -> Seq<char> {
    row_text(
        match last_name_of(names, s.id) {
            Some(n) => n,
            None => "-"@,
        },
        s.id,
        if s.title.len() == 0 {
            "-"@
        } else {
            s.title
        },
        s.surface_type,
    ) + me(own, s.id)
}

/// The lines of the surfaces.
#[verifier::loop_isolation(false)]
pub fn surface_rows(surfaces: &Vec<Surface>, names: &Vec<(String, String)>, own: Option<&str>) -> (r:
    Vec<String>)
    ensures
        views(r@) == surface_views(surfaces@).map_values(
            |s: SurfaceView| surface_row(s, members_view(names@), opt_str(own)),
        ),
{
    let mut out: Vec<String> = Vec::new();
    let mut i: usize = 0;
    while i < surfaces.len()
        invariant
            i <= surfaces@.len(),
            out@.len() == i,
            forall|k: int|
                0 <= k < i ==> (#[trigger] out@[k])@ == surface_row(
                    surfaces@[k]@,
                    members_view(names@),
                    opt_str(own),
                ),
        decreases surfaces@.len() - i,
    {
        let s = &surfaces[i];
        let name = match find_last_name(names, s.id.as_str()) {
            Some(n) => n,
            None => "-".to_owned(),
        };
        let title = if s.title.as_str().is_empty() {
            "-"
        } else {
            s.title.as_str()
        };
        out.push(
            row(name.as_str(), s.id.as_str(), title, s.surface_type.as_str()).concat(
                me_of(own, s.id.as_str()),
            ),
        );
        i = i + 1;
    }
    assert(views(out@) =~= surface_views(surfaces@).map_values(
        |s: SurfaceView| surface_row(s, members_view(names@), opt_str(own)),
    ));
    out
}

/// The line of an agent of the local directory.
pub open spec fn agent_row(e: EntryView, own_name: Option<Seq<char>>) -> Seq<char> {
    row_text(e.name, e.id, e.transport, "agent"@) + me(own_name, e.name)
}

/// The lines of the agents of the local directory.
#[verifier::loop_isolation(false)]
pub fn agent_rows(agents: &Vec<AgentEntry>, own_name: Option<&str>) -> (r: Vec<String>)
    ensures
        views(r@) == entry_views(agents@).map_values(
            |e: EntryView| agent_row(e, opt_str(own_name)),
        ),
{
    let mut out: Vec<String> = Vec::new();
    let mut i: usize = 0;
    while i < agents.len()
        invariant
            i <= agents@.len(),
            out@.len() == i,
            forall|k: int|
                0 <= k < i ==> (#[trigger] out@[k])@ == agent_row(agents@[k]@, opt_str(own_name)),
        decreases agents@.len() - i,
    {
        let a = &agents[i];
        out.push(
            row(a.name.as_str(), a.id.as_str(), a.transport.as_str(), "agent").concat(
                me_of(own_name, a.name.as_str()),
            ),
        );
        i = i + 1;
    }
    assert(views(out@) =~= entry_views(agents@).map_values(
        |e: EntryView| agent_row(e, opt_str(own_name)),
    ));
    out
}

/// Whether a list of agents holds one with the given name.
pub open spec fn has_agent(agents: Seq<EntryView>, name: Seq<char>) -> bool {
    exists|i: int| 0 <= i < agents.len() && (#[trigger] agents[i]).name == name
}

#[verifier::loop_isolation(false)]
fn holds_agent(agents: &Vec<AgentEntry>, name: &str) -> (r: bool)
    ensures
        r == has_agent(entry_views(agents@), name@),
{
    let ghost all = entry_views(agents@);
    let mut i: usize = 0;
    while i < agents.len()
        invariant
            i <= agents@.len(),
            forall|k: int| 0 <= k < i ==> (#[trigger] all[k]).name != name@,
        decreases agents@.len() - i,
    {
        if same(agents[i].name.as_str(), name) {
            assert(all[i as int].name == name@);
            return true;
        }
        i = i + 1;
    }
    false
}

/// The lines of those agents of the shared directory that the local one does
/// not hold.
pub open spec fn shared_rows(found: Seq<EntryView>, local: Seq<EntryView>) -> Seq<Seq<char>>
    decreases found.len(),
{
    if found.len() == 0 {
        Seq::empty()
    } else {
        let before = shared_rows(found.drop_last(), local);
        let e = found.last();
        if has_agent(local, e.name) {
            before
        } else {
            before.push(row_text(e.name, e.id, e.transport, "agent"@) + " (nats)"@)
        }
    }
}

/// The lines of those agents of the shared directory that the local one does
/// not hold.
#[verifier::loop_isolation(false)]
pub fn nats_rows(found: &Vec<AgentEntry>, local: &Vec<AgentEntry>) -> (r: Vec<String>)
    ensures
        views(r@) == shared_rows(entry_views(found@), entry_views(local@)),
{
    let ghost all = entry_views(found@);
    let mut out: Vec<String> = Vec::new();
    let mut i: usize = 0;
    assert(views(out@) =~= shared_rows(all.take(0), entry_views(local@)));
    while i < found.len()
        invariant
            i <= found@.len(),
            views(out@) == shared_rows(all.take(i as int), entry_views(local@)),
        decreases found@.len() - i,
    {
        assert(all.take(i + 1).drop_last() =~= all.take(i as int));
        assert(all.take(i + 1).last() == found@[i as int]@);
        let a = &found[i];
        if !holds_agent(local, a.name.as_str()) {
            let line = row(a.name.as_str(), a.id.as_str(), a.transport.as_str(), "agent").concat(
                " (nats)",
            );
            push_arg(&mut out, line.as_str());
        }
        i = i + 1;
    }
    assert(all.take(i as int) =~= all);
    out
}

/// Every agent is listed once by its name: those of the shared directory only
/// where the local one has no agent of that name.
pub proof fn known_agents_are_listed_once(
    found: Seq<EntryView>,
    local: Seq<EntryView>,
)
    requires
        forall|i: int| 0 <= i < found.len() ==> has_agent(local, (#[trigger] found[i]).name),
    ensures
        shared_rows(found, local).len() == 0,
    decreases found.len(),
{
    if found.len() > 0 {
        let rest = found.drop_last();
        assert forall|i: int| 0 <= i < rest.len() implies has_agent(
            local,
            (#[trigger] rest[i]).name,
        ) by {
            assert(found[i] == rest[i]);
        }
        assert(has_agent(local, found[found.len() - 1].name));
        known_agents_are_listed_once(rest, local);
    }
}

// ---------------------------------------------------------------------------
// Registering and starting agents
// ---------------------------------------------------------------------------

/// The entry of an agent that registers itself: what it does not say is taken
/// from its name.
pub fn entry_to_register(
    name: &str,
    transport: &str,
    endpoint: Option<&str>,
    caps: Option<&str>,
    surface: Option<&str>,
    now_ms: u64,
) -> (r: AgentEntry)
    ensures
        r@ == (EntryView {
            name: name@,
            id: match surface {
                Some(s) => s@,
                None => name@,
            },
            transport: transport@,
            endpoint: match endpoint {
                Some(e) => e@,
                None => name@,
            },
            capabilities: match caps {
                Some(c) => trimmed_pieces(c@),
                None => Seq::empty(),
            },
            permanent: false,
            registered_at: now_ms,
            last_seen: now_ms,
        }),
{
    let endpoint = match endpoint {
        Some(e) => e,
        None => name,
    };
    let id = match surface {
        Some(s) => s,
        None => name,
    };
    let capabilities: Vec<String> = match caps {
        Some(c) => comma_list(c),
        None => Vec::new(),
    };
    assert(caps is None ==> views(capabilities@) =~= Seq::<Seq<char>>::empty());
    AgentEntry {
        name: name.to_owned(),
        id: id.to_owned(),
        transport: transport.to_owned(),
        endpoint: endpoint.to_owned(),
        capabilities,
        permanent: false,
        registered_at: now_ms,
        last_seen: now_ms,
    }
}

/// The arguments that start an agent without a multiplexer.
pub open spec fn headless(
    name: Seq<char>,
    no_bootstrap: bool,
    command: Seq<char>,
    args: Seq<Seq<char>>,
) -> Seq<Seq<char>> {
    seq!["agent"@, "--name"@, name] + (if no_bootstrap {
        seq!["--no-bootstrap"@]
    } else {
        Seq::empty()
    }) + seq!["--"@, command] + args
}

/// The arguments that start an agent without a multiplexer.
#[verifier::loop_isolation(false)]
pub fn headless_args(name: &str, no_bootstrap: bool, command: &str, args: &Vec<String>) -> (r: Vec<
    String,
>)
    ensures
        views(r@) == headless(name@, no_bootstrap, command@, views(args@)),
{
    let mut out = args_of(&["agent", "--name", name]);
    if no_bootstrap {
        push_arg(&mut out, "--no-bootstrap");
    }
    push_arg(&mut out, "--");
    push_arg(&mut out, command);
    let ghost head = views(out@);
    let mut i: usize = 0;
    assert(head + views(args@).take(0) =~= head);
    while i < args.len()
        invariant
            i <= args@.len(),
            views(out@) =~= head + views(args@).take(i as int),
        decreases args@.len() - i,
    {
        push_arg(&mut out, args[i].as_str());
        i = i + 1;
    }
    assert(views(args@).take(i as int) =~= views(args@));
    assert(views(out@) =~= headless(name@, no_bootstrap, command@, views(args@)));
    out
}

/// The arguments that start a listener for an agent.
pub fn listener_args(agent_name: &str, deliver: &str) -> (r: Vec<String>)
    ensures
        views(r@) == seq!["listen"@, agent_name@, "--deliver"@, deliver@],
{
    let r = args_of(&["listen", agent_name, "--deliver", deliver]);
    assert(views(r@) =~= seq!["listen"@, agent_name@, "--deliver"@, deliver@]);
    r
}

/// Where a listener delivers what it hears: into the pane `id` of a multiplexer.
pub fn listener_delivery(backend: &str, id: &str) -> (r: String)
    ensures
        r@ == backend@ + ":"@ + id@,
{
    backend.to_owned().concat(":").concat(id)
}

/// Whether a listener runs for an agent: its file holds a number, and the
/// process with that number is alive. `alive` counts only where there is one.
pub fn listener_runs(pidfile: Option<&str>, alive: bool) -> (r: bool)
    ensures
        r == (pidfile matches Some(p) && trim(p@).len() > 0 && alive),
{
    match pidfile {
        Some(p) => alive && !trimmed(p).as_str().is_empty(),
        None => false,
    }
}

/// The file that holds the number of the process that listens for an agent.
pub fn pidfile_path(session: &str, agent_name: &str) -> (r: String)
    ensures
        r@ == "/tmp/rz-nats-"@ + session@ + "-"@ + agent_name@ + ".pid"@,
{
    "/tmp/rz-nats-".to_owned().concat(session).concat("-").concat(agent_name).concat(".pid")
}

/// The directory that the agents of a workspace share.
pub fn workspace_path(workspace_id: Option<&str>) -> (r: Result<String, String>)
    ensures
        match workspace_id {
            Some(id) => r matches Ok(path) && path@ == "/tmp/rz-cmux-"@ + id@,
            None => r matches Err(why) && why@ == "CMUX_WORKSPACE_ID not set — not inside cmux?"@,
        },
{
    match workspace_id {
        Some(id) => Ok("/tmp/rz-cmux-".to_owned().concat(id)),
        None => Err("CMUX_WORKSPACE_ID not set — not inside cmux?".to_owned()),
    }
}

// ---------------------------------------------------------------------------
// Timers
// ---------------------------------------------------------------------------

/// A text as one word of a shell.
pub open spec fn quoted_word(s: Seq<char>) -> Seq<char> {
    "'"@ + replace(s, '\'', "'\\''"@) + "'"@
}

/// A text as one word of a shell.
pub fn shell_escape(s: &str) -> (r: String)
    ensures
        r@ == quoted_word(s@),
{
    "'".to_owned().concat(replace_char(s, '\'', "'\\''").as_str()).concat("'")
}

/// The command of a shell that sends an encoded message to the own surface
/// after so many seconds.
pub fn timer_script(seconds: &str, rz: &str, own: &str, encoded: &str) -> (r: String)
    ensures
        r@ == "sleep "@ + seconds@ + " && "@ + quoted_word(rz@) + " send --raw "@ + quoted_word(
            own@,
        ) + " "@ + quoted_word(encoded@),
{
    "sleep ".to_owned().concat(seconds).concat(" && ").concat(shell_escape(rz).as_str()).concat(
        " send --raw ",
    ).concat(shell_escape(own).as_str()).concat(" ").concat(shell_escape(encoded).as_str())
}

/// The word that a shell reads, from where it stands: inside single quotes every
/// character but the quote counts as it is, and outside of them a backslash
/// makes the next character count as it is.
pub open spec fn word_read(t: Seq<char>, inside: bool) -> Seq<char>
    decreases t.len(),
{
    if t.len() == 0 {
        Seq::empty()
    } else if t[0] == '\'' {
        word_read(t.skip(1), !inside)
    } else if !inside && t[0] == '\\' && t.len() >= 2 {
        seq![t[1]] + word_read(t.skip(2), inside)
    } else {
        seq![t[0]] + word_read(t.skip(1), inside)
    }
}

/// What follows the opening quote of a word.
spec fn rest_of_word(s: Seq<char>) -> Seq<char>
    decreases s.len(),
{
    if s.len() == 0 {
        seq!['\'']
    } else if s[0] == '\'' {
        seq!['\'', '\\', '\'', '\''] + rest_of_word(s.skip(1))
    } else {
        seq![s[0]] + rest_of_word(s.skip(1))
    }
}

proof fn lemma_replace_front(s: Seq<char>, by: Seq<char>)
    requires
        s.len() > 0,
    ensures
        replace(s, '\'', by) == (if s[0] == '\'' {
            by
        } else {
            seq![s[0]]
        }) + replace(s.skip(1), '\'', by),
    decreases s.len(),
{
    let head = if s[0] == '\'' {
        by
    } else {
        seq![s[0]]
    };
    if s.len() == 1 {
        assert(s.drop_last() =~= Seq::<char>::empty());
        assert(s.skip(1) =~= Seq::<char>::empty());
        assert(replace(Seq::<char>::empty(), '\'', by) =~= Seq::<char>::empty());
        assert(replace(s, '\'', by) =~= head + Seq::<char>::empty());
    } else {
        let init = s.drop_last();
        lemma_replace_front(init, by);
        assert(init[0] == s[0]);
        assert(init.skip(1) =~= s.skip(1).drop_last());
        assert(s.skip(1).last() == s.last());
        assert(replace(s, '\'', by) =~= head + replace(s.skip(1), '\'', by));
    }
}

proof fn lemma_rest_of_word(s: Seq<char>)
    ensures
        replace(s, '\'', "'\\''"@) + "'"@ == rest_of_word(s),
    decreases s.len(),
{
    reveal_strlit("'\\''");
    reveal_strlit("'");
    let by = "'\\''"@;
    assert(by =~= seq!['\'', '\\', '\'', '\'']);
    assert("'"@ =~= seq!['\'']);
    if s.len() == 0 {
        assert(replace(s, '\'', by) =~= Seq::<char>::empty());
        assert(Seq::<char>::empty() + "'"@ =~= seq!['\'']);
    } else {
        lemma_replace_front(s, by);
        lemma_rest_of_word(s.skip(1));
        let head = if s[0] == '\'' {
            by
        } else {
            seq![s[0]]
        };
        assert(head + replace(s.skip(1), '\'', by) + "'"@ =~= head + (replace(
            s.skip(1),
            '\'',
            by,
        ) + "'"@));
    }
}

proof fn lemma_word_read(s: Seq<char>)
    ensures
        word_read(rest_of_word(s), true) == s,
    decreases s.len(),
{
    let t = rest_of_word(s);
    if s.len() == 0 {
        assert(t.skip(1) =~= Seq::<char>::empty());
        assert(word_read(t.skip(1), false) =~= Seq::<char>::empty());
        assert(word_read(t, true) == word_read(t.skip(1), false));
        assert(s =~= Seq::<char>::empty());
    } else {
        let tail = rest_of_word(s.skip(1));
        lemma_word_read(s.skip(1));
        if s[0] == '\'' {
            let a = t.skip(1);
            let b = a.skip(2);
            assert(a[0] == '\\' && a[1] == '\'');
            assert(b[0] == '\'');
            assert(b.skip(1) =~= tail);
            assert(word_read(b, false) == word_read(tail, true));
            assert(word_read(a, false) == seq![a[1]] + word_read(b, false));
            assert(word_read(t, true) == word_read(a, false));
        } else {
            assert(t.skip(1) =~= tail);
            assert(t[0] == s[0]);
            assert(word_read(t, true) == seq![t[0]] + word_read(t.skip(1), true));
        }
        assert(seq![s[0]] + s.skip(1) =~= s);
    }
}

/// A shell reads an escaped text as the text that it was, whatever it holds.
pub proof fn shells_read_escaped_words(s: Seq<char>)
    ensures
        word_read(quoted_word(s), false) == s,
{
    reveal_strlit("'");
    lemma_rest_of_word(s);
    lemma_word_read(s);
    let t = quoted_word(s);
    assert(t =~= "'"@ + (replace(s, '\'', "'\\''"@) + "'"@));
    assert(t[0] == '\'');
    assert(t.skip(1) =~= rest_of_word(s));
}

// ---------------------------------------------------------------------------
// Laws
// ---------------------------------------------------------------------------

/// A message comes from who is named; else from the agent, by its name; else
/// from the own pane, by its name, and where it has none, by itself; and from
/// nobody known where there is no pane either.
pub proof fn senders_are_found_in_order(
    from: Option<Seq<char>>,
    agent_name: Option<Seq<char>>,
    own: Option<Seq<char>>,
    names: Seq<(Seq<char>, Seq<char>)>,
)
    ensures
        ({
            let s = sender(from, agent_name, own, names);
            &&& from matches Some(f) ==> s == f
            &&& from is None && agent_name is Some ==> s == agent_name->0
            &&& from is None && agent_name is None && own is Some ==> {
                ||| exists|i: int| 0 <= i < names.len() && #[trigger] names[i] == (s, own->0)
                ||| s == own->0 && forall|i: int|
                    0 <= i < names.len() ==> (#[trigger] names[i]).1 != own->0
            }
            &&& from is None && agent_name is None && own is None ==> s == "unknown"@
        }),
{
    if let Some(id) = own {
        names_are_those_of_the_pane(names, id);
    }
}

/// The name of a pane is the first that stands for it, and there is none if and
/// only if no name does.
pub proof fn names_are_those_of_the_pane(names: Seq<(Seq<char>, Seq<char>)>, id: Seq<char>)
    ensures
        name_of(names, id) matches Some(n) ==> exists|i: int|
            0 <= i < names.len() && #[trigger] names[i] == (n, id) && forall|k: int|
                0 <= k < i ==> (#[trigger] names[k]).1 != id,
        name_of(names, id) is None ==> forall|i: int|
            0 <= i < names.len() ==> (#[trigger] names[i]).1 != id,
    decreases names.len(),
{
    if names.len() > 0 {
        if names[0].1 == id {
            assert(names[0] == (names[0].0, id));
        } else {
            let rest = names.skip(1);
            names_are_those_of_the_pane(rest, id);
            if let Some(n) = name_of(names, id) {
                let i = choose|i: int|
                    0 <= i < rest.len() && #[trigger] rest[i] == (n, id) && forall|k: int|
                        0 <= k < i ==> (#[trigger] rest[k]).1 != id;
                assert(names[i + 1] == (n, id));
                assert forall|k: int| 0 <= k < i + 1 implies (#[trigger] names[k]).1 != id by {
                    if k > 0 {
                        assert(rest[k - 1] == names[k]);
                    }
                }
            } else {
                assert forall|i: int| 0 <= i < names.len() implies (#[trigger] names[i]).1 != id by {
                    if i > 0 {
                        assert(rest[i - 1] == names[i]);
                    }
                }
            }
        }
    }
}

/// The name by which a surface is listed is the last that stands for it, and
/// there is none if and only if no name does.
pub proof fn listed_names_are_those_of_the_pane(names: Seq<(Seq<char>, Seq<char>)>, id: Seq<char>)
    ensures
        last_name_of(names, id) matches Some(n) ==> exists|i: int|
            0 <= i < names.len() && #[trigger] names[i] == (n, id) && forall|k: int|
                i < k < names.len() ==> (#[trigger] names[k]).1 != id,
        last_name_of(names, id) is None ==> forall|i: int|
            0 <= i < names.len() ==> (#[trigger] names[i]).1 != id,
    decreases names.len(),
{
    if names.len() > 0 {
        let last = names.len() - 1;
        if names.last().1 == id {
            assert(names[last] == (names[last].0, id));
        } else {
            let rest = names.drop_last();
            listed_names_are_those_of_the_pane(rest, id);
            if let Some(n) = last_name_of(names, id) {
                let i = choose|i: int|
                    0 <= i < rest.len() && #[trigger] rest[i] == (n, id) && forall|k: int|
                        i < k < rest.len() ==> (#[trigger] rest[k]).1 != id;
                assert(names[i] == (n, id));
                assert forall|k: int| i < k < names.len() implies (#[trigger] names[k]).1 != id by {
                    if k < last {
                        assert(rest[k] == names[k]);
                    }
                }
            } else {
                assert forall|i: int| 0 <= i < names.len() implies (#[trigger] names[i]).1 != id by {
                    if i < last {
                        assert(rest[i] == names[i]);
                    }
                }
            }
        }
    }
}

/// A message to all goes to the surfaces that there are but the own, in their
/// order, and to no other.
pub proof fn broadcast_goes_to_the_others(peers: Seq<Seq<char>>, own: Option<Seq<char>>)
    ensures
        others(peers, own) == peers.filter(|p: Seq<char>| own != Some(p)),
    decreases peers.len(),
{
    reveal(Seq::filter);
    if peers.len() > 0 {
        broadcast_goes_to_the_others(peers.drop_last(), own);
    }
}

/// The reply to a message is one of the messages, answers that message, and is
/// the last that does; there is none if and only if none answers it.
pub proof fn reply_is_the_last_answer(s: Seq<EnvelopeView>, id: Seq<char>)
    ensures
        last_reply(s, id) matches Some(e) ==> exists|i: int|
            0 <= i < s.len() && #[trigger] s[i] == e && e.reference == Some(id) && forall|k: int|
                i < k < s.len() ==> (#[trigger] s[k]).reference != Some(id),
        last_reply(s, id) is None ==> forall|i: int|
            0 <= i < s.len() ==> (#[trigger] s[i]).reference != Some(id),
    decreases s.len(),
{
    if s.len() > 0 {
        let last = s.len() - 1;
        if s.last().reference == Some(id) {
            assert(s[last] == s.last());
        } else {
            let rest = s.drop_last();
            reply_is_the_last_answer(rest, id);
            if let Some(e) = last_reply(s, id) {
                let i = choose|i: int|
                    0 <= i < rest.len() && #[trigger] rest[i] == e && e.reference == Some(id)
                        && forall|k: int|
                        i < k < rest.len() ==> (#[trigger] rest[k]).reference != Some(id);
                assert(s[i] == e);
                assert forall|k: int| i < k < s.len() implies (#[trigger] s[k]).reference != Some(
                    id,
                ) by {
                    if k < last {
                        assert(rest[k] == s[k]);
                    }
                }
            } else {
                assert forall|i: int| 0 <= i < s.len() implies (#[trigger] s[i]).reference != Some(
                    id,
                ) by {
                    if i < last {
                        assert(rest[i] == s[i]);
                    }
                }
            }
        }
    }
}

/// A ping is answered if and only if there is a pong that answers it; no other
/// message counts, and no pong to another ping.
pub proof fn pings_are_answered_by_pongs(s: Seq<EnvelopeView>, id: Seq<char>)
    ensures
        holds_pong(s, id) <==> exists|i: int|
            0 <= i < s.len() && (#[trigger] s[i]).kind is Pong && s[i].reference == Some(id),
{
    if holds_pong(s, id) {
        let i = choose|i: int| 0 <= i < s.len() && is_pong(#[trigger] s[i], id);
        assert(s[i].kind is Pong);
    }
    if exists|i: int|
        0 <= i < s.len() && (#[trigger] s[i]).kind is Pong && s[i].reference == Some(id) {
        let i = choose|i: int|
            0 <= i < s.len() && (#[trigger] s[i]).kind is Pong && s[i].reference == Some(id);
        assert(is_pong(s[i], id));
    }
}

/// What is said when nothing came in time tells how long was waited, for what,
/// and for whom.
pub proof fn timeouts_tell_what_was_awaited(secs: u64, what: Seq<char>, whom: Seq<char>)
    ensures
        timeout_text(secs, what, whom) == "timeout ("@ + decimal(secs as nat) + "s) — "@ + what
            + whom,
{
}

/// Every message has one line, in the order of the messages.
pub proof fn shown_lines_match_messages(s: Seq<EnvelopeView>, own: Option<Seq<char>>)
    ensures
        shown(s, own).len() == s.len(),
        forall|i: int| 0 <= i < s.len() ==> #[trigger] shown(s, own)[i] == formatted(s[i], own),
{
}

/// What is shown of an agent whose messages are gathered is a line for each of
/// the last of them, behind the agent, or that there are none.
pub proof fn gathered_lines_match_messages(
    pane: Seq<char>,
    all: Seq<EnvelopeView>,
    last: nat,
    own: Option<Seq<char>>,
)
    ensures
        ({
            let g = gathered(pane, all, last, own);
            let n = if all.len() <= last {
                all.len()
            } else {
                last
            };
            &&& all.len() == 0 ==> g == seq![pane + "  (no messages)"@]
            &&& all.len() > 0 ==> g.len() == n && forall|i: int|
                0 <= i < n ==> #[trigger] g[i] == pane + "  "@ + formatted(
                    all[all.len() - n + i],
                    own,
                )
        }),
{
}

proof fn lemma_spaces(n: int)
    ensures
        spaces(n).len() == (if n <= 0 {
            0
        } else {
            n
        }),
        forall|i: int| 0 <= i < spaces(n).len() ==> #[trigger] spaces(n)[i] == ' ',
    decreases n,
{
    if n > 0 {
        lemma_spaces(n - 1);
    }
}

/// A text that is padded is there whole, however long it is, with nothing but
/// spaces behind it, and as wide as asked unless it is wider itself.
pub proof fn padding_adds_only_spaces(s: Seq<char>, width: nat)
    ensures
        ({
            let p = padded(s, width);
            &&& p.len() == (if s.len() < width {
                width
            } else {
                s.len()
            })
            &&& p.take(s.len() as int) == s
            &&& forall|i: int| s.len() <= i < p.len() ==> #[trigger] p[i] == ' '
        }),
{
    lemma_spaces(width - s.len());
    assert(padded(s, width).take(s.len() as int) =~= s);
}

/// A line of the list holds the name, the id, the title and the kind, whole and
/// in this order, each in its column of eighteen, thirty-eight, twenty and
/// eight characters, with a space between two columns.
pub proof fn rows_hold_their_columns(
    name: Seq<char>,
    id: Seq<char>,
    title: Seq<char>,
    kind: Seq<char>,
)
    ensures
        row_text(name, id, title, kind) == padded(name, 18) + " "@ + padded(id, 38) + " "@ + padded(
            title,
            20,
        ) + " "@ + padded(kind, 8),
{
}

/// The line of a surface gives its name, or a dash, its id, its title, or a
/// dash, and its type, and marks the own surface and no other.
pub proof fn surfaces_are_listed_whole(
    s: SurfaceView,
    names: Seq<(Seq<char>, Seq<char>)>,
    own: Option<Seq<char>>,
    name: Seq<char>,
    title: Seq<char>,
)
    requires
        last_name_of(names, s.id) is Some ==> name == last_name_of(names, s.id)->0,
        last_name_of(names, s.id) is None ==> name == "-"@,
        s.title.len() > 0 ==> title == s.title,
        s.title.len() == 0 ==> title == "-"@,
    ensures
        own == Some(s.id) ==> surface_row(s, names, own) == row_text(
            name,
            s.id,
            title,
            s.surface_type,
        ) + " (me)"@,
        own != Some(s.id) ==> surface_row(s, names, own) == row_text(
            name,
            s.id,
            title,
            s.surface_type,
        ),
{
    reveal_strlit("");
    let line = row_text(name, s.id, title, s.surface_type);
    assert(line + ""@ =~= line);
}

/// The line of an agent gives its name, its id and how it is reached, and marks
/// the own agent and no other.
pub proof fn agents_are_listed_whole(e: EntryView, own_name: Option<Seq<char>>)
    ensures
        own_name == Some(e.name) ==> agent_row(e, own_name) == row_text(
            e.name,
            e.id,
            e.transport,
            "agent"@,
        ) + " (me)"@,
        own_name != Some(e.name) ==> agent_row(e, own_name) == row_text(
            e.name,
            e.id,
            e.transport,
            "agent"@,
        ),
{
    reveal_strlit("");
    let line = row_text(e.name, e.id, e.transport, "agent"@);
    assert(line + ""@ =~= line);
}

/// Those agents of the shared directory whose names the local one does not hold
/// are listed, each with its name, its id and how it is reached, in their order;
/// no other is.
pub proof fn shared_agents_are_listed(found: Seq<EntryView>, local: Seq<EntryView>)
    ensures
        shared_rows(found, local) == found.filter(
            |e: EntryView|
                !exists|i: int| 0 <= i < local.len() && (#[trigger] local[i]).name == e.name,
        ).map_values(
            |e: EntryView| row_text(e.name, e.id, e.transport, "agent"@) + " (nats)"@,
        ),
    decreases found.len(),
{
    reveal(Seq::filter);
    let keep = |e: EntryView|
        !exists|i: int| 0 <= i < local.len() && (#[trigger] local[i]).name == e.name;
    let line = |e: EntryView| row_text(e.name, e.id, e.transport, "agent"@) + " (nats)"@;
    if found.len() > 0 {
        let rest = found.drop_last();
        shared_agents_are_listed(rest, local);
        let kept = rest.filter(keep);
        if keep(found.last()) {
            assert(kept.push(found.last()).map_values(line) =~= kept.map_values(line).push(
                line(found.last()),
            ));
            assert(!has_agent(local, found.last().name));
        } else {
            assert(has_agent(local, found.last().name));
        }
        assert(shared_rows(found, local) =~= found.filter(keep).map_values(line));
    } else {
        assert(shared_rows(found, local) =~= found.filter(keep).map_values(line));
    }
}

/// The arguments that start an agent give its name and end with the command and
/// its arguments, each as it is; the bootstrap is left out where that is asked,
/// and only there.
pub proof fn headless_arguments_are_kept(
    name: Seq<char>,
    no_bootstrap: bool,
    command: Seq<char>,
    args: Seq<Seq<char>>,
)
    ensures
        ({
            let r = headless(name, no_bootstrap, command, args);
            let n = if no_bootstrap {
                6int
            } else {
                5int
            };
            &&& r.len() == n + args.len()
            &&& r[0] == "agent"@
            &&& r[1] == "--name"@
            &&& r[2] == name
            &&& no_bootstrap ==> r[3] == "--no-bootstrap"@
            &&& r[n - 2] == "--"@
            &&& r[n - 1] == command
            &&& r.skip(n) == args
        }),
{
    let r = headless(name, no_bootstrap, command, args);
    let n = if no_bootstrap {
        6int
    } else {
        5int
    };
    assert(r.skip(n) =~= args);
}

/// A name that is given to a pane takes the place of the same name, or comes
/// behind all others; no other name moves or changes.
pub proof fn given_names_leave_the_others(
    names: Seq<(Seq<char>, Seq<char>)>,
    name: Seq<char>,
    id: Seq<char>,
)
    ensures
        ({
            let after = with_name(names, name, id);
            let there = exists|k: int| 0 <= k < names.len() && (#[trigger] names[k]).0 == name;
            &&& there ==> after.len() == names.len()
            &&& !there ==> after == names.push((name, id))
            &&& forall|k: int|
                0 <= k < names.len() && (#[trigger] names[k]).0 != name ==> after[k] == names[k]
            &&& forall|k: int|
                0 <= k < names.len() && (#[trigger] names[k]).0 == name ==> after[k].0 == name
        }),
{
    lemma_name_place_bounds(names, name);
}

/// The names in a file are those of its object, in their order, where each of
/// them stands for a string; a file that holds anything else holds none.
pub proof fn names_are_read_from_strings(text: Seq<char>)
    ensures
        ({
            let names = names_in(text);
            let m = object_at(text);
            &&& m is None ==> names.len() == 0
            &&& m is Some && (exists|i: int|
                0 <= i < m->0.len() && string_at((#[trigger] m->0[i]).1) is None) ==> names.len()
                == 0
            &&& m is Some && (forall|i: int|
                0 <= i < m->0.len() ==> string_at((#[trigger] m->0[i]).1) is Some) ==> {
                &&& names.len() == m->0.len()
                &&& forall|i: int|
                    0 <= i < names.len() ==> (#[trigger] names[i]).0 == m->0[i].0 && string_at(
                        m->0[i].1,
                    ) == Some(names[i].1)
            }
        }),
{
    if let Some(m) = object_at(text) {
        lemma_string_members(m);
        if exists|i: int| 0 <= i < m.len() && string_at((#[trigger] m[i]).1) is None {
            let i = choose|i: int| 0 <= i < m.len() && string_at((#[trigger] m[i]).1) is None;
            lemma_not_all_strings(m, i);
        }
    }
}

proof fn lemma_string_members(m: Seq<(Seq<char>, Seq<char>)>)
    ensures
        (forall|i: int| 0 <= i < m.len() ==> string_at((#[trigger] m[i]).1) is Some)
            ==> string_members(m) is Some && string_members(m)->0.len() == m.len() && forall|i: int|
            0 <= i < m.len() ==> (#[trigger] string_members(m)->0[i]).0 == m[i].0 && string_at(
                m[i].1,
            ) == Some(string_members(m)->0[i].1),
    decreases m.len(),
{
    if m.len() > 0 && forall|i: int| 0 <= i < m.len() ==> string_at((#[trigger] m[i]).1) is Some {
        let rest = m.drop_last();
        assert forall|i: int| 0 <= i < rest.len() implies string_at(
            (#[trigger] rest[i]).1,
        ) is Some by {
            assert(rest[i] == m[i]);
        }
        lemma_string_members(rest);
        assert(string_at(m[m.len() - 1].1) is Some);
        let names = string_members(m)->0;
        assert forall|i: int| 0 <= i < m.len() implies (#[trigger] names[i]).0 == m[i].0
            && string_at(m[i].1) == Some(names[i].1) by {
            if i < rest.len() {
                assert(names[i] == string_members(rest)->0[i]);
                assert(rest[i] == m[i]);
            }
        }
    }
}

/// A text that is given is taken as it is, and one that is not is missing.
pub proof fn given_texts_are_taken_as_they_are(s: &str)
    ensures
        opt_str(Some(s)) == Some(s@),
        opt_str(None) is None,
{
}

} // verus!

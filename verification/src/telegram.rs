//! A chat on Telegram as an agent: its messages are published to other agents,
//! and theirs are sent to the chat.

use std::collections::HashMap;

use vstd::prelude::*;
use vstd::string::StringExecFns;

use crate::bytes::{
    byte_len, fit, fit_from, fitting, fitting_is_longest_prefix, lemma_byte_len_concat, prefix_fitting,
};
use crate::json::{
    bool_at, bool_text, i64_at, inner_member_at, is_json, json_level, json_quote, lemma_lookup,
    list_at, list_text, lookup, member_at, object_text, quoted, read_bool, read_i64, read_inner_member, read_list, read_member,
    read_string, read_u64, string_at, u64_at, write_strings, ObjectWriter,
};
use crate::nats_hub::{stream_name, stream_text, subject, subject_text};
use crate::number::{decimal, signed_decimal, signed_decimal_of};
use crate::pieces::{
    after_last, skip_white, tail_after_last, trim_start, trimmed_start, white_space,
};
use crate::protocol::{
    decoded, messages_are_writable, writable, DecodeError, Envelope, EnvelopeView, KindView,
    MessageKind,
};
use crate::registry::{stale, EntryView};
use crate::text::{
    after_prefix, chars_of, find_from, first_pos, has_prefix, last_pos, lemma_first_pos,
    lemma_first_pos_bounds, lemma_last_pos, lemma_last_pos_bounds, lossy_text, opt_view, string_of, strip_prefix, utf8_lossy, views,
};

verus! {

/// How long the service holds a poll open, in seconds.
pub const LONG_POLL_TIMEOUT: u64 = 30;

/// The longest pause after a failed poll, in seconds.
pub const MAX_BACKOFF: u64 = 60;

/// The first pause after a failed poll, in seconds.
pub const INITIAL_BACKOFF: u64 = 1;

/// The length of the longest message that the service accepts, in bytes.
pub const MAX_MESSAGE_LEN: usize = 4096;

/// How many messages are remembered to tell what a reply answers.
pub const MAX_REF_MAP_SIZE: usize = 100;

/// How often the bridge shows that it is alive, in seconds.
pub const KV_REFRESH_SECS: u64 = 20;

// ---------------------------------------------------------------------------
// Lengths
// ---------------------------------------------------------------------------

/// The last character boundary of `s` at or before byte `max_bytes`.
pub fn floor_char_boundary(s: &str, max_bytes: usize) -> (r: usize)
    ensures
        r == byte_len(fitting(s@, max_bytes as nat)),
{
    let v = chars_of(s);
    assert(v@.skip(0) =~= v@);
    let (_end, used) = fit_from(&v, 0, max_bytes);
    used
}

/// The start of `s`, up to `max` bytes.
pub fn truncate(s: &str, max: usize) -> (r: String)
    ensures
        r@ == fitting(s@, max as nat),
{
    prefix_fitting(s, max)
}

/// Where a text that is too long for one message is broken, in characters:
/// behind the last line break that fits, else behind the last space that fits,
/// else where it no longer fits.
pub open spec fn break_pos(s: Seq<char>) -> int {
    let head = fitting(s, MAX_MESSAGE_LEN as nat);
    if last_pos(head, '\n') >= 0 {
        last_pos(head, '\n') + 1
    } else if last_pos(head, ' ') >= 0 {
        last_pos(head, ' ') + 1
    } else {
        head.len() as int
    }
}

proof fn lemma_break_pos(s: Seq<char>)
    requires
        byte_len(s) > MAX_MESSAGE_LEN,
    ensures
        0 < break_pos(s) <= fit(s, MAX_MESSAGE_LEN as nat) <= s.len(),
        byte_len(s.take(break_pos(s))) <= MAX_MESSAGE_LEN,
{
    let max = MAX_MESSAGE_LEN as nat;
    let head = fitting(s, max);
    fitting_is_longest_prefix(s, max);
    lemma_last_pos_bounds(head, '\n');
    lemma_last_pos_bounds(head, ' ');
    assert(crate::bytes::width(s[0]) <= 4);
    assert(fit(s, max) > 0);
    let n = break_pos(s);
    assert(head =~= s.take(n) + head.skip(n));
    lemma_byte_len_concat(s.take(n), head.skip(n));
}

/// The parts of a text, each short enough for one message. White space at the
/// start of a part is dropped, but for the first.
pub open spec fn parts(s: Seq<char>) -> Seq<Seq<char>>
    decreases s.len(),
{
    if s.len() == 0 {
        Seq::empty()
    } else if byte_len(s) <= MAX_MESSAGE_LEN {
        seq![s]
    } else {
        let n = break_pos(s);
        if 0 < n <= s.len() {
            proof {
                lemma_trim_start_shorter(s.skip(n));
            }
            seq![s.take(n)] + parts(trim_start(s.skip(n)))
        } else {
            Seq::empty()
        }
    }
}

pub proof fn lemma_trim_start_shorter(s: Seq<char>)
    ensures
        trim_start(s).len() <= s.len(),
    decreases s.len(),
{
    if s.len() > 0 && white_space(s[0]) {
        lemma_trim_start_shorter(s.skip(1));
    }
}

/// The messages that a text is sent in.
pub open spec fn message_parts(s: Seq<char>) -> Seq<Seq<char>> {
    if byte_len(s) <= MAX_MESSAGE_LEN {
        seq![s]
    } else {
        parts(s)
    }
}

/// The last position of `c` in `v` from `from` on and before `to`.
#[verifier::loop_isolation(false)]
fn rfind(v: &Vec<char>, from: usize, to: usize, c: char) -> (r: Option<usize>)
    requires
        from <= to <= v@.len(),
    ensures
        match r {
            Some(i) => from <= i < to && last_pos(v@.subrange(from as int, to as int), c) == i
                - from,
            None => last_pos(v@.subrange(from as int, to as int), c) == -1,
        },
{
    let ghost head = v@.subrange(from as int, to as int);
    let mut i: usize = to;
    while i > from
        invariant
            from <= i <= to,
            forall|k: int| i - from <= k < head.len() ==> head[k] != c,
        decreases i,
    {
        i = i - 1;
        assert(head[i - from] == v@[i as int]);
        if v[i] == c {
            proof {
                lemma_last_pos(head, c, i - from);
            }
            return Some(i);
        }
    }
    proof {
        lemma_last_pos(head, c, -1);
    }
    None
}

/// Where the text from `from` on is broken.
fn break_at(v: &Vec<char>, from: usize) -> (r: usize)
    requires
        from <= v@.len(),
        byte_len(v@.skip(from as int)) > MAX_MESSAGE_LEN,
    ensures
        r == from + break_pos(v@.skip(from as int)),
        from < r <= v@.len(),
{
    let ghost s = v@.skip(from as int);
    let (end, _used) = fit_from(v, from, MAX_MESSAGE_LEN);
    proof {
        lemma_break_pos(s);
        assert(v@.subrange(from as int, end as int) =~= fitting(s, MAX_MESSAGE_LEN as nat));
        lemma_last_pos_bounds(fitting(s, MAX_MESSAGE_LEN as nat), ' ');
    }
    match rfind(v, from, end, '\n') {
        Some(p) => p + 1,
        None => match rfind(v, from, end, ' ') {
            Some(p) => p + 1,
            None => end,
        },
    }
}

/// Splits a text into messages that the service accepts.
#[verifier::loop_isolation(false)]
pub fn split_message(text: &str) -> (r: Vec<String>)
    ensures
        views(r@) == message_parts(text@),
{
    let v = chars_of(text);
    let mut chunks: Vec<String> = Vec::new();
    let mut from: usize = 0;
    assert(v@.skip(0) =~= v@);
    let (end, _used) = fit_from(&v, 0, MAX_MESSAGE_LEN);
    proof {
        fitting_is_longest_prefix(text@, MAX_MESSAGE_LEN as nat);
    }
    if end == v.len() {
        chunks.push(text.to_owned());
        assert(views(chunks@) =~= seq![text@]);
        return chunks;
    }
    assert(views(chunks@) + parts(text@) =~= parts(text@));
    while from < v.len()
        invariant
            from <= v@.len(),
            views(chunks@) + parts(v@.skip(from as int)) =~= parts(text@),
        decreases v@.len() - from,
    {
        let ghost s = v@.skip(from as int);
        let ghost before = views(chunks@);
        let (end, _used) = fit_from(&v, from, MAX_MESSAGE_LEN);
        proof {
            fitting_is_longest_prefix(s, MAX_MESSAGE_LEN as nat);
        }
        if end == v.len() {
            chunks.push(string_of(&v, from, v.len()));
            proof {
                assert(v@.subrange(from as int, v@.len() as int) =~= s);
                assert(views(chunks@) =~= before.push(s));
                assert(parts(s) =~= seq![s]);
                assert(before + seq![s] =~= before.push(s));
            }
            return chunks;
        }
        let at = break_at(&v, from);
        chunks.push(string_of(&v, from, at));
        let next = skip_white(&v, at);
        proof {
            let n = at - from;
            let part = s.take(n);
            lemma_break_pos(s);
            assert(v@.subrange(from as int, at as int) =~= part);
            assert(s.skip(n) =~= v@.skip(at as int));
            assert(views(chunks@) =~= before.push(part));
            assert(parts(s) == seq![part] + parts(trim_start(s.skip(n))));
            assert(before + (seq![part] + parts(v@.skip(next as int))) =~= before.push(part) + parts(
                v@.skip(next as int),
            ));
        }
        from = next;
    }
    proof {
        assert(v@.skip(from as int) =~= Seq::<char>::empty());
        assert(views(chunks@) + Seq::<Seq<char>>::empty() =~= views(chunks@));
    }
    chunks
}

/// Every message that a text is sent in is short enough for the service, and
/// none is empty unless the text is.
pub proof fn messages_fit(s: Seq<char>)
    ensures
        forall|i: int|
            0 <= i < message_parts(s).len() ==> byte_len(#[trigger] message_parts(s)[i])
                <= MAX_MESSAGE_LEN,
        message_parts(s).len() > 0,
        s.len() > 0 ==> forall|i: int|
            0 <= i < message_parts(s).len() ==> (#[trigger] message_parts(s)[i]).len() > 0,
{
    if byte_len(s) > MAX_MESSAGE_LEN {
        lemma_parts_fit(s);
        lemma_break_pos(s);
    }
}

proof fn lemma_parts_fit(s: Seq<char>)
    ensures
        forall|i: int|
            0 <= i < parts(s).len() ==> byte_len(#[trigger] parts(s)[i]) <= MAX_MESSAGE_LEN
                && parts(s)[i].len() > 0,
    decreases s.len(),
{
    if s.len() > 0 && byte_len(s) > MAX_MESSAGE_LEN {
        lemma_break_pos(s);
        let n = break_pos(s);
        let rest = trim_start(s.skip(n));
        lemma_trim_start_shorter(s.skip(n));
        lemma_parts_fit(rest);
        assert forall|i: int| 0 <= i < parts(s).len() implies byte_len(#[trigger] parts(s)[i])
            <= MAX_MESSAGE_LEN && parts(s)[i].len() > 0 by {
            if i > 0 {
                assert(parts(s)[i] == parts(rest)[i - 1]);
            }
        }
    }
}

/// Whether a text is nothing but white space.
pub open spec fn all_white(s: Seq<char>) -> bool {
    forall|i: int| 0 <= i < s.len() ==> white_space(#[trigger] s[i])
}

/// Messages one after the other, each with the gap that follows it.
pub open spec fn with_gaps(messages: Seq<Seq<char>>, gaps: Seq<Seq<char>>) -> Seq<char>
    decreases messages.len(),
{
    if messages.len() == 0 {
        Seq::empty()
    } else {
        messages[0] + gaps[0] + with_gaps(messages.skip(1), gaps.skip(1))
    }
}

proof fn lemma_trimmed_gap(s: Seq<char>) -> (gap: Seq<char>)
    ensures
        all_white(gap),
        s == gap + trim_start(s),
    decreases s.len(),
{
    if s.len() > 0 && white_space(s[0]) {
        let gap = lemma_trimmed_gap(s.skip(1));
        assert(s =~= seq![s[0]] + s.skip(1));
        assert(seq![s[0]] + (gap + trim_start(s)) =~= seq![s[0]] + gap + trim_start(s));
        seq![s[0]] + gap
    } else {
        assert(s =~= Seq::<char>::empty() + trim_start(s));
        Seq::empty()
    }
}

proof fn lemma_single_message(s: Seq<char>) -> (gaps: Seq<Seq<char>>)
    ensures
        gaps == seq![Seq::<char>::empty()],
        s == with_gaps(seq![s], gaps),
{
    let gaps = seq![Seq::<char>::empty()];
    assert(seq![s].skip(1) =~= Seq::<Seq<char>>::empty());
    assert(with_gaps(seq![s].skip(1), gaps.skip(1)) =~= Seq::<char>::empty());
    assert(s =~= with_gaps(seq![s], gaps));
    gaps
}

proof fn lemma_parts_gaps(s: Seq<char>) -> (gaps: Seq<Seq<char>>)
    ensures
        gaps.len() == parts(s).len(),
        forall|i: int| 0 <= i < gaps.len() ==> all_white(#[trigger] gaps[i]),
        s == with_gaps(parts(s), gaps),
    decreases s.len(),
{
    if s.len() == 0 {
        assert(s =~= with_gaps(parts(s), Seq::empty()));
        Seq::empty()
    } else if byte_len(s) <= MAX_MESSAGE_LEN {
        lemma_single_message(s)
    } else {
        lemma_break_pos(s);
        let n = break_pos(s);
        let rest = trim_start(s.skip(n));
        lemma_trim_start_shorter(s.skip(n));
        let gap = lemma_trimmed_gap(s.skip(n));
        let others = lemma_parts_gaps(rest);
        let gaps = seq![gap] + others;
        assert(parts(s).skip(1) =~= parts(rest));
        assert(gaps.skip(1) =~= others);
        assert(s =~= s.take(n) + s.skip(n));
        assert(s.take(n) + (gap + rest) =~= s.take(n) + gap + rest);
        assert forall|i: int| 0 <= i < gaps.len() implies all_white(#[trigger] gaps[i]) by {
            if i > 0 {
                assert(gaps[i] == others[i - 1]);
            }
        }
        gaps
    }
}

/// The messages that a text is sent in are the text, in order, but for gaps of
/// white space between them and behind the last.
pub proof fn messages_hold_the_text(s: Seq<char>) -> (gaps: Seq<Seq<char>>)
    ensures
        gaps.len() == message_parts(s).len(),
        forall|i: int| 0 <= i < gaps.len() ==> all_white(#[trigger] gaps[i]),
        s == with_gaps(message_parts(s), gaps),
{
    if byte_len(s) <= MAX_MESSAGE_LEN {
        lemma_single_message(s)
    } else {
        lemma_parts_gaps(s)
    }
}

// ---------------------------------------------------------------------------
// Remembered messages
// ---------------------------------------------------------------------------

/// Which message of an agent stands behind a message in the chat, for the
/// latest messages.
pub struct RefMap {
    map: HashMap<i64, String>,
    order: Vec<i64>,
}

/// The contents of a [`RefMap`]: the messages by their ids in the chat, and the
/// ids from the oldest to the latest.
pub ghost struct RefView {
    pub map: Map<i64, Seq<char>>,
    pub order: Seq<i64>,
}

impl View for RefMap {
    type V = RefView;

    closed spec fn view(&self) -> RefView {
        RefView { map: self.map@.map_values(|s: String| s@), order: self.order@ }
    }
}

/// What is remembered after the oldest message was forgotten, where there are
/// too many.
pub open spec fn evicted(v: RefView) -> RefView {
    if v.order.len() >= MAX_REF_MAP_SIZE {
        RefView { map: v.map.remove(v.order[0]), order: v.order.remove(0) }
    } else {
        v
    }
}

/// What is remembered after one more message.
pub open spec fn remembered(v: RefView, tg_msg_id: i64, rz_id: Seq<char>) -> RefView {
    let e = evicted(v);
    RefView { map: e.map.insert(tg_msg_id, rz_id), order: e.order.push(tg_msg_id) }
}

/// What holds of the remembered messages in every state: they are not too many,
/// and each has its place in the order.
pub open spec fn refs_ok(v: RefView) -> bool {
    &&& v.order.len() <= MAX_REF_MAP_SIZE
    &&& v.map.dom().finite()
    &&& v.map.len() <= v.order.len()
    &&& forall|id: i64| #[trigger] v.map.contains_key(id) ==> v.order.contains(id)
}

proof fn lemma_remembered_ok(v: RefView, tg_msg_id: i64, rz_id: Seq<char>)
    requires
        v.order.len() <= MAX_REF_MAP_SIZE,
        v.map.dom().finite(),
        forall|id: i64| #[trigger] v.map.contains_key(id) ==> v.order.contains(id),
    ensures
        refs_ok(remembered(v, tg_msg_id, rz_id)),
{
    let e = evicted(v);
    let w = remembered(v, tg_msg_id, rz_id);
    assert forall|id: i64| #[trigger] e.map.contains_key(id) implies e.order.contains(id) by {
        assert(v.map.contains_key(id));
        let k = v.order.index_of(id);
        if v.order.len() >= MAX_REF_MAP_SIZE {
            assert(k != 0);
            assert(e.order[k - 1] == id);
        }
    }
    assert forall|id: i64| #[trigger] w.map.contains_key(id) implies w.order.contains(id) by {
        if id == tg_msg_id {
            assert(w.order[w.order.len() - 1] == id);
        } else {
            assert(e.map.contains_key(id));
            let k = e.order.index_of(id);
            assert(w.order[k] == id);
        }
    }
    assert(w.map.dom().subset_of(w.order.to_set())) by {
        assert forall|id: i64| #[trigger] w.map.dom().contains(id) implies w.order.to_set().contains(
            id,
        ) by {
            assert(w.map.contains_key(id));
        }
    }
    vstd::seq_lib::seq_to_set_is_finite(w.order);
    vstd::set_lib::lemma_len_subset(w.map.dom(), w.order.to_set());
    w.order.lemma_cardinality_of_set();
}

impl RefMap {
    /// What holds of the remembered messages in every state.
    pub closed spec fn wf(&self) -> bool {
        refs_ok(self@)
    }

    /// No messages.
    pub fn new() -> (r: RefMap)
        ensures
            r.wf(),
            r@ == (RefView { map: Map::<i64, Seq<char>>::empty(), order: Seq::empty() }),
    {
        broadcast use vstd::std_specs::hash::group_hash_axioms;

        let r = RefMap { map: HashMap::new(), order: Vec::new() };
        assert(r@.map =~= Map::<i64, Seq<char>>::empty());
        r
    }

    /// How many messages are remembered.
    pub fn len(&self) -> (r: usize)
        requires
            self.wf(),
        ensures
            r == self@.map.len(),
            r <= MAX_REF_MAP_SIZE,
    {
        broadcast use vstd::std_specs::hash::group_hash_axioms;

        assert(self@.map.dom() =~= self.map@.dom());
        self.map.len()
    }

    /// Remembers a message, and forgets the oldest where there are too many.
    pub fn insert(&mut self, tg_msg_id: i64, rz_id: String)
        requires
            old(self).wf(),
        ensures
            final(self).wf(),
            final(self)@ == remembered(old(self)@, tg_msg_id, rz_id@),
    {
        broadcast use vstd::std_specs::hash::group_hash_axioms;

        let ghost before = self@;
        proof {
            lemma_remembered_ok(before, tg_msg_id, rz_id@);
        }
        if self.order.len() >= MAX_REF_MAP_SIZE {
            let oldest = self.order[0];
            self.map.remove(&oldest);
            let _ = self.order.remove(0);
            assert(self@.map =~= evicted(before).map);
        }
        self.map.insert(tg_msg_id, rz_id);
        self.order.push(tg_msg_id);
        assert(self@.map =~= remembered(before, tg_msg_id, rz_id@).map);
    }

    /// The message of an agent behind a message in the chat.
    pub fn get(&self, tg_msg_id: i64) -> (r: Option<String>)
        requires
            self.wf(),
        ensures
            match r {
                Some(s) => self@.map.contains_key(tg_msg_id) && s@ == self@.map[tg_msg_id],
                None => !self@.map.contains_key(tg_msg_id),
            },
    {
        broadcast use vstd::std_specs::hash::group_hash_axioms;

        match self.map.get(&tg_msg_id) {
            Some(s) => Some(s.clone()),
            None => None,
        }
    }
}

/// Never more messages are remembered than there is room for.
pub proof fn remembered_messages_are_bounded(r: RefMap)
    requires
        r.wf(),
    ensures
        r@.map.len() <= MAX_REF_MAP_SIZE,
{
}

/// The latest message is remembered.
pub proof fn latest_message_is_remembered(v: RefView, tg_msg_id: i64, rz_id: Seq<char>)
    requires
        refs_ok(v),
    ensures
        remembered(v, tg_msg_id, rz_id).map.contains_key(tg_msg_id),
        remembered(v, tg_msg_id, rz_id).map[tg_msg_id] == rz_id,
{
}

/// A new message displaces the oldest, and only where there is no more room;
/// all others are still remembered as they were.
pub proof fn only_the_oldest_message_is_forgotten(v: RefView, tg_msg_id: i64, rz_id: Seq<char>)
    requires
        refs_ok(v),
        v.order.no_duplicates(),
        !v.order.contains(tg_msg_id),
    ensures
        remembered(v, tg_msg_id, rz_id).order.no_duplicates(),
        forall|id: i64|
            #![trigger v.map.contains_key(id)]
            id != tg_msg_id ==> {
                let w = remembered(v, tg_msg_id, rz_id);
                &&& w.map.contains_key(id) <==> v.map.contains_key(id) && !(v.order.len()
                    == MAX_REF_MAP_SIZE && v.order[0] == id)
                &&& w.map.contains_key(id) ==> w.map[id] == v.map[id]
            },
{
    let w = remembered(v, tg_msg_id, rz_id);
    let e = evicted(v);
    assert forall|i: int| 0 <= i < e.order.len() implies v.order.contains(#[trigger] e.order[i]) by {
        if v.order.len() >= MAX_REF_MAP_SIZE {
            assert(e.order[i] == v.order[i + 1]);
        }
    }
    assert forall|i: int, j: int| 0 <= i < j < w.order.len() implies w.order[i] != w.order[j] by {
        if j == w.order.len() - 1 {
            assert(w.order[i] == e.order[i]);
        }
    }
}

// ---------------------------------------------------------------------------
// Reading messages
// ---------------------------------------------------------------------------

/// A message in a chat.
#[derive(Debug)]
pub struct ParsedMessage {
    pub chat_id: i64,
    pub text: String,
    pub reply_to_message_id: Option<i64>,
}

/// The contents of a [`ParsedMessage`].
pub ghost struct ParsedView {
    pub chat_id: int,
    pub text: Seq<char>,
    pub reply_to_message_id: Option<int>,
}

impl View for ParsedMessage {
    type V = ParsedView;

    open spec fn view(&self) -> ParsedView {
        ParsedView {
            chat_id: self.chat_id as int,
            text: self.text@,
            reply_to_message_id: match self.reply_to_message_id {
                Some(n) => Some(n as int),
                None => None,
            },
        }
    }
}

/// The `i64` that an optional JSON text holds.
pub open spec fn opt_i64_at(text: Option<Seq<char>>) -> Option<int> {
    match text {
        Some(t) => i64_at(t),
        None => None,
    }
}

/// The string that an optional JSON text holds.
pub open spec fn opt_string_at(text: Option<Seq<char>>) -> Option<Seq<char>> {
    match text {
        Some(t) => string_at(t),
        None => None,
    }
}

fn opt_read_i64(text: Option<String>) -> (r: Option<i64>)
    ensures
        match r {
            Some(n) => opt_i64_at(opt_view(text)) == Some(n as int),
            None => opt_i64_at(opt_view(text)) is None,
        },
{
    match text {
        Some(t) => read_i64(t.as_str()),
        None => None,
    }
}

fn opt_read_string(text: Option<String>) -> (r: Option<String>)
    ensures
        opt_view(r) == opt_string_at(opt_view(text)),
{
    match text {
        Some(t) => read_string(t.as_str()),
        None => None,
    }
}

/// The text message that an update of the service holds.
pub open spec fn message_in(update: Seq<char>) -> Option<ParsedView> {
    match member_at(update, "message"@) {
        Some(message) => match (
            opt_string_at(member_at(message, "text"@)),
            opt_i64_at(inner_member_at(message, "chat"@, "id"@)),
        ) {
            (Some(text), Some(chat_id)) => Some(
                ParsedView {
                    chat_id,
                    text,
                    reply_to_message_id: opt_i64_at(
                        inner_member_at(message, "reply_to_message"@, "message_id"@),
                    ),
                },
            ),
            _ => None,
        },
        None => None,
    }
}

/// The text message that an update of the service, as JSON text, holds.
pub fn parse_update(update: &str) -> (r: Option<ParsedMessage>)
    ensures
        match r {
            Some(m) => message_in(update@) == Some(m@),
            None => message_in(update@) is None,
        },
{
    let message = match read_member(update, "message") {
        Some(m) => m,
        None => {
            return None;
        },
    };
    let message = message.as_str();
    let text = match opt_read_string(read_member(message, "text")) {
        Some(t) => t,
        None => {
            return None;
        },
    };
    let chat_id = match opt_read_i64(read_inner_member(message, "chat", "id")) {
        Some(n) => n,
        None => {
            return None;
        },
    };
    let reply_to_message_id = opt_read_i64(
        read_inner_member(message, "reply_to_message", "message_id"),
    );
    Some(ParsedMessage { chat_id, text, reply_to_message_id })
}

/// Who a message in the chat is for, and what it says: `@agent_name message`
/// names an agent, and anything else goes to the default agent as it is.
pub open spec fn target_of(text: Seq<char>, default_agent: Seq<char>) -> (Seq<char>, Seq<char>) {
    match after_prefix(text, "@"@) {
        Some(rest) => {
            let space = first_pos(rest, ' ');
            let agent = rest.take(space);
            let msg = trim_start(rest.skip(space));
            if space < rest.len() && agent.len() > 0 && msg.len() > 0 {
                (agent, msg)
            } else {
                (default_agent, text)
            }
        },
        None => (default_agent, text),
    }
}

/// Reads the routing prefix `@agent_name` of a message. The result is the agent
/// and the message.
pub fn parse_target(text: &str, default_agent: &str) -> (r: (String, String))
    ensures
        (r.0@, r.1@) == target_of(text@, default_agent@),
{
    match strip_prefix(text, "@") {
        Some(rest) => {
            let v = chars_of(rest.as_str());
            assert(v@.skip(0) =~= v@);
            let space = find_from(&v, ' ', 0);
            proof {
                lemma_first_pos_bounds(rest@, ' ');
                assert(v@.subrange(0, space as int) =~= rest@.take(space as int));
                assert(v@.subrange(space as int, v@.len() as int) =~= rest@.skip(space as int));
            }
            if space < v.len() {
                let agent = string_of(&v, 0, space);
                let tail = string_of(&v, space, v.len());
                let msg = trimmed_start(tail.as_str());
                if !agent.as_str().is_empty() && !msg.as_str().is_empty() {
                    return (agent, msg);
                }
            }
            (default_agent.to_owned(), text.to_owned())
        },
        None => (default_agent.to_owned(), text.to_owned()),
    }
}

/// What the chat shows of a message, where it shows it at all. Pings, pongs and
/// greetings are not for people.
pub open spec fn display_text(k: KindView) -> Option<Seq<char>> {
    match k {
        KindView::Chat(text) => Some(text),
        KindView::Error(message) => Some("Error: "@ + message),
        KindView::Timer(label) => Some("Timer: "@ + label),
        KindView::Status(state, detail) => Some("["@ + state + "] "@ + detail),
        KindView::ToolCall(name, _) => Some("(calling tool: "@ + name + ")"@),
        KindView::ToolResult(_, result, is_error) => Some(
            (if is_error {
                "Tool error"@
            } else {
                "Tool result"@
            }) + ": "@ + fitting(result, 200),
        ),
        KindView::Delegate(task, _) => Some("(delegating: "@ + fitting(task, 200) + ")"@),
        KindView::Ping => None,
        KindView::Pong => None,
        KindView::Hello(_) => None,
    }
}

/// What the chat shows of a message.
pub fn extract_display_text(kind: &MessageKind) -> (r: Option<String>)
    ensures
        opt_view(r) == display_text(kind@),
        kind@ matches KindView::Chat(text) ==> opt_view(r) == Some(text),
{
    match kind {
        MessageKind::Chat { text } => Some(text.clone()),
        MessageKind::Error { message } => Some("Error: ".to_owned().concat(message.as_str())),
        MessageKind::Timer { label } => Some("Timer: ".to_owned().concat(label.as_str())),
        MessageKind::Status { state, detail } => Some(
            "[".to_owned().concat(state.as_str()).concat("] ").concat(detail.as_str()),
        ),
        MessageKind::ToolCall { name, body: _ } => Some(
            "(calling tool: ".to_owned().concat(name.as_str()).concat(")"),
        ),
        MessageKind::ToolResult { name: _, result, is_error } => {
            let prefix = if *is_error {
                "Tool error"
            } else {
                "Tool result"
            };
            Some(prefix.to_owned().concat(": ").concat(truncate(result.as_str(), 200).as_str()))
        },
        MessageKind::Delegate { task, body: _ } => Some(
            "(delegating: ".to_owned().concat(truncate(task.as_str(), 200).as_str()).concat(")"),
        ),
        MessageKind::Ping => None,
        MessageKind::Pong => None,
        MessageKind::Hello { name: _ } => None,
    }
}

// ---------------------------------------------------------------------------
// Polling
// ---------------------------------------------------------------------------

/// The members of the request for updates.
pub open spec fn poll_members(offset: Option<i64>) -> Seq<(Seq<char>, Seq<char>)> {
    let base = seq![
        ("timeout"@, decimal(LONG_POLL_TIMEOUT as nat)),
        ("allowed_updates"@, list_text(seq![json_quote("message"@)])),
    ];
    match offset {
        Some(n) => base.push(("offset"@, signed_decimal(n as int))),
        None => base,
    }
}

/// The body of the request for updates.
pub fn poll_body(offset: Option<i64>) -> (r: String)
    ensures
        r@ == object_text(poll_members(offset)),
{
    let mut kinds: Vec<String> = Vec::new();
    kinds.push("message".to_owned());
    assert(quoted(views(kinds@)) =~= seq![json_quote("message"@)]);
    let allowed = write_strings(&kinds);
    let w = ObjectWriter::new().number("timeout", LONG_POLL_TIMEOUT).member(
        "allowed_updates",
        allowed.as_str(),
    );
    let w = match offset {
        Some(n) => w.signed("offset", n),
        None => w,
    };
    assert(w@ =~= poll_members(offset));
    w.finish()
}

/// What became of a request for updates.
pub enum PollEvent {
    /// The service did not answer.
    NoAnswer,
    /// It answered, with this status and this body.
    Answer { status: u16, body: String },
}

/// How far the updates were read, and the pause after a failure, in seconds.
#[derive(Debug, Clone, Copy, PartialEq, Eq, Structural)]
pub struct PollState {
    pub offset: Option<i64>,
    pub backoff: u64,
}

/// What follows a request for updates.
#[derive(Debug)]
pub enum PollAction {
    /// Pause for this many seconds.
    Pause(u64),
    /// Handle these updates, each as JSON text.
    Handle(Vec<String>),
}

/// The contents of a [`PollAction`].
pub ghost enum PollActionView {
    Pause(int),
    Handle(Seq<Seq<char>>),
}

impl View for PollAction {
    type V = PollActionView;

    open spec fn view(&self) -> PollActionView {
        match self {
            PollAction::Pause(n) => PollActionView::Pause(*n as int),
            PollAction::Handle(v) => PollActionView::Handle(views(v@)),
        }
    }
}

/// Whether a status tells of success.
pub open spec fn is_success(status: u16) -> bool {
    200 <= status <= 299
}

/// Twice the pause, but no longer than the longest.
pub open spec fn longer_backoff(backoff: u64) -> u64 {
    if backoff as int * 2 <= MAX_BACKOFF {
        (backoff * 2) as u64
    } else {
        MAX_BACKOFF
    }
}

/// The updates in an answer.
pub open spec fn updates_in(body: Seq<char>) -> Seq<Seq<char>> {
    match member_at(body, "result"@) {
        Some(t) => match list_at(t) {
            Some(v) => v,
            None => Seq::empty(),
        },
        None => Seq::empty(),
    }
}

/// The ids of updates, where they have one.
pub open spec fn update_ids(updates: Seq<Seq<char>>) -> Seq<Option<int>> {
    updates.map_values(|u: Seq<char>| opt_i64_at(member_at(u, "update_id"@)))
}

/// How far the updates are read behind the last of the given ids.
pub open spec fn offset_behind(offset: Option<i64>, ids: Seq<Option<int>>) -> Option<i64>
    decreases ids.len(),
{
    if ids.len() == 0 {
        offset
    } else {
        match ids.last() {
            Some(id) => Some((id + 1) as i64),
            None => offset_behind(offset, ids.drop_last()),
        }
    }
}

/// Whether there is a number behind each of the given ids.
pub open spec fn ids_in_range(ids: Seq<Option<int>>) -> bool {
    forall|i: int| 0 <= i < ids.len() ==> (#[trigger] ids[i] matches Some(id) ==> id < i64::MAX)
}

/// How long the service asks to be left alone, in seconds.
pub open spec fn retry_after(body: Seq<char>) -> int {
    match inner_member_at(body, "parameters"@, "retry_after"@) {
        Some(t) => match u64_at(t) {
            Some(n) => n,
            None => 5,
        },
        None => 5,
    }
}

/// The state after a request for updates, and what follows it. A failure pauses
/// polling for a while that grows with each failure in a row.
pub open spec fn polled(s: PollState, status: Option<u16>, body: Seq<char>) -> (
    PollState,
    PollActionView,
) {
    let failed = (
        PollState { backoff: longer_backoff(s.backoff), ..s },
        PollActionView::Pause(s.backoff as int),
    );
    match status {
        None => failed,
        Some(status) => if status == 429 {
            (s, PollActionView::Pause(retry_after(body)))
        } else if !is_success(status) {
            failed
        } else if json_level(body) is None {
            failed
        } else {
            (
                PollState {
                    offset: offset_behind(s.offset, update_ids(updates_in(body))),
                    backoff: INITIAL_BACKOFF,
                },
                PollActionView::Handle(updates_in(body)),
            )
        },
    }
}

fn longer(backoff: u64) -> (r: u64)
    ensures
        r == longer_backoff(backoff),
{
    if backoff <= MAX_BACKOFF / 2 {
        backoff * 2
    } else {
        MAX_BACKOFF
    }
}

/// How far the updates are read behind the last of the given ids.
#[verifier::loop_isolation(false)]
pub fn advance_offset(offset: Option<i64>, ids: &Vec<Option<i64>>) -> (r: Option<i64>)
    requires
        forall|i: int|
            0 <= i < ids@.len() ==> (#[trigger] ids@[i] matches Some(id) ==> id < i64::MAX),
    ensures
        r == offset_behind(offset, id_views(ids@)),
{
    let ghost all = id_views(ids@);
    let mut r: Option<i64> = offset;
    let mut i: usize = 0;
    while i < ids.len()
        invariant
            i <= ids@.len(),
            r == offset_behind(offset, all.take(i as int)),
        decreases ids@.len() - i,
    {
        assert(all.take(i + 1).drop_last() =~= all.take(i as int));
        match ids[i] {
            Some(id) => {
                r = Some(id + 1);
            },
            None => {},
        }
        i = i + 1;
    }
    assert(all.take(i as int) =~= all);
    r
}

/// The ids as mathematical integers.
pub open spec fn id_views(ids: Seq<Option<i64>>) -> Seq<Option<int>> {
    ids.map_values(
        |o: Option<i64>|
            match o {
                Some(n) => Some(n as int),
                None => None,
            },
    )
}

/// The ids of updates, where they have one.
#[verifier::loop_isolation(false)]
fn ids_of(updates: &Vec<String>) -> (r: Vec<Option<i64>>)
    ensures
        id_views(r@) == update_ids(views(updates@)),
{
    let mut out: Vec<Option<i64>> = Vec::new();
    let mut i: usize = 0;
    while i < updates.len()
        invariant
            i <= updates@.len(),
            out@.len() == i,
            forall|k: int|
                0 <= k < i ==> id_views(out@)[k] == #[trigger] update_ids(views(updates@))[k],
        decreases updates@.len() - i,
    {
        let ghost before = id_views(out@);
        let id = opt_read_i64(read_member(updates[i].as_str(), "update_id"));
        out.push(id);
        assert(id_views(out@) =~= before.push(id_views(out@)[i as int]));
        i = i + 1;
    }
    assert(id_views(out@) =~= update_ids(views(updates@)));
    out
}

#[verifier::loop_isolation(false)]
fn all_in_range(ids: &Vec<Option<i64>>) -> (r: bool)
    ensures
        r == ids_in_range(id_views(ids@)),
        r ==> forall|i: int|
            0 <= i < ids@.len() ==> (#[trigger] ids@[i] matches Some(id) ==> id < i64::MAX),
{
    let ghost all = id_views(ids@);
    let mut i: usize = 0;
    while i < ids.len()
        invariant
            i <= ids@.len(),
            forall|k: int|
                0 <= k < i ==> (#[trigger] ids@[k] matches Some(id) ==> id < i64::MAX),
        decreases ids@.len() - i,
    {
        match ids[i] {
            Some(id) => {
                if id == i64::MAX {
                    assert(all[i as int] == Some(id as int));
                    return false;
                }
            },
            None => {},
        }
        i = i + 1;
    }
    assert forall|k: int| 0 <= k < all.len() implies (#[trigger] all[k] matches Some(id) ==> id
        < i64::MAX) by {
        let o = ids@[k];
    }
    true
}

/// Takes the outcome of a request for updates into account. There is no result,
/// and nothing changes, where an update has an id with no number behind it.
pub fn poll_step(state: &mut PollState, event: &PollEvent) -> (r: Option<PollAction>)
    ensures
        ({
            let (status, body) = match event {
                PollEvent::NoAnswer => (None::<u16>, Seq::<char>::empty()),
                PollEvent::Answer { status, body } => (Some(*status), body@),
            };
            match r {
                Some(action) => (*final(state), action@) == polled(*old(state), status, body),
                None => {
                    &&& *final(state) == *old(state)
                    &&& status matches Some(code) && is_success(code) && json_level(body) is Some
                    &&& !ids_in_range(update_ids(updates_in(body)))
                },
            }
        }),
{
    let backoff = state.backoff;
    let (status, body) = match event {
        PollEvent::NoAnswer => {
            state.backoff = longer(backoff);
            return Some(PollAction::Pause(backoff));
        },
        PollEvent::Answer { status, body } => (*status, body),
    };
    if status == 429 {
        let retry = match read_inner_member(body.as_str(), "parameters", "retry_after") {
            Some(t) => match read_u64(t.as_str()) {
                Some(n) => n,
                None => 5,
            },
            None => 5,
        };
        return Some(PollAction::Pause(retry));
    }
    if !(200 <= status && status <= 299) || !is_json(body.as_str()) {
        state.backoff = longer(backoff);
        return Some(PollAction::Pause(backoff));
    }
    let updates: Vec<String> = match read_member(body.as_str(), "result") {
        Some(t) => match read_list(t.as_str()) {
            Some(v) => v,
            None => Vec::new(),
        },
        None => Vec::new(),
    };
    assert(views(updates@) =~= updates_in(body@));
    let ids = ids_of(&updates);
    if !all_in_range(&ids) {
        return None;
    }
    state.offset = advance_offset(state.offset, &ids);
    state.backoff = INITIAL_BACKOFF;
    Some(PollAction::Handle(updates))
}

/// The pause after a failure never outgrows the longest, and a success resets
/// it.
pub proof fn backoff_is_bounded(s: PollState, status: Option<u16>, body: Seq<char>)
    requires
        INITIAL_BACKOFF <= s.backoff <= MAX_BACKOFF,
    ensures
        INITIAL_BACKOFF <= polled(s, status, body).0.backoff <= MAX_BACKOFF,
        polled(s, status, body).1 is Handle ==> polled(s, status, body).0.backoff == INITIAL_BACKOFF,
        polled(s, status, body).1 is Pause ==> polled(s, status, body).0.offset == s.offset,
{
}

/// A success moves the reading position behind the last update that has an id,
/// so that no update is read twice.
pub proof fn updates_are_read_once(offset: Option<i64>, ids: Seq<Option<int>>, i: int)
    requires
        ids_in_range(ids),
        forall|k: int| 0 <= k < ids.len() ==> (#[trigger] ids[k] matches Some(id) ==> i64::MIN <= id),
        forall|a: int, b: int|
            0 <= a < b < ids.len() ==> (#[trigger] ids[a] matches Some(x) ==> (
            #[trigger] ids[b] matches Some(y) ==> x <= y)),
        0 <= i < ids.len(),
        ids[i] is Some,
    ensures
        offset_behind(offset, ids) matches Some(n) && ids[i]->0 < n,
    decreases ids.len(),
{
    let last = ids.len() - 1;
    if ids.last() is None {
        let rest = ids.drop_last();
        assert forall|k: int| 0 <= k < rest.len() implies (#[trigger] rest[k] matches Some(id)
            ==> i64::MIN <= id < i64::MAX) by {
            assert(rest[k] == ids[k]);
        }
        assert forall|a: int, b: int| 0 <= a < b < rest.len() implies (
        #[trigger] rest[a] matches Some(x) ==> (#[trigger] rest[b] matches Some(y) ==> x <= y)) by {
            assert(rest[a] == ids[a] && rest[b] == ids[b]);
        }
        updates_are_read_once(offset, rest, i);
    } else {
        assert(ids[last] == ids.last());
        if i < last {
            assert(ids[i] is Some && ids[last] is Some);
        }
    }
}

// ---------------------------------------------------------------------------
// Sending
// ---------------------------------------------------------------------------

/// The body of the request that sends one message to the chat.
pub open spec fn send_text(chat_id: i64, text: Seq<char>) -> Seq<char> {
    object_text(seq![("chat_id"@, signed_decimal(chat_id as int)), ("text"@, json_quote(text))])
}

/// The body of the request that sends one message to the chat.
pub fn send_body(chat_id: i64, text: &str) -> (r: String)
    ensures
        r@ == send_text(chat_id, text@),
{
    let w = ObjectWriter::new().signed("chat_id", chat_id).string("text", text);
    assert(w@ =~= seq![
        ("chat_id"@, signed_decimal(chat_id as int)),
        ("text"@, json_quote(text@)),
    ]);
    w.finish()
}

/// The id of the last message that was sent, after the service answered.
pub open spec fn last_sent(last: Option<int>, status: u16, body: Seq<char>) -> Option<int> {
    if is_success(status) {
        match opt_i64_at(inner_member_at(body, "result"@, "message_id"@)) {
            Some(id) => Some(id),
            None => last,
        }
    } else {
        last
    }
}

/// An id as a mathematical integer.
pub open spec fn id_view(o: Option<i64>) -> Option<int> {
    match o {
        Some(n) => Some(n as int),
        None => None,
    }
}

/// The id of the last message that was sent, after the service answered with
/// this status and this body.
pub fn after_send(last: Option<i64>, status: u16, body: &str) -> (r: Option<i64>)
    ensures
        id_view(r) == last_sent(id_view(last), status, body@),
{
    if 200 <= status && status <= 299 {
        match opt_read_i64(read_inner_member(body, "result", "message_id")) {
            Some(id) => Some(id),
            None => last,
        }
    } else {
        last
    }
}

/// What the service says of the bot.
#[derive(Debug)]
pub enum BotCheck {
    /// It knows the bot, under this name.
    Known(String),
    /// It refuses the token, for this reason.
    Refused(String),
    /// What it says is no JSON.
    NotJson,
}

/// What an answer of the service says of the bot.
pub open spec fn says(c: BotCheck, body: Seq<char>) -> bool {
    let ok = match member_at(body, "ok"@) {
        Some(t) => bool_at(t),
        None => None,
    };
    if json_level(body) is None {
        c is NotJson
    } else if ok != Some(true) {
        c matches BotCheck::Refused(why) && why@ == (match opt_string_at(
            member_at(body, "description"@),
        ) {
            Some(s) => s,
            None => "unknown error"@,
        })
    } else {
        c matches BotCheck::Known(name) && name@ == (match opt_string_at(
            inner_member_at(body, "result"@, "username"@),
        ) {
            Some(s) => s,
            None => "unknown"@,
        })
    }
}

/// Reads what the service says of the bot.
pub fn validate_token(body: &str) -> (r: BotCheck)
    ensures
        says(r, body@),
{
    if !is_json(body) {
        return BotCheck::NotJson;
    }
    let ok = match read_member(body, "ok") {
        Some(t) => read_bool(t.as_str()),
        None => None,
    };
    let accepted = match ok {
        Some(b) => b,
        None => false,
    };
    if !accepted {
        match opt_read_string(read_member(body, "description")) {
            Some(s) => BotCheck::Refused(s),
            None => BotCheck::Refused("unknown error".to_owned()),
        }
    } else {
        match opt_read_string(read_inner_member(body, "result", "username")) {
            Some(s) => BotCheck::Known(s),
            None => BotCheck::Known("unknown".to_owned()),
        }
    }
}

// ---------------------------------------------------------------------------
// The bridge
// ---------------------------------------------------------------------------

/// A bridge between a chat and the agents.
pub struct TelegramBridge {
    token: String,
    chat_id: i64,
    name: String,
    default_agent: String,
}

/// The contents of a [`TelegramBridge`].
pub ghost struct BridgeView {
    pub token: Seq<char>,
    pub chat_id: i64,
    pub name: Seq<char>,
    pub default_agent: Seq<char>,
}

impl View for TelegramBridge {
    type V = BridgeView;

    closed spec fn view(&self) -> BridgeView {
        BridgeView {
            token: self.token@,
            chat_id: self.chat_id,
            name: self.name@,
            default_agent: self.default_agent@,
        }
    }
}

/// A message from the chat to an agent: the agent, and the envelope.
#[derive(Debug)]
pub struct Inbound {
    pub target: String,
    pub subject: String,
    pub stream: String,
    pub envelope: Envelope,
}

/// The envelope that a message in the chat of the bridge becomes, and the agent
/// that it is for.
pub open spec fn inbound_of(
    b: BridgeView,
    refs: RefView,
    update: Seq<char>,
    id: Seq<char>,
    ts: u64,
) -> Option<(Seq<char>, EnvelopeView)> {
    match message_in(update) {
        Some(m) => if m.chat_id == b.chat_id {
            let (target, text) = target_of(m.text, b.default_agent);
            let reference = match m.reply_to_message_id {
                Some(n) => if refs.map.contains_key(n as i64) {
                    Some(refs.map[n as i64])
                } else {
                    None
                },
                None => None,
            };
            Some(
                (
                    target,
                    EnvelopeView {
                        id,
                        from: subject_text(b.name),
                        to: None,
                        reference,
                        kind: KindView::Chat(text),
                        ts: ts as nat,
                    },
                ),
            )
        } else {
            None
        },
        None => None,
    }
}

/// What the chat shows of a payload, and the id of the envelope in it.
pub open spec fn outbound_of(payload: Seq<char>) -> Option<(Seq<char>, Seq<char>)> {
    match decoded(payload) {
        Ok(e) => match display_text(e.kind) {
            Some(text) => Some(("["@ + after_last(e.from, '.') + "] "@ + text, e.id)),
            None => None,
        },
        Err(_) => None,
    }
}

/// The entry of the bridge in the directory of agents, as JSON text.
pub open spec fn record_text(b: BridgeView, now_ms: u64) -> Seq<char> {
    object_text(
        seq![
            ("name"@, json_quote(b.name)),
            ("id"@, json_quote("telegram-"@ + signed_decimal(b.chat_id as int))),
            ("transport"@, json_quote("nats"@)),
            ("endpoint"@, json_quote(b.name)),
            ("capabilities"@, list_text(Seq::empty())),
            ("permanent"@, bool_text(true)),
            ("registered_at"@, decimal(now_ms as nat)),
            ("last_seen"@, decimal(now_ms as nat)),
        ],
    )
}

impl TelegramBridge {
    /// A bridge between the chat `chat_id`, reached with the bot `token`, and
    /// the agents, to which it is known as `name`.
    pub fn new(token: String, chat_id: i64, name: String, default_agent: String) -> (r:
        TelegramBridge)
        ensures
            r@ == (BridgeView {
                token: token@,
                chat_id,
                name: name@,
                default_agent: default_agent@,
            }),
    {
        TelegramBridge { token, chat_id, name, default_agent }
    }

    /// The address of the service for the bot.
    pub fn api_url(&self) -> (r: String)
        ensures
            r@ == "https://api.telegram.org/bot"@ + self@.token,
    {
        "https://api.telegram.org/bot".to_owned().concat(self.token.as_str())
    }

    /// The subject of the messages to the chat.
    pub fn own_subject(&self) -> (r: String)
        ensures
            r@ == subject_text(self@.name),
    {
        subject(self.name.as_str())
    }

    /// Who messages from the chat come from.
    pub fn from_identity(&self) -> (r: String)
        ensures
            r@ == subject_text(self@.name),
    {
        self.own_subject()
    }

    /// The chat.
    pub fn chat_id(&self) -> (r: i64)
        ensures
            r == self@.chat_id,
    {
        self.chat_id
    }

    /// The name under which agents know the chat.
    pub fn name(&self) -> (r: String)
        ensures
            r@ == self@.name,
    {
        self.name.clone()
    }

    /// The entry of the bridge in the directory of agents.
    pub fn kv_record(&self, now_ms: u64) -> (r: String)
        ensures
            r@ == record_text(self@, now_ms),
    {
        let id = "telegram-".to_owned().concat(signed_decimal_of(self.chat_id).as_str());
        let none: Vec<String> = Vec::new();
        let capabilities = write_strings(&none);
        assert(quoted(views(none@)) =~= Seq::<Seq<char>>::empty());
        let w = ObjectWriter::new().string("name", self.name.as_str()).string(
            "id",
            id.as_str(),
        ).string("transport", "nats").string("endpoint", self.name.as_str()).member(
            "capabilities",
            capabilities.as_str(),
        ).boolean("permanent", true).number("registered_at", now_ms).number("last_seen", now_ms);
        assert(w@ =~= seq![
            ("name"@, json_quote(self@.name)),
            ("id"@, json_quote("telegram-"@ + signed_decimal(self@.chat_id as int))),
            ("transport"@, json_quote("nats"@)),
            ("endpoint"@, json_quote(self@.name)),
            ("capabilities"@, list_text(Seq::empty())),
            ("permanent"@, bool_text(true)),
            ("registered_at"@, decimal(now_ms as nat)),
            ("last_seen"@, decimal(now_ms as nat)),
        ]);
        w.finish()
    }

    /// What an update of the service becomes: a message in the chat of this
    /// bridge becomes a message to an agent, as an answer where it replies to
    /// one that is remembered.
    pub fn inbound(&self, update: &str, refs: &RefMap, id: String, ts: u64) -> (r: Option<Inbound>)
        requires
            refs.wf(),
        ensures
            match r {
                Some(m) => inbound_of(self@, refs@, update@, id@, ts) == Some(
                    (m.target@, m.envelope@),
                ) && m.subject@ == subject_text(m.target@) && m.stream@ == stream_text(m.target@),
                None => inbound_of(self@, refs@, update@, id@, ts) is None,
            },
    {
        let parsed = match parse_update(update) {
            Some(p) => p,
            None => {
                return None;
            },
        };
        // Only messages from the chat of this bridge count.
        if parsed.chat_id != self.chat_id {
            return None;
        }
        let (target, text) = parse_target(parsed.text.as_str(), self.default_agent.as_str());
        let reference = match parsed.reply_to_message_id {
            Some(n) => refs.get(n),
            None => None,
        };
        let envelope = Envelope::chat(
            id,
            ts,
            self.from_identity().as_str(),
            text.as_str(),
        ).maybe_with_ref(reference);
        Some(
            Inbound {
                subject: subject(target.as_str()),
                stream: stream_name(target.as_str()),
                target,
                envelope,
            },
        )
    }
}

/// What the chat shows of a payload from an agent, and the id of the envelope
/// in it.
pub fn outbound(payload: &[u8]) -> (r: Option<(String, String)>)
    ensures
        match r {
            Some((text, id)) => outbound_of(utf8_lossy(payload@)) == Some((text@, id@)),
            None => outbound_of(utf8_lossy(payload@)) is None,
        },
{
    let text = lossy_text(payload);
    show_payload(text.as_str())
}

/// What the chat shows of a payload that was read as text, and the id of the
/// envelope in it.
pub fn show_payload(payload: &str) -> (r: Option<(String, String)>)
    ensures
        match r {
            Some((text, id)) => outbound_of(payload@) == Some((text@, id@)),
            None => outbound_of(payload@) is None,
        },
{
    match Envelope::decode(payload) {
        Ok(env) => match extract_display_text(&env.kind) {
            Some(text) => {
                let sender = tail_after_last(env.from.as_str(), '.');
                let display = "[".to_owned().concat(sender.as_str()).concat("] ").concat(
                    text.as_str(),
                );
                Some((display, env.id))
            },
            None => None,
        },
        Err(_) => None,
    }
}

/// A reply in the chat to a message that was just shown becomes an answer to
/// the envelope behind that message.
pub proof fn replies_are_answers(
    b: BridgeView,
    refs: RefView,
    shown: i64,
    rz_id: Seq<char>,
    update: Seq<char>,
    id: Seq<char>,
    ts: u64,
)
    requires
        refs_ok(refs),
        message_in(update) matches Some(m) && m.chat_id == b.chat_id && m.reply_to_message_id
            == Some(shown as int),
    ensures
        inbound_of(b, remembered(refs, shown, rz_id), update, id, ts) matches Some((_, e))
            && e.reference == Some(rz_id),
{
}

/// Nothing from another chat reaches an agent.
pub proof fn other_chats_are_ignored(
    b: BridgeView,
    refs: RefView,
    update: Seq<char>,
    id: Seq<char>,
    ts: u64,
)
    requires
        message_in(update) matches Some(m) && m.chat_id != b.chat_id,
    ensures
        inbound_of(b, refs, update, id, ts) is None,
{
}

// ---------------------------------------------------------------------------
// Laws
// ---------------------------------------------------------------------------

/// What the chat shows of a chat message is its whole text, whatever its
/// length; so it is with errors, timers and states, behind what tells them
/// apart. Pings, pongs and greetings are not shown.
pub proof fn messages_are_shown_whole(a: Seq<char>, b: Seq<char>)
    ensures
        display_text(KindView::Chat(a)) == Some(a),
        display_text(KindView::Error(a)) == Some("Error: "@ + a),
        display_text(KindView::Timer(a)) == Some("Timer: "@ + a),
        display_text(KindView::Status(a, b)) == Some("["@ + a + "] "@ + b),
        display_text(KindView::ToolCall(a, b)) == Some("(calling tool: "@ + a + ")"@),
        display_text(KindView::Ping) is None,
        display_text(KindView::Pong) is None,
        display_text(KindView::Hello(a)) is None,
{
}

/// Of a tool result and of a task the chat shows a start: all of it where it
/// takes no more than two hundred bytes, and else as many of its characters as
/// these hold.
pub proof fn long_results_are_cut(name: Seq<char>, text: Seq<char>, body: Seq<char>) -> (start: Seq<
    char,
>)
    ensures
        display_text(KindView::ToolResult(name, text, false)) == Some("Tool result: "@ + start),
        display_text(KindView::ToolResult(name, text, true)) == Some("Tool error: "@ + start),
        display_text(KindView::Delegate(text, body)) == Some("(delegating: "@ + start + ")"@),
        start.len() <= text.len(),
        start == text.take(start.len() as int),
        byte_len(start) <= 200,
        byte_len(text) <= 200 ==> start == text,
        start != text ==> byte_len(text.take(start.len() as int + 1)) > 200,
{
    reveal_strlit("Tool result");
    reveal_strlit("Tool result: ");
    reveal_strlit("Tool error");
    reveal_strlit("Tool error: ");
    reveal_strlit(": ");
    assert("Tool result"@ + ": "@ =~= "Tool result: "@);
    assert("Tool error"@ + ": "@ =~= "Tool error: "@);
    fitting_is_longest_prefix(text, 200);
    let start = fitting(text, 200);
    assert(start.len() == fit(text, 200));
    start
}

/// A chat message from an agent is sent to the chat with the last part of the
/// name of its sender and with its whole text: put together again, the parts
/// that it is sent in hold both, but for white space between the parts.
pub proof fn chat_reaches_the_chat_whole(
    payload: Seq<char>,
    e: EnvelopeView,
    text: Seq<char>,
) -> (gaps: Seq<Seq<char>>)
    requires
        decoded(payload) == Ok::<EnvelopeView, DecodeError>(e),
        e.kind == KindView::Chat(text),
    ensures
        outbound_of(payload) matches Some((shown, id)) && {
            &&& id == e.id
            &&& shown == "["@ + after_last(e.from, '.') + "] "@ + text
            &&& gaps.len() == message_parts(shown).len()
            &&& forall|i: int| 0 <= i < gaps.len() ==> all_white(#[trigger] gaps[i])
            &&& with_gaps(message_parts(shown), gaps) == "["@ + after_last(e.from, '.') + "] "@
                + text
        },
{
    messages_hold_the_text("["@ + after_last(e.from, '.') + "] "@ + text)
}

/// What is sent to the chat for a message of any kind names its sender by the
/// last part of its name, and goes by the id of the message. Nothing is sent
/// for what is no message, or not for people.
pub proof fn shown_messages_name_their_sender(payload: Seq<char>)
    ensures
        decoded(payload) is Err ==> outbound_of(payload) is None,
        decoded(payload) matches Ok(e) ==> match display_text(e.kind) {
            Some(text) => outbound_of(payload) == Some(
                ("["@ + after_last(e.from, '.') + "] "@ + text, e.id),
            ),
            None => outbound_of(payload) is None,
        },
{
}

/// A message of the form `@agent text` is for that agent, without the agent and
/// the white space behind it. Every other message is for the default agent, as
/// it is.
pub proof fn routed_messages_keep_their_text(
    agent: Seq<char>,
    gap: Seq<char>,
    rest: Seq<char>,
    default_agent: Seq<char>,
)
    requires
        agent.len() > 0,
        forall|i: int| 0 <= i < agent.len() ==> #[trigger] agent[i] != ' ',
        all_white(gap),
        rest.len() > 0,
        !white_space(rest[0]),
    ensures
        target_of("@"@ + agent + " "@ + gap + rest, default_agent) == (agent, rest),
{
    reveal_strlit("@");
    reveal_strlit(" ");
    let text = "@"@ + agent + " "@ + gap + rest;
    let tail = text.skip(1);
    assert(text.take(1) =~= "@"@);
    let space = agent.len() as int;
    assert forall|k: int| 0 <= k < space implies tail[k] != ' ' by {
        assert(tail[k] == agent[k]);
    }
    assert(tail[space] == ' ');
    lemma_first_pos(tail, ' ', space);
    assert(tail.take(space) =~= agent);
    let white = " "@ + gap;
    assert(tail.skip(space) =~= white + rest);
    assert(all_white(white)) by {
        assert forall|i: int| 0 <= i < white.len() implies white_space(#[trigger] white[i]) by {
            if i > 0 {
                assert(white[i] == gap[i - 1]);
            }
        }
    }
    lemma_trim_white(white, rest);
}

proof fn lemma_trim_white(white: Seq<char>, rest: Seq<char>)
    requires
        all_white(white),
        rest.len() > 0,
        !white_space(rest[0]),
    ensures
        trim_start(white + rest) == rest,
    decreases white.len(),
{
    let s = white + rest;
    if white.len() == 0 {
        assert(s =~= rest);
    } else {
        assert(white_space(white[0]));
        assert(s.skip(1) =~= white.skip(1) + rest);
        assert(all_white(white.skip(1)));
        lemma_trim_white(white.skip(1), rest);
    }
}

/// A message that names no agent is for the default agent, whole and as it is:
/// one that does not start with the sign, one without a space behind the name,
/// one without a name, and one that says nothing.
pub proof fn other_messages_go_to_the_default_agent(text: Seq<char>, default_agent: Seq<char>)
    ensures
        !has_prefix(text, "@"@) ==> target_of(text, default_agent) == (default_agent, text),
        (forall|i: int| 0 <= i < text.len() ==> #[trigger] text[i] != ' ') ==> target_of(
            text,
            default_agent,
        ) == (default_agent, text),
        has_prefix(text, "@ "@) ==> target_of(text, default_agent) == (default_agent, text),
        target_of(text, default_agent) == (default_agent, text) || {
            let (agent, msg) = target_of(text, default_agent);
            &&& agent.len() > 0
            &&& msg.len() > 0
            &&& has_prefix(text, "@"@ + agent + " "@)
            &&& msg.len() < text.len()
            &&& text.skip(text.len() - msg.len()) == msg
        },
{
    reveal_strlit("@");
    reveal_strlit(" ");
    reveal_strlit("@ ");
    if let Some(rest) = after_prefix(text, "@"@) {
        lemma_first_pos_bounds(rest, ' ');
        let space = first_pos(rest, ' ');
        assert(text =~= "@"@ + rest);
        if forall|i: int| 0 <= i < text.len() ==> #[trigger] text[i] != ' ' {
            if space < rest.len() {
                assert(text[space + 1] == rest[space]);
            }
        }
        if has_prefix(text, "@ "@) {
            assert(text.take(2)[1] == ' ');
            assert(rest[0] == ' ');
        }
        let agent = rest.take(space);
        let msg = trim_start(rest.skip(space));
        if space < rest.len() && agent.len() > 0 && msg.len() > 0 {
            let head = "@"@ + agent + " "@;
            assert(text.take(head.len() as int) =~= head);
            lemma_trim_start_shorter(rest.skip(space));
            let gap = lemma_trimmed_gap(rest.skip(space));
            assert(rest =~= agent + rest.skip(space));
            assert(rest =~= agent + gap + msg);
            assert(text.skip(text.len() - msg.len()) =~= msg);
        }
    } else if has_prefix(text, "@ "@) {
        assert(text.take(1) =~= "@"@) by {
            assert(text.take(2)[0] == '@');
        }
    }
}

/// A message from the chat goes to the agent that it is for, from the subject
/// of the bridge, with what it says there, and as an answer to what stands
/// behind the message that it replies to: to nothing where it replies to none,
/// or to one that is not remembered.
pub proof fn messages_from_the_chat_are_passed_on(
    b: BridgeView,
    refs: RefView,
    update: Seq<char>,
    id: Seq<char>,
    ts: u64,
    m: ParsedView,
)
    requires
        message_in(update) == Some(m),
        m.chat_id == b.chat_id,
    ensures
        inbound_of(b, refs, update, id, ts) matches Some((target, e)) && {
            &&& (target, e.kind->Chat_0) == target_of(m.text, b.default_agent)
            &&& e.kind is Chat
            &&& e.id == id
            &&& e.from == "agent."@ + b.name
            &&& e.to is None
            &&& e.ts == ts
            &&& m.reply_to_message_id is None ==> e.reference is None
            &&& m.reply_to_message_id matches Some(n) ==> {
                &&& refs.map.contains_key(n as i64) ==> e.reference == Some(refs.map[n as i64])
                &&& !refs.map.contains_key(n as i64) ==> e.reference is None
            }
            &&& writable(e)
        },
{
    let (target, e) = inbound_of(b, refs, update, id, ts)->0;
    messages_are_writable(e);
}

/// Nothing is passed on from an update that holds no text message, or one of
/// another chat.
pub proof fn only_messages_of_the_chat_are_passed_on(
    b: BridgeView,
    refs: RefView,
    update: Seq<char>,
    id: Seq<char>,
    ts: u64,
)
    ensures
        inbound_of(b, refs, update, id, ts) is Some <==> message_in(update) is Some && message_in(
            update,
        )->0.chat_id == b.chat_id,
{
}

/// The message that an update holds is what stands in it: the text, the chat,
/// and the message that it replies to, where there is one. An update without a
/// text or a chat holds none.
pub proof fn messages_are_read_from_their_places(update: Seq<char>)
    ensures
        message_in(update) matches Some(m) ==> {
            let message = member_at(update, "message"@);
            &&& message is Some
            &&& member_at(message->0, "text"@) is Some
            &&& string_at(member_at(message->0, "text"@)->0) == Some(m.text)
            &&& inner_member_at(message->0, "chat"@, "id"@) is Some
            &&& i64_at(inner_member_at(message->0, "chat"@, "id"@)->0) == Some(m.chat_id)
            &&& match inner_member_at(message->0, "reply_to_message"@, "message_id"@) {
                Some(t) => m.reply_to_message_id == i64_at(t),
                None => m.reply_to_message_id is None,
            }
        },
        message_in(update) is None ==> {
            let message = member_at(update, "message"@);
            ||| message is None
            ||| member_at(message->0, "text"@) is None
            ||| string_at(member_at(message->0, "text"@)->0) is None
            ||| inner_member_at(message->0, "chat"@, "id"@) is None
            ||| i64_at(inner_member_at(message->0, "chat"@, "id"@)->0) is None
        },
{
}

/// A text is broken behind the last line break that fits, even where a space
/// stands behind that; behind the last space that fits where no line break
/// does; and in between words only where there is neither.
pub proof fn texts_break_at_lines_before_spaces(s: Seq<char>, n: int)
    requires
        byte_len(s) > 4096,
        n == break_pos(s),
    ensures
        0 < n < s.len(),
        byte_len(s.take(n)) <= 4096,
        s[n - 1] == '\n' || s[n - 1] == ' ' || byte_len(s.take(n + 1)) > 4096,
        forall|i: int|
            n <= i < s.len() && byte_len(s.take(i + 1)) <= 4096 ==> #[trigger] s[i] != '\n',
        s[n - 1] != '\n' ==> forall|i: int|
            0 <= i < s.len() && byte_len(s.take(i + 1)) <= 4096 ==> #[trigger] s[i] != '\n',
        s[n - 1] != '\n' ==> forall|i: int|
            n <= i < s.len() && byte_len(s.take(i + 1)) <= 4096 ==> #[trigger] s[i] != ' ',
{
    let max = MAX_MESSAGE_LEN as nat;
    let head = fitting(s, max);
    fitting_is_longest_prefix(s, max);
    lemma_break_pos(s);
    lemma_last_pos_bounds(head, '\n');
    lemma_last_pos_bounds(head, ' ');
    let k = head.len() as int;
    assert(k == fit(s, max));
    if n == s.len() {
        assert(s.take(n) =~= s);
    }
    assert(s[n - 1] == head[n - 1]);
    assert forall|i: int| 0 <= i < s.len() && byte_len(s.take(i + 1)) <= 4096 implies i < k
        && #[trigger] s[i] == head[i] by {
        if i >= k {
            let more = s.take(i + 1);
            assert(more =~= s.take(k + 1) + more.skip(k + 1));
            lemma_byte_len_concat(s.take(k + 1), more.skip(k + 1));
        }
    }
}

/// A text that fits into one message is sent as one, and as it is.
pub proof fn short_texts_are_sent_whole(s: Seq<char>)
    requires
        byte_len(s) <= 4096,
    ensures
        message_parts(s) == seq![s],
{
}

/// A request for updates waits for thirty seconds, asks for messages only, and
/// tells from where on updates are wanted, where that is known.
pub proof fn polls_ask_from_the_offset_on(offset: Option<i64>)
    ensures
        ({
            let m = poll_members(offset);
            &&& lookup(m, "timeout"@) == Some(decimal(30))
            &&& lookup(m, "allowed_updates"@) == Some(list_text(seq![json_quote("message"@)]))
            &&& offset matches Some(n) ==> lookup(m, "offset"@) == Some(signed_decimal(n as int))
            &&& offset is None ==> lookup(m, "offset"@) is None
        }),
{
    reveal_strlit("timeout");
    reveal_strlit("allowed_updates");
    reveal_strlit("offset");
    let m = poll_members(offset);
    assert("timeout"@.len() == 7 && "allowed_updates"@.len() == 15 && "offset"@.len() == 6);
    lemma_lookup(m, "timeout"@, 0);
    lemma_lookup(m, "allowed_updates"@, 1);
    lemma_lookup(m, "offset"@, 2);
}

/// A request that was answered well hands the updates in the answer on, all of
/// them and in their order, moves behind the last of them, and resets the pause
/// to one second.
pub proof fn updates_are_handed_on(s: PollState, status: u16, body: Seq<char>)
    requires
        200 <= status < 300,
        json_level(body) is Some,
    ensures
        ({
            let (after, action) = polled(s, Some(status), body);
            let list = match member_at(body, "result"@) {
                Some(t) => list_at(t),
                None => None,
            };
            &&& after.backoff == 1
            &&& action is Handle
            &&& list matches Some(v) ==> action->Handle_0 == v
            &&& list is None ==> action->Handle_0.len() == 0 && after.offset == s.offset
            &&& action->Handle_0.len() == 0 ==> after.offset == s.offset
            &&& action->Handle_0.len() > 0 ==> {
                let last = member_at(action->Handle_0.last(), "update_id"@);
                last is Some && i64_at(last->0) is Some && i64_at(last->0)->0 < i64::MAX
                    && i64::MIN <= i64_at(last->0)->0 ==> after.offset is Some && after.offset->0
                    == i64_at(last->0)->0 + 1
            }
        }),
{
    assert(status != 429);
    let updates = updates_in(body);
    let ids = update_ids(updates);
    if updates.len() > 0 {
        assert(ids.last() == opt_i64_at(member_at(updates.last(), "update_id"@)));
    }
}

/// A request that failed, for whatever reason but that the service asks to be
/// left alone, is made again after the pause; the next pause is twice as long,
/// up to a minute, and nothing is read.
pub proof fn failures_pause_longer_each_time(s: PollState, status: Option<u16>, body: Seq<char>)
    requires
        status matches Some(code) ==> code != 429 && (code < 200 || code >= 300 || json_level(
            body,
        ) is None),
    ensures
        ({
            let (after, action) = polled(s, status, body);
            &&& action == PollActionView::Pause(s.backoff as int)
            &&& after.offset == s.offset
            &&& s.backoff <= 30 ==> after.backoff == s.backoff * 2
            &&& s.backoff > 30 ==> after.backoff == 60
        }),
{
}

/// Where the service asks to be left alone, polling pauses for as long as it
/// says, or for five seconds, and nothing else changes.
pub proof fn service_sets_the_pause(s: PollState, body: Seq<char>)
    ensures
        ({
            let (after, action) = polled(s, Some(429), body);
            let told = match inner_member_at(body, "parameters"@, "retry_after"@) {
                Some(t) => u64_at(t),
                None => None,
            };
            &&& after == s
            &&& told matches Some(n) ==> action == PollActionView::Pause(n)
            &&& told is None ==> action == PollActionView::Pause(5)
        }),
{
}

/// A message to the chat names the chat and holds its whole text.
pub proof fn sent_messages_hold_their_text(chat_id: i64, text: Seq<char>) -> (m: Seq<
    (Seq<char>, Seq<char>),
>)
    ensures
        send_text(chat_id, text) == object_text(m),
        lookup(m, "chat_id"@) == Some(signed_decimal(chat_id as int)),
        lookup(m, "text"@) == Some(json_quote(text)),
{
    reveal_strlit("chat_id");
    reveal_strlit("text");
    let m = seq![("chat_id"@, signed_decimal(chat_id as int)), ("text"@, json_quote(text))];
    assert("chat_id"@.len() == 7 && "text"@.len() == 4);
    lemma_lookup(m, "chat_id"@, 0);
    lemma_lookup(m, "text"@, 1);
    m
}

/// The last message that was sent is the one that the service tells of, where
/// it took it and tells; else it stays what it was.
pub proof fn last_sent_message_is_the_one_taken(last: Option<int>, status: u16, body: Seq<char>)
    ensures
        ({
            let told = match inner_member_at(body, "result"@, "message_id"@) {
                Some(t) => i64_at(t),
                None => None,
            };
            &&& 200 <= status < 300 && told is Some ==> last_sent(last, status, body) == told
            &&& !(200 <= status < 300) || told is None ==> last_sent(last, status, body) == last
        }),
{
}

/// The entry of the bridge in the directory of agents gives its name, under
/// which it is reached on the hub, and the chat; it is permanent, and just seen.
pub proof fn record_describes_the_bridge(b: BridgeView, now_ms: u64) -> (m: Seq<
    (Seq<char>, Seq<char>),
>)
    ensures
        record_text(b, now_ms) == object_text(m),
        lookup(m, "name"@) == Some(json_quote(b.name)),
        lookup(m, "id"@) == Some(json_quote("telegram-"@ + signed_decimal(b.chat_id as int))),
        lookup(m, "transport"@) == Some(json_quote("nats"@)),
        lookup(m, "endpoint"@) == Some(json_quote(b.name)),
        lookup(m, "capabilities"@) == Some(list_text(Seq::empty())),
        lookup(m, "permanent"@) == Some("true"@),
        lookup(m, "registered_at"@) == Some(decimal(now_ms as nat)),
        lookup(m, "last_seen"@) == Some(decimal(now_ms as nat)),
{
    reveal_strlit("name");
    reveal_strlit("id");
    reveal_strlit("transport");
    reveal_strlit("endpoint");
    reveal_strlit("capabilities");
    reveal_strlit("permanent");
    reveal_strlit("registered_at");
    reveal_strlit("last_seen");
    let m = seq![
        ("name"@, json_quote(b.name)),
        ("id"@, json_quote("telegram-"@ + signed_decimal(b.chat_id as int))),
        ("transport"@, json_quote("nats"@)),
        ("endpoint"@, json_quote(b.name)),
        ("capabilities"@, list_text(Seq::empty())),
        ("permanent"@, bool_text(true)),
        ("registered_at"@, decimal(now_ms as nat)),
        ("last_seen"@, decimal(now_ms as nat)),
    ];
    assert("name"@.len() == 4);
    assert("id"@.len() == 2);
    assert("transport"@.len() == 9 && "transport"@[0] == 't');
    assert("endpoint"@.len() == 8);
    assert("capabilities"@.len() == 12);
    assert("permanent"@.len() == 9 && "permanent"@[0] == 'p');
    assert("registered_at"@.len() == 13);
    assert("last_seen"@.len() == 9 && "last_seen"@[0] == 'l');
    lemma_lookup(m, "name"@, 0);
    lemma_lookup(m, "id"@, 1);
    lemma_lookup(m, "transport"@, 2);
    lemma_lookup(m, "endpoint"@, 3);
    lemma_lookup(m, "capabilities"@, 4);
    lemma_lookup(m, "permanent"@, 5);
    lemma_lookup(m, "registered_at"@, 6);
    lemma_lookup(m, "last_seen"@, 7);
    m
}

/// What the service says of the bot: that it knows it if and only if it says
/// so, under the name that it gives; else that it refuses it, for the reason
/// that it gives.
pub proof fn bot_is_known_where_the_service_says_so(c: BotCheck, body: Seq<char>)
    requires
        says(c, body),
    ensures
        ({
            let accepted = member_at(body, "ok"@) is Some && bool_at(member_at(body, "ok"@)->0)
                == Some(true);
            let name = inner_member_at(body, "result"@, "username"@);
            let reason = member_at(body, "description"@);
            &&& json_level(body) is None <==> c is NotJson
            &&& json_level(body) is Some ==> (c is Known <==> accepted)
            &&& c matches BotCheck::Known(n) ==> {
                &&& name is Some && string_at(name->0) is Some ==> Some(n@) == string_at(name->0)
                &&& name is None || string_at(name->0) is None ==> n@ == "unknown"@
            }
            &&& c matches BotCheck::Refused(why) ==> {
                &&& reason is Some && string_at(reason->0) is Some ==> Some(why@) == string_at(
                    reason->0,
                )
                &&& reason is None || string_at(reason->0) is None ==> why@ == "unknown error"@
            }
        }),
{
}

/// No more than a hundred messages are ever remembered, and each with its place
/// in the order in which they came.
pub proof fn remembered_messages_have_their_place(r: RefMap, id: i64)
    requires
        r.wf(),
    ensures
        r@.map.len() <= 100,
        r@.order.len() <= 100,
        r@.map.contains_key(id) ==> r@.order.contains(id),
{
}

/// While there is room, no message is forgotten for a new one, and the order is
/// that in which they came.
pub proof fn messages_are_kept_while_there_is_room(v: RefView, tg_msg_id: i64, rz_id: Seq<char>)
    requires
        v.order.len() < 100,
    ensures
        remembered(v, tg_msg_id, rz_id).order == v.order.push(tg_msg_id),
        remembered(v, tg_msg_id, rz_id).map == v.map.insert(tg_msg_id, rz_id),
{
}

/// The bridge gives its signs of life often enough to be taken for alive.
pub proof fn living_bridges_are_not_stale(e: EntryView, now_ms: u64)
    requires
        now_ms <= e.last_seen + KV_REFRESH_SECS * 1000,
    ensures
        !stale(e, now_ms),
        KV_REFRESH_SECS == 20,
{
}

/// How far the updates are read is one behind the last id that there is,
/// whatever came before it; without any id, nothing changes.
pub proof fn reading_moves_behind_the_last_id(offset: Option<i64>, ids: Seq<Option<int>>, id: int)
    requires
        i64::MIN <= id < i64::MAX,
    ensures
        offset_behind(offset, ids.push(Some(id))) == Some((id + 1) as i64),
        offset_behind(offset, ids.push(None)) == offset_behind(offset, ids),
        offset_behind(offset, Seq::empty()) == offset,
        ids_in_range(ids.push(Some(id))) == ids_in_range(ids),
        !ids_in_range(ids.push(Some(i64::MAX as int))),
{
    assert(ids.push(Some(id)).drop_last() =~= ids);
    assert(ids.push(None).drop_last() =~= ids);
    let more = ids.push(Some(id));
    if ids_in_range(more) {
        assert forall|i: int| 0 <= i < ids.len() implies (#[trigger] ids[i] matches Some(n) ==> n
            < i64::MAX) by {
            assert(more[i] == ids[i]);
        }
    }
    if ids_in_range(ids) {
        assert forall|i: int| 0 <= i < more.len() implies (#[trigger] more[i] matches Some(n) ==> n
            < i64::MAX) by {
            if i < ids.len() {
                assert(more[i] == ids[i]);
            }
        }
    }
    let over = ids.push(Some(i64::MAX as int));
    assert(over[ids.len() as int] == Some(i64::MAX as int));
}

/// Ids are taken one by one as they are, where there are any.
pub proof fn ids_are_taken_as_they_are(ids: Seq<Option<i64>>, n: i64)
    ensures
        id_views(ids).len() == ids.len(),
        forall|i: int| 0 <= i < ids.len() ==> #[trigger] id_views(ids)[i] == id_view(ids[i]),
        id_view(Some(n)) == Some(n as int),
        id_view(None) is None,
{
}

} // verus!

//! Protocol messages in the scrollback of a terminal: finding them, and showing
//! them to a person.

use vstd::prelude::*;
use vstd::string::StringExecFns;

use crate::bytes::{byte_len, fit, fitting, fitting_is_longest_prefix, prefix_fitting};
use crate::json::no_object;
use crate::number::{digits_value, two_digits, two_digits_of, two_digits_stand_for_the_number};
use crate::pieces::{join, lines, lines_end_at_line_breaks, lines_of};
use crate::protocol::{
    begins, carries, decoded, encoded, lemma_unframed, messages_take_one_line, one_line_body, unframed,
    writable, DecodeError, Envelope, EnvelopeView, KindView, MessageKind, SENTINEL,
};
use crate::text::{
    from_first, has_prefix, lemma_from_first_none, occurs_at, occurs_in, same, suffix_from, views,
};

verus! {

// ---------------------------------------------------------------------------
// Finding messages
// ---------------------------------------------------------------------------

/// How many lines behind its first one a message may be wrapped over.
pub const MAX_CONTINUATION_LINES: usize = 20;

/// The contents of a list of envelopes.
pub open spec fn messages(v: Seq<Envelope>) -> Seq<EnvelopeView> {
    v.map_values(|e: Envelope| e@)
}

/// What a message that starts with `first` reads when the `n` lines that
/// follow it are its continuation.
pub open spec fn unwrapped(first: Seq<char>, rows: Seq<Seq<char>>, n: nat) -> Seq<char>
    decreases n,
{
    if n == 0 {
        first
    } else {
        unwrapped(first, rows, (n - 1) as nat) + rows[n as int]
    }
}

/// The first message that reads well with `n` or more continuation lines, and
/// the number of those lines.
pub open spec fn first_complete(first: Seq<char>, rows: Seq<Seq<char>>, n: nat) -> Option<
    (EnvelopeView, nat),
>
    decreases MAX_CONTINUATION_LINES + 1 - n,
{
    if n > MAX_CONTINUATION_LINES || n >= rows.len() {
        None
    } else {
        match decoded(unwrapped(first, rows, n)) {
            Ok(e) => Some((e, n)),
            Err(_) => first_complete(first, rows, n + 1),
        }
    }
}

/// The message that starts in the first of the given lines, and the number of
/// lines that follow and belong to it.
pub open spec fn message_at(rows: Seq<Seq<char>>) -> Option<(EnvelopeView, nat)> {
    match from_first(rows[0], SENTINEL@) {
        Some(first) => first_complete(first, rows, 0),
        None => None,
    }
}

proof fn lemma_first_complete(first: Seq<char>, rows: Seq<Seq<char>>, n: nat)
    ensures
        first_complete(first, rows, n) matches Some((_, k)) ==> n <= k < rows.len(),
    decreases MAX_CONTINUATION_LINES + 1 - n,
{
    if n <= MAX_CONTINUATION_LINES && n < rows.len() && decoded(
        unwrapped(first, rows, n),
    ) is Err {
        lemma_first_complete(first, rows, n + 1);
    }
}

pub proof fn lemma_message_at(rows: Seq<Seq<char>>)
    ensures
        message_at(rows) matches Some((_, k)) ==> k < rows.len(),
{
    if let Some(first) = from_first(rows[0], SENTINEL@) {
        lemma_first_complete(first, rows, 0);
    }
}

/// The messages in the given lines, from the top.
pub open spec fn extracted(rows: Seq<Seq<char>>) -> Seq<EnvelopeView>
    decreases rows.len(),
{
    if rows.len() == 0 {
        Seq::empty()
    } else {
        proof {
            lemma_message_at(rows);
        }
        match message_at(rows) {
            Some((e, n)) => seq![e] + extracted(rows.skip(n as int + 1)),
            None => extracted(rows.skip(1)),
        }
    }
}

// ---------------------------------------------------------------------------
// What scrollback shows
// ---------------------------------------------------------------------------

/// Whether the first of the lines and the `n` that follow it show the message
/// `e`, behind whatever stands before it.
pub open spec fn shown_over(rows: Seq<Seq<char>>, n: int, e: EnvelopeView) -> bool {
    &&& 0 <= n <= MAX_CONTINUATION_LINES
    &&& n < rows.len()
    &&& n > 0 ==> rows[n].len() > 0
    &&& writable(e)
    &&& from_first(rows[0], SENTINEL@) matches Some(first) && unwrapped(first, rows, n as nat)
        == encoded(e)
}

/// Whether the first of the lines starts a message that cannot be completed:
/// behind the sentinel and a brace stands what cannot follow the brace, in the
/// same line or at the start of the next.
pub open spec fn broken(rows: Seq<Seq<char>>) -> bool {
    from_first(rows[0], SENTINEL@) matches Some(first) && {
        let text = unframed(first);
        if text.len() == 1 && rows.len() > 1 {
            rows[1].len() > 0 && no_object(text + rows[1])
        } else {
            no_object(text)
        }
    }
}

/// Whether lines show the messages `es` and no others, in this order. A line
/// without the sentinel is other text, and may stand between messages; so may
/// one that starts a message and breaks off.
pub open spec fn tells(rows: Seq<Seq<char>>, es: Seq<EnvelopeView>) -> bool
    decreases rows.len(),
{
    if rows.len() == 0 {
        es.len() == 0
    } else {
        ||| from_first(rows[0], SENTINEL@) is None && tells(rows.skip(1), es)
        ||| broken(rows) && tells(rows.skip(1), es)
        ||| es.len() > 0 && exists|n: int| #[trigger]
            shown_over(rows, n, es[0]) && tells(rows.skip(n + 1), es.skip(1))
    }
}

/// How many of the lines hold the sentinel.
pub open spec fn sentinel_lines(rows: Seq<Seq<char>>) -> nat
    decreases rows.len(),
{
    if rows.len() == 0 {
        0
    } else {
        sentinel_lines(rows.skip(1)) + (if from_first(rows[0], SENTINEL@) is Some {
            1nat
        } else {
            0nat
        })
    }
}

proof fn lemma_sentinel_lines(rows: Seq<Seq<char>>, n: int)
    requires
        0 <= n <= rows.len(),
    ensures
        sentinel_lines(rows.skip(n)) <= sentinel_lines(rows),
    decreases n,
{
    if n == 0 {
        assert(rows.skip(0) =~= rows);
    } else {
        lemma_sentinel_lines(rows.skip(1), n - 1);
        assert(rows.skip(1).skip(n - 1) =~= rows.skip(n));
    }
}

/// No message is made up: there are no more of them than lines that hold the
/// sentinel.
pub proof fn messages_need_the_sentinel(rows: Seq<Seq<char>>)
    ensures
        extracted(rows).len() <= sentinel_lines(rows),
    decreases rows.len(),
{
    if rows.len() > 0 {
        lemma_message_at(rows);
        match message_at(rows) {
            Some((e, n)) => {
                let rest = rows.skip(n as int + 1);
                messages_need_the_sentinel(rest);
                lemma_sentinel_lines(rows.skip(1), n as int);
                assert(rows.skip(1).skip(n as int) =~= rest);
            },
            None => {
                messages_need_the_sentinel(rows.skip(1));
            },
        }
    }
}

/// Text that holds no sentinel shows no message.
pub proof fn other_text_shows_nothing(text: Seq<char>)
    requires
        !occurs_in(text, SENTINEL@),
    ensures
        from_first(text, SENTINEL@) is None,
{
    lemma_from_first_none(text, SENTINEL@);
}

proof fn lemma_behind(x: Seq<char>, line: Seq<char>)
    requires
        !occurs_in(x, SENTINEL@),
        has_prefix(line, SENTINEL@),
    ensures
        from_first(x + line, SENTINEL@) == Some(line),
    decreases x.len(),
{
    reveal_strlit("@@RZ:");
    let all = x + line;
    if x.len() == 0 {
        assert(all =~= line);
    } else {
        assert(!occurs_at(x, SENTINEL@, 0));
        if has_prefix(all, SENTINEL@) {
            let start = all.take(SENTINEL@.len() as int);
            let n = x.len() as int;
            if n >= SENTINEL@.len() {
                assert(x.subrange(0, SENTINEL@.len() as int) =~= start);
            } else {
                let head = line.take(SENTINEL@.len() as int);
                assert(start[n] == head[0]);
                if n == 1 {
                    assert(start[2] == head[1]);
                }
                assert(false);
            }
        }
        let y = x.skip(1);
        assert forall|k: int| !occurs_at(y, SENTINEL@, k) by {
            assert(!occurs_at(x, SENTINEL@, k + 1));
            if 0 <= k && k + SENTINEL@.len() <= y.len() {
                assert(y.subrange(k, k + SENTINEL@.len()) =~= x.subrange(
                    k + 1,
                    k + 1 + SENTINEL@.len(),
                ));
            }
        }
        lemma_behind(y, line);
        assert(all.skip(1) =~= y + line);
    }
}

proof fn lemma_encoded_head(e: EnvelopeView)
    ensures
        has_prefix(encoded(e), SENTINEL@),
        encoded(e).len() > 0,
        encoded(e)[0] == '@',
{
    reveal_strlit("@@RZ:");
    assert(encoded(e).take(SENTINEL@.len() as int) =~= SENTINEL@);
}

/// A line shows the message that stands at its end, behind text without the
/// sentinel.
pub proof fn message_is_shown_behind_other_text(x: Seq<char>, e: EnvelopeView)
    requires
        !occurs_in(x, SENTINEL@),
        writable(e),
    ensures
        shown_over(seq![x + encoded(e)], 0, e),
        from_first(x + encoded(e), SENTINEL@) == Some(encoded(e)),
{
    lemma_encoded_head(e);
    lemma_behind(x, encoded(e));
    assert(seq![x + encoded(e)][0] == x + encoded(e));
}

/// A line that breaks off behind the brace of a message hides nothing of a
/// message in the next line.
pub proof fn line_that_breaks_off_is_broken(x: Seq<char>, e: EnvelopeView, rows: Seq<Seq<char>>)
    requires
        !occurs_in(x, SENTINEL@),
        rows.len() > 1,
        rows[0] == x + SENTINEL@ + seq!['{'],
        rows[1] == encoded(e),
    ensures
        broken(rows),
{
    let line = SENTINEL@ + seq!['{'];
    assert(line.take(SENTINEL@.len() as int) =~= SENTINEL@);
    lemma_behind(x, line);
    assert(rows[0] =~= x + line);
    lemma_unframed(seq!['{']);
    lemma_encoded_head(e);
    assert((seq!['{'] + encoded(e))[1] == '@');
}

// ---------------------------------------------------------------------------
// Scanning
// ---------------------------------------------------------------------------

proof fn lemma_unwrapped(first: Seq<char>, rows: Seq<Seq<char>>, k: nat, n: nat)
    requires
        k <= n,
    ensures
        unwrapped(first, rows, k).len() <= unwrapped(first, rows, n).len(),
        unwrapped(first, rows, k) == unwrapped(first, rows, n).take(
            unwrapped(first, rows, k).len() as int,
        ),
    decreases n,
{
    let part = unwrapped(first, rows, k);
    let all = unwrapped(first, rows, n);
    if k == n {
        assert(all.take(all.len() as int) =~= all);
    } else {
        lemma_unwrapped(first, rows, k, (n - 1) as nat);
        let before = unwrapped(first, rows, (n - 1) as nat);
        assert(all.take(part.len() as int) =~= before.take(part.len() as int));
    }
}

proof fn lemma_from_first_prefix(s: Seq<char>, n: Seq<char>)
    ensures
        from_first(s, n) matches Some(t) ==> has_prefix(t, n),
    decreases s.len(),
{
    if !has_prefix(s, n) && s.len() > 0 {
        lemma_from_first_prefix(s.skip(1), n);
    }
}

/// Fewer lines than a message is shown over hold only a part of it.
proof fn lemma_part_shown(
    rows: Seq<Seq<char>>,
    first: Seq<char>,
    k: nat,
    n: int,
    e: EnvelopeView,
)
    requires
        from_first(rows[0], SENTINEL@) == Some(first),
        shown_over(rows, n, e),
        k < n,
    ensures
        begins(unwrapped(first, rows, k), e),
{
    lemma_from_first_prefix(rows[0], SENTINEL@);
    lemma_unwrapped(first, rows, 0, k);
    lemma_unwrapped(first, rows, k, n as nat);
    lemma_unwrapped(first, rows, k, (n - 1) as nat);
}

/// A message that is broken stays so with every continuation.
proof fn lemma_still_broken(rows: Seq<Seq<char>>, first: Seq<char>, k: nat)
    requires
        from_first(rows[0], SENTINEL@) == Some(first),
        broken(rows),
        k < rows.len(),
    ensures
        no_object(unframed(unwrapped(first, rows, k))),
{
    lemma_from_first_prefix(rows[0], SENTINEL@);
    let text = unframed(first);
    assert(first =~= SENTINEL@ + text);
    if k == 0 {
    } else {
        lemma_unwrapped(first, rows, 1, k);
        let one = unwrapped(first, rows, 1);
        assert(unwrapped(first, rows, 0) == first);
        assert(one == first + rows[1]);
        let all = unwrapped(first, rows, k);
        let rest = all.skip(SENTINEL@.len() as int);
        assert(all =~= SENTINEL@ + rest) by {
            assert(one.take(SENTINEL@.len() as int) =~= SENTINEL@);
            assert(all.take(SENTINEL@.len() as int) =~= one.take(SENTINEL@.len() as int));
        }
        lemma_unframed(rest);
        assert forall|i: int| 0 <= i < text.len() + rows[1].len() implies #[trigger] rest[i] == (
        text + rows[1])[i] by {
            assert(one[i + SENTINEL@.len()] == all[i + SENTINEL@.len()]);
        }
    }
}

/// The message that starts in line `i`, and the number of lines that follow
/// and belong to it.
#[verifier::loop_isolation(false)]
fn read_message(rows: &Vec<String>, i: usize) -> (r: Option<(Envelope, usize)>)
    requires
        i < rows@.len(),
    ensures
        match r {
            Some((e, n)) => message_at(views(rows@).skip(i as int)) == Some((e@, n as nat)) && i + n
                < rows@.len(),
            None => message_at(views(rows@).skip(i as int)) is None,
        },
        forall|e: EnvelopeView, n: int| #[trigger]
            shown_over(views(rows@).skip(i as int), n, e) ==> message_at(
                views(rows@).skip(i as int),
            ) == Some((e, n as nat)),
        broken(views(rows@).skip(i as int)) ==> r is None,
{
    let ghost rest = views(rows@).skip(i as int);
    assert(rest[0] == rows@[i as int]@);
    let first = match suffix_from(rows[i].as_str(), SENTINEL) {
        Some(s) => s,
        None => {
            return None;
        },
    };
    let ghost start = first@;
    let mut candidate = first;
    let mut n: usize = 0;
    while n <= MAX_CONTINUATION_LINES && n < rows.len() - i
        invariant
            n <= MAX_CONTINUATION_LINES + 1,
            n <= rows@.len() - i,
            n <= MAX_CONTINUATION_LINES && n < rows@.len() - i ==> candidate@ == unwrapped(
                start,
                rest,
                n as nat,
            ),
            first_complete(start, rest, 0) == first_complete(start, rest, n as nat),
            forall|e: EnvelopeView, k: int| #[trigger] shown_over(rest, k, e) ==> n <= k,
        decreases MAX_CONTINUATION_LINES + 1 - n,
    {
        let read = Envelope::decode(candidate.as_str());
        proof {
            assert forall|e: EnvelopeView, k: int| #[trigger] shown_over(rest, k, e) implies if n
                < k {
                read is Err
            } else {
                n == k && decoded(candidate@) == Ok::<EnvelopeView, crate::protocol::DecodeError>(e)
            } by {
                if n < k {
                    lemma_part_shown(rest, start, n as nat, k, e);
                } else {
                    assert(carries(candidate@, e));
                }
            }
            if broken(rest) {
                lemma_still_broken(rest, start, n as nat);
            }
        }
        match read {
            Ok(e) => {
                return Some((e, n));
            },
            Err(_) => {},
        }
        n = n + 1;
        if n <= MAX_CONTINUATION_LINES && n < rows.len() - i {
            assert(rest[n as int] == rows@[i + n]@);
            candidate.append(rows[i + n].as_str());
        }
    }
    None
}

/// What is left to be told behind the first line, or behind the message that
/// starts there.
proof fn lemma_tells_step(rows: Seq<Seq<char>>, es: Seq<EnvelopeView>)
    requires
        rows.len() > 0,
        tells(rows, es),
        forall|e: EnvelopeView, n: int| #[trigger]
            shown_over(rows, n, e) ==> message_at(rows) == Some((e, n as nat)),
        broken(rows) ==> message_at(rows) is None,
    ensures
        match message_at(rows) {
            Some((e, n)) => es.len() > 0 && es[0] == e && tells(
                rows.skip(n as int + 1),
                es.skip(1),
            ),
            None => tells(rows.skip(1), es),
        },
{
}

/// Scans scrollback for lines of the protocol and decodes each. A message that
/// the terminal wrapped is put together again, from up to twenty lines behind
/// its first one.
///
/// Scrollback that shows encoded messages gives those messages, each once and
/// in order, whatever text or broken message stands between them.
pub fn extract_messages(scrollback: &str) -> (r: Vec<Envelope>)
    ensures
        messages(r@) == extracted(lines(scrollback@)),
        forall|es: Seq<EnvelopeView>| #[trigger]
            tells(lines(scrollback@), es) ==> messages(r@) == es,
        r@.len() <= sentinel_lines(lines(scrollback@)),
{
    let rows = lines_of(scrollback);
    let ghost all = views(rows@);
    let mut out: Vec<Envelope> = Vec::new();
    let mut i: usize = 0;
    proof {
        assert(all.skip(0) =~= all);
        assert(messages(out@) =~= Seq::<EnvelopeView>::empty());
        assert(messages(out@) + extracted(all) =~= extracted(all));
        assert forall|es: Seq<EnvelopeView>| #[trigger] tells(all, es) implies told_so_far(
            all,
            es,
            i as int,
            messages(out@),
        ) by {
            assert(es.take(0) =~= Seq::<EnvelopeView>::empty());
            assert(es.skip(0) =~= es);
        }
    }
    while i < rows.len()
        invariant
            i <= rows@.len(),
            all == views(rows@),
            extracted(all) == messages(out@) + extracted(all.skip(i as int)),
            forall|es: Seq<EnvelopeView>| #[trigger]
                tells(all, es) ==> told_so_far(all, es, i as int, messages(out@)),
        decreases rows@.len() - i,
    {
        let ghost before = messages(out@);
        let ghost rest = all.skip(i as int);
        assert(rest[0] == all[i as int]);
        match read_message(&rows, i) {
            Some((e, n)) => {
                proof {
                    assert(rest.skip(n as int + 1) =~= all.skip(i + n + 1));
                    assert(before + (seq![e@] + extracted(all.skip(i + n + 1))) =~= before.push(e@)
                        + extracted(all.skip(i + n + 1)));
                    assert forall|es: Seq<EnvelopeView>| #[trigger]
                        tells(all, es) implies told_so_far(
                        all,
                        es,
                        i + n + 1,
                        before.push(e@),
                    ) by {
                        let left = es.skip(before.len() as int);
                        lemma_tells_step(rest, left);
                        assert(left[0] == es[before.len() as int]);
                        assert(left.skip(1) =~= es.skip(before.len() as int + 1));
                        assert(es.take(before.len() as int + 1) =~= before.push(e@));
                    }
                }
                out.push(e);
                assert(messages(out@) =~= before.push(e@));
                i = i + n + 1;
            },
            None => {
                proof {
                    assert(rest.skip(1) =~= all.skip(i + 1));
                    assert forall|es: Seq<EnvelopeView>| #[trigger]
                        tells(all, es) implies told_so_far(all, es, i + 1, before) by {
                        lemma_tells_step(rest, es.skip(before.len() as int));
                    }
                }
                i = i + 1;
            },
        }
    }
    proof {
        assert(all.skip(i as int) =~= Seq::<Seq<char>>::empty());
        assert(messages(out@) + Seq::<EnvelopeView>::empty() =~= messages(out@));
        assert forall|es: Seq<EnvelopeView>| #[trigger] tells(all, es) implies messages(out@)
            == es by {
            assert(es.skip(out@.len() as int).len() == 0);
            assert(es.take(out@.len() as int) =~= es);
        }
        messages_need_the_sentinel(all);
    }
    out
}

/// Whether the messages `found` are the first of `es`, and the lines from `i`
/// on tell the others.
spec fn told_so_far(
    all: Seq<Seq<char>>,
    es: Seq<EnvelopeView>,
    i: int,
    found: Seq<EnvelopeView>,
) -> bool {
    &&& found.len() <= es.len()
    &&& found == es.take(found.len() as int)
    &&& tells(all.skip(i), es.skip(found.len() as int))
}

// ---------------------------------------------------------------------------
// Showing messages
// ---------------------------------------------------------------------------

/// How many bytes of a tool result or a task are shown at most.
pub const MAX_SHOWN_BYTES: usize = 200;

/// The time of day, in hours, minutes and seconds, of a time in milliseconds.
pub open spec fn clock(ts: nat) -> Seq<char> {
    let secs = ts as int / 1000;
    two_digits((secs / 3600) % 24) + seq![':'] + two_digits((secs % 3600) / 60) + seq![':']
        + two_digits(secs % 60)
}

/// What marks the own messages of whoever reads.
pub open spec fn own_mark(from: Seq<char>, own_id: Option<Seq<char>>) -> Seq<char> {
    if own_id == Some(from) {
        " (me)"@
    } else {
        ""@
    }
}

/// The start of the line that shows a message.
pub open spec fn heading(e: EnvelopeView, own_id: Option<Seq<char>>) -> Seq<char> {
    "["@ + clock(e.ts) + "] "@ + e.from + own_mark(e.from, own_id) + "> "@
}

/// What a message says, on one line.
pub open spec fn said(k: KindView) -> Seq<char> {
    match k {
        KindView::Chat(text) => text,
        KindView::Ping => "ping"@,
        KindView::Pong => "pong"@,
        KindView::Error(message) => "error: "@ + message,
        KindView::Timer(label) => "timer: "@ + label,
        KindView::Status(state, detail) => "["@ + state + "] "@ + detail,
        KindView::ToolCall(name, _) => "(calling tool: "@ + name + ")"@,
        KindView::ToolResult(name, result, is_error) => (if is_error {
            "tool error ("@
        } else {
            "tool result ("@
        }) + name + "): "@ + fitting(result, MAX_SHOWN_BYTES as nat),
        KindView::Delegate(task, _) => "(delegating: "@ + fitting(task, MAX_SHOWN_BYTES as nat)
            + ")"@,
        KindView::Hello(name) => "hello from "@ + name,
    }
}

/// The line that shows a message.
pub open spec fn formatted(e: EnvelopeView, own_id: Option<Seq<char>>) -> Seq<char> {
    heading(e, own_id) + said(e.kind)
}

fn clock_of(ts: u64) -> (r: String)
    ensures
        r@ == clock(ts as nat),
{
    let secs: u64 = ts / 1000;
    let h: u64 = (secs / 3600) % 24;
    let m: u64 = (secs % 3600) / 60;
    let s: u64 = secs % 60;
    let mut out = two_digits_of(h);
    out.push(':');
    out.append(two_digits_of(m).as_str());
    out.push(':');
    out.append(two_digits_of(s).as_str());
    assert(out@ =~= clock(ts as nat));
    out
}

fn said_of(kind: &MessageKind) -> (r: String)
    ensures
        r@ == said(kind@),
        kind@ matches KindView::Chat(text) ==> r@ == text,
{
    match kind {
        MessageKind::Chat { text } => text.clone(),
        MessageKind::Ping => "ping".to_owned(),
        MessageKind::Pong => "pong".to_owned(),
        MessageKind::Error { message } => "error: ".to_owned().concat(message.as_str()),
        MessageKind::Timer { label } => "timer: ".to_owned().concat(label.as_str()),
        MessageKind::Status { state, detail } => "[".to_owned().concat(state.as_str()).concat(
            "] ",
        ).concat(detail.as_str()),
        MessageKind::ToolCall { name, body: _ } => "(calling tool: ".to_owned().concat(
            name.as_str(),
        ).concat(")"),
        MessageKind::ToolResult { name, result, is_error } => {
            let prefix = if *is_error {
                "tool error ("
            } else {
                "tool result ("
            };
            prefix.to_owned().concat(name.as_str()).concat("): ").concat(
                prefix_fitting(result.as_str(), MAX_SHOWN_BYTES).as_str(),
            )
        },
        MessageKind::Delegate { task, body: _ } => "(delegating: ".to_owned().concat(
            prefix_fitting(task.as_str(), MAX_SHOWN_BYTES).as_str(),
        ).concat(")"),
        MessageKind::Hello { name } => "hello from ".to_owned().concat(name.as_str()),
    }
}

/// Formats an envelope as a line for people: `[HH:MM:SS] from> text`, with
/// `(me)` behind the sender where that is `own_id`. A long tool result or task
/// is cut between two characters.
pub fn format_message(envelope: &Envelope, own_id: Option<&str>) -> (r: String)
    ensures
        r@ == formatted(
            envelope@,
            match own_id {
                Some(s) => Some(s@),
                None => None,
            },
        ),
        envelope@.kind matches KindView::Chat(text) ==> text.len() <= r@.len() && r@.skip(
            r@.len() - text.len(),
        ) == text,
{
    let mine = match own_id {
        Some(s) => same(s, envelope.from.as_str()),
        None => false,
    };
    let mark = if mine {
        " (me)"
    } else {
        ""
    };
    let head = "[".to_owned().concat(clock_of(envelope.ts).as_str()).concat("] ").concat(
        envelope.from.as_str(),
    ).concat(mark).concat("> ");
    let ghost start = head@;
    let line = head.concat(said_of(&envelope.kind).as_str());
    assert(line@.skip(start.len() as int) =~= said(envelope@.kind));
    line
}

// ---------------------------------------------------------------------------
// Laws
// ---------------------------------------------------------------------------

/// The line that shows a chat message ends with the whole text of the message,
/// however long it is, behind the time of day, the sender, and a mark where the
/// sender is whoever reads.
pub proof fn chat_is_shown_whole(e: EnvelopeView, own_id: Option<Seq<char>>, text: Seq<char>)
    requires
        e.kind == KindView::Chat(text),
    ensures
        own_id == Some(e.from) ==> formatted(e, own_id) == "["@ + clock(e.ts) + "] "@ + e.from
            + " (me)"@ + "> "@ + text,
        own_id != Some(e.from) ==> formatted(e, own_id) == "["@ + clock(e.ts) + "] "@ + e.from
            + "> "@ + text,
{
    let head = "["@ + clock(e.ts) + "] "@ + e.from;
    reveal_strlit("");
    assert(head + ""@ =~= head);
}

/// The line that shows a message of any kind starts with the time of day and
/// the sender, and ends with what the message says.
pub proof fn lines_tell_time_and_sender(e: EnvelopeView, own_id: Option<Seq<char>>)
    ensures
        own_id == Some(e.from) ==> formatted(e, own_id) == "["@ + clock(e.ts) + "] "@ + e.from
            + " (me)"@ + "> "@ + said(e.kind),
        own_id != Some(e.from) ==> formatted(e, own_id) == "["@ + clock(e.ts) + "] "@ + e.from
            + "> "@ + said(e.kind),
{
    let head = "["@ + clock(e.ts) + "] "@ + e.from;
    reveal_strlit("");
    assert(head + ""@ =~= head);
}

/// What a message says is shown whole, whatever its length, but for tool
/// results and tasks.
pub proof fn messages_are_shown_whole(a: Seq<char>, b: Seq<char>)
    ensures
        said(KindView::Chat(a)) == a,
        said(KindView::Ping) == "ping"@,
        said(KindView::Pong) == "pong"@,
        said(KindView::Error(a)) == "error: "@ + a,
        said(KindView::Timer(a)) == "timer: "@ + a,
        said(KindView::Status(a, b)) == "["@ + a + "] "@ + b,
        said(KindView::ToolCall(a, b)) == "(calling tool: "@ + a + ")"@,
        said(KindView::Hello(a)) == "hello from "@ + a,
{
}

/// Of a tool result and of a task a start is shown: all of it where it takes no
/// more than two hundred bytes, and else as many of its characters as these
/// hold. The name of the tool, and whether it failed, are always shown.
pub proof fn long_results_are_cut(name: Seq<char>, text: Seq<char>, body: Seq<char>) -> (start: Seq<
    char,
>)
    ensures
        said(KindView::ToolResult(name, text, false)) == "tool result ("@ + name + "): "@ + start,
        said(KindView::ToolResult(name, text, true)) == "tool error ("@ + name + "): "@ + start,
        said(KindView::Delegate(text, body)) == "(delegating: "@ + start + ")"@,
        start.len() <= text.len(),
        start == text.take(start.len() as int),
        byte_len(start) <= 200,
        byte_len(text) <= 200 ==> start == text,
        start != text ==> byte_len(text.take(start.len() as int + 1)) > 200,
{
    fitting_is_longest_prefix(text, 200);
    let start = fitting(text, 200);
    assert(start.len() == fit(text, 200));
    start
}

/// The time of day counts the hours, minutes and seconds since midnight, each
/// with two digits and with colons between them.
pub proof fn clock_tells_the_time_of_day(ts: nat) -> (hms: (int, int, int))
    ensures
        ({
            let (h, m, s) = hms;
            &&& 0 <= h < 24
            &&& 0 <= m < 60
            &&& 0 <= s < 60
            &&& h * 3600 + m * 60 + s == (ts as int / 1000) % 86400
            &&& clock(ts).len() == 8
            &&& clock(ts)[2] == ':'
            &&& clock(ts)[5] == ':'
            &&& digits_value(clock(ts).subrange(0, 2)) == h
            &&& digits_value(clock(ts).subrange(3, 5)) == m
            &&& digits_value(clock(ts).subrange(6, 8)) == s
        }),
{
    let secs = ts as int / 1000;
    let h = (secs / 3600) % 24;
    let m = (secs % 3600) / 60;
    let s = secs % 60;
    two_digits_stand_for_the_number(h);
    two_digits_stand_for_the_number(m);
    two_digits_stand_for_the_number(s);
    let c = clock(ts);
    assert(c.subrange(0, 2) =~= two_digits(h));
    assert(c.subrange(3, 5) =~= two_digits(m));
    assert(c.subrange(6, 8) =~= two_digits(s));
    assert((secs % 3600) % 60 == secs % 60);
    assert(((secs / 3600) % 24) * 3600 + secs % 3600 == secs % 86400);
    (h, m, s)
}

/// Lines tell a message where the message stands at the end of one of them,
/// behind text that holds no sentinel; what the lines behind it tell comes
/// after it, and what other text stands between the messages changes nothing.
pub proof fn lines_tell_the_messages_they_end_with(
    text: Seq<char>,
    e: EnvelopeView,
    rows: Seq<Seq<char>>,
    es: Seq<EnvelopeView>,
)
    requires
        !occurs_in(text, "@@RZ:"@),
        writable(e),
        tells(rows, es),
    ensures
        tells(seq![text + encoded(e)] + rows, seq![e] + es),
        tells(seq![text] + rows, es),
        tells(Seq::empty(), Seq::empty()),
{
    let told = seq![text + encoded(e)] + rows;
    let messages = seq![e] + es;
    message_is_shown_behind_other_text(text, e);
    assert(told[0] == text + encoded(e));
    assert(shown_over(told, 0, messages[0])) by {
        assert(unwrapped(encoded(e), told, 0) == encoded(e));
    }
    assert(told.skip(1) =~= rows);
    assert(messages.skip(1) =~= es);
    assert(shown_over(told, 0, messages[0]) && tells(told.skip(0int + 1), messages.skip(1)));
    other_text_shows_nothing(text);
    let other = seq![text] + rows;
    assert(other.skip(1) =~= rows);
    assert(other[0] == text);
}

/// A message that a terminal wrapped over several lines, up to twenty behind the
/// first, is told like one on a single line, behind text that holds no sentinel
/// and with the whole sentinel in the first line.
pub proof fn wrapped_messages_are_told(
    text: Seq<char>,
    pieces: Seq<Seq<char>>,
    e: EnvelopeView,
    rows: Seq<Seq<char>>,
    es: Seq<EnvelopeView>,
)
    requires
        !occurs_in(text, "@@RZ:"@),
        writable(e),
        0 < pieces.len() <= 21,
        forall|i: int| 0 <= i < pieces.len() ==> (#[trigger] pieces[i]).len() > 0,
        has_prefix(pieces[0], "@@RZ:"@),
        join(pieces, Seq::empty()) == encoded(e),
        tells(rows, es),
    ensures
        tells(seq![text + pieces[0]] + pieces.skip(1) + rows, seq![e] + es),
{
    let told = seq![text + pieces[0]] + pieces.skip(1) + rows;
    let messages = seq![e] + es;
    let n = pieces.len() - 1;
    lemma_behind(text, pieces[0]);
    assert(told[0] == text + pieces[0]);
    assert forall|i: int| 0 < i < pieces.len() implies #[trigger] told[i] == pieces[i] by {}
    lemma_unwrapped_pieces(pieces, told, n as nat);
    assert(pieces.take(n + 1) =~= pieces);
    assert(shown_over(told, n, messages[0]));
    assert(told.skip(n + 1) =~= rows);
    assert(messages.skip(1) =~= es);
    assert(shown_over(told, n, messages[0]) && tells(told.skip(n + 1), messages.skip(1)));
}

proof fn lemma_unwrapped_pieces(pieces: Seq<Seq<char>>, rows: Seq<Seq<char>>, n: nat)
    requires
        n < pieces.len() <= rows.len(),
        forall|i: int| 0 < i < pieces.len() ==> #[trigger] rows[i] == pieces[i],
    ensures
        unwrapped(pieces[0], rows, n) == join(pieces.take(n as int + 1), Seq::empty()),
    decreases n,
{
    let all = pieces.take(n as int + 1);
    if n > 0 {
        lemma_unwrapped_pieces(pieces, rows, (n - 1) as nat);
        assert(all.drop_last() =~= pieces.take(n as int));
        assert(all.last() == pieces[n as int]);
        let before = join(pieces.take(n as int), Seq::empty());
        assert(before + Seq::<char>::empty() + pieces[n as int] =~= before + pieces[n as int]);
    }
}

/// A line that breaks off behind the sentinel and a brace tells nothing, and
/// hides no message of the lines behind it.
pub proof fn broken_lines_hide_nothing(
    text: Seq<char>,
    e: EnvelopeView,
    rows: Seq<Seq<char>>,
    es: Seq<EnvelopeView>,
)
    requires
        !occurs_in(text, "@@RZ:"@),
        writable(e),
        tells(rows, es),
    ensures
        tells(
            seq![text + "@@RZ:"@ + seq!['{']] + (seq![encoded(e)] + rows),
            seq![e] + es,
        ),
{
    reveal_strlit("@@RZ:");
    let none = Seq::<char>::empty();
    assert(!occurs_in(none, "@@RZ:"@)) by {
        assert forall|k: int| !occurs_at(none, "@@RZ:"@, k) by {}
    }
    lines_tell_the_messages_they_end_with(none, e, rows, es);
    assert(none + encoded(e) =~= encoded(e));
    let rest = seq![encoded(e)] + rows;
    let told = seq![text + "@@RZ:"@ + seq!['{']] + rest;
    assert(told[1] == encoded(e));
    line_that_breaks_off_is_broken(text, e, told);
    assert(told.skip(1) =~= rest);
}

/// A message that was typed into a terminal is found in what the terminal shows:
/// the line that carries it, behind other text in the same line, ended by a
/// return and a line break, tells the message, and then come those that the
/// rest tells.
pub proof fn typed_messages_are_found(
    text: Seq<char>,
    e: EnvelopeView,
    rest: Seq<char>,
    es: Seq<EnvelopeView>,
)
    requires
        !occurs_in(text, "@@RZ:"@),
        forall|i: int| 0 <= i < text.len() ==> #[trigger] text[i] != '\n',
        writable(e),
        one_line_body(e.kind),
        tells(lines(rest), es),
    ensures
        tells(lines(text + encoded(e) + "\r"@ + "\n"@ + rest), seq![e] + es),
        tells(lines(text + encoded(e) + "\n"@ + rest), seq![e] + es),
{
    reveal_strlit("\r");
    reveal_strlit("\n");
    let line = text + encoded(e);
    messages_take_one_line(e);
    assert forall|i: int| 0 <= i < line.len() implies #[trigger] line[i] != '\n' by {
        if i < text.len() {
            assert(line[i] == text[i]);
        } else {
            assert(encoded(e)[i - text.len()] >= ' ');
        }
    }
    lemma_encoded_head(e);
    assert(line.last() != '\r') by {
        assert(encoded(e)[encoded(e).len() - 1] >= ' ');
        assert(line.last() == encoded(e).last());
    }
    lines_end_at_line_breaks(line, rest);
    assert(text + encoded(e) + "\r"@ + "\n"@ + rest =~= line + seq!['\r', '\n'] + rest);
    assert(text + encoded(e) + "\n"@ + rest =~= line + seq!['\n'] + rest);
    lines_tell_the_messages_they_end_with(text, e, lines(rest), es);
}

/// What lines show is gone through from the top. A line without the sentinel
/// shows nothing. One with it shows the message that it reads from there on,
/// with as few of the lines behind it as that takes, up to twenty, and the
/// lines that it takes are done with; where it reads as none, it shows nothing,
/// and the lines behind it are gone through all the same.
pub proof fn messages_are_read_with_few_lines(
    rows: Seq<Seq<char>>,
    start: Seq<char>,
    n: int,
    e: EnvelopeView,
)
    requires
        rows.len() > 0,
    ensures
        from_first(rows[0], "@@RZ:"@) is None ==> extracted(rows) == extracted(rows.skip(1)),
        ({
            let read = |k: int| decoded(start + join(rows.subrange(1, k + 1), Seq::empty()));
            &&& from_first(rows[0], "@@RZ:"@) == Some(start) && 0 <= n <= 20 && n < rows.len() && read(
                n,
            ) == Ok::<EnvelopeView, DecodeError>(e) && (forall|k: int|
                0 <= k < n ==> #[trigger] read(k) is Err) ==> extracted(rows) == seq![e]
                + extracted(rows.skip(n + 1))
            &&& from_first(rows[0], "@@RZ:"@) == Some(start) && (forall|k: int|
                0 <= k <= 20 && k < rows.len() ==> #[trigger] read(k) is Err) ==> extracted(rows)
                == extracted(rows.skip(1))
        }),
        extracted(Seq::empty()).len() == 0,
{
    let read = |k: int| decoded(start + join(rows.subrange(1, k + 1), Seq::empty()));
    assert forall|k: int| 0 <= k < rows.len() implies #[trigger] read(k) == decoded(
        unwrapped(start, rows, k as nat),
    ) by {
        lemma_unwrapped_join(start, rows, k as nat);
    }
    if from_first(rows[0], "@@RZ:"@) == Some(start) {
        if 0 <= n <= 20 && n < rows.len() && read(n) == Ok::<EnvelopeView, DecodeError>(e) && (
        forall|k: int| 0 <= k < n ==> #[trigger] read(k) is Err) {
            assert forall|k: nat| k < n implies decoded(
                #[trigger] unwrapped(start, rows, k),
            ) is Err by {
                assert(read(k as int) is Err);
            }
            lemma_first_reading(start, rows, 0, n, e);
        }
        if forall|k: int| 0 <= k <= 20 && k < rows.len() ==> #[trigger] read(k) is Err {
            assert forall|k: nat| k <= 20 && k < rows.len() implies decoded(
                #[trigger] unwrapped(start, rows, k),
            ) is Err by {
                assert(read(k as int) is Err);
            }
            lemma_no_reading(start, rows, 0);
        }
    }
}

proof fn lemma_unwrapped_join(first: Seq<char>, rows: Seq<Seq<char>>, k: nat)
    requires
        k < rows.len(),
    ensures
        unwrapped(first, rows, k) == first + join(rows.subrange(1, k as int + 1), Seq::empty()),
    decreases k,
{
    let none = Seq::<char>::empty();
    let parts = rows.subrange(1, k as int + 1);
    if k == 0 {
        assert(join(parts, none) =~= none);
        assert(first + none =~= first);
    } else {
        lemma_unwrapped_join(first, rows, (k - 1) as nat);
        let before = rows.subrange(1, k as int);
        assert(parts.drop_last() =~= before);
        assert(parts.last() == rows[k as int]);
        if before.len() == 0 {
            assert(join(before, none) =~= none);
            assert(first + none + rows[k as int] =~= first + join(parts, none));
        } else {
            assert(first + join(before, none) + rows[k as int] =~= first + join(parts, none));
        }
    }
}

proof fn lemma_first_reading(
    first: Seq<char>,
    rows: Seq<Seq<char>>,
    from: nat,
    n: int,
    e: EnvelopeView,
)
    requires
        from <= n <= 20,
        n < rows.len(),
        decoded(unwrapped(first, rows, n as nat)) == Ok::<EnvelopeView, DecodeError>(e),
        forall|k: nat| from <= k < n ==> decoded(#[trigger] unwrapped(first, rows, k)) is Err,
    ensures
        first_complete(first, rows, from) == Some((e, n as nat)),
    decreases n - from,
{
    if from < n {
        assert(decoded(unwrapped(first, rows, from)) is Err);
        lemma_first_reading(first, rows, from + 1, n, e);
    }
}

proof fn lemma_no_reading(first: Seq<char>, rows: Seq<Seq<char>>, from: nat)
    requires
        forall|k: nat|
            from <= k <= 20 && k < rows.len() ==> decoded(
                #[trigger] unwrapped(first, rows, k),
            ) is Err,
    ensures
        first_complete(first, rows, from) is None,
    decreases 21 - from,
{
    if from <= 20 && from < rows.len() {
        assert(decoded(unwrapped(first, rows, from)) is Err);
        lemma_no_reading(first, rows, from + 1);
    }
}

} // verus!

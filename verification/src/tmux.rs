//! Panes of `tmux`.
//!
//! Short texts are typed with `send-keys`, long ones pasted from a buffer;
//! panes are found with `list-panes`, and read with `capture-pane`.

use vstd::prelude::*;
use vstd::string::StringExecFns;

use crate::command::args_of;
use crate::pieces::{
    after_last, join, join_all, lines, lines_of, split, split_at_most, split_on, split_on_at_most,
    tail_after_last, trim, trimmed,
};
use crate::text::{chars_of, has_prefix, lemma_first_pos, opt_view, same, starts_with, views};

verus! {

/// The longest text that is typed rather than pasted, in characters.
pub const MAX_TYPED_CHARS: usize = 200;

/// How a pane is described in a list.
pub const PANE_FORMAT: &'static str =
    "#{pane_id}|#{pane_title}|#{pane_current_command}|#{pane_active}";

// ---------------------------------------------------------------------------
// Identity
// ---------------------------------------------------------------------------

/// The id of a pane as `tmux` writes it.
pub open spec fn normalized(input: Seq<char>) -> Seq<char> {
    if has_prefix(input, "%"@) {
        input
    } else {
        "%"@ + input
    }
}

/// The id of a pane as `tmux` writes it: `0` and `%0` both stand for `%0`.
pub fn normalize_pane_id(input: &str) -> (r: String)
    ensures
        r@ == normalized(input@),
{
    if starts_with(input, "%") {
        input.to_owned()
    } else {
        "%".to_owned().concat(input)
    }
}

/// An id that is as `tmux` writes it stays as it is.
pub proof fn normalizing_twice_changes_nothing(input: Seq<char>)
    ensures
        normalized(normalized(input)) == normalized(input),
{
    let n = normalized(input);
    assert(n.take("%"@.len() as int) =~= "%"@);
}

/// The own pane, from the value of its environment variable.
pub fn own_pane_id(value: Option<String>) -> (r: Result<String, String>)
    ensures
        match value {
            Some(v) => r matches Ok(id) && id@ == normalized(v@),
            None => r matches Err(why) && why@ == "TMUX_PANE not set — not inside tmux?"@,
        },
{
    match value {
        Some(v) => Ok(normalize_pane_id(v.as_str())),
        None => Err("TMUX_PANE not set — not inside tmux?".to_owned()),
    }
}

/// The name of the session in the value of the variable `TMUX`, which looks
/// like `/tmp/tmux-1000/default,12345,0`; empty where there is none.
pub open spec fn session_in(value: Seq<char>) -> Seq<char> {
    after_last(split(value, ',')[0], '/')
}

/// The name of the session, from the value of the variable `TMUX`. Where there
/// is none, `tmux` is asked.
pub fn session_name(value: Option<String>) -> (r: Option<String>)
    ensures
        match value {
            Some(v) => if session_in(v@).len() > 0 {
                r matches Some(name) && name@ == session_in(v@)
            } else {
                r is None
            },
            None => r is None,
        },
{
    match value {
        Some(v) => {
            let parts = split_on(v.as_str(), ',');
            proof {
                lemma_split_nonempty(v@, ',');
                assert(views(parts@).len() == parts@.len());
                assert(views(parts@)[0] == parts@[0]@);
            }
            let name = tail_after_last(parts[0].as_str(), '/');
            if name.as_str().is_empty() {
                None
            } else {
                Some(name)
            }
        },
        None => None,
    }
}

proof fn lemma_split_nonempty(s: Seq<char>, c: char)
    ensures
        split(s, c).len() > 0,
{
    crate::text::lemma_first_pos_bounds(s, c);
}

/// The arguments that ask `tmux` for the name of the session.
pub fn session_name_args() -> (r: Vec<String>)
    ensures
        views(r@) == seq!["display-message"@, "-p"@, "#{session_name}"@],
{
    let r = args_of(&["display-message", "-p", "#{session_name}"]);
    assert(views(r@) =~= seq!["display-message"@, "-p"@, "#{session_name}"@]);
    r
}

// ---------------------------------------------------------------------------
// Panes
// ---------------------------------------------------------------------------

/// A call of `tmux`: its arguments, and what it reads as its input.
#[derive(Debug)]
pub struct TmuxCall {
    pub args: Vec<String>,
    pub input: Option<String>,
}

/// The contents of a list of calls.
pub open spec fn call_views(v: Seq<TmuxCall>) -> Seq<(Seq<Seq<char>>, Option<Seq<char>>)> {
    v.map_values(|c: TmuxCall| (views(c.args@), opt_view(c.input)))
}

/// The calls that type a text into a pane and submit it.
pub open spec fn send_calls(pane_id: Seq<char>, text: Seq<char>) -> Seq<
    (Seq<Seq<char>>, Option<Seq<char>>),
> {
    if text.len() <= MAX_TYPED_CHARS {
        seq![(seq!["send-keys"@, "-t"@, pane_id, text, "Enter"@], None)]
    } else {
        seq![
            (seq!["load-buffer"@, "-"@], Some(text)),
            (seq!["paste-buffer"@, "-t"@, pane_id], None),
            (seq!["send-keys"@, "-t"@, pane_id, "Enter"@], None),
        ]
    }
}

/// The calls that type a text into a pane and submit it. A text that is too
/// long for an argument goes through a buffer.
pub fn send(pane_id: &str, text: &str) -> (r: Vec<TmuxCall>)
    ensures
        call_views(r@) == send_calls(pane_id@, text@),
{
    let mut calls: Vec<TmuxCall> = Vec::new();
    if chars_of(text).len() <= MAX_TYPED_CHARS {
        let args = args_of(&["send-keys", "-t", pane_id, text, "Enter"]);
        assert(views(args@) =~= seq!["send-keys"@, "-t"@, pane_id@, text@, "Enter"@]);
        calls.push(TmuxCall { args, input: None });
    } else {
        let load = args_of(&["load-buffer", "-"]);
        assert(views(load@) =~= seq!["load-buffer"@, "-"@]);
        calls.push(TmuxCall { args: load, input: Some(text.to_owned()) });
        let paste = args_of(&["paste-buffer", "-t", pane_id]);
        assert(views(paste@) =~= seq!["paste-buffer"@, "-t"@, pane_id@]);
        calls.push(TmuxCall { args: paste, input: None });
        let submit = args_of(&["send-keys", "-t", pane_id, "Enter"]);
        assert(views(submit@) =~= seq!["send-keys"@, "-t"@, pane_id@, "Enter"@]);
        calls.push(TmuxCall { args: submit, input: None });
    }
    assert(call_views(calls@) =~= send_calls(pane_id@, text@));
    calls
}

/// A command with its arguments as one line.
pub open spec fn command_line(cmd: Seq<char>, args: Seq<Seq<char>>) -> Seq<char> {
    if args.len() == 0 {
        cmd
    } else {
        cmd + " "@ + join(args, " "@)
    }
}

/// The arguments that run a command in a new pane. What `tmux` prints is the id
/// of the pane.
pub fn spawn(cmd: &str, args: &Vec<String>) -> (r: Vec<String>)
    ensures
        views(r@) == seq![
            "split-window"@,
            "-h"@,
            "-P"@,
            "-F"@,
            "#{pane_id}"@,
            command_line(cmd@, views(args@)),
        ],
{
    let full_cmd = if args.len() == 0 {
        cmd.to_owned()
    } else {
        cmd.to_owned().concat(" ").concat(join_all(args, " ").as_str())
    };
    assert(views(args@).len() == args@.len());
    let r = args_of(&["split-window", "-h", "-P", "-F", "#{pane_id}", full_cmd.as_str()]);
    assert(views(r@) =~= seq![
        "split-window"@,
        "-h"@,
        "-P"@,
        "-F"@,
        "#{pane_id}"@,
        command_line(cmd@, views(args@)),
    ]);
    r
}

/// The arguments that close a pane.
pub fn close(pane_id: &str) -> (r: Vec<String>)
    ensures
        views(r@) == seq!["kill-pane"@, "-t"@, pane_id@],
{
    let r = args_of(&["kill-pane", "-t", pane_id]);
    assert(views(r@) =~= seq!["kill-pane"@, "-t"@, pane_id@]);
    r
}

/// The arguments that print all that a pane has shown.
pub fn dump(pane_id: &str) -> (r: Vec<String>)
    ensures
        views(r@) == seq!["capture-pane"@, "-t"@, pane_id@, "-p"@, "-S"@, "-"@],
{
    let r = args_of(&["capture-pane", "-t", pane_id, "-p", "-S", "-"]);
    assert(views(r@) =~= seq!["capture-pane"@, "-t"@, pane_id@, "-p"@, "-S"@, "-"@]);
    r
}

/// The arguments that list all panes.
pub fn list_panes_args() -> (r: Vec<String>)
    ensures
        views(r@) == seq!["list-panes"@, "-a"@, "-F"@, PANE_FORMAT@],
{
    let r = args_of(&["list-panes", "-a", "-F", PANE_FORMAT]);
    assert(views(r@) =~= seq!["list-panes"@, "-a"@, "-F"@, PANE_FORMAT@]);
    r
}

/// A pane.
#[derive(Debug, Clone)]
pub struct PaneInfo {
    pub id: String,
    pub title: String,
    pub command: Option<String>,
    pub active: bool,
}

/// The contents of a [`PaneInfo`].
pub ghost struct PaneView {
    pub id: Seq<char>,
    pub title: Seq<char>,
    pub command: Option<Seq<char>>,
    pub active: bool,
}

impl View for PaneInfo {
    type V = PaneView;

    open spec fn view(&self) -> PaneView {
        PaneView {
            id: self.id@,
            title: self.title@,
            command: opt_view(self.command),
            active: self.active,
        }
    }
}

/// The contents of a list of panes.
pub open spec fn pane_views(v: Seq<PaneInfo>) -> Seq<PaneView> {
    v.map_values(|p: PaneInfo| p@)
}

/// The pane that a line of a list describes, if it has all the parts.
pub open spec fn pane_in(line: Seq<char>) -> Option<PaneView> {
    let parts = split_at_most(line, '|', 4);
    if parts.len() < 4 {
        None
    } else {
        Some(
            PaneView {
                id: parts[0],
                title: parts[1],
                command: if parts[2].len() == 0 {
                    None
                } else {
                    Some(parts[2])
                },
                active: parts[3] == "1"@,
            },
        )
    }
}

/// The panes that the lines of a list describe.
pub open spec fn panes_in(rows: Seq<Seq<char>>) -> Seq<PaneView>
    decreases rows.len(),
{
    if rows.len() == 0 {
        Seq::empty()
    } else {
        let before = panes_in(rows.drop_last());
        match pane_in(rows.last()) {
            Some(p) => before.push(p),
            None => before,
        }
    }
}

fn pane_of(line: &str) -> (r: Option<PaneInfo>)
    ensures
        match r {
            Some(p) => pane_in(line@) == Some(p@),
            None => pane_in(line@) is None,
        },
{
    let parts = split_on_at_most(line, '|', 4);
    assert(views(parts@).len() == parts@.len());
    if parts.len() < 4 {
        return None;
    }
    assert(forall|i: int| 0 <= i < parts@.len() ==> views(parts@)[i] == #[trigger] parts@[i]@);
    let command = if parts[2].as_str().is_empty() {
        None
    } else {
        Some(parts[2].clone())
    };
    Some(
        PaneInfo {
            id: parts[0].clone(),
            title: parts[1].clone(),
            command,
            active: same(parts[3].as_str(), "1"),
        },
    )
}

/// The panes in a list that `tmux` printed.
#[verifier::loop_isolation(false)]
pub fn list_panes(raw: &str) -> (r: Vec<PaneInfo>)
    ensures
        pane_views(r@) == panes_in(lines(raw@)),
{
    let rows = lines_of(raw);
    let ghost all = views(rows@);
    let mut out: Vec<PaneInfo> = Vec::new();
    let mut i: usize = 0;
    assert(pane_views(out@) =~= panes_in(all.take(0)));
    while i < rows.len()
        invariant
            i <= rows@.len(),
            pane_views(out@) == panes_in(all.take(i as int)),
        decreases rows@.len() - i,
    {
        assert(all.take(i + 1).drop_last() =~= all.take(i as int));
        assert(all.take(i + 1).last() == rows@[i as int]@);
        let ghost before = pane_views(out@);
        match pane_of(rows[i].as_str()) {
            Some(p) => {
                out.push(p);
                assert(pane_views(out@) =~= before.push(p@));
            },
            None => {},
        }
        i = i + 1;
    }
    assert(all.take(i as int) =~= all);
    out
}

/// The ids of the panes in a list that `tmux` printed.
#[verifier::loop_isolation(false)]
pub fn list_pane_ids(raw: &str) -> (r: Vec<String>)
    ensures
        views(r@) == panes_in(lines(raw@)).map_values(|p: PaneView| p.id),
{
    let panes = list_panes(raw);
    let mut out: Vec<String> = Vec::new();
    let mut i: usize = 0;
    while i < panes.len()
        invariant
            i <= panes@.len(),
            out@.len() == i,
            forall|k: int| 0 <= k < i ==> (#[trigger] out@[k])@ == panes@[k]@.id,
        decreases panes@.len() - i,
    {
        out.push(panes[i].id.clone());
        i = i + 1;
    }
    assert(views(out@) =~= pane_views(panes@).map_values(|p: PaneView| p.id));
    out
}

/// A line that describes a pane in a list.
pub open spec fn pane_line(p: PaneView) -> Seq<char> {
    p.id + seq!['|'] + p.title + seq!['|'] + (match p.command {
        Some(c) => c,
        None => Seq::empty(),
    }) + seq!['|'] + (if p.active {
        "1"@
    } else {
        "0"@
    })
}

/// Whether a text does not hold the mark between the parts of a line.
pub open spec fn no_bar(s: Seq<char>) -> bool {
    forall|i: int| 0 <= i < s.len() ==> #[trigger] s[i] != '|'
}

proof fn lemma_split_step(head: Seq<char>, tail: Seq<char>, n: nat)
    requires
        no_bar(head),
        n > 1,
    ensures
        split_at_most(head + seq!['|'] + tail, '|', n) == seq![head] + split_at_most(
            tail,
            '|',
            (n - 1) as nat,
        ),
{
    let s = head + seq!['|'] + tail;
    let p = head.len() as int;
    assert forall|k: int| 0 <= k < p implies s[k] != '|' by {
        assert(s[k] == head[k]);
    }
    assert(s[p] == '|');
    lemma_first_pos(s, '|', p);
    assert(s.take(p) =~= head);
    assert(s.skip(p + 1) =~= tail);
}

/// A pane is read back from the line that describes it, where neither its id
/// nor its title nor its command holds the mark between the parts.
pub proof fn pane_lines_read_back(p: PaneView)
    requires
        no_bar(p.id),
        no_bar(p.title),
        p.command matches Some(c) ==> no_bar(c) && c.len() > 0,
    ensures
        pane_in(pane_line(p)) == Some(p),
{
    reveal_strlit("1");
    reveal_strlit("0");
    let command = match p.command {
        Some(c) => c,
        None => Seq::empty(),
    };
    let flag = if p.active {
        "1"@
    } else {
        "0"@
    };
    assert(no_bar(command));
    let d = flag;
    let c = command + seq!['|'] + d;
    let b = p.title + seq!['|'] + c;
    let a = p.id + seq!['|'] + b;
    assert(pane_line(p) =~= a);
    lemma_split_step(p.id, b, 4);
    lemma_split_step(p.title, c, 3);
    lemma_split_step(command, d, 2);
    assert(split_at_most(d, '|', 1) =~= seq![d]);
    let parts = split_at_most(a, '|', 4);
    assert(parts =~= seq![p.id, p.title, command, d]);
    assert("1"@.len() == 1 && "1"@[0] == '1' && "0"@[0] == '0');
}

// ---------------------------------------------------------------------------
// Waiting
// ---------------------------------------------------------------------------

/// The pause between two looks at a pane, in milliseconds.
pub const LOOK_PAUSE_MS: u64 = 250;

/// What follows a look at a pane that is about to start.
#[derive(Debug, Clone, Copy, PartialEq, Eq, Structural)]
pub enum WaitStep {
    /// Nothing has appeared in time.
    GiveUp,
    /// Something has appeared: let it settle.
    Settle,
    /// Look again after a pause.
    LookAgain,
}

/// What follows a look at a pane that is about to start: whether the time is up
/// comes first, and then whether the pane shows anything.
pub fn wait_for_stable_output(time_is_up: bool, shown: Option<&str>) -> (r: WaitStep)
    ensures
        r == (if time_is_up {
            WaitStep::GiveUp
        } else {
            match shown {
                Some(text) => if trim(text@).len() > 0 {
                    WaitStep::Settle
                } else {
                    WaitStep::LookAgain
                },
                None => WaitStep::LookAgain,
            }
        }),
{
    if time_is_up {
        return WaitStep::GiveUp;
    }
    match shown {
        Some(text) => {
            if trimmed(text).as_str().is_empty() {
                WaitStep::LookAgain
            } else {
                WaitStep::Settle
            }
        },
        None => WaitStep::LookAgain,
    }
}

// ---------------------------------------------------------------------------
// Laws
// ---------------------------------------------------------------------------

/// A text is handed to `tmux` once, whole and as it is, whatever its length,
/// for the pane that it is meant for, and is submitted at the end. Only a text
/// of more than two hundred characters goes through a buffer.
pub proof fn texts_are_typed_whole(pane_id: Seq<char>, text: Seq<char>)
    ensures
        ({
            let calls = send_calls(pane_id, text);
            let last = calls.last().0;
            &&& text.len() <= 200 ==> calls.len() == 1 && calls[0].1 is None && calls[0].0 == seq![
                "send-keys"@,
                "-t"@,
                pane_id,
                text,
                "Enter"@,
            ]
            &&& text.len() > 200 ==> {
                &&& calls.len() == 3
                &&& calls[0] == (seq!["load-buffer"@, "-"@], Some(text))
                &&& calls[1] == (seq!["paste-buffer"@, "-t"@, pane_id], None::<Seq<char>>)
                &&& calls[2] == (
                    seq!["send-keys"@, "-t"@, pane_id, "Enter"@],
                    None::<Seq<char>>,
                )
            }
            &&& last[0] == "send-keys"@
            &&& last[2] == pane_id
            &&& last.last() == "Enter"@
        }),
{
}

/// A command line is the command and its arguments with a space between any
/// two, and the command alone where it has no arguments.
pub proof fn command_lines_hold_their_words(cmd: Seq<char>, args: Seq<Seq<char>>)
    ensures
        command_line(cmd, Seq::empty()) == cmd,
        command_line(cmd, args) == join(seq![cmd] + args, " "@),
    decreases args.len(),
{
    let all = seq![cmd] + args;
    if args.len() == 0 {
        assert(all =~= seq![cmd]);
    } else {
        let rest = args.drop_last();
        command_lines_hold_their_words(cmd, rest);
        assert(all.drop_last() =~= seq![cmd] + rest);
        assert(all.last() == args.last());
        if rest.len() == 0 {
            assert(seq![cmd] + rest =~= seq![cmd]);
            assert(join(args, " "@) == args[0]);
        } else {
            assert(cmd + " "@ + (join(rest, " "@) + " "@ + args.last()) =~= cmd + " "@ + join(
                rest,
                " "@,
            ) + " "@ + args.last());
        }
    }
}

/// The id of a pane is what was written with the sign in front of it, which is
/// not put there twice.
pub proof fn pane_ids_get_their_sign(id: Seq<char>)
    ensures
        normalized("%"@ + id) == "%"@ + id,
        !has_prefix(id, "%"@) ==> normalized(id) == "%"@ + id,
{
    assert(("%"@ + id).take("%"@.len() as int) =~= "%"@);
}

/// The name of a session is what stands behind the last slash in what stands
/// before the first comma.
pub proof fn session_stands_between_slash_and_comma(
    path: Seq<char>,
    name: Seq<char>,
    rest: Seq<char>,
)
    requires
        forall|i: int| 0 <= i < path.len() ==> #[trigger] path[i] != ',',
        forall|i: int| 0 <= i < name.len() ==> #[trigger] name[i] != ',' && name[i] != '/',
    ensures
        session_in(path + seq!['/'] + name + seq![','] + rest) == name,
        session_in(path + seq!['/'] + name) == name,
        session_in(name) == name,
{
    let head = path + seq!['/'] + name;
    let value = head + seq![','] + rest;
    let n = head.len() as int;
    assert(path + seq!['/'] + name + seq![','] + rest =~= value);
    assert forall|k: int| 0 <= k < n implies head[k] != ',' by {
        if k < path.len() {
            assert(head[k] == path[k]);
        } else if k > path.len() {
            assert(head[k] == name[k - path.len() - 1]);
        }
    }
    assert forall|k: int| 0 <= k < n implies value[k] != ',' by {
        assert(value[k] == head[k]);
    }
    assert(value[n] == ',');
    lemma_first_pos(value, ',', n);
    assert(value.take(n) =~= head);
    lemma_first_pos(head, ',', n);
    lemma_first_pos(name, ',', name.len() as int);
    let slash = path.len() as int;
    assert forall|k: int| slash < k < head.len() implies head[k] != '/' by {
        assert(head[k] == name[k - slash - 1]);
    }
    crate::text::lemma_last_pos(head, '/', slash);
    assert(head.skip(slash + 1) =~= name);
    crate::text::lemma_last_pos(name, '/', -1);
    assert(name.skip(0) =~= name);
}

/// The panes of a list are those of its lines, in their order; a line without
/// all the parts describes none, and hides none.
pub proof fn panes_are_read_line_by_line(rows: Seq<Seq<char>>, line: Seq<char>)
    ensures
        panes_in(Seq::empty()).len() == 0,
        split_at_most(line, '|', 4).len() < 4 ==> panes_in(rows.push(line)) == panes_in(rows),
        split_at_most(line, '|', 4).len() == 4 ==> {
            let parts = split_at_most(line, '|', 4);
            let after = panes_in(rows.push(line));
            &&& after.len() == panes_in(rows).len() + 1
            &&& after.drop_last() == panes_in(rows)
            &&& after.last().id == parts[0]
            &&& after.last().title == parts[1]
            &&& parts[2].len() > 0 ==> after.last().command == Some(parts[2])
            &&& parts[2].len() == 0 ==> after.last().command is None
            &&& after.last().active <==> parts[3] == "1"@
        },
{
    assert(rows.push(line).drop_last() =~= rows);
    let after = panes_in(rows.push(line));
    if split_at_most(line, '|', 4).len() >= 4 {
        assert(after.drop_last() =~= panes_in(rows));
    }
}

} // verus!

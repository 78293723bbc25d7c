//! Panes of Zellij, and its hub plugin.
//!
//! Texts are pasted and then submitted after a short pause; panes are found
//! with `list-panes`, and read with `dump-screen`.

use vstd::prelude::*;
use vstd::string::StringExecFns;

use crate::command::{args_of, push_arg};
use crate::number::{all_digits, decimal, decimal_of, is_all_digits};
use crate::pieces::{join, join_all, join_from, last_of, lines, lines_of, replace, replace_char};
use crate::text::{has_prefix, prefixes_and_rests_make_the_text, same, starts_with, views};

verus! {

/// The pause between pasting a text and submitting it, in milliseconds.
pub const PASTE_PAUSE_MS: u64 = 200;

/// How long the hub is given to answer a probe, in milliseconds.
pub const PROBE_TIMEOUT_MS: u64 = 2000;

/// The pause between two looks at a probe, in milliseconds.
pub const PROBE_PAUSE_MS: u64 = 50;

// ---------------------------------------------------------------------------
// Panes
// ---------------------------------------------------------------------------

/// A pane.
#[derive(Debug, Clone)]
pub struct PaneInfo {
    pub id: u64,
    pub is_plugin: bool,
    pub is_focused: bool,
    pub is_floating: bool,
    pub title: String,
    pub exited: bool,
    pub exit_status: Option<i32>,
    pub pane_command: Option<String>,
    pub pane_cwd: Option<String>,
    pub tab_id: Option<u64>,
    pub tab_name: Option<String>,
}

/// The name of a pane.
pub open spec fn pane_name(is_plugin: bool, id: u64) -> Seq<char> {
    (if is_plugin {
        "plugin"@
    } else {
        "terminal"@
    }) + "_"@ + decimal(id as nat)
}

impl PaneInfo {
    /// The name of the pane, such as `terminal_3` or `plugin_1`.
    pub fn pane_id(&self) -> (r: String)
        ensures
            r@ == pane_name(self.is_plugin, self.id),
    {
        let prefix = if self.is_plugin {
            "plugin"
        } else {
            "terminal"
        };
        prefix.to_owned().concat("_").concat(decimal_of(self.id).as_str())
    }
}

/// The names of the terminals among panes.
pub open spec fn terminal_names(panes: Seq<PaneInfo>) -> Seq<Seq<char>>
    decreases panes.len(),
{
    if panes.len() == 0 {
        Seq::empty()
    } else {
        let before = terminal_names(panes.drop_last());
        if panes.last().is_plugin {
            before
        } else {
            before.push(pane_name(false, panes.last().id))
        }
    }
}

/// The names of the terminals among panes.
#[verifier::loop_isolation(false)]
pub fn list_pane_ids(panes: &Vec<PaneInfo>) -> (r: Vec<String>)
    ensures
        views(r@) == terminal_names(panes@),
{
    let mut out: Vec<String> = Vec::new();
    let mut i: usize = 0;
    assert(views(out@) =~= terminal_names(panes@.take(0)));
    while i < panes.len()
        invariant
            i <= panes@.len(),
            views(out@) == terminal_names(panes@.take(i as int)),
        decreases panes@.len() - i,
    {
        assert(panes@.take(i + 1).drop_last() =~= panes@.take(i as int));
        let ghost before = views(out@);
        if !panes[i].is_plugin {
            let id = panes[i].pane_id();
            out.push(id);
            assert(views(out@) =~= before.push(id@));
        }
        i = i + 1;
    }
    assert(panes@.take(i as int) =~= panes@);
    out
}

/// The name of the pane that a text stands for.
pub open spec fn normalized(input: Seq<char>) -> Seq<char> {
    if has_prefix(input, "terminal_"@) || has_prefix(input, "plugin_"@) {
        input
    } else if all_digits(input) {
        "terminal_"@ + input
    } else {
        input
    }
}

/// The name of the pane that a text stands for: `3` stands for `terminal_3`,
/// and anything else for itself.
pub fn normalize_pane_id(input: &str) -> (r: String)
    ensures
        r@ == normalized(input@),
{
    if starts_with(input, "terminal_") || starts_with(input, "plugin_") {
        input.to_owned()
    } else if is_all_digits(input) {
        "terminal_".to_owned().concat(input)
    } else {
        input.to_owned()
    }
}

/// The name of a pane stands for itself, and normalizing twice changes nothing.
pub proof fn normalizing_twice_changes_nothing(input: Seq<char>)
    ensures
        normalized(normalized(input)) == normalized(input),
{
    let t = "terminal_"@ + input;
    assert(t.take("terminal_"@.len() as int) =~= "terminal_"@);
}

/// The names of panes are as users may write them.
pub proof fn pane_names_are_normal(is_plugin: bool, id: u64)
    ensures
        normalized(pane_name(is_plugin, id)) == pane_name(is_plugin, id),
        normalized(decimal(id as nat)) == pane_name(false, id),
{
    reveal_strlit("terminal_");
    reveal_strlit("plugin_");
    reveal_strlit("terminal");
    reveal_strlit("plugin");
    reveal_strlit("_");
    let name = pane_name(is_plugin, id);
    let d = decimal(id as nat);
    assert("terminal"@ + "_"@ =~= "terminal_"@);
    assert("plugin"@ + "_"@ =~= "plugin_"@);
    if is_plugin {
        assert(name.take("plugin_"@.len() as int) =~= "plugin_"@);
    } else {
        assert(name.take("terminal_"@.len() as int) =~= "terminal_"@);
    }
    crate::number::lemma_decimal_digits(id as nat);
    assert(crate::number::is_digit(d[0]));
    if has_prefix(d, "terminal_"@) {
        assert(d.take("terminal_"@.len() as int)[0] == 't');
    }
    if has_prefix(d, "plugin_"@) {
        assert(d.take("plugin_"@.len() as int)[0] == 'p');
    }
}

/// The own pane, from the value of its environment variable.
pub fn own_pane_id(value: Option<String>) -> (r: Result<String, String>)
    ensures
        match value {
            Some(v) => r matches Ok(id) && id@ == normalized(v@),
            None => r matches Err(why) && why@ == "ZELLIJ_PANE_ID not set — not inside zellij?"@,
        },
{
    match value {
        Some(v) => Ok(normalize_pane_id(v.as_str())),
        None => Err("ZELLIJ_PANE_ID not set — not inside zellij?".to_owned()),
    }
}

/// The arguments that paste a text into a pane.
pub open spec fn paste_args(pane_id: Seq<char>, text: Seq<char>) -> Seq<Seq<char>> {
    seq!["action"@, "paste"@, "--pane-id"@, pane_id, text]
}

/// The arguments that submit what was pasted into a pane.
pub open spec fn submit_args(pane_id: Seq<char>) -> Seq<Seq<char>> {
    seq!["action"@, "write"@, "--pane-id"@, pane_id, "13"@]
}

/// The arguments that paste a text into a pane, and those that submit it. The
/// second call is made after a pause.
pub fn send(pane_id: &str, text: &str) -> (r: (Vec<String>, Vec<String>))
    ensures
        views(r.0@) == paste_args(pane_id@, text@),
        views(r.1@) == submit_args(pane_id@),
{
    let paste = args_of(&["action", "paste", "--pane-id", pane_id, text]);
    assert(views(paste@) =~= paste_args(pane_id@, text@));
    let submit = args_of(&["action", "write", "--pane-id", pane_id, "13"]);
    assert(views(submit@) =~= submit_args(pane_id@));
    (paste, submit)
}

/// The arguments that run a command in a new pane.
pub open spec fn run_args(cmd: Seq<char>, args: Seq<Seq<char>>, name: Option<Seq<char>>) -> Seq<
    Seq<char>,
> {
    seq!["run"@] + (match name {
        Some(n) => seq!["--name"@, n],
        None => Seq::empty(),
    }) + seq!["--"@, cmd] + args
}

/// The arguments that run a command in a new pane. What Zellij prints is the
/// name of the pane.
#[verifier::loop_isolation(false)]
pub fn spawn(cmd: &str, args: &Vec<String>, name: Option<&str>) -> (r: Vec<String>)
    ensures
        views(r@) == run_args(
            cmd@,
            views(args@),
            match name {
                Some(n) => Some(n@),
                None => None,
            },
        ),
{
    let mut out = args_of(&["run"]);
    match name {
        Some(n) => {
            push_arg(&mut out, "--name");
            push_arg(&mut out, n);
        },
        None => {},
    }
    push_arg(&mut out, "--");
    push_arg(&mut out, cmd);
    let ghost head = views(out@);
    let mut i: usize = 0;
    assert(head + views(args@).take(0) =~= head);
    while i < args.len()
        invariant
            i <= args@.len(),
            views(out@) =~= head + views(args@).take(i as int),
        decreases args@.len() - i,
    {
        push_arg(&mut out, args[i].as_str());
        i = i + 1;
    }
    assert(views(args@).take(i as int) =~= views(args@));
    let ghost whole = run_args(
        cmd@,
        views(args@),
        match name {
            Some(n) => Some(n@),
            None => None,
        },
    );
    assert(views(out@) =~= whole);
    out
}

/// The arguments that close a pane.
pub fn close(pane_id: &str) -> (r: Vec<String>)
    ensures
        views(r@) == seq!["action"@, "close-pane"@, "--pane-id"@, pane_id@],
{
    let r = args_of(&["action", "close-pane", "--pane-id", pane_id]);
    assert(views(r@) =~= seq!["action"@, "close-pane"@, "--pane-id"@, pane_id@]);
    r
}

/// The arguments that give a pane a name.
pub fn rename(pane_id: &str, name: &str) -> (r: Vec<String>)
    ensures
        views(r@) == seq!["action"@, "rename-pane"@, "--pane-id"@, pane_id@, name@],
{
    let r = args_of(&["action", "rename-pane", "--pane-id", pane_id, name]);
    assert(views(r@) =~= seq!["action"@, "rename-pane"@, "--pane-id"@, pane_id@, name@]);
    r
}

/// An option with its value, where there is one.
pub open spec fn opt_arg(option: Seq<char>, value: Option<&str>) -> Seq<Seq<char>> {
    match value {
        Some(v) => seq![option, v@],
        None => Seq::empty(),
    }
}

/// The arguments that set the colors of a pane.
pub fn set_color(pane_id: &str, fg: Option<&str>, bg: Option<&str>) -> (r: Vec<String>)
    ensures
        views(r@) == seq!["action"@, "set-pane-color"@, "--pane-id"@, pane_id@] + opt_arg(
            "--fg"@,
            fg,
        ) + opt_arg("--bg"@, bg),
{
    let mut out = args_of(&["action", "set-pane-color", "--pane-id", pane_id]);
    let ghost head = seq!["action"@, "set-pane-color"@, "--pane-id"@, pane_id@];
    assert(views(out@) =~= head);
    match fg {
        Some(f) => {
            push_arg(&mut out, "--fg");
            push_arg(&mut out, f);
        },
        None => {},
    }
    assert(views(out@) =~= head + opt_arg("--fg"@, fg));
    match bg {
        Some(b) => {
            push_arg(&mut out, "--bg");
            push_arg(&mut out, b);
        },
        None => {},
    }
    assert(views(out@) =~= head + opt_arg("--fg"@, fg) + opt_arg("--bg"@, bg));
    out
}

/// The arguments that reset the colors of a pane.
pub fn reset_color(pane_id: &str) -> (r: Vec<String>)
    ensures
        views(r@) == seq!["action"@, "set-pane-color"@, "--pane-id"@, pane_id@, "--reset"@],
{
    let r = args_of(&["action", "set-pane-color", "--pane-id", pane_id, "--reset"]);
    assert(views(r@) =~= seq!["action"@, "set-pane-color"@, "--pane-id"@, pane_id@, "--reset"@]);
    r
}

/// The arguments that list all panes as JSON.
pub fn list_panes_args() -> (r: Vec<String>)
    ensures
        views(r@) == seq!["action"@, "list-panes"@, "--json"@],
{
    let r = args_of(&["action", "list-panes", "--json"]);
    assert(views(r@) =~= seq!["action"@, "list-panes"@, "--json"@]);
    r
}

/// The arguments that print all that a pane has shown.
pub fn dump(pane_id: &str) -> (r: Vec<String>)
    ensures
        views(r@) == seq!["action"@, "dump-screen"@, "--pane-id"@, pane_id@, "--full"@],
{
    let r = args_of(&["action", "dump-screen", "--pane-id", pane_id, "--full"]);
    assert(views(r@) =~= seq!["action"@, "dump-screen"@, "--pane-id"@, pane_id@, "--full"@]);
    r
}

/// The last lines of what a pane has shown.
pub fn dump_last(full: &str, count: usize) -> (r: String)
    ensures
        r@ == join(last_of(lines(full@), count as nat), "\n"@),
{
    let rows = lines_of(full);
    let from: usize = if rows.len() <= count {
        0
    } else {
        rows.len() - count
    };
    assert(views(rows@).len() == rows@.len());
    assert(views(rows@).skip(from as int) =~= last_of(lines(full@), count as nat));
    join_from(&rows, from, "\n")
}

// ---------------------------------------------------------------------------
// Hub
// ---------------------------------------------------------------------------

/// A value in the arguments of a message to the hub. Commas separate these and
/// an equals sign ends their names, so both are written otherwise, as is the
/// sign that this takes.
pub open spec fn encoded_value(v: Seq<char>) -> Seq<char> {
    replace(replace(replace(v, '%', "%25"@), ',', "%2C"@), '=', "%3D"@)
}

/// A value in the arguments of a message to the hub.
pub fn encode_arg_value(v: &str) -> (r: String)
    ensures
        r@ == encoded_value(v@),
{
    let a = replace_char(v, '%', "%25");
    let b = replace_char(a.as_str(), ',', "%2C");
    replace_char(b.as_str(), '=', "%3D")
}

/// A name and its value in the arguments of a message to the hub.
pub open spec fn hub_arg(k: Seq<char>, v: Seq<char>) -> Seq<char> {
    k + "="@ + encoded_value(v)
}

/// The arguments of a message to the hub, as one text.
pub open spec fn hub_args(action: Seq<char>, args: Seq<(Seq<char>, Seq<char>)>) -> Seq<char> {
    join(
        seq![action] + args.map_values(|p: (Seq<char>, Seq<char>)| hub_arg(p.0, p.1)),
        ","@,
    )
}

/// The arguments that send a message to the hub.
pub open spec fn pipe_args(
    action: Seq<char>,
    args: Seq<(Seq<char>, Seq<char>)>,
    payload: Option<Seq<char>>,
) -> Seq<Seq<char>> {
    seq!["pipe"@, "--name"@, "rz"@, "--args"@, hub_args(action, args)] + (match payload {
        Some(p) => seq!["--"@, p],
        None => Seq::empty(),
    })
}

/// The arguments that send a message to the hub that is running.
#[verifier::loop_isolation(false)]
pub fn pipe_to_hub(action: &str, args: &Vec<(String, String)>, payload: Option<&str>) -> (r: Vec<
    String,
>)
    ensures
        views(r@) == pipe_args(
            action@,
            crate::json::members_view(args@),
            match payload {
                Some(p) => Some(p@),
                None => None,
            },
        ),
{
    let ghost pairs = crate::json::members_view(args@);
    let mut parts: Vec<String> = Vec::new();
    push_arg(&mut parts, action);
    assert(views(parts@).len() == 1);
    let mut i: usize = 0;
    while i < args.len()
        invariant
            i <= args@.len(),
            parts@.len() == i + 1,
            views(parts@)[0] == action@,
            forall|k: int|
                0 <= k < i ==> #[trigger] views(parts@)[k + 1] == hub_arg(pairs[k].0, pairs[k].1),
        decreases args@.len() - i,
    {
        let value = encode_arg_value(args[i].1.as_str());
        let part = args[i].0.clone().concat("=").concat(value.as_str());
        let ghost before = views(parts@);
        parts.push(part);
        assert(views(parts@) =~= before.push(part@));
        i = i + 1;
    }
    proof {
        let whole = seq![action@] + pairs.map_values(
            |p: (Seq<char>, Seq<char>)| hub_arg(p.0, p.1),
        );
        assert forall|k: int| 0 <= k < whole.len() implies views(parts@)[k] == whole[k] by {
            if k > 0 {
                assert(views(parts@)[(k - 1) + 1] == hub_arg(pairs[k - 1].0, pairs[k - 1].1));
            }
        }
        assert(views(parts@) =~= whole);
    }
    let args_str = join_all(&parts, ",");
    let mut out = args_of(&["pipe", "--name", "rz", "--args", args_str.as_str()]);
    match payload {
        Some(p) => {
            push_arg(&mut out, "--");
            push_arg(&mut out, p);
        },
        None => {},
    }
    let ghost whole = pipe_args(
        action@,
        pairs,
        match payload {
            Some(p) => Some(p@),
            None => None,
        },
    );
    assert(views(out@) =~= whole);
    out
}

/// The arguments that ask the hub for a sign of life.
pub fn probe_args() -> (r: Vec<String>)
    ensures
        views(r@) == seq!["pipe"@, "--name"@, "rz"@, "--args"@, "action=ping"@],
{
    let r = args_of(&["pipe", "--name", "rz", "--args", "action=ping"]);
    assert(views(r@) =~= seq!["pipe"@, "--name"@, "rz"@, "--args"@, "action=ping"@]);
    r
}

/// Whether there is a hub to send messages to, as far as it is known.
#[derive(Debug, Clone, Copy, PartialEq, Eq, Structural)]
pub enum HubCheck {
    Yes,
    No,
    /// The hub must be asked.
    Probe,
}

/// Whether there is a hub: `1` and `0` in the variable `RZ_HUB` decide it.
/// Without them there is none outside of Zellij, and inside it must be asked.
pub fn hub_available(rz_hub: Option<&str>, inside_zellij: bool) -> (r: HubCheck)
    ensures
        r == (if rz_hub matches Some(v) && v@ == "1"@ {
            HubCheck::Yes
        } else if rz_hub matches Some(v) && v@ == "0"@ {
            HubCheck::No
        } else if inside_zellij {
            HubCheck::Probe
        } else {
            HubCheck::No
        }),
{
    if let Some(v) = rz_hub {
        if same(v, "1") {
            return HubCheck::Yes;
        }
        if same(v, "0") {
            return HubCheck::No;
        }
    }
    if inside_zellij {
        HubCheck::Probe
    } else {
        HubCheck::No
    }
}

/// How a probe of the hub stands.
#[derive(Debug, Clone, Copy, PartialEq, Eq, Structural)]
pub enum ProbeState {
    /// The command has ended, well or not.
    Ended(bool),
    Running,
    /// The command cannot be watched.
    Lost,
}

/// What follows a look at a probe of the hub.
#[derive(Debug, Clone, Copy, PartialEq, Eq, Structural)]
pub enum ProbeStep {
    /// There is a hub, or there is none.
    Answer(bool),
    /// The time is up: end the command. There is no hub.
    Kill,
    /// Look again after a pause.
    LookAgain,
}

/// What follows a look at a probe of the hub.
pub fn probe_hub(state: ProbeState, time_is_up: bool) -> (r: ProbeStep)
    ensures
        r == (match state {
            ProbeState::Ended(well) => ProbeStep::Answer(well),
            ProbeState::Running => if time_is_up {
                ProbeStep::Kill
            } else {
                ProbeStep::LookAgain
            },
            ProbeState::Lost => ProbeStep::Answer(false),
        }),
{
    match state {
        ProbeState::Ended(well) => ProbeStep::Answer(well),
        ProbeState::Running => {
            if time_is_up {
                ProbeStep::Kill
            } else {
                ProbeStep::LookAgain
            }
        },
        ProbeState::Lost => ProbeStep::Answer(false),
    }
}

// ---------------------------------------------------------------------------
// Laws
// ---------------------------------------------------------------------------

/// How one character of a value is written.
spec fn coded(c: char) -> Seq<char> {
    if c == '%' {
        "%25"@
    } else if c == ',' {
        "%2C"@
    } else if c == '=' {
        "%3D"@
    } else {
        seq![c]
    }
}

/// How a value is written, character by character.
spec fn coded_all(s: Seq<char>) -> Seq<char>
    decreases s.len(),
{
    if s.len() == 0 {
        Seq::empty()
    } else {
        coded(s[0]) + coded_all(s.skip(1))
    }
}

proof fn lemma_replace_concat(a: Seq<char>, b: Seq<char>, c: char, by: Seq<char>)
    ensures
        replace(a + b, c, by) == replace(a, c, by) + replace(b, c, by),
    decreases b.len(),
{
    if b.len() == 0 {
        assert(a + b =~= a);
        assert(replace(a, c, by) + replace(b, c, by) =~= replace(a, c, by));
    } else {
        lemma_replace_concat(a, b.drop_last(), c, by);
        assert((a + b).drop_last() =~= a + b.drop_last());
        assert((a + b).last() == b.last());
        assert(replace(a + b, c, by) =~= replace(a, c, by) + replace(b, c, by));
    }
}

proof fn lemma_replace_absent(s: Seq<char>, c: char, by: Seq<char>)
    requires
        forall|i: int| 0 <= i < s.len() ==> #[trigger] s[i] != c,
    ensures
        replace(s, c, by) == s,
    decreases s.len(),
{
    if s.len() > 0 {
        assert(s[s.len() - 1] != c);
        lemma_replace_absent(s.drop_last(), c, by);
        assert(s.drop_last().push(s.last()) =~= s);
    } else {
        assert(s =~= Seq::<char>::empty());
    }
}

proof fn lemma_replace_one(c: char, x: char, by: Seq<char>)
    ensures
        replace(seq![x], c, by) == (if x == c {
            by
        } else {
            seq![x]
        }),
{
    let s = seq![x];
    assert(s.drop_last() =~= Seq::<char>::empty());
    assert(replace(Seq::<char>::empty(), c, by) =~= Seq::<char>::empty());
    assert(Seq::<char>::empty() + by =~= by);
    assert(Seq::<char>::empty().push(x) =~= s);
}

proof fn lemma_coded_one(x: char)
    ensures
        encoded_value(seq![x]) == coded(x),
{
    reveal_strlit("%25");
    reveal_strlit("%2C");
    reveal_strlit("%3D");
    lemma_replace_one('%', x, "%25"@);
    lemma_replace_one(',', x, "%2C"@);
    lemma_replace_one('=', x, "%3D"@);
    lemma_replace_absent("%25"@, ',', "%2C"@);
    lemma_replace_absent("%25"@, '=', "%3D"@);
    lemma_replace_absent("%2C"@, '=', "%3D"@);
}

proof fn lemma_coded_all(s: Seq<char>)
    ensures
        encoded_value(s) == coded_all(s),
    decreases s.len(),
{
    if s.len() == 0 {
        lemma_replace_absent(s, '%', "%25"@);
        lemma_replace_absent(s, ',', "%2C"@);
        lemma_replace_absent(s, '=', "%3D"@);
        assert(s =~= Seq::<char>::empty());
    } else {
        let head = seq![s[0]];
        let tail = s.skip(1);
        assert(s =~= head + tail);
        lemma_coded_all(tail);
        lemma_coded_one(s[0]);
        lemma_replace_concat(head, tail, '%', "%25"@);
        lemma_replace_concat(
            replace(head, '%', "%25"@),
            replace(tail, '%', "%25"@),
            ',',
            "%2C"@,
        );
        lemma_replace_concat(
            replace(replace(head, '%', "%25"@), ',', "%2C"@),
            replace(replace(tail, '%', "%25"@), ',', "%2C"@),
            '=',
            "%3D"@,
        );
    }
}

/// A value in the arguments of a message to the hub holds neither of the signs
/// that separate them.
pub proof fn encoded_values_hold_no_separators(v: Seq<char>)
    ensures
        forall|i: int|
            0 <= i < encoded_value(v).len() ==> #[trigger] encoded_value(v)[i] != ','
                && encoded_value(v)[i] != '=',
    decreases v.len(),
{
    lemma_coded_all(v);
    if v.len() > 0 {
        reveal_strlit("%25");
        reveal_strlit("%2C");
        reveal_strlit("%3D");
        let tail = v.skip(1);
        encoded_values_hold_no_separators(tail);
        lemma_coded_all(tail);
        let head = coded(v[0]);
        assert forall|i: int| 0 <= i < encoded_value(v).len() implies #[trigger] encoded_value(v)[i]
            != ',' && encoded_value(v)[i] != '=' by {
            if i >= head.len() {
                assert(encoded_value(v)[i] == encoded_value(tail)[i - head.len()]);
            } else {
                assert(encoded_value(v)[i] == head[i]);
            }
        }
    }
}

/// The character that an escape stands for.
pub open spec fn escaped(a: char, b: char) -> char {
    if a == '2' && b == 'C' {
        ','
    } else if a == '3' && b == 'D' {
        '='
    } else {
        '%'
    }
}

/// The value that was written as `t`.
pub open spec fn decoded_value(t: Seq<char>) -> Seq<char>
    decreases t.len(),
{
    if t.len() == 0 {
        Seq::empty()
    } else if t[0] == '%' && t.len() >= 3 {
        seq![escaped(t[1], t[2])] + decoded_value(t.skip(3))
    } else {
        seq![t[0]] + decoded_value(t.skip(1))
    }
}

/// A value can be read back from how it is written, so no two values are
/// written alike.
pub proof fn encoded_values_read_back(v: Seq<char>)
    ensures
        decoded_value(encoded_value(v)) == v,
    decreases v.len(),
{
    lemma_coded_all(v);
    if v.len() == 0 {
        assert(v =~= Seq::<char>::empty());
    } else {
        reveal_strlit("%25");
        reveal_strlit("%2C");
        reveal_strlit("%3D");
        let tail = v.skip(1);
        encoded_values_read_back(tail);
        lemma_coded_all(tail);
        let head = coded(v[0]);
        let t = head + coded_all(tail);
        assert(t[0] == head[0]);
        if head.len() == 3 {
            assert(t[1] == head[1] && t[2] == head[2]);
            assert(t.skip(3) =~= coded_all(tail));
        } else {
            assert(t.skip(1) =~= coded_all(tail));
        }
        assert(seq![v[0]] + tail =~= v);
    }
}

/// A pane is named as a plugin or as a terminal, with its number, so that no two
/// panes of the same kind are named alike.
pub proof fn panes_are_named_by_kind_and_number(id: u64, other: u64)
    ensures
        pane_name(true, id) == "plugin_"@ + decimal(id as nat),
        pane_name(false, id) == "terminal_"@ + decimal(id as nat),
        pane_name(true, id) == pane_name(true, other) ==> id == other,
        pane_name(false, id) == pane_name(false, other) ==> id == other,
        pane_name(true, id) != pane_name(false, other),
{
    reveal_strlit("plugin");
    reveal_strlit("plugin_");
    reveal_strlit("terminal");
    reveal_strlit("terminal_");
    reveal_strlit("_");
    assert("plugin"@ + "_"@ =~= "plugin_"@);
    assert("terminal"@ + "_"@ =~= "terminal_"@);
    let a = decimal(id as nat);
    let b = decimal(other as nat);
    prefixes_and_rests_make_the_text("plugin_"@ + a, "plugin_"@, a);
    prefixes_and_rests_make_the_text("plugin_"@ + b, "plugin_"@, b);
    prefixes_and_rests_make_the_text("terminal_"@ + a, "terminal_"@, a);
    prefixes_and_rests_make_the_text("terminal_"@ + b, "terminal_"@, b);
    crate::number::lemma_decimal_digits(id as nat);
    crate::number::lemma_decimal_digits(other as nat);
    assert(pane_name(true, id)[0] == 'p');
    assert(pane_name(false, other)[0] == 't');
}

/// The terminals among panes are named, each by its own name and in their
/// order, and no plugin is.
pub proof fn terminals_are_named_in_order(panes: Seq<PaneInfo>)
    ensures
        terminal_names(panes) == panes.filter(|p: PaneInfo| !p.is_plugin).map_values(
            |p: PaneInfo| "terminal_"@ + decimal(p.id as nat),
        ),
    decreases panes.len(),
{
    reveal(Seq::filter);
    let keep = |p: PaneInfo| !p.is_plugin;
    let name = |p: PaneInfo| "terminal_"@ + decimal(p.id as nat);
    if panes.len() > 0 {
        let rest = panes.drop_last();
        terminals_are_named_in_order(rest);
        let kept = rest.filter(keep);
        let last = panes.last();
        panes_are_named_by_kind_and_number(last.id, last.id);
        if keep(last) {
            assert(kept.push(last).map_values(name) =~= kept.map_values(name).push(name(last)));
        }
        assert(terminal_names(panes) =~= panes.filter(keep).map_values(name));
    } else {
        assert(terminal_names(panes) =~= panes.filter(keep).map_values(name));
    }
}

/// Only a bare number is taken for that of a terminal; whatever else a user
/// writes stands for itself.
pub proof fn only_numbers_are_completed(input: Seq<char>)
    ensures
        normalized(input) == input || all_digits(input) && normalized(input) == "terminal_"@ + input,
        !all_digits(input) ==> normalized(input) == input,
        all_digits(input) ==> normalized(input) == "terminal_"@ + input,
{
    reveal_strlit("terminal_");
    reveal_strlit("plugin_");
    if all_digits(input) {
        if has_prefix(input, "terminal_"@) {
            assert(input.take("terminal_"@.len() as int)[0] == 't');
            assert(crate::number::is_digit(input[0]));
        }
        if has_prefix(input, "plugin_"@) {
            assert(input.take("plugin_"@.len() as int)[0] == 'p');
            assert(crate::number::is_digit(input[0]));
        }
    }
}

/// A text is pasted whole and as it is, into the pane that it is meant for, and
/// a return is then written to the same pane.
pub proof fn texts_are_pasted_whole(pane_id: Seq<char>, text: Seq<char>)
    ensures
        paste_args(pane_id, text) == seq!["action"@, "paste"@, "--pane-id"@, pane_id, text],
        submit_args(pane_id) == seq!["action"@, "write"@, "--pane-id"@, pane_id, "13"@],
{
}

/// A command is run with its arguments, each as it is and in their order, behind
/// the mark that ends the options; the pane gets the name that is given, if one
/// is.
pub proof fn commands_are_run_with_their_arguments(
    cmd: Seq<char>,
    args: Seq<Seq<char>>,
    name: Seq<char>,
)
    ensures
        run_args(cmd, args, None) == seq!["run"@, "--"@, cmd] + args,
        run_args(cmd, args, Some(name)) == seq!["run"@, "--name"@, name, "--"@, cmd] + args,
{
    assert(run_args(cmd, args, None) =~= seq!["run"@, "--"@, cmd] + args);
    assert(run_args(cmd, args, Some(name)) =~= seq!["run"@, "--name"@, name, "--"@, cmd] + args);
}

/// A message to the hub goes to its pipe, with the action first and then each
/// argument as its name, an equals sign and its encoded value, with commas
/// between them; the payload follows whole and as it is, if there is one.
pub proof fn hub_messages_hold_their_arguments(
    action: Seq<char>,
    args: Seq<(Seq<char>, Seq<char>)>,
    payload: Seq<char>,
) -> (parts: Seq<Seq<char>>)
    ensures
        parts.len() == args.len() + 1,
        parts[0] == action,
        forall|i: int|
            0 <= i < args.len() ==> #[trigger] parts[i + 1] == args[i].0 + "="@ + encoded_value(
                args[i].1,
            ),
        pipe_args(action, args, None) == seq![
            "pipe"@,
            "--name"@,
            "rz"@,
            "--args"@,
            join(parts, ","@),
        ],
        pipe_args(action, args, Some(payload)) == seq![
            "pipe"@,
            "--name"@,
            "rz"@,
            "--args"@,
            join(parts, ","@),
            "--"@,
            payload,
        ],
{
    let parts = seq![action] + args.map_values(|p: (Seq<char>, Seq<char>)| hub_arg(p.0, p.1));
    let head = seq!["pipe"@, "--name"@, "rz"@, "--args"@, join(parts, ","@)];
    assert(pipe_args(action, args, None) =~= head);
    assert(pipe_args(action, args, Some(payload)) =~= head + seq!["--"@, payload]);
    assert(head + seq!["--"@, payload] =~= seq![
        "pipe"@,
        "--name"@,
        "rz"@,
        "--args"@,
        join(parts, ","@),
        "--"@,
        payload,
    ]);
    parts
}

/// A value without any of the signs that matter in the arguments is written as
/// it is, and each of these signs as its code.
pub proof fn values_are_encoded_sign_by_sign(a: Seq<char>, b: Seq<char>)
    ensures
        encoded_value(a + b) == encoded_value(a) + encoded_value(b),
        encoded_value(seq!['%']) == "%25"@,
        encoded_value(seq![',']) == "%2C"@,
        encoded_value(seq!['=']) == "%3D"@,
        (forall|i: int|
            0 <= i < a.len() ==> #[trigger] a[i] != '%' && a[i] != ',' && a[i] != '=')
            ==> encoded_value(a) == a,
{
    lemma_coded_one('%');
    lemma_coded_one(',');
    lemma_coded_one('=');
    lemma_replace_concat(a, b, '%', "%25"@);
    let c = replace(a, '%', "%25"@);
    let d = replace(b, '%', "%25"@);
    lemma_replace_concat(c, d, ',', "%2C"@);
    lemma_replace_concat(replace(c, ',', "%2C"@), replace(d, ',', "%2C"@), '=', "%3D"@);
    if forall|i: int| 0 <= i < a.len() ==> #[trigger] a[i] != '%' && a[i] != ',' && a[i] != '=' {
        lemma_replace_absent(a, '%', "%25"@);
        lemma_replace_absent(a, ',', "%2C"@);
        lemma_replace_absent(a, '=', "%3D"@);
    }
}

/// An option is given with its value if and only if there is one.
pub proof fn options_are_given_with_their_values(option: Seq<char>, value: Option<&str>)
    ensures
        value matches Some(v) ==> opt_arg(option, value) == seq![option, v@],
        value is None ==> opt_arg(option, value).len() == 0,
{
}

} // verus!

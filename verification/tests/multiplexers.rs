use rz::backend::{detect, Backend, CmuxBackend, Detected, PaneInfo, Surface, ZellijBackend};
use rz::bootstrap::{build, build_pty};
use rz::command::{args_of, call_failure, failure, printed, push_arg, shown};
use rz::registry::AgentEntry;
use rz::tmux;
use rz::zellij;
use rz::zellij::{hub_available, probe_hub, HubCheck, ProbeState, ProbeStep};

fn zellij_pane(id: u64, is_plugin: bool, title: &str) -> zellij::PaneInfo {
    zellij::PaneInfo {
        id,
        is_plugin,
        is_focused: false,
        is_floating: false,
        title: title.to_string(),
        exited: false,
        exit_status: None,
        pane_command: None,
        pane_cwd: None,
        tab_id: None,
        tab_name: None,
    }
}

fn pane(id: &str, title: &str, is_plugin: bool) -> PaneInfo {
    PaneInfo {
        id: id.to_string(),
        title: title.to_string(),
        is_plugin,
        is_focused: false,
        running: true,
    }
}

fn strings(list: &[&str]) -> Vec<String> {
    list.iter().map(|s| s.to_string()).collect()
}

// -- tmux --------------------------------------------------------------------

#[test]
fn tmux_pane_ids_are_normalized() {
    assert_eq!(tmux::normalize_pane_id("0"), "%0");
    assert_eq!(tmux::normalize_pane_id("%0"), "%0");
    assert_eq!(tmux::normalize_pane_id(""), "%");
    let once = tmux::normalize_pane_id("12");
    assert_eq!(tmux::normalize_pane_id(&once), once);
    assert_eq!(tmux::own_pane_id(Some("5".to_string())), Ok("%5".to_string()));
    assert_eq!(
        tmux::own_pane_id(None),
        Err("TMUX_PANE not set — not inside tmux?".to_string())
    );
}

#[test]
fn tmux_sessions_have_names() {
    let name = |v: &str| tmux::session_name(Some(v.to_string()));
    assert_eq!(name("/tmp/tmux-1000/default,12345,0"), Some("default".to_string()));
    assert_eq!(name("work"), Some("work".to_string()));
    assert_eq!(name("/tmp/,1,0"), None);
    assert_eq!(name(""), None);
    assert_eq!(tmux::session_name(None), None);
    assert_eq!(tmux::session_name_args(), vec!["display-message", "-p", "#{session_name}"]);
}

#[test]
fn tmux_types_short_texts_and_pastes_long_ones() {
    let calls = tmux::send("%1", "hi there");
    assert_eq!(calls.len(), 1);
    assert_eq!(calls[0].args, vec!["send-keys", "-t", "%1", "hi there", "Enter"]);
    assert_eq!(calls[0].input, None);
    assert_eq!(tmux::send("%1", &"x".repeat(200)).len(), 1);
    assert_eq!(tmux::send("%1", &"é".repeat(200)).len(), 1);

    let text = "x".repeat(201);
    let calls = tmux::send("%1", &text);
    assert_eq!(calls.len(), 3);
    assert_eq!(calls[0].args, vec!["load-buffer", "-"]);
    assert_eq!(calls[0].input, Some(text));
    assert_eq!(calls[1].args, vec!["paste-buffer", "-t", "%1"]);
    assert_eq!(calls[2].args, vec!["send-keys", "-t", "%1", "Enter"]);
    assert_eq!((calls[1].input.clone(), calls[2].input.clone()), (None, None));
}

#[test]
fn tmux_panes_are_made_and_closed() {
    assert_eq!(
        tmux::spawn("vim", &strings(&["-R", "a b"])),
        vec!["split-window", "-h", "-P", "-F", "#{pane_id}", "vim -R a b"]
    );
    assert_eq!(
        tmux::spawn("vim", &vec![]),
        vec!["split-window", "-h", "-P", "-F", "#{pane_id}", "vim"]
    );
    assert_eq!(tmux::close("%1"), vec!["kill-pane", "-t", "%1"]);
    assert_eq!(tmux::dump("%1"), vec!["capture-pane", "-t", "%1", "-p", "-S", "-"]);
    assert_eq!(
        tmux::list_panes_args(),
        vec![
            "list-panes",
            "-a",
            "-F",
            "#{pane_id}|#{pane_title}|#{pane_current_command}|#{pane_active}",
        ]
    );
}

#[test]
fn tmux_panes_are_listed() {
    let raw = "%0|main|zsh|1\n%1|edit|vim|0\n%2|bare||0\nbroken|line\n%3|t|c|1|2\n";
    let panes = tmux::list_panes(raw);
    assert_eq!(panes.len(), 4);
    assert_eq!(panes[0].id, "%0");
    assert_eq!(panes[0].title, "main");
    assert_eq!(panes[0].command, Some("zsh".to_string()));
    assert!(panes[0].active);
    assert!(!panes[1].active);
    assert_eq!(panes[2].command, None);
    // What stands behind the third bar is the flag, bars and all.
    assert!(!panes[3].active);
    assert_eq!(tmux::list_pane_ids(raw), vec!["%0", "%1", "%2", "%3"]);
}

#[test]
fn tmux_waits_for_output() {
    assert_eq!(tmux::wait_for_stable_output(true, Some("x")), tmux::WaitStep::GiveUp);
    assert_eq!(tmux::wait_for_stable_output(false, Some(" x ")), tmux::WaitStep::Settle);
    assert_eq!(tmux::wait_for_stable_output(false, Some(" \n")), tmux::WaitStep::LookAgain);
    assert_eq!(tmux::wait_for_stable_output(false, None), tmux::WaitStep::LookAgain);
}

// -- Zellij ------------------------------------------------------------------

#[test]
fn zellij_pane_ids_are_normalized() {
    assert_eq!(zellij::normalize_pane_id("3"), "terminal_3");
    assert_eq!(zellij::normalize_pane_id("terminal_3"), "terminal_3");
    assert_eq!(zellij::normalize_pane_id("plugin_1"), "plugin_1");
    assert_eq!(zellij::normalize_pane_id("worker"), "worker");
    assert_eq!(zellij::normalize_pane_id("٣"), "٣");
    assert_eq!(zellij::normalize_pane_id(""), "terminal_");
    for input in ["3", "terminal_3", "plugin_1", "worker", ""] {
        let once = zellij::normalize_pane_id(input);
        assert_eq!(zellij::normalize_pane_id(&once), once);
    }
    assert_eq!(zellij::own_pane_id(Some("7".to_string())), Ok("terminal_7".to_string()));
    assert_eq!(
        zellij::own_pane_id(None),
        Err("ZELLIJ_PANE_ID not set — not inside zellij?".to_string())
    );
}

#[test]
fn zellij_panes_have_names() {
    assert_eq!(zellij_pane(3, false, "t").pane_id(), "terminal_3");
    assert_eq!(zellij_pane(u64::MAX, true, "t").pane_id(), "plugin_18446744073709551615");
    let panes = vec![zellij_pane(3, false, "a"), zellij_pane(1, true, "b"), zellij_pane(4, false, "c")];
    assert_eq!(zellij::list_pane_ids(&panes), vec!["terminal_3", "terminal_4"]);
}

#[test]
fn zellij_is_called_with_arguments() {
    let (paste, submit) = zellij::send("terminal_3", "hi there");
    assert_eq!(paste, vec!["action", "paste", "--pane-id", "terminal_3", "hi there"]);
    assert_eq!(submit, vec!["action", "write", "--pane-id", "terminal_3", "13"]);
    assert_eq!(
        zellij::spawn("vim", &strings(&["-R", "f"]), Some("edit")),
        vec!["run", "--name", "edit", "--", "vim", "-R", "f"]
    );
    assert_eq!(zellij::spawn("vim", &vec![], None), vec!["run", "--", "vim"]);
    assert_eq!(zellij::close("p"), vec!["action", "close-pane", "--pane-id", "p"]);
    assert_eq!(zellij::rename("p", "n"), vec!["action", "rename-pane", "--pane-id", "p", "n"]);
    assert_eq!(
        zellij::set_color("p", Some("#fff"), Some("#000")),
        vec!["action", "set-pane-color", "--pane-id", "p", "--fg", "#fff", "--bg", "#000"]
    );
    assert_eq!(
        zellij::set_color("p", None, None),
        vec!["action", "set-pane-color", "--pane-id", "p"]
    );
    assert_eq!(
        zellij::reset_color("p"),
        vec!["action", "set-pane-color", "--pane-id", "p", "--reset"]
    );
    assert_eq!(zellij::list_panes_args(), vec!["action", "list-panes", "--json"]);
    assert_eq!(zellij::dump("p"), vec!["action", "dump-screen", "--pane-id", "p", "--full"]);
}

#[test]
fn zellij_dumps_the_last_lines() {
    assert_eq!(zellij::dump_last("a\nb\nc\n", 2), "b\nc");
    assert_eq!(zellij::dump_last("a\nb", 9), "a\nb");
    assert_eq!(zellij::dump_last("a\nb", 0), "");
    assert_eq!(zellij::dump_last("", 3), "");
}

#[test]
fn arguments_of_the_hub_are_encoded() {
    assert_eq!(zellij::encode_arg_value("a,b=c%"), "a%2Cb%3Dc%25");
    assert_eq!(zellij::encode_arg_value("%2C"), "%252C");
    let args = vec![
        ("target".to_string(), "a=b".to_string()),
        ("from".to_string(), "x,y".to_string()),
    ];
    assert_eq!(
        zellij::pipe_to_hub("action=send", &args, Some("hi")),
        vec!["pipe", "--name", "rz", "--args", "action=send,target=a%3Db,from=x%2Cy", "--", "hi"]
    );
    assert_eq!(
        zellij::pipe_to_hub("list", &vec![], None),
        vec!["pipe", "--name", "rz", "--args", "list"]
    );
    assert_eq!(zellij::probe_args(), vec!["pipe", "--name", "rz", "--args", "action=ping"]);
}

#[test]
fn hubs_are_asked_where_nothing_is_decided() {
    assert_eq!(hub_available(Some("1"), false), HubCheck::Yes);
    assert_eq!(hub_available(Some("0"), true), HubCheck::No);
    assert_eq!(hub_available(Some("nats://localhost:4222"), true), HubCheck::Probe);
    assert_eq!(hub_available(Some("nats://localhost:4222"), false), HubCheck::No);
    assert_eq!(hub_available(None, true), HubCheck::Probe);
    assert_eq!(hub_available(None, false), HubCheck::No);
    assert_eq!(probe_hub(ProbeState::Ended(true), true), ProbeStep::Answer(true));
    assert_eq!(probe_hub(ProbeState::Ended(false), false), ProbeStep::Answer(false));
    assert_eq!(probe_hub(ProbeState::Running, false), ProbeStep::LookAgain);
    assert_eq!(probe_hub(ProbeState::Running, true), ProbeStep::Kill);
    assert_eq!(probe_hub(ProbeState::Lost, false), ProbeStep::Answer(false));
}

// -- What they have in common ------------------------------------------------

#[test]
fn multiplexers_are_detected() {
    assert_eq!(detect(true, true), Some(Detected::Cmux));
    assert_eq!(detect(true, false), Some(Detected::Cmux));
    assert_eq!(detect(false, true), Some(Detected::Zellij));
    assert_eq!(detect(false, false), None);
}

#[test]
fn multiplexers_differ() {
    assert_eq!(CmuxBackend.normalize_id("3"), "3");
    assert_eq!(ZellijBackend.normalize_id("3"), "terminal_3");
    assert_eq!(CmuxBackend.backend_name(), "cmux");
    assert_eq!(ZellijBackend.backend_name(), "zellij");
    assert_eq!(CmuxBackend.session_variable(), "CMUX_WORKSPACE_ID");
    assert_eq!(CmuxBackend.session_name(Some("w".to_string())), Ok("w".to_string()));
    assert_eq!(
        ZellijBackend.session_name(None),
        Err("ZELLIJ_SESSION_NAME not set".to_string())
    );
}

#[test]
fn surfaces_and_panes_are_listed_alike() {
    let surface = |kind: &str| Surface {
        id: "s".to_string(),
        title: "t".to_string(),
        surface_type: kind.to_string(),
        is_focused: true,
    };
    let panes = CmuxBackend.list_panes(&vec![surface("terminal"), surface("browser")]);
    assert_eq!(panes[0].id, "s");
    assert!(!panes[0].is_plugin);
    assert!(panes[1].is_plugin);
    assert!(panes[0].is_focused && panes[0].running);

    let mut gone = zellij_pane(2, false, "b");
    gone.exited = true;
    let panes = ZellijBackend.list_panes(&vec![zellij_pane(1, true, "a"), gone]);
    assert_eq!(panes[0].id, "plugin_1");
    assert!(panes[0].is_plugin && panes[0].running);
    assert_eq!(panes[1].id, "terminal_2");
    assert_eq!(panes[1].title, "b");
    assert!(!panes[1].running);
}

#[test]
fn commands_are_reported() {
    assert_eq!(args_of(&["a", "b"]), vec!["a", "b"]);
    let mut args = args_of(&[]);
    push_arg(&mut args, "x");
    assert_eq!(args, vec!["x"]);
    assert_eq!(shown(&[b' ', 0xff, b'\n']), " \u{fffd}\n");
    assert_eq!(printed(b"  %5\n"), "%5");
    assert_eq!(printed(&[b'a', 0xff, b'b']), "a\u{fffd}b");
    assert_eq!(failure("zellij run", b"no\n"), "zellij run failed: no");
    assert_eq!(
        call_failure("tmux", &strings(&["kill-pane", "-t"]), b" gone "),
        "tmux kill-pane failed: gone"
    );
    assert_eq!(call_failure("tmux", &vec![], b"x"), "tmux  failed: x");
}

// -- What a new agent is told ------------------------------------------------

#[test]
fn new_agents_are_told_of_their_peers() {
    let panes = vec![
        pane("terminal_1", "lead", false),
        pane("terminal_2", "me", false),
        pane("terminal_3", "", false),
        pane("plugin_1", "status", true),
    ];
    let text = build("terminal_2", Some("worker"), &panes, "vim -R");
    assert_eq!(
        text,
        "You are agent \"worker\".

Peers:
  - lead
  - terminal_3

## rz commands
rz send <name> \"msg\"   — message an agent
rz send lead \"DONE: <summary>\"  — report completion
rz run --name <n> vim -R  — spawn agent
rz ps                  — list agents
rz logs <name>         — read agent output

Messages from other agents arrive as @@RZ: JSON in your input.

## IMPORTANT: Start your NATS listener
Run this IMMEDIATELY as your first action using a background bash command (run_in_background=true, timeout=600000):
```
rz listen worker --deliver cmux:terminal_2
```
This lets you receive messages from other agents via NATS. Without it, you won't get any @@RZ: messages.
## Rules
1. Do the task. Report: rz send lead \"DONE: <what you did>\"
2. If stuck: rz send lead \"BLOCKED: <issue>\"
3. Stay running after reporting — wait for next task.
4. Only do what is asked. Do not explore unrelated code.
5. Do not read rz source code — use the commands above."
    );
}

#[test]
fn new_agents_without_a_name_go_by_their_pane() {
    let text = build("terminal_2", None, &vec![], "sh");
    assert!(text.starts_with("You are agent \"terminal_2\".\n\nPeers:\n  (none)\n\n## rz commands\n"));
    assert!(text.contains("rz listen terminal_2 --deliver cmux:terminal_2\n"));
}

#[test]
fn new_agents_without_a_pane_need_no_listener() {
    let agents = vec![
        AgentEntry::of_process("pty", 1, "lead", false, 0),
        AgentEntry::of_process("pty", 2, "worker", false, 0),
    ];
    let text = build_pty("worker", &agents, "sh");
    assert!(text.starts_with("You are agent \"worker\".\n\nPeers:\n  - lead\n\n## rz commands\n"));
    assert!(!text.contains("rz listen"));
    assert!(text.contains("JSON in your input.\n\n## Rules\n1. Do the task."));
}

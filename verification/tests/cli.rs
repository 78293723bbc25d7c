use rz::backend::Surface;
use rz::cli::{
    agent_rows, broadcast_peers, entry_to_register, find_name, find_reply, gather, has_pong,
    headless_args, last_lines, listener_args, listener_delivery, listener_runs, load_names,
    nats_rows, own_id, pad, pidfile_path, plan_send, row, save_name, saved_names, sender_id, shell_escape, show_last,
    surface_rows, timer_script, wait_for_pong, wait_for_reply, workspace_path, AnswerStep,
    SendPlan,
};
use rz::protocol::{Envelope, MessageKind};
use rz::registry::AgentEntry;
use rz::resolve::Target;

fn strings(list: &[&str]) -> Vec<String> {
    list.iter().map(|s| s.to_string()).collect()
}

fn pairs(list: &[(&str, &str)]) -> Vec<(String, String)> {
    list.iter().map(|(a, b)| (a.to_string(), b.to_string())).collect()
}

fn chat(id: &str, text: &str) -> Envelope {
    Envelope::chat(id.to_string(), 0, "w", text)
}

fn entry(name: &str) -> AgentEntry {
    AgentEntry::of_process("pty", 7, name, false, 0)
}

#[test]
fn names_are_loaded() {
    assert_eq!(
        load_names("{\"lead\": \"s1\", \"worker\": \"s2\"}"),
        pairs(&[("lead", "s1"), ("worker", "s2")])
    );
    assert!(load_names("{\"lead\": 1}").is_empty());
    assert!(load_names("{\"lead\": \"s1\", \"worker\": null}").is_empty());
    assert!(load_names("[]").is_empty());
    assert!(load_names("").is_empty());
}

#[test]
fn names_are_saved() {
    let mut names = pairs(&[("lead", "s1")]);
    save_name(&mut names, "worker", "s2");
    save_name(&mut names, "lead", "s3");
    assert_eq!(names, pairs(&[("lead", "s3"), ("worker", "s2")]));
    assert_eq!(find_name(&names, "s2"), Some("worker".to_string()));
    assert_eq!(find_name(&names, "s1"), None);
}

#[test]
fn the_file_of_names_is_written_and_read_back() {
    assert_eq!(saved_names("", "lead", "s1"), "{\n  \"lead\": \"s1\"\n}");
    let text = saved_names("{\"lead\":\"s1\",\"a\":\"\\n\"}", "wor\"ker", "s2");
    assert_eq!(
        text,
        "{\n  \"lead\": \"s1\",\n  \"a\": \"\\n\",\n  \"wor\\\"ker\": \"s2\"\n}"
    );
    assert_eq!(load_names(&text), pairs(&[("lead", "s1"), ("a", "\n"), ("wor\"ker", "s2")]));
    let text = saved_names(&text, "lead", "s9");
    assert_eq!(load_names(&text), pairs(&[("lead", "s9"), ("a", "\n"), ("wor\"ker", "s2")]));
}

#[test]
fn senders_have_a_name() {
    let names = pairs(&[("worker", "s1")]);
    assert_eq!(sender_id(Some("me"), Some("agent"), Some("s1"), &names), "me");
    assert_eq!(sender_id(None, Some("agent"), Some("s1"), &names), "agent");
    assert_eq!(sender_id(None, None, Some("s1"), &names), "worker");
    assert_eq!(sender_id(None, None, Some("s2"), &names), "s2");
    assert_eq!(sender_id(None, None, None, &names), "unknown");
    let some = |s: &str| Some(s.to_string());
    assert_eq!(own_id(some("s1"), some("3")), some("s1"));
    assert_eq!(own_id(None, some("3")), some("terminal_3"));
    assert_eq!(own_id(None, None), None);
}

#[test]
fn messages_are_planned() {
    let plan = |target: &Target, raw: bool, waits: bool, reference: Option<String>| {
        plan_send(target, "hi", raw, waits, "me", reference, "m1".to_string(), 5)
    };
    let cmux = Target::Cmux("s1".to_string());
    let nats = Target::Nats("w".to_string());
    match plan(&cmux, true, false, None) {
        Ok(SendPlan::Raw { surface, text }) => assert_eq!((surface.as_str(), text.as_str()), ("s1", "hi")),
        other => panic!("{other:?}"),
    }
    assert_eq!(
        plan(&cmux, true, true, None).unwrap_err(),
        "--wait requires protocol mode (cannot use with --raw)"
    );
    assert_eq!(
        plan(&nats, true, false, None).unwrap_err(),
        "--raw only works with cmux targets"
    );
    match plan(&nats, false, true, Some("m0".to_string())) {
        Ok(SendPlan::Message(e)) => assert_eq!(
            e.encode(),
            "@@RZ:{\"id\":\"m1\",\"from\":\"me\",\"to\":\"w\",\"ref\":\"m0\",\"kind\":{\"kind\":\"chat\",\"body\":{\"text\":\"hi\"}},\"ts\":5}"
        ),
        other => panic!("{other:?}"),
    }
    match plan(&Target::Http("http://h".to_string()), false, false, None) {
        Ok(SendPlan::Message(e)) => assert_eq!(e.to, Some("http://h".to_string())),
        other => panic!("{other:?}"),
    }
}

#[test]
fn broadcasts_spare_the_sender() {
    let peers = strings(&["a", "b", "a", "c"]);
    assert_eq!(broadcast_peers(&peers, Some("a")), vec!["b", "c"]);
    assert_eq!(broadcast_peers(&peers, None), peers);
}

#[test]
fn the_latest_reply_is_found() {
    let all = vec![
        chat("1", "first").with_ref("m1"),
        chat("2", "other").with_ref("m2"),
        chat("3", "second").with_ref("m1"),
        chat("4", "none"),
    ];
    assert_eq!(find_reply(&all, "m1").unwrap().id, "3");
    assert!(find_reply(&all, "m9").is_none());
    let scrollback = format!("$ x\n{}\n{}\n", all[0].encode(), all[2].encode());
    assert!(matches!(
        wait_for_reply(false, &scrollback, "m1", 60),
        AnswerStep::Answer(line) if line == "[00:00:00] w> second"
    ));
    assert!(matches!(wait_for_reply(false, "$ x\n", "m1", 60), AnswerStep::LookAgain));
    assert!(matches!(
        wait_for_reply(true, &scrollback, "m1", 60),
        AnswerStep::TimeOut(why) if why == "timeout (60s) — no reply to m1"
    ));
}

#[test]
fn pongs_answer_a_ping() {
    let pong = |r: &str| Envelope::new("p".to_string(), 0, "w", MessageKind::Pong).with_ref(r);
    assert!(has_pong(&vec![chat("1", "x"), pong("m1")], "m1"));
    assert!(!has_pong(&vec![pong("m2")], "m1"));
    assert!(!has_pong(&vec![chat("1", "pong").with_ref("m1")], "m1"));
    let scrollback = pong("m1").encode();
    assert!(matches!(
        wait_for_pong(false, &scrollback, "m1", "s1", 5),
        AnswerStep::Answer(line) if line == "pong from s1"
    ));
    assert!(matches!(wait_for_pong(false, &scrollback, "m2", "s1", 5), AnswerStep::LookAgain));
    assert!(matches!(
        wait_for_pong(true, &scrollback, "m1", "s1", 5),
        AnswerStep::TimeOut(why) if why == "timeout (5s) — no pong from s1"
    ));
}

#[test]
fn messages_are_shown() {
    let all = vec![chat("1", "a"), chat("2", "b"), chat("3", "c")];
    let lines = |n: Option<usize>| show_last(&all, n, Some("w"));
    assert_eq!(
        lines(None),
        vec!["[00:00:00] w (me)> a", "[00:00:00] w (me)> b", "[00:00:00] w (me)> c"]
    );
    assert_eq!(lines(Some(1)), vec!["[00:00:00] w (me)> c"]);
    assert_eq!(lines(Some(9)).len(), 3);
    assert!(lines(Some(0)).is_empty());
    let cut = Envelope::new(
        "1".to_string(),
        0,
        "w",
        MessageKind::Delegate { task: format!("x{}", "é".repeat(100)), body: "{}".to_string() },
    );
    assert_eq!(
        show_last(&vec![cut], None, None),
        vec![format!("[00:00:00] w> (delegating: x{})", "é".repeat(99))]
    );
}

#[test]
fn messages_are_gathered() {
    let all = vec![chat("1", "a"), chat("2", "b"), chat("3", "c")];
    assert_eq!(gather("p1", &all, 1, None), vec!["p1  [00:00:00] w> c"]);
    assert_eq!(
        gather("p1", &all, 2, None),
        vec!["p1  [00:00:00] w> b", "p1  [00:00:00] w> c"]
    );
    assert_eq!(gather("p1", &vec![], 2, None), vec!["p1  (no messages)"]);
}

#[test]
fn the_last_lines_are_shown() {
    assert_eq!(last_lines("a\nb\nc\n", 2), vec!["b", "c"]);
    assert_eq!(last_lines("a\n", 5), vec!["a"]);
    assert!(last_lines("a\n", 0).is_empty());
}

#[test]
fn rows_are_padded_by_characters() {
    assert_eq!(pad("é", 3), "é  ");
    assert_eq!(pad("abcd", 3), "abcd");
    let expected = format!("{:<18} {:<38} {:<20} {:<8}", "NAME", "ID", "TITLE", "TYPE");
    assert_eq!(row("NAME", "ID", "TITLE", "TYPE"), expected);
}

#[test]
fn agents_are_shown_in_rows() {
    let surface = |id: &str, title: &str| Surface {
        id: id.to_string(),
        title: title.to_string(),
        surface_type: "terminal".to_string(),
        is_focused: false,
    };
    let names = pairs(&[("worker", "s1")]);
    let rows = surface_rows(&vec![surface("s1", ""), surface("s2", "top")], &names, Some("s2"));
    assert_eq!(rows, vec![
        row("worker", "s1", "-", "terminal"),
        format!("{} (me)", row("-", "s2", "top", "terminal")),
    ]);
    let local = vec![entry("a"), entry("b")];
    assert_eq!(agent_rows(&local, Some("b")), vec![
        row("a", "pty-7", "nats", "agent"),
        format!("{} (me)", row("b", "pty-7", "nats", "agent")),
    ]);
    assert_eq!(nats_rows(&vec![entry("b"), entry("c")], &local), vec![
        format!("{} (nats)", row("c", "pty-7", "nats", "agent")),
    ]);
}

#[test]
fn agents_register_from_the_command_line() {
    let e = entry_to_register("api", "http", Some("http://h"), Some("a, b"), Some("s1"), 9);
    assert_eq!(e.name, "api");
    assert_eq!(e.id, "s1");
    assert_eq!(e.transport, "http");
    assert_eq!(e.endpoint, "http://h");
    assert_eq!(e.capabilities, vec!["a", "b"]);
    assert!(!e.permanent);
    assert_eq!((e.registered_at, e.last_seen), (9, 9));
    let e = entry_to_register("api", "file", None, None, None, 9);
    assert_eq!((e.id.as_str(), e.endpoint.as_str()), ("api", "api"));
    assert!(e.capabilities.is_empty());
}

#[test]
fn processes_are_started_with_arguments() {
    assert_eq!(
        headless_args("w", true, "vim", &strings(&["-R"])),
        vec!["agent", "--name", "w", "--no-bootstrap", "--", "vim", "-R"]
    );
    assert_eq!(
        headless_args("w", false, "vim", &vec![]),
        vec!["agent", "--name", "w", "--", "vim"]
    );
    assert_eq!(
        listener_args("w", &listener_delivery("cmux", "s1")),
        vec!["listen", "w", "--deliver", "cmux:s1"]
    );
    assert_eq!(pidfile_path("ws", "w"), "/tmp/rz-nats-ws-w.pid");
}

#[test]
fn listeners_run_where_their_process_is_alive() {
    assert!(listener_runs(Some("42\n"), true));
    assert!(!listener_runs(Some("42\n"), false));
    assert!(!listener_runs(Some(" \n"), true));
    assert!(!listener_runs(None, true));
}

#[test]
fn workspaces_have_a_path() {
    assert_eq!(workspace_path(Some("42")), Ok("/tmp/rz-cmux-42".to_string()));
    assert_eq!(
        workspace_path(None),
        Err("CMUX_WORKSPACE_ID not set — not inside cmux?".to_string())
    );
}

#[test]
fn words_are_escaped_for_a_shell() {
    assert_eq!(shell_escape("a b"), "'a b'");
    assert_eq!(shell_escape("it's"), "'it'\\''s'");
    assert_eq!(shell_escape(""), "''");
    assert_eq!(
        timer_script("2.5", "/bin/rz", "s1", "@@RZ:{\"l\":\"it's\"}"),
        "sleep 2.5 && '/bin/rz' send --raw 's1' '@@RZ:{\"l\":\"it'\\''s\"}'"
    );
}

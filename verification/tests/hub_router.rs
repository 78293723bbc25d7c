use rz::hub::registry::{AgentRegistry, PaneInfo, PaneManifest};
use rz::hub::router::{
    deliver_timer, format_pane_id, handle_broadcast, handle_cancel_timer, handle_list, handle_ping,
    handle_pipe, handle_register, handle_send, handle_status, handle_timer, handle_unregister,
    parse_terminal_id, resolve_target, Answer, PaneId, PipeMessage, PipeResponse, PipeSource,
    Stamp,
};
use rz::hub::PendingTimer;

fn pane(id: u32) -> PaneInfo {
    PaneInfo {
        id,
        is_plugin: false,
        is_selectable: true,
        title: "t".to_string(),
        terminal_command: None,
        is_floating: false,
        exited: false,
        exit_status: None,
    }
}

/// Panes 1, 2 and 3, the second of which is registered as `worker`.
fn three_panes() -> AgentRegistry {
    let mut registry = AgentRegistry::default();
    registry.update_from_pane_manifest(&PaneManifest {
        panes: vec![(0, vec![pane(1), pane(2), pane(3)])],
    });
    assert!(registry.register(2, "worker".to_string(), vec!["code".to_string()]).is_ok());
    registry
}

fn request(args: &[(&str, &str)], payload: Option<&str>) -> PipeMessage {
    PipeMessage {
        source: PipeSource::Cli("pipe-1".to_string()),
        name: "rz".to_string(),
        payload: payload.map(|p| p.to_string()),
        args: args.iter().map(|(k, v)| (k.to_string(), v.to_string())).collect(),
    }
}

fn stamp() -> Stamp {
    Stamp { id: "m1".to_string(), ts: 9 }
}

fn json_of(answer: &Answer) -> String {
    answer.response.to_json()
}

fn error_of(r: &PipeResponse) -> &str {
    match r {
        PipeResponse::Failed(e) => e,
        PipeResponse::Done(_) => panic!("the request was not refused"),
    }
}

#[test]
fn pane_ids_are_read() {
    assert_eq!(parse_terminal_id("terminal_3"), Some(3));
    assert_eq!(parse_terminal_id("3"), Some(3));
    assert_eq!(parse_terminal_id("plugin_1"), None);
    assert_eq!(parse_terminal_id(""), None);
    assert_eq!(parse_terminal_id("terminal_"), None);
    assert_eq!(parse_terminal_id("terminal_+3"), Some(3));
    assert_eq!(parse_terminal_id("+3"), None);
    assert_eq!(parse_terminal_id("4294967295"), Some(u32::MAX));
    assert_eq!(parse_terminal_id("4294967296"), None);
}

#[test]
fn pane_ids_are_written_and_read_back() {
    assert_eq!(format_pane_id(PaneId::Terminal(7)), "terminal_7");
    assert_eq!(format_pane_id(PaneId::Plugin(7)), "plugin_7");
    assert_eq!(parse_terminal_id(&format_pane_id(PaneId::Terminal(u32::MAX))), Some(u32::MAX));
}

#[test]
fn targets_are_panes_or_names() {
    let registry = three_panes();
    assert_eq!(resolve_target(&registry, "worker"), Some(PaneId::Terminal(2)));
    assert_eq!(resolve_target(&registry, "terminal_9"), Some(PaneId::Terminal(9)));
    assert_eq!(resolve_target(&registry, "9"), Some(PaneId::Terminal(9)));
    assert_eq!(resolve_target(&registry, "nobody"), None);
}

#[test]
fn messages_are_sent() {
    let mut registry = three_panes();
    let msg = request(&[("target", "worker"), ("from", "terminal_1"), ("ref", "m0")], Some("hi"));
    let answer = handle_send(&mut registry, &msg, stamp());
    assert_eq!(json_of(&answer), "{\"ok\":true,\"data\":{\"message_id\":\"m1\"}}");
    assert_eq!(answer.deliveries.len(), 1);
    assert_eq!(answer.deliveries[0].target, PaneId::Terminal(2));
    assert_eq!(
        answer.deliveries[0].text,
        "@@RZ:{\"id\":\"m1\",\"from\":\"terminal_1\",\"ref\":\"m0\",\"kind\":{\"kind\":\"chat\",\"body\":{\"text\":\"hi\"}},\"ts\":9}\r"
    );
    let touched: Vec<u64> = registry.get_all().iter().map(|e| e.last_message).collect();
    assert_eq!(touched, vec![1, 1, 0]);
}

#[test]
fn sends_that_lack_something_are_refused() {
    let mut registry = three_panes();
    let cases: [(PipeMessage, &str); 4] = [
        (request(&[("from", "1")], Some("x")), "missing required arg: target"),
        (request(&[("target", "1")], Some("x")), "missing required arg: from"),
        (request(&[("target", "1"), ("from", "2")], None), "send requires a payload"),
        (
            request(&[("target", "nobody"), ("from", "1")], Some("x")),
            "unknown target: nobody",
        ),
    ];
    for (msg, why) in &cases {
        let answer = handle_send(&mut registry, msg, stamp());
        assert_eq!(error_of(&answer.response), *why);
        assert_eq!(json_of(&answer), format!("{{\"ok\":false,\"error\":\"{why}\"}}"));
        assert!(answer.deliveries.is_empty());
    }
    assert!(registry.get_all().iter().all(|e| e.last_message == 0));
}

#[test]
fn broadcasts_reach_all_but_the_sender() {
    let mut registry = three_panes();
    let answer =
        handle_broadcast(&mut registry, &request(&[("from", "terminal_2")], Some("all")), stamp());
    assert_eq!(json_of(&answer), "{\"ok\":true,\"data\":{\"delivered\":2}}");
    let reached: Vec<PaneId> = answer.deliveries.iter().map(|d| d.target).collect();
    assert_eq!(reached, vec![PaneId::Terminal(1), PaneId::Terminal(3)]);
    assert!(registry.get_all().iter().all(|e| e.last_message == 1));

    // A sender that is no pane reaches every pane.
    let answer =
        handle_broadcast(&mut registry, &request(&[("from", "lead")], Some("all")), stamp());
    assert_eq!(answer.deliveries.len(), 3);

    let answer = handle_broadcast(&mut registry, &request(&[], Some("all")), stamp());
    assert_eq!(error_of(&answer.response), "missing required arg: from");
    let answer = handle_broadcast(&mut registry, &request(&[("from", "1")], None), stamp());
    assert_eq!(error_of(&answer.response), "broadcast requires a payload");
}

#[test]
fn agents_register_over_the_pipe() {
    let mut registry = AgentRegistry::default();
    let answer = handle_register(
        &mut registry,
        &request(&[("pane_id", "5"), ("name", "coder"), ("capabilities", "a, b")], None),
    );
    assert_eq!(json_of(&answer), "{\"ok\":true}");
    assert_eq!(registry.lookup_by_name("coder").unwrap().capabilities, vec!["a", "b"]);

    let answer = handle_register(&mut registry, &request(&[("pane_id", "terminal_6")], None));
    assert_eq!(json_of(&answer), "{\"ok\":true}");
    assert_eq!(registry.lookup_by_name("terminal_6").unwrap().pane_id, 6);
    assert!(registry.lookup_by_name("terminal_6").unwrap().capabilities.is_empty());

    let answer = handle_register(&mut registry, &request(&[], None));
    assert_eq!(error_of(&answer.response), "missing required arg: pane_id");
    let answer = handle_register(&mut registry, &request(&[("pane_id", "x")], None));
    assert_eq!(error_of(&answer.response), "invalid pane_id: x");
    let answer =
        handle_register(&mut registry, &request(&[("pane_id", "7"), ("name", "coder")], None));
    assert_eq!(error_of(&answer.response), "name 'coder' already taken by terminal_5");
}

#[test]
fn agents_unregister_over_the_pipe() {
    let mut registry = three_panes();
    let answer = handle_unregister(&mut registry, &request(&[("pane_id", "2")], None));
    assert_eq!(json_of(&answer), "{\"ok\":true}");
    assert!(registry.lookup_by_name("worker").is_none());
    let answer = handle_unregister(&mut registry, &request(&[], None));
    assert_eq!(error_of(&answer.response), "missing required arg: pane_id");
    let answer = handle_unregister(&mut registry, &request(&[("pane_id", "p")], None));
    assert_eq!(error_of(&answer.response), "invalid pane_id: p");
    let answer = handle_unregister(&mut registry, &request(&[("pane_id", "8")], None));
    assert_eq!(error_of(&answer.response), "no agent with pane_id terminal_8");
}

#[test]
fn agents_are_listed() {
    let mut registry = AgentRegistry::default();
    assert!(registry.register(2, "worker".to_string(), vec!["code".to_string()]).is_ok());
    registry.update_from_pane_manifest(&PaneManifest { panes: vec![(4, vec![pane(1)])] });
    let answer = handle_list(&registry);
    assert_eq!(
        json_of(&answer),
        "{\"ok\":true,\"data\":[{\"pane_id\":\"terminal_1\",\"name\":null,\"status\":{\"status\":\"active\"},\"command\":null,\"title\":\"t\",\"tab\":4,\"registered\":false,\"capabilities\":[]},{\"pane_id\":\"terminal_2\",\"name\":\"worker\",\"status\":{\"status\":\"dead\",\"exit_status\":null,\"died_at\":1},\"command\":null,\"title\":\"\",\"tab\":0,\"registered\":true,\"capabilities\":[\"code\"]}]}"
    );
    assert_eq!(
        json_of(&handle_status(&registry)),
        "{\"ok\":true,\"data\":{\"total\":2,\"active\":1,\"dead\":1,\"tick\":1}}"
    );
}

#[test]
fn pings_are_forwarded_or_answered() {
    let registry = three_panes();
    let answer = handle_ping(&registry, &request(&[("target", "worker")], None), stamp());
    assert_eq!(json_of(&answer), "{\"ok\":true,\"data\":{\"forwarded_to\":\"terminal_2\"}}");
    assert_eq!(
        answer.deliveries[0].text,
        "@@RZ:{\"id\":\"m1\",\"from\":\"hub\",\"kind\":{\"kind\":\"ping\"},\"ts\":9}\r"
    );
    let answer = handle_ping(&registry, &request(&[("target", "nobody")], None), stamp());
    assert_eq!(error_of(&answer.response), "unknown ping target: nobody");

    let answer = handle_ping(&registry, &request(&[("from", "terminal_3")], None), stamp());
    assert_eq!(json_of(&answer), "{\"ok\":true}");
    assert_eq!(answer.deliveries[0].target, PaneId::Terminal(3));
    assert_eq!(
        answer.deliveries[0].text,
        "@@RZ:{\"id\":\"m1\",\"from\":\"hub\",\"kind\":{\"kind\":\"pong\"},\"ts\":9}\r"
    );
    let answer = handle_ping(&registry, &request(&[], None), stamp());
    assert_eq!(json_of(&answer), "{\"ok\":true}");
    assert!(answer.deliveries.is_empty());
}

#[test]
fn timers_are_set_and_cancelled() {
    let registry = three_panes();
    let mut timers: Vec<PendingTimer> = Vec::new();
    let mut next: u64 = 1;
    let seconds = 2.5f64.to_bits();
    let msg = request(&[("target", "worker"), ("seconds", "2.5")], Some("tea"));
    let (response, timeout) =
        handle_timer(&registry, &msg, &mut timers, &mut next, Some(seconds));
    assert_eq!(response.to_json(), "{\"ok\":true,\"data\":{\"timer_id\":1}}");
    assert_eq!(timeout, Some(seconds));
    assert_eq!(next, 2);
    assert_eq!(timers.len(), 1);
    assert_eq!((timers[0].id, timers[0].pane_id), (1, 2));
    assert_eq!(timers[0].label, "tea");
    assert_eq!(timers[0].seconds, seconds);

    let refused = |args: &[(&str, &str)], seconds: Option<u64>| {
        let mut timers: Vec<PendingTimer> = Vec::new();
        let mut next: u64 = 1;
        let msg = request(args, None);
        let (response, timeout) = handle_timer(&registry, &msg, &mut timers, &mut next, seconds);
        assert!(timers.is_empty());
        assert_eq!(timeout, None);
        assert_eq!(next, 1);
        error_of(&response).to_string()
    };
    assert_eq!(refused(&[("seconds", "1")], Some(seconds)), "missing required arg: target");
    assert_eq!(refused(&[("target", "1")], None), "missing required arg: seconds");
    assert_eq!(refused(&[("target", "1"), ("seconds", "soon")], None), "invalid seconds: soon");
    assert_eq!(
        refused(&[("target", "nobody"), ("seconds", "1")], Some(seconds)),
        "unknown target: nobody"
    );

    let response = handle_cancel_timer(&request(&[], None), &mut timers);
    assert_eq!(error_of(&response), "missing required arg: timer_id");
    let response = handle_cancel_timer(&request(&[("timer_id", "-1")], None), &mut timers);
    assert_eq!(error_of(&response), "invalid timer_id: -1");
    let response = handle_cancel_timer(&request(&[("timer_id", "2")], None), &mut timers);
    assert_eq!(error_of(&response), "timer 2 not found");
    assert_eq!(timers.len(), 1);
    let response = handle_cancel_timer(&request(&[("timer_id", "1")], None), &mut timers);
    assert_eq!(response.to_json(), "{\"ok\":true,\"data\":{\"cancelled\":1}}");
    assert!(timers.is_empty());
}

#[test]
fn due_timers_are_delivered() {
    let delivery = deliver_timer(4, "tea \"time\"", stamp());
    assert_eq!(delivery.target, PaneId::Terminal(4));
    assert_eq!(
        delivery.text,
        "@@RZ:{\"id\":\"m1\",\"from\":\"hub\",\"kind\":{\"kind\":\"timer\",\"body\":{\"label\":\"tea \\\"time\\\"\"}},\"ts\":9}\r"
    );
}

#[test]
fn requests_are_dispatched_by_their_action() {
    let mut registry = three_panes();
    let mut timers: Vec<PendingTimer> = Vec::new();
    let mut next: u64 = 1;
    let mut ask = |args: &[(&str, &str)]| {
        let msg = request(args, Some("x"));
        handle_pipe(&mut registry, &msg, &mut timers, &mut next, stamp(), Some(1)).response
    };
    let answer = |json: &str| Some(("pipe-1".to_string(), json.to_string()));
    assert_eq!(ask(&[]), answer("{\"ok\":false,\"error\":\"missing 'action' arg\"}"));
    assert_eq!(
        ask(&[("action", "dance")]),
        answer("{\"ok\":false,\"error\":\"unknown action: dance\"}")
    );
    assert_eq!(
        ask(&[("action", "status")]),
        answer("{\"ok\":true,\"data\":{\"total\":3,\"active\":3,\"dead\":0,\"tick\":1}}")
    );
    assert_eq!(
        ask(&[("action", "timer"), ("target", "1"), ("seconds", "1")]),
        answer("{\"ok\":true,\"data\":{\"timer_id\":1}}")
    );
    assert_eq!(
        ask(&[("action", "cancel_timer"), ("timer_id", "1")]),
        answer("{\"ok\":true,\"data\":{\"cancelled\":1}}")
    );
    assert_eq!(
        ask(&[("action", "broadcast"), ("from", "1")]),
        answer("{\"ok\":true,\"data\":{\"delivered\":2}}")
    );
}

#[test]
fn only_the_command_line_is_answered() {
    let mut registry = three_panes();
    let mut timers: Vec<PendingTimer> = Vec::new();
    let mut next: u64 = 1;
    let mut msg = request(&[("action", "send"), ("target", "1"), ("from", "2")], Some("x"));
    msg.source = PipeSource::Other;
    let outcome = handle_pipe(&mut registry, &msg, &mut timers, &mut next, stamp(), None);
    assert_eq!(outcome.response, None);
    assert_eq!(outcome.deliveries.len(), 1);
    assert_eq!(outcome.timeout, None);
}

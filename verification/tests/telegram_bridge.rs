use rz::protocol::{Envelope, MessageKind};
use rz::telegram::{
    advance_offset, after_send, extract_display_text, floor_char_boundary, outbound, parse_target,
    parse_update, poll_body, poll_step, send_body, show_payload, split_message, truncate,
    validate_token, BotCheck, PollAction, PollEvent, PollState, RefMap, TelegramBridge,
    INITIAL_BACKOFF, MAX_BACKOFF, MAX_MESSAGE_LEN, MAX_REF_MAP_SIZE,
};

fn bridge() -> TelegramBridge {
    TelegramBridge::new("TOKEN".to_string(), -42, "tg".to_string(), "lead".to_string())
}

fn answer(status: u16, body: &str) -> PollEvent {
    PollEvent::Answer { status, body: body.to_string() }
}

#[test]
fn boundaries_are_between_characters() {
    assert_eq!(floor_char_boundary("aé", 2), 1);
    assert_eq!(floor_char_boundary("aé", 1), 1);
    assert_eq!(floor_char_boundary("aé", 3), 3);
    assert_eq!(floor_char_boundary("aé", 99), 3);
    assert_eq!(floor_char_boundary("🙂", 3), 0);
    assert_eq!(truncate("aé", 2), "a");
    assert_eq!(truncate("aé", 3), "aé");
}

#[test]
fn messages_are_split_at_lines_before_spaces() {
    let line = "x".repeat(4000);
    let text = format!("{line}\n{} {}", "y".repeat(50), "z".repeat(100));
    let chunks = split_message(&text);
    assert_eq!(chunks, vec![format!("{line}\n"), format!("{} {}", "y".repeat(50), "z".repeat(100))]);

    let text = format!("{} {}", "x".repeat(4000), "y".repeat(200));
    let chunks = split_message(&text);
    assert_eq!(chunks, vec![format!("{} ", "x".repeat(4000)), "y".repeat(200)]);
}

#[test]
fn messages_without_a_space_are_split_anywhere() {
    let chunks = split_message(&"é".repeat(3000));
    assert_eq!(chunks, vec!["é".repeat(2048), "é".repeat(952)]);
    let chunks = split_message(&"🙂".repeat(1025));
    assert_eq!(chunks.len(), 2);
    assert_eq!(chunks.concat(), "🙂".repeat(1025));
}

#[test]
fn white_space_between_messages_is_dropped() {
    let text = format!("{}   {}", "x".repeat(4095), "y");
    let chunks = split_message(&text);
    assert_eq!(chunks, vec![format!("{} ", "x".repeat(4095)), "y".to_string()]);
    // What is only white space after a break leaves no message.
    let text = format!("{}\n\n\n", "x".repeat(4095));
    let chunks = split_message(&text);
    assert_eq!(chunks, vec![format!("{}\n", "x".repeat(4095))]);
    assert_eq!(split_message(""), vec![""]);
    for chunk in split_message(&"a ".repeat(9000)) {
        assert!(chunk.len() <= MAX_MESSAGE_LEN);
    }
}

#[test]
fn targets_need_a_name_and_a_message() {
    let target = |text: &str| parse_target(text, "lead");
    assert_eq!(target("@a  b c"), ("a".to_string(), "b c".to_string()));
    assert_eq!(target("@a "), ("lead".to_string(), "@a ".to_string()));
    assert_eq!(target("@ b"), ("lead".to_string(), "@ b".to_string()));
    assert_eq!(target("@a\nb"), ("lead".to_string(), "@a\nb".to_string()));
    assert_eq!(target("@é ü"), ("é".to_string(), "ü".to_string()));
}

#[test]
fn kinds_are_shown_in_a_chat() {
    let long = "é".repeat(150);
    assert_eq!(
        extract_display_text(&MessageKind::Timer { label: "tea".to_string() }),
        Some("Timer: tea".to_string())
    );
    assert_eq!(
        extract_display_text(&MessageKind::Status {
            state: "s".to_string(),
            detail: "d".to_string(),
        }),
        Some("[s] d".to_string())
    );
    assert_eq!(
        extract_display_text(&MessageKind::ToolCall {
            name: "n".to_string(),
            body: "{}".to_string(),
        }),
        Some("(calling tool: n)".to_string())
    );
    assert_eq!(
        extract_display_text(&MessageKind::ToolResult {
            name: "n".to_string(),
            result: long.clone(),
            is_error: true,
        }),
        Some(format!("Tool error: {}", "é".repeat(100)))
    );
    assert_eq!(
        extract_display_text(&MessageKind::ToolResult {
            name: "n".to_string(),
            result: "r".to_string(),
            is_error: false,
        }),
        Some("Tool result: r".to_string())
    );
    assert_eq!(
        extract_display_text(&MessageKind::Delegate { task: long, body: "{}".to_string() }),
        Some(format!("(delegating: {})", "é".repeat(100)))
    );
    assert_eq!(extract_display_text(&MessageKind::Pong), None);
    assert_eq!(extract_display_text(&MessageKind::Hello { name: "n".to_string() }), None);
}

#[test]
fn the_oldest_message_is_forgotten_first() {
    let mut map = RefMap::new();
    assert_eq!(map.len(), 0);
    let size = MAX_REF_MAP_SIZE as i64;
    for i in 0..size {
        map.insert(i, format!("m{i}"));
    }
    assert_eq!(map.len(), MAX_REF_MAP_SIZE);
    assert_eq!(map.get(0), Some("m0".to_string()));
    map.insert(size, "new".to_string());
    assert_eq!(map.len(), MAX_REF_MAP_SIZE);
    assert_eq!(map.get(0), None);
    assert_eq!(map.get(1), Some("m1".to_string()));
    assert_eq!(map.get(size), Some("new".to_string()));
    map.insert(size, "newer".to_string());
    assert_eq!(map.get(size), Some("newer".to_string()));
}

#[test]
fn updates_are_parsed() {
    let text = "{\"update_id\":7,\"message\":{\"text\":\"hi\",\"chat\":{\"id\":-42},\"reply_to_message\":{\"message_id\":3}}}";
    let parsed = parse_update(text).unwrap();
    assert_eq!(parsed.chat_id, -42);
    assert_eq!(parsed.text, "hi");
    assert_eq!(parsed.reply_to_message_id, Some(3));
    let parsed = parse_update("{\"message\":{\"text\":\"hi\",\"chat\":{\"id\":1}}}").unwrap();
    assert_eq!(parsed.reply_to_message_id, None);
    for other in [
        "{}",
        "[]",
        "{\"message\":{\"chat\":{\"id\":1}}}",
        "{\"message\":{\"text\":\"hi\"}}",
        "{\"message\":{\"text\":\"hi\",\"chat\":{\"id\":\"1\"}}}",
        "{\"message\":{\"text\":5,\"chat\":{\"id\":1}}}",
    ] {
        assert!(parse_update(other).is_none(), "{other}");
    }
}

#[test]
fn requests_to_the_chat_are_json() {
    assert_eq!(poll_body(None), "{\"timeout\":30,\"allowed_updates\":[\"message\"]}");
    assert_eq!(poll_body(Some(-3)), "{\"timeout\":30,\"allowed_updates\":[\"message\"],\"offset\":-3}");
    assert_eq!(send_body(-42, "a\"b\n"), "{\"chat_id\":-42,\"text\":\"a\\\"b\\n\"}");
}

#[test]
fn failed_polls_pause_longer_and_longer() {
    let mut state = PollState { offset: None, backoff: INITIAL_BACKOFF };
    let mut pauses: Vec<u64> = Vec::new();
    for event in [
        PollEvent::NoAnswer,
        answer(500, ""),
        answer(200, "no json"),
        PollEvent::NoAnswer,
        PollEvent::NoAnswer,
        PollEvent::NoAnswer,
        PollEvent::NoAnswer,
        PollEvent::NoAnswer,
    ] {
        match poll_step(&mut state, &event) {
            Some(PollAction::Pause(secs)) => pauses.push(secs),
            other => panic!("{other:?}"),
        }
    }
    assert_eq!(pauses, vec![1, 2, 4, 8, 16, 32, 60, 60]);
    assert_eq!(state.backoff, MAX_BACKOFF);
    assert_eq!(state.offset, None);
    let ok = poll_step(&mut state, &answer(200, "{\"ok\":true,\"result\":[]}"));
    assert!(matches!(ok, Some(PollAction::Handle(updates)) if updates.is_empty()));
    assert_eq!(state.backoff, INITIAL_BACKOFF);
}

#[test]
fn rate_limits_are_obeyed() {
    let mut state = PollState { offset: Some(4), backoff: 8 };
    let limited = answer(429, "{\"parameters\":{\"retry_after\":17}}");
    assert!(matches!(poll_step(&mut state, &limited), Some(PollAction::Pause(17))));
    assert!(matches!(poll_step(&mut state, &answer(429, "")), Some(PollAction::Pause(5))));
    assert_eq!(state, PollState { offset: Some(4), backoff: 8 });
}

#[test]
fn updates_are_asked_for_once() {
    let mut state = PollState { offset: None, backoff: 4 };
    let body = "{\"result\":[{\"update_id\":7},{\"other\":1},{\"update_id\":9}]}";
    match poll_step(&mut state, &answer(200, body)) {
        Some(PollAction::Handle(updates)) => {
            assert_eq!(updates, vec!["{\"update_id\":7}", "{\"other\":1}", "{\"update_id\":9}"]);
        }
        other => panic!("{other:?}"),
    }
    assert_eq!(state, PollState { offset: Some(10), backoff: 1 });
    let none = poll_step(&mut state, &answer(200, "{\"ok\":false}"));
    assert!(matches!(none, Some(PollAction::Handle(updates)) if updates.is_empty()));
    assert_eq!(state.offset, Some(10));
    let last = format!("{{\"result\":[{{\"update_id\":{}}}]}}", i64::MAX);
    assert!(poll_step(&mut state, &answer(200, &last)).is_none());
    assert_eq!(advance_offset(Some(3), &vec![None, Some(5), None]), Some(6));
    assert_eq!(advance_offset(Some(3), &vec![None]), Some(3));
}

#[test]
fn the_last_message_that_was_shown_is_kept() {
    assert_eq!(after_send(Some(1), 200, "{\"result\":{\"message_id\":8}}"), Some(8));
    assert_eq!(after_send(Some(1), 200, "{\"result\":{}}"), Some(1));
    assert_eq!(after_send(Some(1), 200, "no json"), Some(1));
    assert_eq!(after_send(None, 400, "{\"result\":{\"message_id\":8}}"), None);
}

#[test]
fn tokens_are_checked() {
    assert!(matches!(
        validate_token("{\"ok\":true,\"result\":{\"username\":\"bot\"}}"),
        BotCheck::Known(name) if name == "bot"
    ));
    assert!(matches!(
        validate_token("{\"ok\":true}"),
        BotCheck::Known(name) if name == "unknown"
    ));
    assert!(matches!(
        validate_token("{\"ok\":false,\"description\":\"Unauthorized\"}"),
        BotCheck::Refused(why) if why == "Unauthorized"
    ));
    assert!(matches!(validate_token("{}"), BotCheck::Refused(why) if why == "unknown error"));
    assert!(matches!(validate_token("<html>"), BotCheck::NotJson));
}

#[test]
fn a_bridge_is_an_agent() {
    let b = bridge();
    assert_eq!(b.api_url(), "https://api.telegram.org/botTOKEN");
    assert_eq!(b.own_subject(), "agent.tg");
    assert_eq!(b.from_identity(), "agent.tg");
    assert_eq!(b.chat_id(), -42);
    assert_eq!(b.name(), "tg");
    assert_eq!(
        b.kv_record(5),
        "{\"name\":\"tg\",\"id\":\"telegram--42\",\"transport\":\"nats\",\"endpoint\":\"tg\",\"capabilities\":[],\"permanent\":true,\"registered_at\":5,\"last_seen\":5}"
    );
}

#[test]
fn chat_messages_become_envelopes() {
    let b = bridge();
    let mut refs = RefMap::new();
    refs.insert(3, "m3".to_string());
    let update = "{\"message\":{\"text\":\"@api-bot go\",\"chat\":{\"id\":-42},\"reply_to_message\":{\"message_id\":3}}}";
    let inbound = b.inbound(update, &refs, "m9".to_string(), 11).unwrap();
    assert_eq!(inbound.target, "api-bot");
    assert_eq!(inbound.subject, "agent.api-bot");
    assert_eq!(inbound.stream, "RZ_api_bot");
    assert_eq!(
        inbound.envelope.encode(),
        "@@RZ:{\"id\":\"m9\",\"from\":\"agent.tg\",\"ref\":\"m3\",\"kind\":{\"kind\":\"chat\",\"body\":{\"text\":\"go\"}},\"ts\":11}"
    );
    // An answer to a message that is not known refers to nothing.
    let inbound = b.inbound(update, &RefMap::new(), "m9".to_string(), 11).unwrap();
    assert_eq!(inbound.envelope.reference, None);
    // Other chats are left alone.
    let other = "{\"message\":{\"text\":\"@a go\",\"chat\":{\"id\":42}}}";
    assert!(b.inbound(other, &refs, "m9".to_string(), 11).is_none());
    assert!(b.inbound("{}", &refs, "m9".to_string(), 11).is_none());
}

#[test]
fn envelopes_become_chat_messages() {
    let e = Envelope::chat("m1".to_string(), 0, "agent.worker", "done");
    let shown = Some(("[worker] done".to_string(), "m1".to_string()));
    assert_eq!(outbound(e.encode().as_bytes()), shown);
    assert_eq!(show_payload(&e.to_json()), shown);
    let ping = Envelope::new("m1".to_string(), 0, "worker", MessageKind::Ping);
    assert_eq!(outbound(ping.encode().as_bytes()), None);
    assert_eq!(outbound(b"hello"), None);
    // What is no UTF-8 inside of a text is replaced.
    let mut payload = Envelope::chat("m1".to_string(), 0, "w", "x#y").encode().into_bytes();
    let at = payload.iter().position(|b| *b == b'#').unwrap();
    payload[at] = 0xff;
    assert_eq!(outbound(&payload), Some(("[w] x\u{fffd}y".to_string(), "m1".to_string())));
}

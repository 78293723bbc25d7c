use rz::protocol::{DecodeError, Envelope, MessageKind, SENTINEL};

const README_LINE: &str = "@@RZ:{\"id\":\"a1b2\",\"from\":\"lead\",\"to\":\"worker\",\"kind\":{\"kind\":\"chat\",\"body\":{\"text\":\"do X\"}},\"ts\":1774488000}";

fn envelope(kind: MessageKind) -> Envelope {
    Envelope::new("a1b2".to_string(), 17, "lead", kind)
}

/// Encodes and decodes, and checks that the parts around the kind are kept.
fn round_trip(e: &Envelope) -> Envelope {
    let line = e.encode();
    assert!(!line.contains('\n'));
    assert!(!line.contains('\r'));
    let back = Envelope::decode(&line).unwrap_or_else(|_| panic!("{line}"));
    assert_eq!(back.id, e.id);
    assert_eq!(back.from, e.from);
    assert_eq!(back.to, e.to);
    assert_eq!(back.reference, e.reference);
    assert_eq!(back.ts, e.ts);
    assert_eq!(back.kind.to_json(), e.kind.to_json());
    back
}

#[test]
fn chat_is_one_line_of_json() {
    let e = Envelope::chat("a1b2".to_string(), 1774488000, "lead", "do X").with_to("worker");
    assert_eq!(e.encode(), README_LINE);
    assert_eq!(SENTINEL, "@@RZ:");
}

#[test]
fn decode_reads_the_line_back() {
    let e = Envelope::decode(README_LINE).unwrap();
    assert_eq!(e.id, "a1b2");
    assert_eq!(e.from, "lead");
    assert_eq!(e.to, Some("worker".to_string()));
    assert_eq!(e.reference, None);
    assert_eq!(e.ts, 1774488000);
    assert!(matches!(e.kind, MessageKind::Chat { text } if text == "do X"));
}

#[test]
fn decode_takes_json_without_the_sentinel() {
    let e = Envelope::decode(&README_LINE[SENTINEL.len()..]).unwrap();
    assert_eq!(e.id, "a1b2");
    assert_eq!(e.from, "lead");
}

#[test]
fn decode_takes_members_in_any_order_and_ignores_others() {
    let e = Envelope::decode(
        "@@RZ: { \"ts\" : 5, \"kind\": {\"kind\":\"ping\"}, \"more\": [1], \"from\":\"x\", \"id\":\"i\" }",
    )
    .unwrap();
    assert_eq!(e.id, "i");
    assert_eq!(e.from, "x");
    assert_eq!(e.ts, 5);
    assert!(matches!(e.kind, MessageKind::Ping));
}

#[test]
fn every_kind_is_read_back() {
    let kinds = vec![
        MessageKind::Chat { text: "hello".to_string() },
        MessageKind::Ping,
        MessageKind::Pong,
        MessageKind::Error { message: "boom".to_string() },
        MessageKind::Timer { label: "check build".to_string() },
        MessageKind::Status { state: "busy".to_string(), detail: "tests".to_string() },
        MessageKind::ToolCall {
            name: "grep".to_string(),
            body: "{\"name\":\"grep\",\"args\":{\"pattern\":\"x\"}}".to_string(),
        },
        MessageKind::ToolResult {
            name: "grep".to_string(),
            result: "3 lines".to_string(),
            is_error: false,
        },
        MessageKind::Delegate {
            task: "review".to_string(),
            body: "{\"task\":\"review\",\"context\":null}".to_string(),
        },
        MessageKind::Hello { name: "worker".to_string() },
    ];
    for kind in kinds {
        let back = round_trip(&envelope(kind.copy()).with_to("w").with_ref("r9"));
        assert_eq!(back.kind.tag(), kind.tag());
        assert_eq!(back.to, Some("w".to_string()));
        assert_eq!(back.reference, Some("r9".to_string()));
    }
}

#[test]
fn kinds_are_tagged_on_the_wire() {
    assert_eq!(MessageKind::Ping.to_json(), "{\"kind\":\"ping\"}");
    assert_eq!(MessageKind::Pong.to_json(), "{\"kind\":\"pong\"}");
    assert_eq!(
        MessageKind::Timer { label: "t".to_string() }.to_json(),
        "{\"kind\":\"timer\",\"body\":{\"label\":\"t\"}}"
    );
    assert_eq!(
        MessageKind::Error { message: "m".to_string() }.to_json(),
        "{\"kind\":\"error\",\"body\":{\"message\":\"m\"}}"
    );
}

#[test]
fn control_characters_survive_the_wire() {
    let text = "a\nb\r\n\"quoted\" \\ \t \u{1} \u{7f} é 🙂 @@RZ:{}";
    let back = round_trip(&Envelope::chat("i".to_string(), 0, "f\nf", text));
    assert!(matches!(back.kind, MessageKind::Chat { text: t } if t == text));
    assert_eq!(back.from, "f\nf");
}

#[test]
fn the_largest_time_survives_the_wire() {
    let back = round_trip(&Envelope::chat("i".to_string(), u64::MAX, "f", "t"));
    assert_eq!(back.ts, u64::MAX);
}

#[test]
fn what_is_no_json_is_refused() {
    assert!(matches!(Envelope::decode("@@RZ:{nope"), Err(DecodeError::NotJson)));
    assert!(matches!(Envelope::decode(""), Err(DecodeError::NotJson)));
    assert!(matches!(Envelope::decode("hello"), Err(DecodeError::NotJson)));
}

#[test]
fn json_that_is_no_envelope_is_refused() {
    let refused = [
        "@@RZ:[]",
        "@@RZ:{}",
        "{\"id\":\"i\",\"from\":\"f\",\"kind\":{\"kind\":\"ping\"}}",
        "{\"id\":\"i\",\"from\":\"f\",\"kind\":{\"kind\":\"ping\"},\"ts\":-1}",
        "{\"id\":1,\"from\":\"f\",\"kind\":{\"kind\":\"ping\"},\"ts\":1}",
        "{\"id\":\"i\",\"from\":\"f\",\"kind\":{\"kind\":\"nothing\"},\"ts\":1}",
        "{\"id\":\"i\",\"from\":\"f\",\"kind\":{\"kind\":\"chat\"},\"ts\":1}",
        "{\"id\":\"i\",\"from\":\"f\",\"kind\":{\"kind\":\"chat\",\"body\":{}},\"ts\":1}",
    ];
    for line in refused {
        assert!(matches!(Envelope::decode(line), Err(DecodeError::NotEnvelope)), "{line}");
    }
}

#[test]
fn references_are_set_where_there_is_one() {
    let e = envelope(MessageKind::Ping).maybe_with_ref(None);
    assert_eq!(e.reference, None);
    assert_eq!(
        e.to_json(),
        "{\"id\":\"a1b2\",\"from\":\"lead\",\"kind\":{\"kind\":\"ping\"},\"ts\":17}"
    );
    let e = e.maybe_with_ref(Some("m1".to_string()));
    assert_eq!(e.reference, Some("m1".to_string()));
    assert_eq!(
        e.to_json(),
        "{\"id\":\"a1b2\",\"from\":\"lead\",\"ref\":\"m1\",\"kind\":{\"kind\":\"ping\"},\"ts\":17}"
    );
}

#[test]
fn kinds_are_shown_as_rust_shows_them() {
    assert_eq!(MessageKind::Ping.to_debug(), "Ping");
    assert_eq!(
        MessageKind::Error { message: "a \"b\"\n".to_string() }.to_debug(),
        "Error { message: \"a \\\"b\\\"\\n\" }"
    );
    assert_eq!(
        MessageKind::Status { state: "s".to_string(), detail: "d".to_string() }.to_debug(),
        "Status { state: \"s\", detail: \"d\" }"
    );
    assert_eq!(
        MessageKind::ToolResult {
            name: "n".to_string(),
            result: "r".to_string(),
            is_error: true,
        }
        .to_debug(),
        "ToolResult { name: \"n\", result: \"r\", is_error: true }"
    );
}

#[test]
fn copies_are_equal() {
    let e = envelope(MessageKind::Hello { name: "h".to_string() }).with_to("t");
    assert_eq!(e.copy().to_json(), e.to_json());
}

#[test]
fn a_line_that_was_cut_off_is_refused() {
    let e = envelope(MessageKind::ToolCall {
        name: "n".to_string(),
        body: "{\"name\":\"n\",\"args\":[{},\"}\",-1]}".to_string(),
    });
    let line = e.with_to("a}\"b").encode();
    for n in SENTINEL.len()..line.len() {
        assert!(matches!(Envelope::decode(&line[..n]), Err(DecodeError::NotJson)), "{n}");
    }
    assert!(Envelope::decode(&line).is_ok());
}

#[test]
fn a_brace_and_what_cannot_follow_it_is_refused() {
    for rest in ["", "@@RZ:{}", "a", "{}", ",", ":", "1}", "\u{a0}}", "'a':1}"] {
        let line = format!("@@RZ:{{{rest}");
        assert!(matches!(Envelope::decode(&line), Err(DecodeError::NotJson)), "{line}");
    }
}

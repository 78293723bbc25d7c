use rz::bridge::{
    answer_request, bridge_consumer_name, bridge_entry, content_length, forward_to_webhook,
    header_step, leaves_directory, outgoing_envelope, webhook_body, HEARTBEAT_SECS,
};
use rz::protocol::{Envelope, MessageKind};

const SEND: &str = "POST /send HTTP/1.1\r\n";

#[test]
fn a_bridge_has_an_entry() {
    let e = bridge_entry("api-bot", 7, true, 9);
    assert_eq!(e.id, "bridge-7");
    assert_eq!(e.transport, "nats");
    assert_eq!(e.endpoint, "api-bot");
    assert!(e.permanent);
    assert_eq!((e.registered_at, e.last_seen), (9, 9));
    assert_eq!(bridge_consumer_name("api-bot"), "rz_bridge_api-bot");
    assert_eq!(HEARTBEAT_SECS, 120);
    assert!(leaves_directory(false));
    assert!(!leaves_directory(true));
}

#[test]
fn webhooks_get_a_simple_object() {
    let e = Envelope::chat("a1b2".to_string(), 1774568000, "worker", "process this data");
    let line = e.encode();
    let raw = line.replace('"', "\\\"");
    assert_eq!(
        webhook_body(&line),
        format!("{{\"id\":\"a1b2\",\"from\":\"worker\",\"to\":null,\"text\":\"process this data\",\"ts\":1774568000,\"raw\":\"{raw}\"}}")
    );
    // A payload may also come without the sentinel.
    let json = e.with_to("api-bot").to_json();
    assert!(webhook_body(&json).starts_with(
        "{\"id\":\"a1b2\",\"from\":\"worker\",\"to\":\"api-bot\",\"text\":\"process this data\""
    ));
}

#[test]
fn webhooks_get_other_kinds_as_they_are_shown() {
    let e = Envelope::new(
        "i".to_string(),
        1,
        "w",
        MessageKind::Error { message: "bo\"om".to_string() },
    );
    assert!(webhook_body(&e.to_json()).contains("\"text\":\"Error { message: \\\"bo\\\\\\\"om\\\" }\""));
    let ping = Envelope::new("i".to_string(), 1, "w", MessageKind::Ping);
    assert!(webhook_body(&ping.to_json()).contains("\"text\":\"Ping\""));
}

#[test]
fn webhooks_get_what_is_no_envelope_raw() {
    assert_eq!(webhook_body("hello \"x\""), "{\"raw\":\"hello \\\"x\\\"\"}");
    assert_eq!(webhook_body(""), "{\"raw\":\"\"}");
}

#[test]
fn webhooks_are_called_with_curl() {
    assert_eq!(
        forward_to_webhook("http://localhost:7070/inbox", "hi"),
        vec![
            "-s",
            "-X",
            "POST",
            "-H",
            "Content-Type: application/json",
            "--max-time",
            "5",
            "-d",
            "{\"raw\":\"hi\"}",
            "http://localhost:7070/inbox",
        ]
    );
}

#[test]
fn headers_tell_the_length_of_the_body() {
    assert_eq!(header_step("Content-Length: 12\r\n", 0), Some(12));
    assert_eq!(header_step("content-length: 12 \r\n", 0), Some(12));
    assert_eq!(header_step("CONTENT-LENGTH: 12\r\n", 3), Some(3));
    assert_eq!(header_step("Content-Length: x\r\n", 3), Some(0));
    assert_eq!(header_step("Host: here\r\n", 3), Some(3));
    assert_eq!(header_step("\r\n", 3), None);
    assert_eq!(header_step("", 3), None);
    let headers = |lines: &[&str]| lines.iter().map(|l| l.to_string()).collect::<Vec<String>>();
    assert_eq!(
        content_length(&headers(&["Host: h\r\n", "Content-Length: 5\r\n", "\r\n", "Content-Length: 9\r\n"])),
        5
    );
    assert_eq!(content_length(&headers(&["Content-Length: 5\r\n", "content-length: 6\r\n"])), 6);
    assert_eq!(content_length(&headers(&[])), 0);
}

#[test]
fn messages_are_posted_to_the_bridge() {
    let answer =
        answer_request("api-bot", SEND, "{\"to\":\"worker\",\"text\":\"here are the results\"}");
    assert_eq!(
        answer.outgoing,
        Some(("worker".to_string(), "here are the results".to_string()))
    );
    assert_eq!(
        answer.response,
        "HTTP/1.1 200 OK\r\nContent-Type: application/json\r\nConnection: close\r\n\r\n{\"ok\":true,\"from\":\"api-bot\"}"
    );
}

#[test]
fn incomplete_messages_are_bad_requests() {
    for body in [
        "",
        "no json",
        "[]",
        "{}",
        "{\"to\":\"worker\"}",
        "{\"to\":\"\",\"text\":\"x\"}",
        "{\"to\":\"worker\",\"text\":5}",
    ] {
        let answer = answer_request("api-bot", SEND, body);
        assert_eq!(answer.outgoing, None, "{body}");
        assert_eq!(
            answer.response,
            "HTTP/1.1 400 Bad Request\r\nContent-Type: application/json\r\nConnection: close\r\n\r\n{\"error\":\"need {\\\"to\\\":\\\"name\\\",\\\"text\\\":\\\"msg\\\"}\"}"
        );
    }
}

#[test]
fn bridges_tell_their_health_and_nothing_else() {
    let answer = answer_request("api-bot", "GET /health HTTP/1.1\r\n", "");
    assert_eq!(answer.outgoing, None);
    assert_eq!(
        answer.response,
        "HTTP/1.1 200 OK\r\nContent-Type: application/json\r\nConnection: close\r\n\r\n{\"name\":\"api-bot\",\"status\":\"ok\"}"
    );
    for line in ["GET / HTTP/1.1\r\n", "POST /other HTTP/1.1\r\n", ""] {
        let answer = answer_request("api-bot", line, "{\"to\":\"a\",\"text\":\"b\"}");
        assert_eq!(answer.outgoing, None);
        assert_eq!(answer.response, "HTTP/1.1 404 Not Found\r\nConnection: close\r\n\r\n");
    }
}

#[test]
fn posted_messages_become_envelopes() {
    let e = outgoing_envelope("i".to_string(), 4, "api-bot", "worker", "hi");
    assert_eq!(
        e.encode(),
        "@@RZ:{\"id\":\"i\",\"from\":\"api-bot\",\"to\":\"worker\",\"kind\":{\"kind\":\"chat\",\"body\":{\"text\":\"hi\"}},\"ts\":4}"
    );
}

use rz::protocol::MessageKind;
use rz::telegram::{
    extract_display_text, parse_target, split_message, RefMap, MAX_MESSAGE_LEN, MAX_REF_MAP_SIZE,
};

#[test]
fn parse_target_with_prefix() {
    let (agent, msg) = parse_target("@coder fix the tests", "default");
    assert_eq!(agent, "coder");
    assert_eq!(msg, "fix the tests");
}

#[test]
fn parse_target_without_prefix() {
    let (agent, msg) = parse_target("just a message", "default");
    assert_eq!(agent, "default");
    assert_eq!(msg, "just a message");
}

#[test]
fn parse_target_bare_at() {
    let (agent, msg) = parse_target("@", "default");
    assert_eq!(agent, "default");
    assert_eq!(msg, "@");
}

#[test]
fn parse_target_at_no_space() {
    let (agent, msg) = parse_target("@agent", "default");
    assert_eq!(agent, "default");
    assert_eq!(msg, "@agent");
}

#[test]
fn ref_map_bounded() {
    let mut rm = RefMap::new();
    for i in 0..150 {
        rm.insert(i, format!("id-{i}"));
    }
    assert!(rm.len() <= MAX_REF_MAP_SIZE);
    // Oldest entries evicted.
    assert!(rm.get(0).is_none());
    assert!(rm.get(149).is_some());
}

#[test]
fn ref_map_get_returns_stored() {
    let mut rm = RefMap::new();
    rm.insert(42, "abc123".into());
    assert_eq!(rm.get(42), Some("abc123".into()));
    assert_eq!(rm.get(99), None);
}

#[test]
fn split_message_short() {
    let chunks = split_message("hello");
    assert_eq!(chunks.len(), 1);
    assert_eq!(chunks[0], "hello");
}

#[test]
fn split_message_long() {
    let text = "a ".repeat(3000); // 6000 chars
    let chunks = split_message(&text);
    assert!(chunks.len() > 1);
    for chunk in &chunks {
        assert!(chunk.len() <= MAX_MESSAGE_LEN);
    }
}

#[test]
fn extract_display_text_chat() {
    let kind = MessageKind::Chat { text: "hello".into() };
    assert_eq!(extract_display_text(&kind), Some("hello".into()));
}

#[test]
fn extract_display_text_ping_is_none() {
    assert_eq!(extract_display_text(&MessageKind::Ping), None);
}

#[test]
fn extract_display_text_error() {
    let kind = MessageKind::Error { message: "boom".into() };
    assert_eq!(extract_display_text(&kind), Some("Error: boom".into()));
}

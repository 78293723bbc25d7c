use rz::nats_hub::{
    after_core_message, after_stream_message, consumer_name, deliver_locally, hub_url, next_stage,
    publish_payload, read_payload, stream_name, subject, Fate, FollowUp, LocalDelivery,
    PublishStage, STREAM_MAX_AGE_SECS, STREAM_MAX_BYTES,
};
use rz::protocol::{DecodeError, Envelope};

#[test]
fn a_hub_has_an_address() {
    assert_eq!(hub_url(None), None);
    assert_eq!(hub_url(Some(String::new())), None);
    let url = Some("nats://localhost:4222".to_string());
    assert_eq!(hub_url(url.clone()), url);
}

#[test]
fn agents_have_a_stream_a_subject_and_a_consumer() {
    assert_eq!(stream_name("api-bot.v2"), "RZ_api_bot_v2");
    assert_eq!(subject("api-bot.v2"), "agent.api-bot.v2");
    assert_eq!(consumer_name("api-bot.v2"), "rz_api-bot.v2");
}

#[test]
fn streams_are_bounded() {
    assert_eq!(STREAM_MAX_AGE_SECS, 7 * 24 * 3600);
    assert_eq!(STREAM_MAX_BYTES, 50 * 1024 * 1024);
}

#[test]
fn payloads_are_json_and_are_read_back() {
    let e = Envelope::chat("i".to_string(), 3, "a", "t\n").with_to("b");
    let payload = publish_payload(&e);
    assert_eq!(
        payload,
        "{\"id\":\"i\",\"from\":\"a\",\"to\":\"b\",\"kind\":{\"kind\":\"chat\",\"body\":{\"text\":\"t\\n\"}},\"ts\":3}"
    );
    assert_eq!(read_payload(payload.as_bytes()).unwrap().to_json(), e.to_json());
    assert_eq!(read_payload(e.encode().as_bytes()).unwrap().to_json(), e.to_json());
    assert!(matches!(read_payload(&[0xff, 0xfe]), Err(DecodeError::NotJson)));
    assert!(matches!(read_payload(b"{}"), Err(DecodeError::NotEnvelope)));
}

/// Where publishing ends, given how the steps end.
fn published(steps: &[bool]) -> PublishStage {
    let mut stage = PublishStage::EnsureStream;
    for step in steps {
        stage = next_stage(stage, *step);
    }
    stage
}

#[test]
fn publishing_falls_back_to_the_core() {
    assert_eq!(published(&[true]), PublishStage::Stream);
    assert_eq!(published(&[true, true]), PublishStage::Confirm);
    assert_eq!(published(&[true, true, true]), PublishStage::Done);
    assert_eq!(published(&[false]), PublishStage::Core);
    assert_eq!(published(&[true, false]), PublishStage::Core);
    assert_eq!(published(&[true, true, false]), PublishStage::Core);
    assert_eq!(published(&[true, true, false, true]), PublishStage::Done);
    assert_eq!(published(&[false, false]), PublishStage::Failed);
    assert_eq!(published(&[false, false, true]), PublishStage::Failed);
}

#[test]
fn messages_are_delivered_where_they_belong() {
    let e = Envelope::chat("i".to_string(), 3, "a", "t");
    assert!(matches!(deliver_locally("file:bob", &e), LocalDelivery::Mailbox(n) if n == "bob"));
    match deliver_locally("cmux:s-1", &e) {
        LocalDelivery::Surface { id, text } => {
            assert_eq!(id, "s-1");
            assert_eq!(text, e.encode());
        }
        other => panic!("{other:?}"),
    }
    for delivery in ["stdout", "", "zellij:terminal_1", "file", "cmux"] {
        match deliver_locally(delivery, &e) {
            LocalDelivery::Print(line) => assert_eq!(line, e.encode()),
            other => panic!("{other:?}"),
        }
    }
}

#[test]
fn what_follows_a_message_depends_on_its_fate() {
    let follow_up = |acknowledge: bool, pause_ms: u64| FollowUp { acknowledge, pause_ms };
    assert_eq!(after_stream_message(Fate::Delivered, "cmux:s"), follow_up(true, 1500));
    assert_eq!(after_stream_message(Fate::Delivered, "stdout"), follow_up(true, 0));
    assert_eq!(after_stream_message(Fate::NotDelivered, "cmux:s"), follow_up(false, 0));
    assert_eq!(after_stream_message(Fate::Unreadable, "cmux:s"), follow_up(true, 0));
    assert_eq!(after_core_message(Fate::Delivered, "cmux:s"), follow_up(false, 1500));
    assert_eq!(after_core_message(Fate::NotDelivered, "cmux:s"), follow_up(false, 1500));
    assert_eq!(after_core_message(Fate::Unreadable, "cmux:s"), follow_up(false, 0));
    assert_eq!(after_core_message(Fate::Delivered, "file:x"), follow_up(false, 0));
}

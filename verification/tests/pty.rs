use rz::protocol::Envelope;
use rz::pty::{
    agent_entry, left_to_write, message_of_payload, step, typed_line, Event, Phase, PollOutcome,
    ReadOutcome, Ready, WriteOutcome, POLL_TIMEOUT_MS, TYPE_PAUSE_MS,
};

fn ready(input: bool, output: bool, hung_up: bool) -> Ready {
    Ready { input, output, hung_up }
}

fn polled(r: Ready) -> Event {
    Event::Polled(PollOutcome::Ready, r)
}

fn read(n: usize) -> Event {
    Event::Read(ReadOutcome::Bytes(n))
}

#[test]
fn an_agent_has_an_entry() {
    let e = agent_entry("w", 77, false, 5);
    assert_eq!(e.id, "pty-77");
    assert_eq!(e.transport, "nats");
    assert_eq!(e.endpoint, "w");
    assert!(!e.permanent);
    assert!(agent_entry("w", 77, true, 5).permanent);
    assert_eq!((POLL_TIMEOUT_MS, TYPE_PAUSE_MS), (50, 200));
}

#[test]
fn messages_are_typed_with_a_return() {
    let e = Envelope::chat("i".to_string(), 1, "a", "b\nc");
    let line = typed_line(&e);
    assert_eq!(line, format!("{}\r", e.encode()));
    assert_eq!(line.matches('\r').count(), 1);
    assert_eq!(line.matches('\n').count(), 0);
}

#[test]
fn input_comes_before_output_and_messages() {
    let both = ready(true, true, false);
    let (phase, passed) = step(Phase::Wait, polled(both));
    assert_eq!((phase, passed), (Phase::Input(both), None));
    let (phase, passed) = step(phase, read(3));
    assert_eq!((phase, passed), (Phase::Output(both), Some(3)));
    let (phase, passed) = step(phase, read(4096));
    assert_eq!((phase, passed), (Phase::Messages, Some(4096)));
    assert_eq!(step(phase, Event::Typed), (Phase::Wait, None));
}

#[test]
fn nothing_to_read_leads_to_messages() {
    let nothing = ready(false, false, false);
    assert_eq!(step(Phase::Wait, polled(nothing)), (Phase::Messages, None));
    let interrupted = Event::Polled(PollOutcome::Interrupted, nothing);
    assert_eq!(step(Phase::Wait, interrupted), (Phase::Wait, None));
    let failed = Event::Polled(PollOutcome::Failed, nothing);
    assert_eq!(step(Phase::Wait, failed), (Phase::Ended, None));
}

#[test]
fn errors_of_the_input_are_not_those_of_the_output() {
    let input = Phase::Input(ready(true, false, false));
    let output = Phase::Output(ready(false, true, false));
    let rest = Phase::Rest;
    let error = Event::Read(ReadOutcome::InputOutputError);
    let block = Event::Read(ReadOutcome::WouldBlock);
    let failed = Event::Read(ReadOutcome::Failed);
    assert_eq!(step(input, error), (Phase::Messages, None));
    assert_eq!(step(output, error), (Phase::Ended, None));
    assert_eq!(step(rest, error), (Phase::Ended, None));
    assert_eq!(step(input, block), (Phase::Messages, None));
    assert_eq!(step(output, block), (Phase::Messages, None));
    assert_eq!(step(rest, block), (Phase::Ended, None));
    for phase in [input, output, rest] {
        assert_eq!(step(phase, failed), (Phase::Ended, None));
        assert_eq!(step(phase, read(0)), (Phase::Ended, None));
    }
}

#[test]
fn the_rest_is_read_after_hanging_up() {
    let hung_up = ready(false, true, true);
    let (phase, _) = step(Phase::Wait, polled(hung_up));
    assert_eq!(phase, Phase::Output(hung_up));
    let (phase, passed) = step(phase, read(2));
    assert_eq!((phase, passed), (Phase::Rest, Some(2)));
    let (phase, passed) = step(phase, read(9));
    assert_eq!((phase, passed), (Phase::Rest, Some(9)));
    assert_eq!(step(phase, read(0)), (Phase::Ended, None));
    assert_eq!(step(Phase::Wait, polled(ready(false, false, true))), (Phase::Rest, None));
}

#[test]
fn writing_goes_on_until_nothing_is_left() {
    assert_eq!(left_to_write(10, WriteOutcome::Bytes(4)), Some(6));
    assert_eq!(left_to_write(6, WriteOutcome::TryAgain), Some(6));
    assert_eq!(left_to_write(6, WriteOutcome::Bytes(6)), Some(0));
    assert_eq!(left_to_write(6, WriteOutcome::Failed), None);
}

#[test]
fn payloads_are_messages_or_nothing() {
    let e = Envelope::chat("i".to_string(), 1, "a", "b");
    let found = message_of_payload(e.to_json().as_bytes()).unwrap();
    assert_eq!(found.to_json(), e.to_json());
    assert!(message_of_payload(b"hello").is_none());
    assert!(message_of_payload(&[0xff]).is_none());
}

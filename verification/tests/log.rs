use rz::log::{extract_messages, format_message};
use rz::protocol::{Envelope, MessageKind};

fn chat(id: &str, text: &str) -> Envelope {
    Envelope::chat(id.to_string(), 3_723_000, "lead", text)
}

fn said(kind: MessageKind) -> String {
    format_message(&Envelope::new("i".to_string(), 86_399_999, "worker", kind), None)
}

#[test]
fn messages_are_found_among_other_lines() {
    let a = chat("m1", "one");
    let b = chat("m2", "two\nlines");
    let text = format!("$ make\n> {}\nnoise\r\n{}\n", a.encode(), b.encode());
    let found = extract_messages(&text);
    assert_eq!(found.len(), 2);
    assert_eq!(found[0].to_json(), a.to_json());
    assert_eq!(found[1].to_json(), b.to_json());
}

#[test]
fn wrapped_messages_are_joined() {
    let e = chat("m1", "a text that a terminal wraps");
    let line = e.encode();
    let text = format!("{}\n{}\n{}\ndone\n", &line[..20], &line[20..40], &line[40..]);
    let found = extract_messages(&text);
    assert_eq!(found.len(), 1);
    assert_eq!(found[0].to_json(), e.to_json());
}

/// A line cut into the given number of lines: the sentinel, lines of one
/// character each, and the rest.
fn cut(line: &str, lines: usize) -> String {
    let mut out = line[..5].to_string();
    for i in 0..lines - 2 {
        out.push('\n');
        out.push_str(&line[5 + i..6 + i]);
    }
    out.push('\n');
    out.push_str(&line[3 + lines..]);
    out
}

#[test]
fn messages_are_joined_over_twenty_continuation_lines() {
    let e = chat("m1", "wrapped");
    let fits = cut(&e.encode(), 21);
    assert_eq!(fits.lines().count(), 21);
    let found = extract_messages(&fits);
    assert_eq!(found.len(), 1);
    assert_eq!(found[0].to_json(), e.to_json());
    let too_long = cut(&e.encode(), 22);
    assert_eq!(too_long.lines().count(), 22);
    assert_eq!(extract_messages(&too_long).len(), 0);
}

#[test]
fn messages_are_found_between_other_text_and_broken_lines() {
    let a = chat("m1", "one @@RZ:{ in it");
    let b = chat("m2", "two");
    let c = chat("m3", "three");
    let text = format!(
        "$ @@RZ\n{}\n> @@RZ:{{\n{}\nnoise\n@@RZ:{{oops\n@@ @@@RZ{}\n",
        a.encode(),
        b.encode(),
        cut(&c.encode(), 3),
    );
    let found = extract_messages(&text);
    let ids: Vec<&str> = found.iter().map(|e| e.id.as_str()).collect();
    assert_eq!(ids, vec!["m1", "m2", "m3"]);
    assert!(found.len() <= text.lines().filter(|l| l.contains("@@RZ:")).count());
}

#[test]
fn broken_messages_do_not_hide_later_ones() {
    let e = chat("m2", "here");
    let text = format!("@@RZ:{{broken\n@@RZ:\n{}", e.encode());
    let found = extract_messages(&text);
    assert_eq!(found.len(), 1);
    assert_eq!(found[0].id, "m2");
    assert_eq!(extract_messages("").len(), 0);
    assert_eq!(extract_messages("no message\n").len(), 0);
}

#[test]
fn messages_are_shown_with_their_time_and_sender() {
    let e = chat("m1", "hello");
    assert_eq!(format_message(&e, None), "[01:02:03] lead> hello");
    assert_eq!(format_message(&e, Some("lead")), "[01:02:03] lead (me)> hello");
    assert_eq!(format_message(&e, Some("other")), "[01:02:03] lead> hello");
}

#[test]
fn hours_start_again_every_day() {
    let e = Envelope::chat("m".to_string(), 90_000_000, "x", "t");
    assert_eq!(format_message(&e, None), "[01:00:00] x> t");
}

#[test]
fn every_kind_is_shown() {
    assert_eq!(said(MessageKind::Ping), "[23:59:59] worker> ping");
    assert_eq!(said(MessageKind::Pong), "[23:59:59] worker> pong");
    assert_eq!(
        said(MessageKind::Error { message: "boom".to_string() }),
        "[23:59:59] worker> error: boom"
    );
    assert_eq!(
        said(MessageKind::Timer { label: "tea".to_string() }),
        "[23:59:59] worker> timer: tea"
    );
    assert_eq!(
        said(MessageKind::Status { state: "busy".to_string(), detail: "d".to_string() }),
        "[23:59:59] worker> [busy] d"
    );
    assert_eq!(
        said(MessageKind::ToolCall { name: "grep".to_string(), body: "{}".to_string() }),
        "[23:59:59] worker> (calling tool: grep)"
    );
    assert_eq!(
        said(MessageKind::ToolResult {
            name: "grep".to_string(),
            result: "ok".to_string(),
            is_error: false,
        }),
        "[23:59:59] worker> tool result (grep): ok"
    );
    assert_eq!(
        said(MessageKind::ToolResult {
            name: "grep".to_string(),
            result: "bad".to_string(),
            is_error: true,
        }),
        "[23:59:59] worker> tool error (grep): bad"
    );
    assert_eq!(
        said(MessageKind::Delegate { task: "review".to_string(), body: "{}".to_string() }),
        "[23:59:59] worker> (delegating: review)"
    );
    assert_eq!(
        said(MessageKind::Hello { name: "w2".to_string() }),
        "[23:59:59] worker> hello from w2"
    );
}

#[test]
fn long_results_are_cut() {
    let task = "x".repeat(250);
    assert_eq!(
        said(MessageKind::Delegate { task, body: "{}".to_string() }),
        format!("[23:59:59] worker> (delegating: {})", "x".repeat(200))
    );
    let result = "é".repeat(101);
    assert_eq!(
        said(MessageKind::ToolResult { name: "t".to_string(), result, is_error: false }),
        format!("[23:59:59] worker> tool result (t): {}", "é".repeat(100))
    );
}

#[test]
fn long_results_are_cut_between_characters() {
    let result = format!("{}é", "a".repeat(199));
    assert_eq!(
        said(MessageKind::ToolResult { name: "t".to_string(), result, is_error: false }),
        format!("[23:59:59] worker> tool result (t): {}", "a".repeat(199))
    );
    let task = format!("x{}", "é".repeat(100));
    assert_eq!(
        said(MessageKind::Delegate { task, body: "{}".to_string() }),
        format!("[23:59:59] worker> (delegating: x{})", "é".repeat(99))
    );
}

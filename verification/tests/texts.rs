use rz::bytes::{fit_from, prefix_fitting, width_of};
use rz::json::{
    is_json, read_bool, read_i64, read_inner_member, read_list, read_member, read_string, read_u64,
    write_list, write_strings, ObjectWriter,
};
use rz::number::{decimal_of, parse_u32, parse_u64, signed_decimal_of, two_digits_of};
use rz::pieces::{
    comma_list, is_white_space, join_all, lines_of, replace_char, split_on, split_on_at_most,
    tail_after_last, trimmed, trimmed_start,
};
use rz::text::{
    chars_of, contains_text, find_text, same, starts_with, string_of, strip_prefix, suffix_from,
    text_of_payload,
};

const SAMPLES: [&str; 12] = [
    "",
    "a",
    "a\nb",
    "a\r\nb\r\n",
    "\n\n",
    "a\n\nb\n",
    "\r",
    "a\rb\n",
    "  é 🙂\u{a0}",
    "\u{2003}x\u{3000}\u{85}",
    "a,b,,c",
    "/tmp/x/default",
];

#[test]
fn white_space_is_what_rust_takes_for_it() {
    let mut c: u32 = 0;
    while c <= 0x10ffff {
        if let Some(c) = char::from_u32(c) {
            assert_eq!(is_white_space(c), c.is_whitespace(), "{c:?}");
        }
        c += 1;
    }
}

#[test]
fn widths_are_those_of_utf8() {
    let mut c: u32 = 0;
    while c <= 0x10ffff {
        if let Some(c) = char::from_u32(c) {
            assert_eq!(width_of(c), c.len_utf8());
        }
        c += 1;
    }
}

#[test]
fn lines_are_those_of_rust() {
    for s in SAMPLES {
        let expected: Vec<String> = s.lines().map(|l| l.to_string()).collect();
        assert_eq!(lines_of(s), expected, "{s:?}");
    }
}

#[test]
fn pieces_are_those_of_rust() {
    for s in SAMPLES {
        for c in [',', '/', '\n', 'é'] {
            let expected: Vec<String> = s.split(c).map(|p| p.to_string()).collect();
            assert_eq!(split_on(s, c), expected);
            assert_eq!(join_all(&expected, &c.to_string()), s);
            for n in 1..4 {
                let expected: Vec<String> = s.splitn(n, c).map(|p| p.to_string()).collect();
                assert_eq!(split_on_at_most(s, c, n), expected);
            }
            assert_eq!(tail_after_last(s, c), s.rsplit(c).next().unwrap());
            assert_eq!(replace_char(s, c, "<>"), s.replace(c, "<>"));
        }
        assert_eq!(trimmed(s), s.trim());
        assert_eq!(trimmed_start(s), s.trim_start());
    }
}

#[test]
fn lists_are_split_at_commas_and_trimmed() {
    assert_eq!(comma_list("code, review ,search"), vec!["code", "review", "search"]);
    assert_eq!(comma_list(""), vec![""]);
    assert_eq!(comma_list("a,,b"), vec!["a", "", "b"]);
}

#[test]
fn prefixes_fit_and_end_between_characters() {
    assert_eq!(prefix_fitting("aé", 2), "a");
    assert_eq!(prefix_fitting("aé", 3), "aé");
    assert_eq!(prefix_fitting("🙂", 3), "");
    assert_eq!(prefix_fitting("abc", 0), "");
    let v = chars_of("aéb");
    let (to, bytes) = fit_from(&v, 0, 3);
    assert_eq!(string_of(&v, 0, to), "aé");
    assert_eq!(bytes, 3);
}

#[test]
fn texts_are_searched() {
    assert!(same("x", "x"));
    assert!(!same("x", "X"));
    assert!(starts_with("terminal_3", "terminal_"));
    assert!(!starts_with("term", "terminal_"));
    assert_eq!(strip_prefix("pty-12", "pty-"), Some("12".to_string()));
    assert_eq!(strip_prefix("bridge-12", "pty-"), None);
    assert_eq!(find_text("ééab", "ab"), Some(2));
    assert_eq!(find_text("abc", ""), Some(0));
    assert_eq!(find_text("abc", "d"), None);
    assert!(contains_text("Build worker", "work"));
    assert!(!contains_text("Build worker", "Work"));
    assert_eq!(suffix_from("> @@RZ:x", "@@RZ:"), Some("@@RZ:x".to_string()));
    assert_eq!(suffix_from("> @@RZ", "@@RZ:"), None);
}

#[test]
fn payloads_that_are_no_utf8_are_empty() {
    assert_eq!(text_of_payload("é🙂".as_bytes()), "é🙂");
    assert_eq!(text_of_payload(&[b'a', 0xff]), "");
    assert_eq!(text_of_payload(&[]), "");
    // A surrogate, and a form that is longer than it need be.
    assert_eq!(text_of_payload(&[0xed, 0xa0, 0x80]), "");
    assert_eq!(text_of_payload(&[0xc0, 0x80]), "");
}

#[test]
fn numbers_are_written_and_read() {
    for n in [0, 7, 10, 4096, u64::MAX - 1, u64::MAX] {
        assert_eq!(decimal_of(n), n.to_string());
        assert_eq!(parse_u64(&n.to_string()), Some(n));
    }
    for n in [0, -1, 42, i64::MIN, i64::MAX] {
        assert_eq!(signed_decimal_of(n), n.to_string());
    }
    assert_eq!(two_digits_of(3), "03");
    assert_eq!(two_digits_of(59), "59");
    for s in ["", "+", "-", "-1", "+7", "007", "1_0", "18446744073709551616", " 1", "4294967296", "٣"] {
        assert_eq!(parse_u64(s), s.parse::<u64>().ok(), "{s:?}");
        assert_eq!(parse_u32(s), s.parse::<u32>().ok(), "{s:?}");
    }
}

#[test]
fn json_is_read_one_level_at_a_time() {
    assert!(is_json(" [1, 2] "));
    assert!(!is_json("[1, 2"));
    assert_eq!(read_string("\"a\\u00e9\\n\""), Some("aé\n".to_string()));
    assert_eq!(read_string("1"), None);
    assert_eq!(read_bool("true"), Some(true));
    assert_eq!(read_bool("1"), None);
    assert_eq!(read_u64("18446744073709551615"), Some(u64::MAX));
    assert_eq!(read_u64("-1"), None);
    assert_eq!(read_u64("1.0"), None);
    assert_eq!(read_i64("-1"), Some(-1));
    assert_eq!(read_i64("18446744073709551615"), None);
    assert_eq!(read_list("[1, {\"a\": 2}]"), Some(vec!["1".to_string(), "{\"a\":2}".to_string()]));
    assert_eq!(read_list("{}"), None);
    assert_eq!(read_member("{\"a\": {\"b\": null}}", "a"), Some("{\"b\":null}".to_string()));
    assert_eq!(read_member("{\"a\": 1}", "b"), None);
    assert_eq!(
        read_inner_member("{\"a\": {\"b\": \"x\"}}", "a", "b"),
        Some("\"x\"".to_string())
    );
}

#[test]
fn json_is_written_compactly() {
    let text = ObjectWriter::new()
        .string("s", "a\"\n\u{1}é")
        .number("n", 7)
        .signed("i", -7)
        .boolean("b", false)
        .member("l", &write_strings(&vec!["x".to_string(), "\\".to_string()]))
        .finish();
    assert_eq!(
        text,
        "{\"s\":\"a\\\"\\n\\u0001é\",\"n\":7,\"i\":-7,\"b\":false,\"l\":[\"x\",\"\\\\\"]}"
    );
    let text = ObjectWriter::new().string("s", "\u{0}\u{8}\t\u{b}\u{c}\r\u{1f} /\u{7f}\\").finish();
    assert_eq!(text, "{\"s\":\"\\u0000\\b\\t\\u000b\\f\\r\\u001f /\u{7f}\\\\\"}");
    assert_eq!(ObjectWriter::new().finish(), "{}");
    assert_eq!(write_list(&vec![]), "[]");
    assert_eq!(write_list(&vec!["1".to_string(), "{}".to_string()]), "[1,{}]");
}

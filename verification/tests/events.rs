//! Lines, events and what is taken out of them.
use jevernetes::events::{
    baseline, console, hash, redact, strip_ansi, Event, Framer, Line, Parser, Source, MAX_EVENT,
    MAX_LINE,
};
use jevernetes::json;
use jevernetes::text;

fn parse(raw: &[u8]) -> Vec<Event> {
    let mut framer = Framer::default();
    let mut parser = Parser::new(Source::new());
    let mut events = vec![];
    for chunk in raw.chunks(13) {
        for line in framer.push(chunk) {
            events.extend(parser.feed(line));
        }
    }
    if let Some(line) = framer.finish() {
        events.extend(parser.feed(line));
    }
    events.extend(parser.flush());
    events
}

fn written(events: &[Event]) -> String {
    events.iter().map(|e| e.json().text()).collect()
}

#[test]
fn multiline_ids_and_unicode_bounds() {
    let raw = "2026-09-20T12:00:00Z ERROR failed\n  stack frame\nINFO ready\n";
    let e = parse(raw.as_bytes());
    assert_eq!(e.len(), 2);
    assert_eq!(e[0].line_count, 2);
    assert_eq!(e[0].timestamp.as_deref(), Some("2026-09-20T12:00:00Z"));
    assert_eq!(e[0].id, parse(raw.as_bytes())[0].id);
    let e = parse("😀".repeat(MAX_LINE).as_bytes());
    assert!(e[0].truncated);
    assert!(e[0].text.len() <= MAX_EVENT);
}

#[test]
fn credentials_and_streamed_pem() {
    let raw = [
        "\x1b[31mERROR password=fixture-value\x1b[0m\n-----BEGIN ENCRYPTED PRIVATE ",
        "KEY-----\nprivate-fixture\n-----END ENCRYPTED PRIVATE ",
        "KEY-----\nINFO ready\n",
    ]
    .join("");
    let e = parse(raw.as_bytes());
    let text = written(&e);
    assert!(!text.contains("fixture-value"));
    assert!(!text.contains("private-fixture"));
    assert!(!text.contains("\\u001b"));
    assert!(text.contains("INFO ready"));
    let safe = redact(
        r#"{"nested":{"access_key_id":"fake-value","secret":{"x":"hidden"}},"a":"Bearer fake-value"}"#,
    );
    assert!(!safe.contains("fake-value"));
    assert!(!safe.contains("hidden"));
    assert!(!redact(r#"message password="a\"b" done"#).contains("a\\"));
}

#[test]
fn key_marker_in_discarded_oversize_tail() {
    let marker = [
        "-----BEGIN PRIVATE ",
        "KEY-----\nprivate-fixture\n-----END PRIVATE ",
        "KEY-----\nready",
    ]
    .join("");
    let raw = format!("{}{marker}", "x".repeat(MAX_LINE + 7));
    let e = parse(raw.as_bytes());
    assert!(!written(&e).contains("private-fixture"));
    assert!(e[0].truncated);
}

fn lines(pieces: &[&[u8]]) -> Vec<Line> {
    let mut framer = Framer::default();
    let mut out = vec![];
    for piece in pieces {
        out.extend(framer.push(piece));
    }
    out.extend(framer.finish());
    out
}

#[test]
fn pieces_of_a_stream_do_not_matter() {
    let whole = lines(&[b"one\ntwo\r\nthree"]);
    let parts = lines(&[b"o", b"ne\nt", b"wo\r", b"\nthr", b"ee"]);
    assert_eq!(whole.len(), 3);
    assert_eq!(whole.len(), parts.len());
    for (a, b) in whole.iter().zip(&parts) {
        assert_eq!(a.bytes, b.bytes);
        assert_eq!(a.truncated, b.truncated);
    }
    let long = lines(&[&vec![b'x'; MAX_LINE + 5], b"\nnext\n"]);
    assert_eq!(long.len(), 2);
    assert!(long[0].truncated && long[0].bytes.len() <= MAX_LINE);
    assert_eq!(long[1].bytes, b"next\n");
}

#[test]
fn private_lines_leave_only_a_mark() {
    let mut p = Parser::new(Source::new());
    p.feed(Line {
        bytes: b"private-fixture".to_vec(),
        truncated: false,
        private: true,
    });
    let e = p.flush();
    assert!(e.map_or(true, |e| !e.text.contains("private-fixture")));
}

#[test]
fn control_sequences_never_reach_the_terminal() {
    assert_eq!(strip_ansi("\x1b[31mred\x1b[0m"), "red");
    assert_eq!(console("a\tb\x07c"), "a b c");
    assert!(!console("x\x1b]52;c;injected\x07y").contains("injected"));
}

#[test]
fn baseline_rules_look_for_failures() {
    assert!(baseline("ERROR connection refused").important);
    assert!(!baseline("INFO ready").important);
    assert!(baseline("GET / HTTP/1.1\" 503").important);
}

#[test]
fn texts_are_cut_at_characters() {
    assert_eq!(text::truncated("aé", 2), "a");
    assert_eq!(text::truncated("aé", 3), "aé");
    assert_eq!(text::trim(" \u{a0}x y\t"), "x y");
    assert_eq!(text::split_words(" a  b "), ["a", "b"]);
    assert_eq!(text::decimal_text(18446744073709551615), "18446744073709551615");
    assert_eq!(text::signed_decimal_text(i64::MIN), "-9223372036854775808");
    assert_eq!(text::parse_unsigned("+12", 20), Some(12));
    assert_eq!(text::parse_unsigned("21", 20), None);
    assert_eq!(text::parse_signed("-9223372036854775808"), Some(i64::MIN));
    assert_eq!(text::parse_signed("9223372036854775808"), None);
    assert_eq!(text::split_text_lines("a\r\nb\n\nc\r"), ["a", "b", "", "c\r"]);
    assert_eq!(text::leading_line("a\r\nb"), "a");
    assert_eq!(text::leading_line("a\r"), "a\r");
    assert_eq!(text::ascii_lowercase("AbÉ"), "abÉ");
    assert!(text::sorts_before("B", "a") && !text::sorts_before("a", "a"));
    assert_eq!(text::hex_text(&vec![0, 255, 16]), "00ff10");
}

#[test]
fn json_texts_read_back() {
    let v = json::parse(br#"{"b":[1,-2,0.5,true,null,"x\"\n\u00e9"],"a":{},"c":[[],[{"k":[1]}]]}"#).unwrap();
    assert_eq!(
        v.text(),
        "{\"a\":{},\"b\":[1,-2,0.5,true,null,\"x\\\"\\n\u{e9}\"],\"c\":[[],[{\"k\":[1]}]]}"
    );
    assert_eq!(
        v.pretty_text(),
        serde_json::to_string_pretty(
            &serde_json::from_str::<serde_json::Value>(&v.text()).unwrap()
        )
        .unwrap()
    );
    assert!(json::parse(b"{").is_none());
    let mut t = Source::new();
    t.insert("z", json::unsigned(1));
    t.insert("a", json::signed(-1));
    t.insert("z", json::unsigned(2));
    assert_eq!(t.json().text(), "{\"a\":-1,\"z\":2}");
    assert_eq!(t.get("z").unwrap().text(), "2");
    assert!(t.get("q").is_none());
    assert_eq!(hash(&json::string("a")).len(), hash(&json::string("b")).len());
    assert_ne!(hash(&json::string("a")), hash(&json::string("b")));
}

#[test]
fn identities_follow_from_the_evidence() {
    let a = parse(b"2026-09-20T12:00:00Z ERROR one\n2026-09-20T12:00:00Z ERROR one\n");
    let b = parse(b"2026-09-20T12:00:00Z ERROR one\n2026-09-20T12:00:01Z ERROR one\n");
    assert_eq!(a[0].id, b[0].id);
    assert_ne!(a[0].id, a[1].id);
    assert_ne!(a[1].id, b[1].id);
}

#[test]
fn damaged_bytes_are_shown_as_such() {
    assert_eq!(parse(b"ERROR \xff\xc3\xa9\n")[0].text, "ERROR \u{fffd}\u{e9}");
}

#[test]
fn text_for_a_terminal_is_settled() {
    let shown = console("\x1b[31mred\x1b[0m\u{85}\x7fx\x1b");
    assert_eq!(shown, "red  x ");
    assert_eq!(console(&shown), shown);
    let plain = "a\r\n\u{e9}\u{9f}b";
    assert_eq!(strip_ansi(plain), plain);
    assert_eq!(console(plain), "a  \u{e9} b");
}

#[test]
fn events_of_a_run_follow_one_another() {
    let mut parser = Parser::new(Source::new());
    let line = |s: &str, truncated: bool| Line {
        bytes: s.as_bytes().to_vec(),
        truncated,
        private: false,
    };
    let mut events: Vec<Event> = vec![];
    events.extend(parser.feed(line("ERROR one", false)));
    events.extend(parser.feed(line("    at a", true)));
    events.extend(parser.feed(line("", false)));
    events.extend(parser.feed(line("INFO two", false)));
    events.extend(parser.flush());
    events.extend(parser.feed(line(&"x".repeat(MAX_EVENT + 1), false)));
    events.extend(parser.feed(Line {
        bytes: b"secret".to_vec(),
        truncated: false,
        private: true,
    }));
    events.extend(parser.flush());
    events.extend(parser.flush());
    for pair in events.windows(2) {
        assert!(pair[0].line_end < pair[1].line_start);
    }
    for e in &events {
        assert!(1 <= e.line_start && e.line_start <= e.line_end);
        assert!(1 <= e.line_count && e.line_count <= e.line_end - e.line_start + 1);
        assert!(e.text.len() <= MAX_EVENT);
        assert!(!e.text.contains("secret"));
    }
    assert_eq!(events[0].text, "ERROR one\n    at a");
    assert!(events[0].truncated);
    assert_eq!(events[1].text, "INFO two");
    assert!(!events[1].truncated);
    assert!(events[2].truncated);
    assert_eq!(events.last().unwrap().text, "[REDACTED PRIVATE KEY]");
}

#[test]
fn json_texts_tell_values_apart() {
    let values = [
        "null", "true", "false", "0", "-1", "1.5", "1e300", "\"\"", "\"1\"", "\"\\\"\"", "\"\\u0001\"",
        "\"\\\\u0001\"", "[]", "[[]]", "[1,2]", "[12]", "[\"1,2\"]", "{}", "{\"a\":1}", "{\"a\":\"1\"}",
        "{\"a\":1,\"b\":2}", "[{\"a\":1},2]",
    ];
    for (i, a) in values.iter().enumerate() {
        for (j, b) in values.iter().enumerate() {
            let a = json::parse(a.as_bytes()).unwrap();
            let b = json::parse(b.as_bytes()).unwrap();
            assert_eq!(a.text() == b.text(), i == j);
            assert_eq!(hash(&a) == hash(&b), i == j);
        }
    }
}

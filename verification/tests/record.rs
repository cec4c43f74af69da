use event_collector::event::InvokeEvent;
use event_collector::frame::{frame, unframe};
use event_collector::json::read_string;
use event_collector::record::CustomEvent;

fn record(deadline_ms: u64, request_id: &str, arn: &str) -> CustomEvent {
    CustomEvent {
        deadline_ms,
        request_id: request_id.to_string(),
        invoked_function_arn: arn.to_string(),
    }
}

fn serde_fields(body: &[u8]) -> (u64, String, String) {
    let value: serde_json::Value = serde_json::from_slice(body).unwrap();
    let fields = value.as_object().unwrap();
    assert_eq!(fields.len(), 3);
    (
        fields.get("deadline_ms").and_then(|v| v.as_u64()).unwrap(),
        fields.get("request_id").and_then(|v| v.as_str()).unwrap().to_string(),
        fields.get("invoked_function_arn").and_then(|v| v.as_str()).unwrap().to_string(),
    )
}

fn expected_token(text: &str) -> Vec<u8> {
    let mut out = vec![b'"'];
    for &byte in text.as_bytes() {
        match byte {
            b'"' => out.extend_from_slice(b"\\\""),
            b'\\' => out.extend_from_slice(b"\\\\"),
            0x08 => out.extend_from_slice(b"\\b"),
            0x09 => out.extend_from_slice(b"\\t"),
            0x0a => out.extend_from_slice(b"\\n"),
            0x0c => out.extend_from_slice(b"\\f"),
            0x0d => out.extend_from_slice(b"\\r"),
            low if low < 0x20 => out.extend_from_slice(format!("\\u{:04x}", low).as_bytes()),
            other => out.push(other),
        }
    }
    out.push(b'"');
    out
}

#[test]
fn every_character_is_written_as_the_escape_table_says() {
    let mut texts: Vec<String> = (0u32..=0x24f).filter_map(char::from_u32).map(String::from).collect();
    texts.push("\u{7ff}\u{800}\u{ffff}\u{10000}\u{10ffff}".to_string());
    texts.push("mixed \"quotes\" and \\ and \u{1b}[0m and \u{e9}".to_string());
    for text in texts {
        let body = record(3, &text, &text).to_json().unwrap();
        let token = expected_token(&text);
        assert_eq!(body, frame(3, &token, &token), "{:?}", text);
        assert_eq!(read_string(&token), Some(text.clone()));
        assert_eq!(CustomEvent::from_json(&body), Some(record(3, &text, &text)));
    }
}

#[test]
fn read_string_reads_what_serde_json_reads() {
    assert_eq!(read_string(b"\"a\\u0041\\n\""), Some("aA\n".to_string()));
    assert_eq!(read_string(b"\"\\/\""), Some("/".to_string()));
    assert_eq!(read_string(b"\"\""), Some(String::new()));
    assert_eq!(read_string(b"\"\\x\""), None);
    assert_eq!(read_string(b"\"\n\""), None);
    assert_eq!(read_string(b"\"\xff\""), None);
    assert_eq!(read_string(b"\"open"), None);
    assert_eq!(read_string(b"12"), None);
    assert_eq!(read_string(b""), None);
}

#[test]
fn from_keeps_the_three_fields() {
    let event = InvokeEvent {
        deadline_ms: 1700000000000,
        request_id: "abc-123".to_string(),
        invoked_function_arn: "arn:aws:lambda:us-east-1:123:function:myFn".to_string(),
    };
    assert_eq!(
        CustomEvent::from(event),
        record(1700000000000, "abc-123", "arn:aws:lambda:us-east-1:123:function:myFn")
    );
}

#[test]
fn to_json_writes_the_canonical_object() {
    let body = record(1700000000000, "abc-123", "arn:aws:lambda:us-east-1:123:function:myFn")
        .to_json()
        .unwrap();
    assert_eq!(
        body,
        b"{\"deadline_ms\":1700000000000,\"request_id\":\"abc-123\",\"invoked_function_arn\":\"arn:aws:lambda:us-east-1:123:function:myFn\"}".to_vec()
    );
}

#[test]
fn to_json_escapes_what_json_reserves() {
    let body = record(0, "a\"b\\c", "line\nbreak\ttab\u{1}").to_json().unwrap();
    assert_eq!(
        String::from_utf8(body).unwrap(),
        "{\"deadline_ms\":0,\"request_id\":\"a\\\"b\\\\c\",\"invoked_function_arn\":\"line\\nbreak\\ttab\\u0001\"}"
    );
}

#[test]
fn round_trip_gives_the_record_back() {
    let cases = [
        record(1700000000000, "abc-123", "arn:aws:lambda:us-east-1:123:function:myFn"),
        record(0, "", ""),
        record(u64::MAX, "\"", "\\"),
        record(9, "\\\"", "ends with a backslash\\"),
        record(10, "quote\" inside", "\u{0}\u{1f}\u{7f}"),
        record(42, "\",\"invoked_function_arn\":\"x\"}", "}"),
        record(7, "gr\u{fc}\u{df}e \u{4e16}\u{754c} \u{1f600}", "\r\n\t\u{8}\u{c}"),
    ];
    for case in cases {
        let body = case.to_json().unwrap();
        assert_eq!(CustomEvent::from_json(&body), Some(case.clone()));
        assert_eq!(
            serde_fields(&body),
            (case.deadline_ms, case.request_id.clone(), case.invoked_function_arn.clone())
        );
    }
}

#[test]
fn from_json_reads_escapes() {
    let body = b"{\"deadline_ms\":5,\"request_id\":\"a\\u0041\\n\",\"invoked_function_arn\":\"\\/\"}";
    assert_eq!(CustomEvent::from_json(body), Some(record(5, "aA\n", "/")));
}

#[test]
fn from_json_refuses_what_is_not_the_canonical_object() {
    let refused: [&[u8]; 14] = [
        b"",
        b"{}",
        b"{\"deadline_ms\":5,\"request_id\":\"a\",\"invoked_function_arn\":\"b\"} ",
        b" {\"deadline_ms\":5,\"request_id\":\"a\",\"invoked_function_arn\":\"b\"}",
        b"{\"deadline_ms\": 5,\"request_id\":\"a\",\"invoked_function_arn\":\"b\"}",
        b"{\"deadline_ms\":05,\"request_id\":\"a\",\"invoked_function_arn\":\"b\"}",
        b"{\"deadline_ms\":,\"request_id\":\"a\",\"invoked_function_arn\":\"b\"}",
        b"{\"deadline_ms\":-5,\"request_id\":\"a\",\"invoked_function_arn\":\"b\"}",
        b"{\"deadline_ms\":18446744073709551616,\"request_id\":\"a\",\"invoked_function_arn\":\"b\"}",
        b"{\"request_id\":\"a\",\"deadline_ms\":5,\"invoked_function_arn\":\"b\"}",
        b"{\"deadline_ms\":5,\"request_id\":\"a\",\"invoked_function_arn\":\"b\"",
        b"{\"deadline_ms\":5,\"request_id\":\"a\",\"invoked_function_arn\":\"b}",
        b"{\"deadline_ms\":5,\"request_id\":a,\"invoked_function_arn\":\"b\"}",
        b"{\"deadline_ms\":5,\"request_id\":\"a\",\"invoked_function_arn\":\"b\",\"more\":1}",
    ];
    for body in refused {
        assert_eq!(CustomEvent::from_json(body), None, "{}", String::from_utf8_lossy(body));
    }
}

#[test]
fn from_json_refuses_strings_that_serde_json_refuses() {
    let bad_escape = b"{\"deadline_ms\":5,\"request_id\":\"\\x\",\"invoked_function_arn\":\"b\"}";
    assert_eq!(CustomEvent::from_json(bad_escape), None);
    let raw_control = b"{\"deadline_ms\":5,\"request_id\":\"a\",\"invoked_function_arn\":\"\n\"}";
    assert_eq!(CustomEvent::from_json(raw_control), None);
    let bad_utf8 = b"{\"deadline_ms\":5,\"request_id\":\"\xff\",\"invoked_function_arn\":\"b\"}";
    assert_eq!(CustomEvent::from_json(bad_utf8), None);
}

#[test]
fn from_json_reads_the_largest_deadline() {
    let body = b"{\"deadline_ms\":18446744073709551615,\"request_id\":\"a\",\"invoked_function_arn\":\"b\"}";
    assert_eq!(CustomEvent::from_json(body), Some(record(u64::MAX, "a", "b")));
}

#[test]
fn assemble_frames_two_tokens() {
    let body = CustomEvent::assemble(12, Ok(b"\"x\"".to_vec()), Ok(b"\"y\"".to_vec())).unwrap();
    assert_eq!(
        body,
        b"{\"deadline_ms\":12,\"request_id\":\"x\",\"invoked_function_arn\":\"y\"}".to_vec()
    );
}

#[test]
fn assemble_fails_with_the_first_error() {
    let first = serde_json::from_str::<String>("1").unwrap_err();
    let first_text = first.to_string();
    let second = serde_json::from_str::<String>("[").unwrap_err();
    let second_text = second.to_string();
    assert_ne!(first_text, second_text);

    let failed = CustomEvent::assemble(12, Err(first), Err(second)).unwrap_err();
    assert_eq!(failed.source.to_string(), first_text);

    let second = serde_json::from_str::<String>("[").unwrap_err();
    let failed = CustomEvent::assemble(12, Ok(b"\"x\"".to_vec()), Err(second)).unwrap_err();
    assert_eq!(failed.source.to_string(), second_text);

    let first = serde_json::from_str::<String>("1").unwrap_err();
    let failed = CustomEvent::assemble(12, Err(first), Ok(b"\"y\"".to_vec())).unwrap_err();
    assert_eq!(failed.source.to_string(), first_text);
}

#[test]
fn frame_and_unframe_are_inverse_on_tokens() {
    let first: &[u8] = b"\"a\\\"b\"";
    let second: &[u8] = b"\"\"";
    let body = frame(1700000000000, first, second);
    assert_eq!(
        body,
        b"{\"deadline_ms\":1700000000000,\"request_id\":\"a\\\"b\",\"invoked_function_arn\":\"\"}".to_vec()
    );
    assert_eq!(unframe(&body), Some((1700000000000, first, second)));
}

#[test]
fn unframe_stops_each_token_at_its_first_unescaped_quote() {
    let body = b"{\"deadline_ms\":1,\"request_id\":\"\\\\\",\"invoked_function_arn\":\"\\\\\\\"\"}";
    let first: &[u8] = b"\"\\\\\"";
    let second: &[u8] = b"\"\\\\\\\"\"";
    assert_eq!(unframe(body), Some((1, first, second)));
}

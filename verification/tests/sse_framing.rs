use agency::providers::sse::{classify_line, SseBuffer, SseLine, SseReader};

#[test]
fn lines_are_split_at_newlines_and_lose_carriage_returns() {
    let mut b = SseBuffer::new();
    b.push_str("data: one\r\ndata: tw");
    assert_eq!(b.next_line().as_deref(), Some("data: one"));
    assert_eq!(b.next_line(), None);
    b.push_str("o\n\n");
    assert_eq!(b.next_line().as_deref(), Some("data: two"));
    assert_eq!(b.next_line().as_deref(), Some(""));
    assert_eq!(b.next_line(), None);
}

#[test]
fn bytes_are_decoded_as_utf8() {
    let mut b = SseBuffer::new();
    b.push_bytes("héllo\n".as_bytes());
    assert_eq!(b.next_line().as_deref(), Some("héllo"));
}

#[test]
fn invalid_bytes_become_replacement_characters() {
    let mut b = SseBuffer::new();
    b.push_bytes(&[b'a', 0xff, b'b', b'\n']);
    assert_eq!(b.next_line().as_deref(), Some("a\u{FFFD}b"));
}

#[test]
fn a_split_multibyte_character_is_replaced_per_chunk() {
    let bytes = "é\n".as_bytes();
    let mut b = SseBuffer::new();
    b.push_bytes(&bytes[..1]);
    b.push_bytes(&bytes[1..]);
    assert_eq!(b.next_line().as_deref(), Some("\u{FFFD}\u{FFFD}"));
}

#[test]
fn classify_data_done_and_other_lines() {
    match classify_line("data: {\"a\":1}") {
        SseLine::Data(d) => assert_eq!(d, "{\"a\":1}"),
        _ => panic!("data expected"),
    }
    assert!(matches!(classify_line("data: [DONE]"), SseLine::Done));
    assert!(matches!(classify_line(": keep-alive"), SseLine::Ignored));
    assert!(matches!(classify_line("data:{}"), SseLine::Ignored));
    assert!(matches!(classify_line(""), SseLine::Ignored));
    match classify_line("data: ") {
        SseLine::Data(d) => assert_eq!(d, ""),
        _ => panic!("empty payload expected"),
    }
}

fn payloads_of(body: &str) -> (Vec<String>, bool) {
    let mut b = SseBuffer::new();
    b.push_str(body);
    b.take_payloads()
}

#[test]
fn take_payloads_stops_at_done() {
    let mut b = SseBuffer::new();
    b.push_str(": ping\ndata: {\"a\":1}\n\ndata: [DONE]\ndata: late\npartial");
    let (payloads, done) = b.take_payloads();
    assert_eq!(payloads, vec!["{\"a\":1}".to_string()]);
    assert!(done);
    assert_eq!(b.next_line().as_deref(), Some("data: late"));
}

#[test]
fn take_payloads_keeps_the_incomplete_tail() {
    let mut b = SseBuffer::new();
    b.push_str("data: x\ndata: y");
    let (payloads, done) = b.take_payloads();
    assert_eq!(payloads, vec!["x".to_string()]);
    assert!(!done);
    b.push_str("\n");
    assert_eq!(b.take_payloads(), (vec!["y".to_string()], false));
}

#[test]
fn crlf_line_ends_yield_the_same_payloads() {
    let body = "data: one\n\nevent: m\ndata: two\ndata: [DONE]\n";
    assert_eq!(payloads_of(body), payloads_of(&body.replace('\n', "\r\n")));
}

#[test]
fn inserted_non_data_lines_change_nothing() {
    let body = "data: one\ndata: two\ndata: [DONE]\n";
    let with_extra = "data: one\n: ping\n\nevent: message\ndata:{}\ndata: two\ndata: [DONE]\n";
    assert_eq!(payloads_of(body), payloads_of(with_extra));
}

#[test]
fn reading_in_chunks_matches_reading_at_once() {
    let body = "data: alpha\r\ndata: beta\n\ndata: [DONE]\ndata: after\n";
    let mut whole = SseReader::new();
    let all = whole.feed(body.as_bytes());
    assert!(whole.is_done());
    for split in 0..body.len() {
        let mut r = SseReader::new();
        let mut got = r.feed(&body.as_bytes()[..split]);
        got.extend(r.feed(&body.as_bytes()[split..]));
        assert_eq!(got, all, "split at {split}");
        assert!(r.is_done());
    }
    assert_eq!(all, vec!["alpha".to_string(), "beta".to_string()]);
}

#[test]
fn a_reader_ignores_chunks_after_done() {
    let mut r = SseReader::new();
    assert!(r.feed(b"data: [DONE]\n").is_empty());
    assert!(r.is_done());
    assert!(r.feed(b"data: more\n").is_empty());
}

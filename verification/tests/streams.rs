use anthropic_proxy::progress::{has_content, Delta, Progress};
use anthropic_proxy::sse::{serialize_event, stream_response_headers, EventReader, StreamItem};

fn shown(items: Vec<StreamItem>) -> Vec<String> {
    items
        .into_iter()
        .map(|item| match item {
            StreamItem::Data(data) => format!("data {}", data),
            StreamItem::Done => "done".to_string(),
            StreamItem::Failed(message) => format!("failed {}", message),
        })
        .collect()
}

const STREAM: &str = "data: {\"a\":1}\n\n: comment\n\nevent: x\r\ndata: two\r\ndata: three\n\n\n\ndata:none\n\ndata:  [DONE] \n\ndata: late\n\ndata: cut";

#[test]
fn events_are_read_out_of_a_stream() {
    let mut reader = EventReader::new();
    assert_eq!(
        shown(reader.push_text(STREAM)),
        vec!["data {\"a\":1}", "data two", "data three", "done", "data late"]
    );
    assert_eq!(shown(reader.push_text("!\n\n")), vec!["data cut!"]);
}

#[test]
fn chunks_of_any_size_give_the_same_events() {
    let mut whole = EventReader::new();
    let expected = shown(whole.push_bytes(STREAM.as_bytes()));
    for size in 1..STREAM.len() {
        let mut reader = EventReader::new();
        let mut found = Vec::new();
        for chunk in STREAM.as_bytes().chunks(size) {
            found.extend(shown(reader.push_bytes(chunk)));
        }
        assert_eq!(found, expected);
    }
}

#[test]
fn bytes_that_are_no_text_are_replaced() {
    let mut reader = EventReader::new();
    assert_eq!(shown(reader.push_bytes(b"data: \xffx\n\n")), vec!["data \u{fffd}x"]);
    assert_eq!(shown(reader.push_bytes("data: é\n\n".as_bytes())), vec!["data é"]);
}

#[test]
fn a_cut_through_a_character_is_seen() {
    let bytes = "data: é\n\n".as_bytes();
    let mut reader = EventReader::new();
    assert!(reader.push_bytes(&bytes[..7]).is_empty());
    assert_eq!(shown(reader.push_bytes(&bytes[7..])), vec!["data \u{fffd}\u{fffd}"]);
}

#[test]
fn a_broken_stream_ends() {
    let mut reader = EventReader::new();
    assert_eq!(shown(reader.push_text("data: a\n\ndata: b")), vec!["data a"]);
    assert!(!reader.has_ended());
    assert_eq!(shown(reader.fail("test error")), vec!["failed Stream error: test error"]);
    assert!(reader.has_ended());
    assert!(reader.push_text("\n\ndata: c\n\n").is_empty());
    assert!(reader.fail("again").is_empty());
}

#[test]
fn written_events_are_read_back() {
    let frame = serialize_event("message_stop", "{\"type\":\"message_stop\"}");
    assert_eq!(frame, "event: message_stop\ndata: {\"type\":\"message_stop\"}\n\n");
    let mut reader = EventReader::new();
    assert_eq!(shown(reader.push_text(&frame)), vec!["data {\"type\":\"message_stop\"}"]);
}

#[test]
fn split_frames_are_put_together() {
    let frame = "data: {\"id\":\"chatcmpl-7\"}\n\n";
    let mid = frame.len() / 2;
    let mut reader = EventReader::new();
    assert!(reader.push_text(&frame[..mid]).is_empty());
    let rest = format!("{}data: [DONE]\n\n", &frame[mid..]);
    assert_eq!(shown(reader.push_text(&rest)), vec!["data {\"id\":\"chatcmpl-7\"}", "done"]);
}

#[test]
fn streams_are_announced() {
    assert_eq!(
        stream_response_headers(),
        vec![
            ("Content-Type".to_string(), "text/event-stream".to_string()),
            ("Cache-Control".to_string(), "no-cache".to_string()),
            ("Connection".to_string(), "keep-alive".to_string()),
        ]
    );
}

fn delta(content: Option<&str>, reasoning: Option<&str>, tool_calls: Option<usize>) -> Delta {
    Delta {
        content: content.map(|c| c.to_string()),
        reasoning: reasoning.map(|r| r.to_string()),
        tool_calls,
    }
}

#[test]
fn content_is_text_reasoning_or_a_tool_call() {
    assert!(!has_content(&vec![]));
    assert!(!has_content(&vec![delta(None, None, None), delta(Some(""), Some(""), Some(0))]));
    assert!(has_content(&vec![delta(None, None, None), delta(Some("a"), None, None)]));
    assert!(has_content(&vec![delta(None, Some("a"), None)]));
    assert!(has_content(&vec![delta(None, None, Some(1))]));
}

#[test]
fn the_first_content_is_seen_once() {
    let mut progress = Progress::new();
    assert!(!progress.chunk(&vec![delta(Some(""), None, None)], false));
    assert!(progress.chunk(&vec![delta(Some("a"), None, None)], false));
    assert!(!progress.chunk(&vec![delta(Some("b"), None, None)], true));
    assert!(!progress.chunk(&vec![], false));
    assert_eq!(progress, Progress { started: true, counted: true });
}

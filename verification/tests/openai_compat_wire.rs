use agency::message::{ContentBlock, ImageData, Message, Role};
use agency::providers::openai_compat::{
    chat_messages, chunk_events, data_url, oai_content, role_str, stop_reason_for, text_content,
    ChatChunk, ChunkChoice, Delta, OaiContent, OaiPart, OpenAICompatProvider, UsageData,
};
use agency::stream::{StopReason, StreamEvent};

fn text(t: &str) -> ContentBlock {
    ContentBlock::Text { text: t.to_string() }
}

#[test]
fn role_names() {
    assert_eq!(role_str(Role::System), "system");
    assert_eq!(role_str(Role::User), "user");
    assert_eq!(role_str(Role::Assistant), "assistant");
    assert_eq!(role_str(Role::Tool), "tool");
}

#[test]
fn text_content_joins_text_blocks_in_order() {
    let msg = Message {
        role: Role::User,
        content: vec![
            text("Hello, "),
            ContentBlock::ToolResult { tool_use_id: "t1".into(), content: "ignored".into() },
            text("world"),
        ],
    };
    assert_eq!(text_content(&msg), "Hello, world");
    let empty = Message { role: Role::User, content: vec![] };
    assert_eq!(text_content(&empty), "");
}

#[test]
fn data_url_forms() {
    assert_eq!(data_url("image/png", &ImageData::Base64("QUJD".into())), "data:image/png;base64,QUJD");
    assert_eq!(data_url("image/png", &ImageData::Url("https://x/y.png".into())), "https://x/y.png");
}

#[test]
fn plain_text_message_is_a_bare_string() {
    let msg = Message { role: Role::User, content: vec![text("a"), text("b")] };
    match oai_content(&msg) {
        OaiContent::Text(s) => assert_eq!(s, "ab"),
        OaiContent::Parts(_) => panic!("expected a bare string"),
    }
}

#[test]
fn media_message_uses_parts_in_order() {
    let msg = Message {
        role: Role::User,
        content: vec![
            ContentBlock::Image { media_type: "image/png".into(), data: ImageData::Base64("AAAA".into()) },
            ContentBlock::ToolUse { id: "1".into(), name: "n".into(), input: "{}".into() },
            ContentBlock::File {
                name: "doc.pdf".into(),
                media_type: "application/pdf".into(),
                data: ImageData::Base64("UERG".into()),
            },
            ContentBlock::Audio { format: "wav".into(), data: "UklG".into() },
            text("describe"),
        ],
    };
    let parts = match oai_content(&msg) {
        OaiContent::Parts(p) => p,
        OaiContent::Text(_) => panic!("expected parts"),
    };
    assert_eq!(parts.len(), 4);
    match &parts[0] {
        OaiPart::ImageUrl { image_url } => assert_eq!(image_url.url, "data:image/png;base64,AAAA"),
        _ => panic!("image part expected"),
    }
    match &parts[1] {
        OaiPart::File { file } => {
            assert_eq!(file.filename, "doc.pdf");
            assert_eq!(file.file_data, "data:application/pdf;base64,UERG");
        }
        _ => panic!("file part expected"),
    }
    match &parts[2] {
        OaiPart::InputAudio { input_audio } => {
            assert_eq!(input_audio.data, "UklG");
            assert_eq!(input_audio.format, "wav");
        }
        _ => panic!("audio part expected"),
    }
    match &parts[3] {
        OaiPart::Text { text } => assert_eq!(text, "describe"),
        _ => panic!("text part expected"),
    }
}

#[test]
fn chat_messages_put_system_first() {
    let history = vec![
        Message { role: Role::User, content: vec![text("hi")] },
        Message { role: Role::Assistant, content: vec![text("hello")] },
    ];
    let with_system = chat_messages(&Some("be brief".to_string()), &history);
    assert_eq!(with_system.len(), 3);
    assert_eq!(with_system[0].role, "system");
    match &with_system[0].content {
        OaiContent::Text(s) => assert_eq!(s, "be brief"),
        _ => panic!(),
    }
    assert_eq!(with_system[1].role, "user");
    assert_eq!(with_system[2].role, "assistant");
    let without = chat_messages(&None, &history);
    assert_eq!(without.len(), 2);
    assert_eq!(without[0].role, "user");
}

#[test]
fn finish_reasons_map_to_stop_reasons() {
    assert_eq!(stop_reason_for(&"stop".to_string()), StopReason::EndTurn);
    assert_eq!(stop_reason_for(&"tool_calls".to_string()), StopReason::ToolUse);
    assert_eq!(stop_reason_for(&"length".to_string()), StopReason::MaxTokens);
    assert_eq!(stop_reason_for(&"content_filter".to_string()), StopReason::Other("content_filter".into()));
}

#[test]
fn chunk_events_in_order_with_usage_last() {
    let chunk = ChatChunk {
        choices: vec![
            ChunkChoice { delta: Delta { content: Some("Hel".into()) }, finish_reason: None },
            ChunkChoice { delta: Delta { content: Some(String::new()) }, finish_reason: Some("stop".into()) },
        ],
        usage: Some(UsageData { prompt_tokens: 7, completion_tokens: 3 }),
    };
    let events = chunk_events(&chunk);
    assert_eq!(events.len(), 3);
    match &events[0] {
        StreamEvent::TextDelta(t) => assert_eq!(t, "Hel"),
        _ => panic!(),
    }
    match &events[1] {
        StreamEvent::MessageEnd { stop_reason } => assert_eq!(*stop_reason, StopReason::EndTurn),
        _ => panic!(),
    }
    match &events[2] {
        StreamEvent::Usage { input_tokens, output_tokens } => {
            assert_eq!(*input_tokens, 7);
            assert_eq!(*output_tokens, 3);
        }
        _ => panic!(),
    }
}

#[test]
fn empty_chunk_yields_nothing() {
    let chunk = ChatChunk { choices: vec![], usage: None };
    assert!(chunk_events(&chunk).is_empty());
}

#[test]
fn provider_trims_base_url_and_builds_endpoint() {
    let p = OpenAICompatProvider::new("http://localhost:1234/v1//", Some("k".into())).unwrap();
    assert_eq!(p.base_url(), "http://localhost:1234/v1");
    assert_eq!(p.chat_url(), "http://localhost:1234/v1/chat/completions");
    assert_eq!(p.api_key(), &Some("k".to_string()));
    assert_eq!(p.name(), "openai_compat");
    let again = OpenAICompatProvider::new(p.base_url(), None).unwrap();
    assert_eq!(again.base_url(), p.base_url());
    assert_eq!(again.api_key(), &None);
}

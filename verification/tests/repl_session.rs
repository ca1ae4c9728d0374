use agency::providers::openai_compat::{chat_messages, OaiContent};
use agency::message::{ContentBlock, Conversation, Message, Role};
use agency::repl::{absorb_event, parse_command, parse_input, Command, Input, ReplState};
use agency::stream::{StopReason, StreamEvent};

#[test]
fn commands_are_recognised() {
    assert!(matches!(parse_command("/clear"), Command::Clear));
    assert!(matches!(parse_command("/quit"), Command::Quit));
    assert!(matches!(parse_command("/exit"), Command::Quit));
    assert!(matches!(parse_command("/help"), Command::Help));
    assert!(matches!(parse_command("/attach"), Command::AttachUsage));
    assert!(matches!(parse_command("/attach   "), Command::AttachUsage));
    assert!(matches!(parse_command("/load"), Command::LoadUsage));
    match parse_command("/attach  pics/cat.png  ") {
        Command::Attach { path } => assert_eq!(path, "pics/cat.png"),
        _ => panic!(),
    }
    match parse_command("/save") {
        Command::Save { path } => assert_eq!(path, "conversation.json"),
        _ => panic!(),
    }
    match parse_command("/save chat.json") {
        Command::Save { path } => assert_eq!(path, "chat.json"),
        _ => panic!(),
    }
    match parse_command("/load chat.json") {
        Command::Load { path } => assert_eq!(path, "chat.json"),
        _ => panic!(),
    }
    match parse_command("/frobnicate now") {
        Command::Unknown { name } => assert_eq!(name, "frobnicate"),
        _ => panic!(),
    }
}

#[test]
fn input_lines_are_trimmed_and_classified() {
    assert!(matches!(parse_input("   \t"), Input::Empty));
    assert!(matches!(parse_input("  /quit  "), Input::Command(Command::Quit)));
    match parse_input("  hello there \n") {
        Input::Prompt(p) => assert_eq!(p, "hello there"),
        _ => panic!(),
    }
}

#[test]
fn a_turn_sends_pending_attachments_before_the_text() {
    let mut s = ReplState::new("http://h".into(), "m".into(), None);
    s.attach(ContentBlock::Audio { format: "wav".into(), data: "AA==".into() });
    s.begin_turn("what is this?");
    assert!(s.pending_attachments.is_empty());
    assert_eq!(s.conversation.messages.len(), 1);
    let m = &s.conversation.messages[0];
    assert_eq!(m.role, Role::User);
    assert_eq!(m.content.len(), 2);
    assert!(matches!(&m.content[0], ContentBlock::Audio { .. }));
    match &m.content[1] {
        ContentBlock::Text { text } => assert_eq!(text, "what is this?"),
        _ => panic!(),
    }
    s.finish_turn("a sound".to_string());
    assert_eq!(s.conversation.messages.len(), 2);
    assert_eq!(s.conversation.messages[1].role, Role::Assistant);
    s.finish_turn(String::new());
    assert_eq!(s.conversation.messages.len(), 2);
}

#[test]
fn clear_forgets_history_and_attachments() {
    let mut s = ReplState::new("u".into(), "m".into(), Some("sys".into()));
    s.begin_turn("hi");
    s.attach(ContentBlock::Text { text: "x".into() });
    s.clear();
    assert!(s.conversation.messages.is_empty());
    assert!(s.pending_attachments.is_empty());
    assert_eq!(s.system.as_deref(), Some("sys"));
}

#[test]
fn load_replaces_the_conversation() {
    let mut s = ReplState::new("u".into(), "m".into(), None);
    s.begin_turn("old");
    let mut c = Conversation::new();
    c.push(Message { role: Role::User, content: vec![] });
    c.push(Message { role: Role::Assistant, content: vec![] });
    s.load(c);
    assert_eq!(s.conversation.len(), 2);
}

#[test]
fn reply_accumulates_until_the_message_ends() {
    let mut reply = String::new();
    assert!(!absorb_event(&mut reply, &StreamEvent::TextDelta("Hel".into())));
    assert!(!absorb_event(&mut reply, &StreamEvent::Usage { input_tokens: 1, output_tokens: 2 }));
    assert!(!absorb_event(&mut reply, &StreamEvent::TextDelta("lo".into())));
    assert!(absorb_event(&mut reply, &StreamEvent::MessageEnd { stop_reason: StopReason::EndTurn }));
    assert_eq!(reply, "Hello");
}

#[test]
fn each_request_carries_the_whole_history_with_the_new_message_last() {
    let mut s = ReplState::new("u".into(), "m".into(), Some("sys".into()));
    s.begin_turn("first");
    s.finish_turn("reply".to_string());
    s.begin_turn("second");
    let wire = chat_messages(&s.system, &s.conversation.messages);
    assert_eq!(wire.len(), 4);
    let roles: Vec<&str> = wire.iter().map(|m| m.role).collect();
    assert_eq!(roles, vec!["system", "user", "assistant", "user"]);
    match &wire[3].content {
        OaiContent::Text(t) => assert_eq!(t, "second"),
        _ => panic!(),
    }
}

fn run_reply(events: &[StreamEvent]) -> (String, bool) {
    let mut reply = String::new();
    for e in events {
        if absorb_event(&mut reply, e) {
            return (reply, true);
        }
    }
    (reply, false)
}

#[test]
fn events_after_the_end_and_non_text_events_change_nothing() {
    let end = || StreamEvent::MessageEnd { stop_reason: StopReason::EndTurn };
    let plain = vec![StreamEvent::TextDelta("a".into()), StreamEvent::TextDelta("b".into()), end()];
    let noisy = vec![
        StreamEvent::Usage { input_tokens: 1, output_tokens: 1 },
        StreamEvent::TextDelta("a".into()),
        StreamEvent::ToolUseStart { id: "1".into(), name: "t".into() },
        StreamEvent::ToolUseDelta { id: "1".into(), partial_json: "{".into() },
        StreamEvent::ToolUseEnd { id: "1".into() },
        StreamEvent::TextDelta("b".into()),
        end(),
        StreamEvent::TextDelta("ignored".into()),
    ];
    assert_eq!(run_reply(&plain), ("ab".to_string(), true));
    assert_eq!(run_reply(&noisy), run_reply(&plain));
}

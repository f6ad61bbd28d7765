use imp_tui::views::chat::{
    clamp_scroll_offset_to_view, format_timestamp, visible_line_window, ConversationMessage,
    wrap_styled_chars, DisplayAssistantBlock, DisplayMessage, MessageBlock, MessageRole,
};
use imp_tui::views::tools::DisplayToolCall;

fn message() -> DisplayMessage {
    DisplayMessage {
        role: MessageRole::Assistant,
        content: String::new(),
        thinking: None,
        tool_calls: Vec::new(),
        assistant_blocks: Vec::new(),
        is_streaming: true,
        timestamp: 0,
    }
}

fn tool(id: &str) -> DisplayToolCall {
    DisplayToolCall {
        id: id.into(),
        name: "read".into(),
        args_summary: "a.rs".into(),
        output: None,
        details: serde_json::Value::Null,
        is_error: false,
        expanded: false,
        streaming_lines: Vec::new(),
    }
}

#[test]
fn assistant_blocks_preserve_text_tool_text_order() {
    let mut msg = message();
    msg.push_assistant_text_delta("Let me ");
    msg.push_assistant_text_delta("look.");
    msg.push_assistant_tool_call(tool("tc-1"));
    msg.push_assistant_text_delta("");
    msg.push_assistant_text_delta("Done.");
    assert_eq!(msg.content, "Let me look.Done.");
    assert_eq!(
        msg.assistant_blocks,
        vec![
            DisplayAssistantBlock::Text("Let me look.".into()),
            DisplayAssistantBlock::ToolCall { id: "tc-1".into() },
            DisplayAssistantBlock::Text("Done.".into()),
        ]
    );
    assert_eq!(msg.tool_calls.len(), 1);
    assert!(msg.find_tool_call("tc-1").is_some());
    assert!(msg.find_tool_call("tc-2").is_none());
}

#[test]
fn scroll_window_clamps_to_text() {
    let w = visible_line_window(100, 20, 0);
    assert_eq!((w.scroll_offset, w.start, w.end), (0, 80, 100));
    let w = visible_line_window(100, 20, 30);
    assert_eq!((w.scroll_offset, w.start, w.end), (30, 50, 70));
    let w = visible_line_window(100, 20, 500);
    assert_eq!((w.scroll_offset, w.start, w.end), (80, 0, 20));
    let w = visible_line_window(5, 20, 3);
    assert_eq!((w.scroll_offset, w.start, w.end), (0, 0, 5));
    assert_eq!(clamp_scroll_offset_to_view(10, 4, 100), 6);
    assert_eq!(clamp_scroll_offset_to_view(3, 4, 100), 0);
}

#[test]
fn timestamps_show_utc_hours_and_minutes() {
    assert_eq!(format_timestamp(0), "00:00");
    assert_eq!(format_timestamp(3_600 * 13 + 60 * 7 + 59), "13:07");
    assert_eq!(format_timestamp(86_400 * 3 + 3_600 * 23 + 60 * 59), "23:59");
}

#[test]
fn user_and_tool_result_messages_show_their_text() {
    let user = ConversationMessage::User {
        content: vec![
            MessageBlock::Text("hello ".into()),
            MessageBlock::Other,
            MessageBlock::Text("there".into()),
        ],
        timestamp: 7,
    };
    let shown = DisplayMessage::from_message(&user);
    assert_eq!(shown.role, MessageRole::User);
    assert_eq!(shown.content, "hello there");
    assert_eq!(shown.timestamp, 7);
    assert!(shown.tool_calls.is_empty());

    let failed = ConversationMessage::ToolResult {
        content: vec![MessageBlock::Text("boom".into())],
        timestamp: 9,
        is_error: true,
    };
    let shown = DisplayMessage::from_message(&failed);
    assert_eq!(shown.role, MessageRole::Error);
    assert_eq!(shown.content, "boom");
    let ok = ConversationMessage::ToolResult { content: vec![], timestamp: 1, is_error: false };
    assert_eq!(DisplayMessage::from_message(&ok).role, MessageRole::System);
}

#[test]
fn assistant_messages_keep_text_thinking_and_calls_in_order() {
    let msg = ConversationMessage::Assistant {
        content: vec![
            MessageBlock::Thinking("hmm ".into()),
            MessageBlock::Text("Let me ".into()),
            MessageBlock::Text("look.".into()),
            MessageBlock::ToolCall {
                id: "c1".into(),
                name: "read".into(),
                arguments: "{\"path\":\"src/lib.rs\"}".into(),
            },
            MessageBlock::Thinking("ok".into()),
            MessageBlock::Text("Done.".into()),
        ],
        timestamp: 42,
    };
    let shown = DisplayMessage::from_message(&msg);
    assert_eq!(shown.role, MessageRole::Assistant);
    assert_eq!(shown.content, "Let me look.Done.");
    assert_eq!(shown.thinking.as_deref(), Some("hmm ok"));
    assert_eq!(shown.tool_calls.len(), 1);
    assert_eq!(shown.tool_calls[0].id, "c1");
    assert_eq!(shown.tool_calls[0].args_summary, "src/lib.rs");
    assert_eq!(shown.tool_calls[0].details["path"], "src/lib.rs");
    assert_eq!(
        shown.assistant_blocks,
        vec![
            DisplayAssistantBlock::Text("Let me look.".into()),
            DisplayAssistantBlock::ToolCall { id: "c1".into() },
            DisplayAssistantBlock::Text("Done.".into()),
        ]
    );
    assert!(!shown.is_streaming);
}

fn plain(text: &str) -> Vec<(char, ())> {
    text.chars().map(|c| (c, ())).collect()
}

fn texts(rows: &[Vec<(char, ())>]) -> Vec<String> {
    rows.iter().map(|r| r.iter().map(|(c, _)| *c).collect()).collect()
}

#[test]
fn chat_wrapping_uses_the_first_width_then_the_continuation_width() {
    let rows = wrap_styled_chars(&plain("hello world foo"), 8, 5);
    assert_eq!(texts(&rows), vec!["hello", "world", " foo"]);
    for (i, row) in rows.iter().enumerate() {
        assert!(row.len() <= if i == 0 { 8 } else { 5 });
    }
    let empty = wrap_styled_chars(&plain(""), 3, 3);
    assert_eq!(empty.len(), 1);
    assert!(empty[0].is_empty());
}

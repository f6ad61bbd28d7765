//! Chat messages as the conversation view keeps them, and the window of rendered lines
//! that a scroll position shows.

use vstd::prelude::*;
use crate::markdown::{
    copy_range, joined_rows, lemma_printable_blank, lemma_printable_concat, lemma_skip_ws, printable,
    skip_ws,
};
use crate::text::{decimal2, is_whitespace, is_ws, push_char, push_decimal2, push_str, str_eq};
use crate::views::tools::{json_value, make_args_summary, summary_for, DisplayToolCall};

verus! {

/// Role of a display message.
#[derive(Debug, Clone, Copy, PartialEq, Eq, Structural)]
pub enum MessageRole {
    User,
    Assistant,
    System,
    Compaction,
    Error,
}

/// Ordered display blocks inside an assistant message.
#[derive(Debug, Clone, PartialEq, Eq)]
pub enum DisplayAssistantBlock {
    Text(String),
    ToolCall { id: String },
}

/// A message formatted for display in the chat view.
#[derive(Debug, Clone)]
pub struct DisplayMessage {
    pub role: MessageRole,
    pub content: String,
    pub thinking: Option<String>,
    pub tool_calls: Vec<DisplayToolCall>,
    pub assistant_blocks: Vec<DisplayAssistantBlock>,
    pub is_streaming: bool,
    pub timestamp: u64,
}

/// The text of the text blocks of `bs`, in order.
pub open spec fn blocks_text(bs: Seq<DisplayAssistantBlock>) -> Seq<char>
    decreases bs.len(),
{
    if bs.len() == 0 {
        seq![]
    } else {
        blocks_text(bs.drop_last()) + match bs.last() {
            DisplayAssistantBlock::Text(t) => t@,
            DisplayAssistantBlock::ToolCall { .. } => seq![],
        }
    }
}

/// The text of a text block.
pub open spec fn block_text(b: DisplayAssistantBlock) -> Seq<char> {
    match b {
        DisplayAssistantBlock::Text(t) => t@,
        DisplayAssistantBlock::ToolCall { .. } => seq![],
    }
}

/// `after` is `before` with `text` appended to its trailing text block, or with a new
/// text block holding `text` when it does not end in one.
pub open spec fn appended_text(
    after: Seq<DisplayAssistantBlock>,
    before: Seq<DisplayAssistantBlock>,
    text: Seq<char>,
) -> bool {
    if before.len() > 0 && before.last() is Text {
        &&& after.len() == before.len()
        &&& after.drop_last() == before.drop_last()
        &&& after.last() is Text
        &&& block_text(after.last()) == block_text(before.last()) + text
    } else {
        &&& after.len() == before.len() + 1
        &&& after.drop_last() == before
        &&& after.last() is Text
        &&& block_text(after.last()) == text
    }
}

impl DisplayMessage {
    /// Appends streamed assistant text: to the content, and to the trailing text block
    /// (or a new one after a tool call). Empty text changes nothing.
    pub fn add_assistant_text_block(&mut self, text: &str)
        ensures
            text@.len() == 0 ==> *final(self) == *old(self),
            text@.len() > 0 ==> {
                &&& final(self).content@ == old(self).content@ + text@
                &&& appended_text(final(self).assistant_blocks@, old(self).assistant_blocks@, text@)
                &&& final(self).role == old(self).role
                &&& final(self).thinking == old(self).thinking
                &&& final(self).tool_calls == old(self).tool_calls
                &&& final(self).is_streaming == old(self).is_streaming
                &&& final(self).timestamp == old(self).timestamp
            },
    {
        if text.is_empty() {
            return;
        }
        push_str(&mut self.content, text);
        let n = self.assistant_blocks.len();
        let last_is_text = n > 0 && match &self.assistant_blocks[n - 1] {
            DisplayAssistantBlock::Text(_) => true,
            DisplayAssistantBlock::ToolCall { .. } => false,
        };
        let ghost before = self.assistant_blocks@;
        if last_is_text {
            let last = self.assistant_blocks.pop();
            match last {
                Some(DisplayAssistantBlock::Text(mut existing)) => {
                    push_str(&mut existing, text);
                    self.assistant_blocks.push(DisplayAssistantBlock::Text(existing));
                    assert(self.assistant_blocks@.drop_last() =~= before.drop_last());
                },
                _ => {},
            }
        } else {
            self.assistant_blocks.push(DisplayAssistantBlock::Text(text.to_owned()));
            assert(self.assistant_blocks@.drop_last() =~= before);
        }
    }

    /// Appends a streamed text delta (see `add_assistant_text_block`).
    pub fn push_assistant_text_delta(&mut self, text: &str)
        ensures
            text@.len() == 0 ==> *final(self) == *old(self),
            text@.len() > 0 ==> {
                &&& final(self).content@ == old(self).content@ + text@
                &&& appended_text(final(self).assistant_blocks@, old(self).assistant_blocks@, text@)
                &&& final(self).role == old(self).role
                &&& final(self).thinking == old(self).thinking
                &&& final(self).tool_calls == old(self).tool_calls
                &&& final(self).is_streaming == old(self).is_streaming
                &&& final(self).timestamp == old(self).timestamp
            },
    {
        self.add_assistant_text_block(text);
    }

    /// Records a tool call of the assistant, and a block for it after the blocks so far.
    pub fn push_assistant_tool_call(&mut self, tool_call: DisplayToolCall)
        ensures
            final(self).tool_calls@ == old(self).tool_calls@.push(tool_call),
            final(self).assistant_blocks@.drop_last() == old(self).assistant_blocks@,
            final(self).assistant_blocks@.len() == old(self).assistant_blocks@.len() + 1,
            final(self).assistant_blocks@.last() matches DisplayAssistantBlock::ToolCall { id }
                && id@ == tool_call.id@,
            final(self).content == old(self).content,
            final(self).role == old(self).role,
            final(self).thinking == old(self).thinking,
            final(self).is_streaming == old(self).is_streaming,
            final(self).timestamp == old(self).timestamp,
    {
        let id = tool_call.id.clone();
        self.tool_calls.push(tool_call);
        self.assistant_blocks.push(DisplayAssistantBlock::ToolCall { id });
        assert(self.assistant_blocks@.drop_last() =~= old(self).assistant_blocks@);
    }

    /// The first tool call of this message with id `id`.
    pub fn find_tool_call(&self, id: &str) -> (r: Option<&DisplayToolCall>)
        ensures
            match r {
                Some(tc) => exists|i: int|
                    0 <= i < self.tool_calls@.len() && self.tool_calls@[i] == *tc && tc.id@ == id@
                        && forall|j: int| 0 <= j < i ==> (#[trigger] self.tool_calls@[j]).id@ != id@,
                None => forall|j: int|
                    0 <= j < self.tool_calls@.len() ==> (#[trigger] self.tool_calls@[j]).id@ != id@,
            },
    {
        let n = self.tool_calls.len();
        let mut i: usize = 0;
        while i < n
            invariant
                n == self.tool_calls@.len(),
                i <= n,
                forall|j: int| 0 <= j < i ==> (#[trigger] self.tool_calls@[j]).id@ != id@,
            decreases n - i,
        {
            if str_eq(self.tool_calls[i].id.as_str(), id) {
                return Some(&self.tool_calls[i]);
            }
            i = i + 1;
        }
        None
    }
}

/// Appending text keeps the content equal to the text of the text blocks.
pub proof fn law_text_blocks_spell_content(
    after: Seq<DisplayAssistantBlock>,
    before: Seq<DisplayAssistantBlock>,
    content: Seq<char>,
    text: Seq<char>,
)
    requires
        blocks_text(before) == content,
        appended_text(after, before, text),
    ensures
        blocks_text(after) == content + text,
{
    if before.len() > 0 && before.last() is Text {
        assert(after.drop_last() == before.drop_last());
        assert(blocks_text(after) == blocks_text(after.drop_last()) + block_text(after.last()));
        assert(blocks_text(before) == blocks_text(before.drop_last()) + block_text(before.last()));
        assert(blocks_text(after) =~= content + text);
    } else {
        assert(blocks_text(after) == blocks_text(after.drop_last()) + block_text(after.last()));
        assert(blocks_text(after) =~= content + text);
    }
}

// ── Scroll window ───────────────────────────────────────────────

/// The rendered lines `start..end` that a view of `visible_height` rows shows when
/// scrolled `scroll_offset` lines up from the bottom.
#[derive(Debug, Clone, Copy, PartialEq, Eq, Structural)]
pub struct VisibleLineWindow {
    pub scroll_offset: usize,
    pub start: usize,
    pub end: usize,
}

/// The scroll offset kept within the lines above the bottom page.
pub open spec fn clamped_offset_spec(total: int, height: int, offset: int) -> int {
    let top = if total > height {
        total - height
    } else {
        0
    };
    if offset < top {
        offset
    } else {
        top
    }
}

/// Keeps `scroll_offset` (lines up from the bottom) within the lines above the last page.
pub fn clamp_scroll_offset_to_view(total_lines: usize, visible_height: usize, scroll_offset: usize) -> (r: usize)
    ensures
        r == clamped_offset_spec(total_lines as int, visible_height as int, scroll_offset as int),
{
    let top = total_lines.saturating_sub(visible_height);
    if scroll_offset < top {
        scroll_offset
    } else {
        top
    }
}

/// The window of lines shown: `height` lines ending `offset` (clamped) lines above the
/// bottom, cut at the top of the text.
pub fn visible_line_window(total_lines: usize, visible_height: usize, scroll_offset: usize) -> (w:
    VisibleLineWindow)
    ensures
        w.scroll_offset == clamped_offset_spec(
            total_lines as int,
            visible_height as int,
            scroll_offset as int,
        ),
        w.start == if total_lines >= visible_height + w.scroll_offset {
            total_lines - visible_height - w.scroll_offset
        } else {
            0
        },
        w.end == if total_lines < w.start + visible_height {
            total_lines as int
        } else {
            w.start + visible_height
        },
        w.start <= w.end <= total_lines,
        w.end - w.start <= visible_height,
        total_lines >= visible_height ==> w.end - w.start == visible_height,
        w.end + w.scroll_offset == total_lines || total_lines < visible_height,
{
    let scroll_offset = clamp_scroll_offset_to_view(total_lines, visible_height, scroll_offset);
    let start = total_lines.saturating_sub(visible_height + scroll_offset);
    let end = if total_lines < start + visible_height {
        total_lines
    } else {
        start + visible_height
    };
    VisibleLineWindow { scroll_offset, start, end }
}

/// `HH:MM` of a Unix timestamp in seconds (UTC).
pub open spec fn timestamp_spec(ts: nat) -> Seq<char> {
    let secs = ts % 86400;
    decimal2(secs / 3600) + seq![':'] + decimal2((secs % 3600) / 60)
}

pub fn format_timestamp(ts: u64) -> (s: String)
    ensures
        s@ == timestamp_spec(ts as nat),
{
    let secs = ts % 86_400;
    let h = secs / 3_600;
    let m = (secs % 3_600) / 60;
    let mut s = String::new();
    push_decimal2(&mut s, h);
    push_char(&mut s, ':');
    push_decimal2(&mut s, m);
    s
}

// ── Conversation messages ───────────────────────────────────────

/// A content block of a conversation message, as far as the chat view reads it.
#[derive(Debug, Clone)]
pub enum MessageBlock {
    Text(String),
    Thinking(String),
    /// A tool call, with its arguments as JSON text.
    ToolCall { id: String, name: String, arguments: String },
    /// Any other block (an image, for instance): not shown.
    Other,
}

/// A conversation message, as far as the chat view reads it.
#[derive(Debug, Clone)]
pub enum ConversationMessage {
    User { content: Vec<MessageBlock>, timestamp: u64 },
    Assistant { content: Vec<MessageBlock>, timestamp: u64 },
    ToolResult { content: Vec<MessageBlock>, timestamp: u64, is_error: bool },
}

/// The text of the text blocks, one after another.
pub open spec fn text_of(bs: Seq<MessageBlock>) -> Seq<char>
    decreases bs.len(),
{
    if bs.len() == 0 {
        Seq::empty()
    } else {
        text_of(bs.drop_last()) + match bs.last() {
            MessageBlock::Text(t) => t@,
            _ => Seq::empty(),
        }
    }
}

/// The text of the thinking blocks, one after another; nothing when there is none.
pub open spec fn thinking_of(bs: Seq<MessageBlock>) -> Option<Seq<char>>
    decreases bs.len(),
{
    if bs.len() == 0 {
        None
    } else {
        let before = thinking_of(bs.drop_last());
        match bs.last() {
            MessageBlock::Thinking(t) => match before {
                Some(p) => Some(p + t@),
                None => Some(t@),
            },
            _ => before,
        }
    }
}

/// The id, tool name and JSON arguments of each tool call block, in order.
pub open spec fn calls_of(bs: Seq<MessageBlock>) -> Seq<(Seq<char>, Seq<char>, Seq<char>)>
    decreases bs.len(),
{
    if bs.len() == 0 {
        Seq::empty()
    } else {
        let before = calls_of(bs.drop_last());
        match bs.last() {
            MessageBlock::ToolCall { id, name, arguments } => before.push((id@, name@, arguments@)),
            _ => before,
        }
    }
}

/// A display block as plain values: a text block's text, or a tool call block's id.
pub open spec fn block_view(b: DisplayAssistantBlock) -> (bool, Seq<char>) {
    match b {
        DisplayAssistantBlock::Text(t) => (true, t@),
        DisplayAssistantBlock::ToolCall { id } => (false, id@),
    }
}

pub open spec fn block_views(bs: Seq<DisplayAssistantBlock>) -> Seq<(bool, Seq<char>)> {
    bs.map_values(|b: DisplayAssistantBlock| block_view(b))
}

/// The display blocks of an assistant message with content `bs`: consecutive text goes
/// into one text block, each tool call gets a block of its own, and empty text, thinking
/// and other blocks add none.
pub open spec fn layout_of(bs: Seq<MessageBlock>) -> Seq<(bool, Seq<char>)>
    decreases bs.len(),
{
    if bs.len() == 0 {
        Seq::empty()
    } else {
        let before = layout_of(bs.drop_last());
        match bs.last() {
            MessageBlock::Text(t) => if t@.len() == 0 {
                before
            } else if before.len() > 0 && before.last().0 {
                before.drop_last().push((true, before.last().1 + t@))
            } else {
                before.push((true, t@))
            },
            MessageBlock::ToolCall { id, .. } => before.push((false, id@)),
            _ => before,
        }
    }
}

/// The tool calls of a display message are those of `calls`, freshly started.
pub open spec fn shows_calls(tcs: Seq<DisplayToolCall>, calls: Seq<(Seq<char>, Seq<char>, Seq<char>)>) -> bool {
    &&& tcs.len() == calls.len()
    &&& forall|i: int|
        0 <= i < tcs.len() ==> {
            let tc = #[trigger] tcs[i];
            &&& tc.id@ == calls[i].0
            &&& tc.name@ == calls[i].1
            &&& tc.args_summary@ == summary_for(calls[i].1, calls[i].2)
            &&& tc.output is None
            &&& !tc.is_error
            &&& !tc.expanded
            &&& tc.streaming_lines@.len() == 0
        }
}

fn text_of_blocks(content: &Vec<MessageBlock>) -> (r: String)
    ensures
        r@ == text_of(content@),
{
    let mut out = String::new();
    let mut i: usize = 0;
    while i < content.len()
        invariant
            i <= content@.len(),
            out@ == text_of(content@.take(i as int)),
        decreases content@.len() - i,
    {
        match &content[i] {
            MessageBlock::Text(t) => push_str(&mut out, t.as_str()),
            _ => {},
        }
        assert(content@.take(i + 1).drop_last() =~= content@.take(i as int));
        i = i + 1;
    }
    assert(content@.take(content@.len() as int) =~= content@);
    out
}

impl DisplayMessage {
    /// A display message for a conversation message: the text of a user message or of a
    /// tool result (an error when the tool failed), or the text, thinking and tool calls of
    /// an assistant message, in the order they came.
    pub fn from_message(msg: &ConversationMessage) -> (r: Self)
        ensures
            !r.is_streaming,
            match msg {
                ConversationMessage::User { content, timestamp } => {
                    &&& r.role == MessageRole::User
                    &&& r.content@ == text_of(content@)
                    &&& r.thinking is None
                    &&& r.tool_calls@.len() == 0
                    &&& r.assistant_blocks@.len() == 0
                    &&& r.timestamp == timestamp
                },
                ConversationMessage::Assistant { content, timestamp } => {
                    &&& r.role == MessageRole::Assistant
                    &&& r.content@ == text_of(content@)
                    &&& match (r.thinking, thinking_of(content@)) {
                        (Some(t), Some(u)) => t@ == u,
                        (None, None) => true,
                        _ => false,
                    }
                    &&& shows_calls(r.tool_calls@, calls_of(content@))
                    &&& block_views(r.assistant_blocks@) == layout_of(content@)
                    &&& r.timestamp == timestamp
                },
                ConversationMessage::ToolResult { content, timestamp, is_error } => {
                    &&& r.role == if *is_error {
                        MessageRole::Error
                    } else {
                        MessageRole::System
                    }
                    &&& r.content@ == text_of(content@)
                    &&& r.thinking is None
                    &&& r.tool_calls@.len() == 0
                    &&& r.assistant_blocks@.len() == 0
                    &&& r.timestamp == timestamp
                },
            },
    {
        match msg {
            ConversationMessage::User { content, timestamp } => DisplayMessage {
                role: MessageRole::User,
                content: text_of_blocks(content),
                thinking: None,
                tool_calls: Vec::new(),
                assistant_blocks: Vec::new(),
                is_streaming: false,
                timestamp: *timestamp,
            },
            ConversationMessage::ToolResult { content, timestamp, is_error } => DisplayMessage {
                role: if *is_error {
                    MessageRole::Error
                } else {
                    MessageRole::System
                },
                content: text_of_blocks(content),
                thinking: None,
                tool_calls: Vec::new(),
                assistant_blocks: Vec::new(),
                is_streaming: false,
                timestamp: *timestamp,
            },
            ConversationMessage::Assistant { content, timestamp } => {
                let mut display = DisplayMessage {
                    role: MessageRole::Assistant,
                    content: String::new(),
                    thinking: None,
                    tool_calls: Vec::new(),
                    assistant_blocks: Vec::new(),
                    is_streaming: false,
                    timestamp: *timestamp,
                };
                let mut thinking: Option<String> = None;
                let mut i: usize = 0;
                assert(block_views(display.assistant_blocks@) =~= Seq::<(bool, Seq<char>)>::empty());
                while i < content.len()
                    invariant
                        i <= content@.len(),
                        display.role == MessageRole::Assistant,
                        !display.is_streaming,
                        display.timestamp == *timestamp,
                        display.thinking is None,
                        display.content@ == text_of(content@.take(i as int)),
                        match (thinking, thinking_of(content@.take(i as int))) {
                            (Some(t), Some(u)) => t@ == u,
                            (None, None) => true,
                            _ => false,
                        },
                        shows_calls(display.tool_calls@, calls_of(content@.take(i as int))),
                        block_views(display.assistant_blocks@) == layout_of(content@.take(i as int)),
                    decreases content@.len() - i,
                {
                    let ghost before = display;
                    assert(content@.take(i + 1).drop_last() =~= content@.take(i as int));
                    match &content[i] {
                        MessageBlock::Text(t) => {
                            display.add_assistant_text_block(t.as_str());
                            proof {
                                if t@.len() > 0 {
                                    let a = display.assistant_blocks@;
                                    let b = before.assistant_blocks@;
                                    if b.len() > 0 && b.last() is Text {
                                        assert(block_views(a) =~= block_views(b).drop_last().push(
                                            (true, block_views(b).last().1 + t@),
                                        )) by {
                                            assert(a =~= a.drop_last().push(a.last()));
                                            assert(b =~= b.drop_last().push(b.last()));
                                        }
                                    } else {
                                        assert(block_views(a) =~= block_views(b).push((true, t@))) by {
                                            assert(a =~= a.drop_last().push(a.last()));
                                        }
                                    }
                                }
                            }
                        },
                        MessageBlock::Thinking(t) => {
                            thinking = match thinking {
                                Some(mut existing) => {
                                    push_str(&mut existing, t.as_str());
                                    Some(existing)
                                },
                                None => Some(t.clone()),
                            };
                        },
                        MessageBlock::ToolCall { id, name, arguments } => {
                            let call = DisplayToolCall {
                                id: id.clone(),
                                name: name.clone(),
                                args_summary: make_args_summary(name.as_str(), arguments.as_str()),
                                output: None,
                                details: json_value(arguments.as_str()),
                                is_error: false,
                                expanded: false,
                                streaming_lines: Vec::new(),
                            };
                            display.push_assistant_tool_call(call);
                            proof {
                                let a = display.assistant_blocks@;
                                assert(block_views(a) =~= block_views(before.assistant_blocks@).push(
                                    (false, id@),
                                )) by {
                                    assert(a =~= a.drop_last().push(a.last()));
                                }
                                let calls = calls_of(content@.take(i + 1));
                                assert forall|k: int| 0 <= k < display.tool_calls@.len() implies {
                                    let tc = #[trigger] display.tool_calls@[k];
                                    &&& tc.id@ == calls[k].0
                                    &&& tc.name@ == calls[k].1
                                    &&& tc.args_summary@ == summary_for(calls[k].1, calls[k].2)
                                    &&& tc.output is None
                                    &&& !tc.is_error
                                    &&& !tc.expanded
                                    &&& tc.streaming_lines@.len() == 0
                                } by {
                                    if k < before.tool_calls@.len() {
                                        assert(display.tool_calls@[k] == before.tool_calls@[k]);
                                    }
                                }
                            }
                        },
                        MessageBlock::Other => {},
                    }
                    i = i + 1;
                }
                assert(content@.take(content@.len() as int) =~= content@);
                display.thinking = thinking;
                display
            },
        }
    }
}

// ── Wrapping by character count ─────────────────────────────────

/// The last whitespace strictly after `start` and before `end`, if any.
pub open spec fn last_ws_between<S>(cs: Seq<(char, S)>, start: int, end: int) -> Option<int>
    decreases end - start,
{
    if end - 1 <= start {
        None
    } else if is_ws(cs[end - 1].0) {
        Some(end - 1)
    } else {
        last_ws_between(cs, start, end - 1)
    }
}

pub proof fn lemma_last_ws_between<S>(cs: Seq<(char, S)>, start: int, end: int)
    ensures
        last_ws_between(cs, start, end) matches Some(i) ==> start < i < end && is_ws(cs[i].0),
        last_ws_between(cs, start, end) is None ==> forall|k: int|
            start < k < end ==> !is_ws(#[trigger] cs[k].0),
    decreases end - start,
{
    if end - 1 > start && !is_ws(cs[end - 1].0) {
        lemma_last_ws_between(cs, start, end - 1);
    }
}

/// The rows of `cs` from `start` on: `width` characters for the next row (at least one)
/// and `cont` for each row after it. A row that does not reach the end is cut at its last
/// whitespace after its first character, which is dropped with the whitespace after it;
/// without one it is cut at the width.
pub open spec fn char_rows_from<S>(cs: Seq<(char, S)>, width: int, cont: int, start: int) -> Seq<
    Seq<(char, S)>,
>
    decreases cs.len() - start,
{
    if start < 0 || start >= cs.len() || width < 1 || cont < 1 {
        Seq::empty()
    } else if cs.len() - start <= width {
        seq![cs.subrange(start, cs.len() as int)]
    } else {
        let end = start + width;
        proof {
            lemma_last_ws_between(cs, start, end);
        }
        match last_ws_between(cs, start, end) {
            Some(sp) => {
                proof {
                    lemma_skip_ws(cs, sp + 1);
                }
                seq![cs.subrange(start, sp)] + char_rows_from(cs, cont, cont, skip_ws(cs, sp + 1))
            },
            None => seq![cs.subrange(start, end)] + char_rows_from(cs, cont, cont, end),
        }
    }
}

/// Styled characters wrapped into rows of at most `first_width` characters for the first
/// row and `continuation_width` for the others (each at least one); always one row at least.
pub open spec fn char_rows<S>(cs: Seq<(char, S)>, first_width: usize, continuation_width: usize) -> Seq<
    Seq<(char, S)>,
> {
    let f: int = if first_width >= 1 {
        first_width as int
    } else {
        1
    };
    let c: int = if continuation_width >= 1 {
        continuation_width as int
    } else {
        1
    };
    let rows = char_rows_from(cs, f, c, 0);
    if rows.len() == 0 {
        seq![Seq::empty()]
    } else {
        rows
    }
}

pub open spec fn chunk_views<S>(v: Seq<Vec<(char, S)>>) -> Seq<Seq<(char, S)>> {
    v.map_values(|r: Vec<(char, S)>| r@)
}

/// Wraps styled characters by count: `first_width` characters in the first row and
/// `continuation_width` in the others, breaking at whitespace where a row has some.
pub fn wrap_styled_chars<S: Copy>(
    chars: &[(char, S)],
    first_width: usize,
    continuation_width: usize,
) -> (r: Vec<Vec<(char, S)>>)
    ensures
        chunk_views(r@) == char_rows(chars@, first_width, continuation_width),
{
    let n = chars.len();
    let cont = if continuation_width >= 1 {
        continuation_width
    } else {
        1
    };
    let mut width = if first_width >= 1 {
        first_width
    } else {
        1
    };
    let ghost f = width as int;
    let mut chunks: Vec<Vec<(char, S)>> = Vec::new();
    let mut start: usize = 0;
    assert(chunk_views(chunks@) + char_rows_from(chars@, width as int, cont as int, 0) =~= char_rows_from(
        chars@,
        f,
        cont as int,
        0,
    ));
    while start < n
        invariant_except_break
            chunk_views(chunks@) + char_rows_from(chars@, width as int, cont as int, start as int)
                == char_rows_from(chars@, f, cont as int, 0),
        invariant
            n == chars@.len(),
            start <= n,
            width >= 1,
            cont >= 1,
        ensures
            chunk_views(chunks@) == char_rows_from(chars@, f, cont as int, 0),
        decreases n - start,
    {
        let ghost pre = chunk_views(chunks@);
        let ghost s0 = start as int;
        let ghost w0 = width as int;
        let remaining = n - start;
        if remaining <= width {
            let row = copy_range(chars, start, n);
            chunks.push(row);
            assert(chunk_views(chunks@) =~= pre + seq![chars@.subrange(s0, n as int)]);
            break;
        }
        let end = start + width;
        proof {
            lemma_last_ws_between(chars@, s0, end as int);
        }
        let mut k = end - 1;
        while k > start && !is_whitespace(chars[k].0)
            invariant
                start <= k < end <= n,
                n == chars@.len(),
                last_ws_between(chars@, s0, k + 1) == last_ws_between(chars@, s0, end as int),
            decreases k,
        {
            k = k - 1;
        }
        if k > start {
            let row = copy_range(chars, start, k);
            chunks.push(row);
            assert(chunk_views(chunks@) =~= pre + seq![chars@.subrange(s0, k as int)]);
            start = k + 1;
            proof {
                lemma_skip_ws(chars@, start as int);
            }
            while start < n && is_whitespace(chars[start].0)
                invariant
                    n == chars@.len(),
                    k + 1 <= start <= n,
                    skip_ws(chars@, start as int) == skip_ws(chars@, k + 1),
                decreases n - start,
            {
                start = start + 1;
            }
        } else {
            let row = copy_range(chars, start, end);
            chunks.push(row);
            assert(chunk_views(chunks@) =~= pre + seq![chars@.subrange(s0, end as int)]);
            start = end;
        }
        width = cont;
    }
    if chunks.len() == 0 {
        chunks.push(Vec::new());
        assert(chunk_views(chunks@) =~= seq![Seq::<(char, S)>::empty()]);
    }
    chunks
}

proof fn lemma_char_rows<S>(cs: Seq<(char, S)>, width: int, cont: int, start: int)
    requires
        width >= 1,
        cont >= 1,
        0 <= start <= cs.len(),
    ensures
        forall|k: int|
            0 <= k < char_rows_from(cs, width, cont, start).len() ==> (#[trigger] char_rows_from(
                cs,
                width,
                cont,
                start,
            )[k]).len() <= if k == 0 {
                width
            } else {
                cont
            },
        printable(joined_rows(char_rows_from(cs, width, cont, start))) == printable(
            cs.subrange(start, cs.len() as int),
        ),
    decreases cs.len() - start,
{
    let rows = char_rows_from(cs, width, cont, start);
    let tail = cs.subrange(start, cs.len() as int);
    if start == cs.len() {
        assert(tail =~= Seq::<(char, S)>::empty());
    } else if cs.len() - start <= width {
        assert(rows.drop_first() =~= Seq::<Seq<(char, S)>>::empty());
        assert(joined_rows(rows.drop_first()) =~= Seq::<(char, S)>::empty());
        assert(joined_rows(rows) == tail + joined_rows(rows.drop_first()));
        assert(tail + Seq::<(char, S)>::empty() =~= tail);
    } else {
        let end = start + width;
        lemma_last_ws_between(cs, start, end);
        match last_ws_between(cs, start, end) {
            Some(sp) => {
                lemma_skip_ws(cs, sp + 1);
                let nx = skip_ws(cs, sp + 1);
                lemma_char_rows(cs, cont, cont, nx);
                let row = cs.subrange(start, sp);
                let rest = char_rows_from(cs, cont, cont, nx);
                assert(rows == seq![row] + rest);
                assert(rows.drop_first() =~= rest);
                assert forall|k: int| 0 <= k < rows.len() implies (#[trigger] rows[k]).len() <= if k
                    == 0 {
                    width
                } else {
                    cont
                } by {
                    if k > 0 {
                        assert(rows[k] == rest[k - 1]);
                    }
                }
                lemma_printable_concat(row, joined_rows(rest));
                let gap = cs.subrange(sp, nx);
                assert forall|k: int| 0 <= k < gap.len() implies is_ws(#[trigger] gap[k].0) by {
                    assert(gap[k] == cs[sp + k]);
                }
                lemma_printable_blank(gap);
                let after = cs.subrange(nx, cs.len() as int);
                assert(tail =~= row + (gap + after));
                lemma_printable_concat(gap, after);
                lemma_printable_concat(row, gap + after);
                assert(printable(gap + after) =~= printable(after));
            },
            None => {
                lemma_char_rows(cs, cont, cont, end);
                let row = cs.subrange(start, end);
                let rest = char_rows_from(cs, cont, cont, end);
                assert(rows == seq![row] + rest);
                assert(rows.drop_first() =~= rest);
                assert forall|k: int| 0 <= k < rows.len() implies (#[trigger] rows[k]).len() <= if k
                    == 0 {
                    width
                } else {
                    cont
                } by {
                    if k > 0 {
                        assert(rows[k] == rest[k - 1]);
                    }
                }
                lemma_printable_concat(row, joined_rows(rest));
                let after = cs.subrange(end, cs.len() as int);
                assert(tail =~= row + after);
                lemma_printable_concat(row, after);
            },
        }
    }
}

/// Wrapping by count keeps the rows within their widths: the first row has at most
/// `first_width` characters and every other row at most `continuation_width` (each at
/// least one).
pub proof fn law_char_rows_fit<S>(cs: Seq<(char, S)>, first_width: usize, continuation_width: usize)
    ensures
        forall|k: int|
            0 <= k < char_rows(cs, first_width, continuation_width).len() ==> (#[trigger] char_rows(
                cs,
                first_width,
                continuation_width,
            )[k]).len() <= if k == 0 {
                if first_width >= 1 {
                    first_width as int
                } else {
                    1
                }
            } else {
                if continuation_width >= 1 {
                    continuation_width as int
                } else {
                    1
                }
            },
{
    let f: int = if first_width >= 1 {
        first_width as int
    } else {
        1
    };
    let c: int = if continuation_width >= 1 {
        continuation_width as int
    } else {
        1
    };
    lemma_char_rows(cs, f, c, 0);
}

/// Wrapping by count loses no text: read row after row, the rows hold the characters that
/// are not whitespace, in their order, each with its style.
pub proof fn law_char_rows_keep_text<S>(
    cs: Seq<(char, S)>,
    first_width: usize,
    continuation_width: usize,
)
    ensures
        printable(joined_rows(char_rows(cs, first_width, continuation_width))) == printable(cs),
{
    let f: int = if first_width >= 1 {
        first_width as int
    } else {
        1
    };
    let c: int = if continuation_width >= 1 {
        continuation_width as int
    } else {
        1
    };
    lemma_char_rows(cs, f, c, 0);
    assert(cs.subrange(0, cs.len() as int) =~= cs);
    if char_rows_from(cs, f, c, 0).len() == 0 {
        let one = seq![Seq::<(char, S)>::empty()];
        assert(one.drop_first() =~= Seq::<Seq<(char, S)>>::empty());
        assert(joined_rows(one) =~= Seq::<(char, S)>::empty());
    }
}

} // verus!

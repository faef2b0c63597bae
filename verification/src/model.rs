//! The two wire vocabularies: the chunks that an OpenAI-style upstream streams, and the
//! events that an Anthropic-style client reads.

use vstd::prelude::*;

verus! {

/// A piece of a function call: its name, or more of its arguments.
#[derive(Debug)]
pub struct DeltaFunction {
    pub name: Option<String>,
    pub arguments: Option<String>,
}

/// A piece of one tool call. `index` tells the calls of a message apart.
#[derive(Debug)]
pub struct DeltaToolCall {
    pub index: usize,
    pub id: Option<String>,
    pub function: Option<DeltaFunction>,
}

/// What a chunk adds to the message.
#[derive(Debug)]
pub struct Delta {
    pub content: Option<String>,
    pub reasoning: Option<String>,
    pub tool_calls: Vec<DeltaToolCall>,
}

/// One of the alternatives that a chunk speaks of.
#[derive(Debug)]
pub struct StreamChoice {
    pub delta: Delta,
    pub finish_reason: Option<String>,
}

/// One chunk of an upstream stream.
#[derive(Debug)]
pub struct StreamChunk {
    pub id: Option<String>,
    pub model: Option<String>,
    pub choices: Vec<StreamChoice>,
}

/// The text of an optional string.
pub open spec fn text_of(s: Option<String>) -> Option<Seq<char>> {
    match s {
        Some(s) => Some(s@),
        None => None,
    }
}

/// A piece of a tool call, its function laid open.
pub struct ToolCallView {
    pub index: usize,
    pub id: Option<Seq<char>>,
    pub name: Option<Seq<char>>,
    pub arguments: Option<Seq<char>>,
}

/// What a choice adds to the message, and why the message ends, if it does.
pub struct ChoiceView {
    pub content: Option<Seq<char>>,
    pub reasoning: Option<Seq<char>>,
    pub tool_calls: Seq<ToolCallView>,
    pub finish_reason: Option<Seq<char>>,
}

/// What a translator reads of a chunk: of the choices, the first.
pub struct ChunkView {
    pub id: Option<Seq<char>>,
    pub model: Option<Seq<char>>,
    pub choice: Option<ChoiceView>,
}

impl View for DeltaToolCall {
    type V = ToolCallView;

    open spec fn view(&self) -> ToolCallView {
        ToolCallView {
            index: self.index,
            id: text_of(self.id),
            name: match self.function {
                Some(f) => text_of(f.name),
                None => None,
            },
            arguments: match self.function {
                Some(f) => text_of(f.arguments),
                None => None,
            },
        }
    }
}

impl View for StreamChoice {
    type V = ChoiceView;

    open spec fn view(&self) -> ChoiceView {
        ChoiceView {
            content: text_of(self.delta.content),
            reasoning: text_of(self.delta.reasoning),
            tool_calls: self.delta.tool_calls@.map_values(|c: DeltaToolCall| c@),
            finish_reason: text_of(self.finish_reason),
        }
    }
}

impl View for StreamChunk {
    type V = ChunkView;

    open spec fn view(&self) -> ChunkView {
        ChunkView {
            id: text_of(self.id),
            model: text_of(self.model),
            choice: if self.choices@.len() > 0 {
                Some(self.choices@[0]@)
            } else {
                None
            },
        }
    }
}

/// The kinds of content block.
#[derive(Debug, Clone, Copy, PartialEq, Eq, Structural)]
pub enum BlockKind {
    Text,
    Thinking,
    ToolUse,
}

/// A content block as it opens.
#[derive(Debug)]
pub enum ContentBlock {
    Text,
    Thinking,
    ToolUse { id: String, name: String },
}

/// More of the content of a block.
#[derive(Debug)]
pub enum BlockDelta {
    Text(String),
    Thinking(String),
    InputJson(String),
}

/// An event of the client's stream.
#[derive(Debug)]
pub enum StreamEvent {
    MessageStart { id: String, model: String, role: String },
    ContentBlockStart { index: usize, content_block: ContentBlock },
    ContentBlockDelta { index: usize, delta: BlockDelta },
    ContentBlockStop { index: usize },
    MessageDelta { stop_reason: String },
    MessageStop,
    Error { message: String },
}

/// A `ContentBlock` with its texts as sequences.
pub enum ContentBlockView {
    Text,
    Thinking,
    ToolUse { id: Seq<char>, name: Seq<char> },
}

/// A `BlockDelta` with its text as a sequence.
pub enum BlockDeltaView {
    Text(Seq<char>),
    Thinking(Seq<char>),
    InputJson(Seq<char>),
}

/// A `StreamEvent` with its texts as sequences and its index as a number.
pub enum EventView {
    MessageStart { id: Seq<char>, model: Seq<char>, role: Seq<char> },
    ContentBlockStart { index: int, content_block: ContentBlockView },
    ContentBlockDelta { index: int, delta: BlockDeltaView },
    ContentBlockStop { index: int },
    MessageDelta { stop_reason: Seq<char> },
    MessageStop,
    Error { message: Seq<char> },
}

impl View for ContentBlock {
    type V = ContentBlockView;

    open spec fn view(&self) -> ContentBlockView {
        match self {
            ContentBlock::Text => ContentBlockView::Text,
            ContentBlock::Thinking => ContentBlockView::Thinking,
            ContentBlock::ToolUse { id, name } => ContentBlockView::ToolUse {
                id: id@,
                name: name@,
            },
        }
    }
}

impl View for BlockDelta {
    type V = BlockDeltaView;

    open spec fn view(&self) -> BlockDeltaView {
        match self {
            BlockDelta::Text(t) => BlockDeltaView::Text(t@),
            BlockDelta::Thinking(t) => BlockDeltaView::Thinking(t@),
            BlockDelta::InputJson(t) => BlockDeltaView::InputJson(t@),
        }
    }
}

impl View for StreamEvent {
    type V = EventView;

    open spec fn view(&self) -> EventView {
        match self {
            StreamEvent::MessageStart { id, model, role } => EventView::MessageStart {
                id: id@,
                model: model@,
                role: role@,
            },
            StreamEvent::ContentBlockStart { index, content_block } => {
                EventView::ContentBlockStart {
                    index: *index as int,
                    content_block: content_block@,
                }
            },
            StreamEvent::ContentBlockDelta { index, delta } => EventView::ContentBlockDelta {
                index: *index as int,
                delta: delta@,
            },
            StreamEvent::ContentBlockStop { index } => EventView::ContentBlockStop {
                index: *index as int,
            },
            StreamEvent::MessageDelta { stop_reason } => EventView::MessageDelta {
                stop_reason: stop_reason@,
            },
            StreamEvent::MessageStop => EventView::MessageStop,
            StreamEvent::Error { message } => EventView::Error { message: message@ },
        }
    }
}

/// The views of a run of events.
pub open spec fn event_views(events: Seq<StreamEvent>) -> Seq<EventView> {
    events.map_values(|e: StreamEvent| e@)
}

impl ContentBlockView {
    /// The kind of the block.
    pub open spec fn kind(self) -> BlockKind {
        match self {
            ContentBlockView::Text => BlockKind::Text,
            ContentBlockView::Thinking => BlockKind::Thinking,
            ContentBlockView::ToolUse { .. } => BlockKind::ToolUse,
        }
    }
}

impl BlockDeltaView {
    /// The kind of block that the delta belongs in.
    pub open spec fn kind(self) -> BlockKind {
        match self {
            BlockDeltaView::Text(_) => BlockKind::Text,
            BlockDeltaView::Thinking(_) => BlockKind::Thinking,
            BlockDeltaView::InputJson(_) => BlockKind::ToolUse,
        }
    }
}

/// The name under which a kind of block goes on the wire.
pub open spec fn block_type(kind: BlockKind) -> Seq<char> {
    match kind {
        BlockKind::Text => "text"@,
        BlockKind::Thinking => "thinking"@,
        BlockKind::ToolUse => "tool_use"@,
    }
}

/// The name under which more content for a kind of block goes on the wire.
pub open spec fn delta_type(kind: BlockKind) -> Seq<char> {
    match kind {
        BlockKind::Text => "text_delta"@,
        BlockKind::Thinking => "thinking_delta"@,
        BlockKind::ToolUse => "input_json_delta"@,
    }
}

/// The name under which an event goes on the wire.
pub open spec fn event_type_of(event: EventView) -> Seq<char> {
    match event {
        EventView::MessageStart { .. } => "message_start"@,
        EventView::ContentBlockStart { .. } => "content_block_start"@,
        EventView::ContentBlockDelta { .. } => "content_block_delta"@,
        EventView::ContentBlockStop { .. } => "content_block_stop"@,
        EventView::MessageDelta { .. } => "message_delta"@,
        EventView::MessageStop => "message_stop"@,
        EventView::Error { .. } => "error"@,
    }
}

impl ContentBlock {
    /// The `type` of the block on the wire.
    pub fn block_type(&self) -> (name: &'static str)
        ensures
            name@ == block_type(self@.kind()),
    {
        match self {
            ContentBlock::Text => "text",
            ContentBlock::Thinking => "thinking",
            ContentBlock::ToolUse { .. } => "tool_use",
        }
    }
}

impl BlockDelta {
    /// The `type` of the delta on the wire.
    pub fn delta_type(&self) -> (name: &'static str)
        ensures
            name@ == delta_type(self@.kind()),
    {
        match self {
            BlockDelta::Text(_) => "text_delta",
            BlockDelta::Thinking(_) => "thinking_delta",
            BlockDelta::InputJson(_) => "input_json_delta",
        }
    }
}

impl StreamEvent {
    /// The `type` of the event on the wire.
    pub fn event_type(&self) -> (name: &'static str)
        ensures
            name@ == event_type_of(self@),
    {
        match self {
            StreamEvent::MessageStart { .. } => "message_start",
            StreamEvent::ContentBlockStart { .. } => "content_block_start",
            StreamEvent::ContentBlockDelta { .. } => "content_block_delta",
            StreamEvent::ContentBlockStop { .. } => "content_block_stop",
            StreamEvent::MessageDelta { .. } => "message_delta",
            StreamEvent::MessageStop => "message_stop",
            StreamEvent::Error { .. } => "error",
        }
    }
}

} // verus!

//! The translation of a stream: chunks of an OpenAI-style upstream in, events of an
//! Anthropic-style message out.
//!
//! A message is a run of content blocks. At most one of them is open at a time, each has
//! an index of its own, and a block that has been closed gets nothing more.

use crate::model::{
    event_views, text_of, BlockDelta, BlockDeltaView, BlockKind, ChoiceView, ChunkView, ContentBlock,
    ContentBlockView, DeltaToolCall, EventView, StreamChoice, StreamChunk, StreamEvent,
    ToolCallView,
};
use std::collections::HashMap;
use vstd::prelude::*;

verus! {

/// How far the translation of one message has come.
#[verifier::ext_equal]
pub struct StateView {
    /// The model to name where the upstream names none.
    pub fallback_model: Seq<char>,
    /// Whether `message_start` has gone out.
    pub message_started: bool,
    /// Whether `message_delta` has gone out.
    pub finished: bool,
    /// The open block, with its index.
    pub block: Option<(BlockKind, int)>,
    /// The index of the next block.
    pub next_index: int,
    /// The block that was opened for each of the upstream's tool calls.
    pub tool_call_map: Map<usize, int>,
}

impl StateView {
    /// What holds of every state that a stream goes through: the open block is the
    /// newest one, no two tool calls share a block, and before the message starts there
    /// are no blocks at all.
    pub open spec fn wf(self) -> bool {
        &&& self.next_index >= 0
        &&& self.block matches Some((_, i)) ==> i == self.next_index - 1 && self.next_index > 0
        &&& forall|k: usize| #[trigger]
            self.tool_call_map.contains_key(k) ==> 0 <= self.tool_call_map[k] < self.next_index
        &&& forall|k: usize, l: usize|
            #![trigger self.tool_call_map[k], self.tool_call_map[l]]
            self.tool_call_map.contains_key(k) && self.tool_call_map.contains_key(l) && k != l
                ==> self.tool_call_map[k] != self.tool_call_map[l]
        &&& forall|k: usize|
            #![trigger self.tool_call_map[k]]
            self.tool_call_map.contains_key(k) ==> (self.block matches Some((kind, i)) ==> i
                == self.tool_call_map[k] ==> kind == BlockKind::ToolUse)
        &&& !self.message_started ==> self.block is None && self.next_index == 0 && !self.finished
    }
}

/// The state before anything has arrived.
pub open spec fn initial(fallback_model: Seq<char>) -> StateView {
    StateView {
        fallback_model,
        message_started: false,
        finished: false,
        block: None,
        next_index: 0,
        tool_call_map: Map::empty(),
    }
}

/// Closes the open block, if there is one.
pub open spec fn closed(s: StateView) -> (StateView, Seq<EventView>) {
    match s.block {
        Some((_, index)) => (
            StateView { block: None, ..s },
            seq![EventView::ContentBlockStop { index }],
        ),
        None => (s, seq![]),
    }
}

/// Opens a block under the next index, closing the one that was open.
pub open spec fn opened(s: StateView, content_block: ContentBlockView) -> (
    StateView,
    Seq<EventView>,
) {
    (
        StateView {
            block: Some((content_block.kind(), s.next_index)),
            next_index: s.next_index + 1,
            ..s
        },
        closed(s).1.push(EventView::ContentBlockStart { index: s.next_index, content_block }),
    )
}

/// Sends `message_start`, once. The chunk names the message and its model; a model that
/// it does not name is the fallback.
pub open spec fn started(s: StateView, chunk: ChunkView) -> (StateView, Seq<EventView>) {
    if s.message_started {
        (s, seq![])
    } else {
        (
            StateView { message_started: true, ..s },
            seq![
                EventView::MessageStart {
                    id: chunk.id.unwrap_or(seq![]),
                    model: chunk.model.unwrap_or(s.fallback_model),
                    role: "assistant"@,
                },
            ],
        )
    }
}

/// A block of text or of thinking, as it opens.
pub open spec fn plain_block(thinking: bool) -> ContentBlockView {
    if thinking {
        ContentBlockView::Thinking
    } else {
        ContentBlockView::Text
    }
}

/// More content for a block of text or of thinking.
pub open spec fn plain_delta(thinking: bool, text: Seq<char>) -> BlockDeltaView {
    if thinking {
        BlockDeltaView::Thinking(text)
    } else {
        BlockDeltaView::Text(text)
    }
}

/// Adds a piece of text or of thinking: to the open block if it is of that kind, else to
/// a new one. An empty piece is no piece.
pub open spec fn with_fragment(s: StateView, thinking: bool, text: Option<Seq<char>>) -> (
    StateView,
    Seq<EventView>,
) {
    match text {
        Some(t) if t.len() > 0 => {
            let delta = plain_delta(thinking, t);
            match s.block {
                Some((kind, index)) if kind == delta.kind() => (
                    s,
                    seq![EventView::ContentBlockDelta { index, delta }],
                ),
                _ => {
                    let (o, events) = opened(s, plain_block(thinking));
                    (o, events.push(EventView::ContentBlockDelta { index: s.next_index, delta }))
                },
            }
        },
        _ => (s, seq![]),
    }
}

/// Opens the block of a tool call that shows its id for the first time.
pub open spec fn with_tool_start(s: StateView, call: ToolCallView) -> (
    StateView,
    Seq<EventView>,
) {
    if call.id is Some && !s.tool_call_map.contains_key(call.index) {
        let (o, events) = opened(
            s,
            ContentBlockView::ToolUse { id: call.id->0, name: call.name.unwrap_or(seq![]) },
        );
        (
            StateView { tool_call_map: s.tool_call_map.insert(call.index, s.next_index), ..o },
            events,
        )
    } else {
        (s, seq![])
    }
}

/// Whether the block of the tool call `index` is the open one.
pub open spec fn tool_block_open(s: StateView, index: usize) -> bool {
    &&& s.tool_call_map.contains_key(index)
    &&& s.block == Some((BlockKind::ToolUse, s.tool_call_map[index]))
}

/// The arguments of a tool call go to its own block while that is open; after that they
/// are dropped.
pub open spec fn argument_events(s: StateView, call: ToolCallView) -> Seq<EventView> {
    match call.arguments {
        Some(a) if a.len() > 0 && tool_block_open(s, call.index) => seq![
            EventView::ContentBlockDelta {
                index: s.tool_call_map[call.index],
                delta: BlockDeltaView::InputJson(a),
            },
        ],
        _ => seq![],
    }
}

/// Takes in one piece of a tool call.
pub open spec fn with_tool_call(s: StateView, call: ToolCallView) -> (StateView, Seq<EventView>) {
    let (o, events) = with_tool_start(s, call);
    (o, events + argument_events(o, call))
}

/// Takes in pieces of tool calls, in order.
pub open spec fn with_tool_calls(s: StateView, calls: Seq<ToolCallView>) -> (
    StateView,
    Seq<EventView>,
)
    decreases calls.len(),
{
    if calls.len() == 0 {
        (s, seq![])
    } else {
        let (o, events) = with_tool_calls(s, calls.drop_last());
        let (p, more) = with_tool_call(o, calls.last());
        (p, events + more)
    }
}

/// What a client calls the reason for which the upstream stopped.
pub open spec fn stop_reason(finish_reason: Seq<char>) -> Seq<char> {
    if finish_reason == "tool_calls"@ {
        "tool_use"@
    } else if finish_reason == "length"@ {
        "max_tokens"@
    } else {
        "end_turn"@
    }
}

/// Ends the message: closes the open block and sends `message_delta`, once.
pub open spec fn with_finish(s: StateView, finish_reason: Option<Seq<char>>) -> (
    StateView,
    Seq<EventView>,
) {
    match finish_reason {
        Some(reason) if !s.finished => {
            let (c, events) = closed(s);
            (
                StateView { finished: true, ..c },
                events.push(EventView::MessageDelta { stop_reason: stop_reason(reason) }),
            )
        },
        _ => (s, seq![]),
    }
}

/// Takes in what a choice adds: thinking, then text, then tool calls, then the end.
pub open spec fn with_choice(s: StateView, choice: ChoiceView) -> (StateView, Seq<EventView>) {
    let (a, thinking) = with_fragment(s, true, choice.reasoning);
    let (b, text) = with_fragment(a, false, choice.content);
    let (c, tools) = with_tool_calls(b, choice.tool_calls);
    let (d, end) = with_finish(c, choice.finish_reason);
    (d, thinking + text + tools + end)
}

/// Takes in a chunk. One without a choice changes nothing.
pub open spec fn with_chunk(s: StateView, chunk: ChunkView) -> (StateView, Seq<EventView>) {
    match chunk.choice {
        Some(choice) => {
            let (a, start) = started(s, chunk);
            let (b, events) = with_choice(a, choice);
            (b, start + events)
        },
        None => (s, seq![]),
    }
}

/// Takes in the end marker: closes the open block and sends `message_stop`.
pub open spec fn with_done(s: StateView) -> (StateView, Seq<EventView>) {
    (closed(s).0, closed(s).1.push(EventView::MessageStop))
}

/// How far the translation of one message has come.
#[derive(Debug)]
pub struct StreamState {
    fallback_model: String,
    message_started: bool,
    finished: bool,
    block: Option<(BlockKind, usize)>,
    next_index: usize,
    tool_call_map: HashMap<usize, usize>,
}

impl View for StreamState {
    type V = StateView;

    closed spec fn view(&self) -> StateView {
        StateView {
            fallback_model: self.fallback_model@,
            message_started: self.message_started,
            finished: self.finished,
            block: match self.block {
                Some((kind, index)) => Some((kind, index as int)),
                None => None,
            },
            next_index: self.next_index as int,
            tool_call_map: self.tool_call_map@.map_values(|i: usize| i as int),
        }
    }
}

/// The views of a run of tool calls.
pub open spec fn call_views(calls: Seq<DeltaToolCall>) -> Seq<ToolCallView> {
    calls.map_values(|c: DeltaToolCall| c@)
}

/// Whether there are indices left for the blocks that `chunk` may open.
pub open spec fn room(s: StateView, chunk: ChunkView) -> bool {
    s.next_index + demand(chunk) <= usize::MAX
}

/// How many blocks `chunk` may open: one of thinking, one of text, and one for each tool
/// call.
pub open spec fn demand(chunk: ChunkView) -> nat {
    match chunk.choice {
        Some(choice) => 2 + choice.tool_calls.len(),
        None => 0,
    }
}

/// The copy of an optional string, or the default where there is none.
fn text_or(s: &Option<String>, default: &str) -> (r: String)
    ensures
        r@ == text_of(*s).unwrap_or(default@),
{
    match s {
        Some(s) => s.clone(),
        None => default.to_owned(),
    }
}

/// Appends one event.
fn emit(events: &mut Vec<StreamEvent>, event: StreamEvent)
    ensures
        event_views(final(events)@) == event_views(old(events)@).push(event@),
{
    events.push(event);
    assert(event_views(events@) =~= event_views(old(events)@).push(event@));
}

impl StreamState {
    /// Closes the open block, if there is one.
    fn close_current_block(&mut self, events: &mut Vec<StreamEvent>)
        ensures
            final(self)@ == closed(old(self)@).0,
            event_views(final(events)@) == event_views(old(events)@) + closed(old(self)@).1,
    {
        if let Some((_, index)) = self.block {
            emit(events, StreamEvent::ContentBlockStop { index });
            self.block = None;
        }
        assert(event_views(events@) =~= event_views(old(events)@) + closed(old(self)@).1);
    }

    /// Opens a block under the next index, closing the one that was open.
    fn open_block(
        &mut self,
        kind: BlockKind,
        content_block: ContentBlock,
        events: &mut Vec<StreamEvent>,
    )
        requires
            kind == content_block@.kind(),
            old(self)@.next_index < usize::MAX,
        ensures
            final(self)@ == opened(old(self)@, content_block@).0,
            event_views(final(events)@) == event_views(old(events)@) + opened(
                old(self)@,
                content_block@,
            ).1,
    {
        self.close_current_block(events);
        let index: usize = self.next_index;
        emit(events, StreamEvent::ContentBlockStart { index, content_block });
        self.block = Some((kind, index));
        self.next_index = index + 1;
        assert(event_views(events@) =~= event_views(old(events)@) + opened(
            old(self)@,
            content_block@,
        ).1);
    }

    /// Sends `message_start`, once.
    fn emit_start(&mut self, chunk: &StreamChunk, events: &mut Vec<StreamEvent>)
        ensures
            final(self)@ == started(old(self)@, chunk@).0,
            event_views(final(events)@) == event_views(old(events)@) + started(
                old(self)@,
                chunk@,
            ).1,
    {
        if !self.message_started {
            let id = text_or(&chunk.id, "");
            let model = text_or(&chunk.model, self.fallback_model.as_str());
            proof {
                reveal_strlit("");
                assert(""@ =~= seq![]);
            }
            emit(
                events,
                StreamEvent::MessageStart { id, model, role: "assistant".to_owned() },
            );
            self.message_started = true;
        }
        assert(event_views(events@) =~= event_views(old(events)@) + started(old(self)@, chunk@).1);
    }

    /// Adds a piece of text or of thinking.
    fn emit_fragment(
        &mut self,
        thinking: bool,
        text: &Option<String>,
        events: &mut Vec<StreamEvent>,
    )
        requires
            old(self)@.next_index < usize::MAX,
        ensures
            final(self)@ == with_fragment(old(self)@, thinking, text_of(*text)).0,
            event_views(final(events)@) == event_views(old(events)@) + with_fragment(
                old(self)@,
                thinking,
                text_of(*text),
            ).1,
    {
        if let Some(t) = text {
            if !t.as_str().is_empty() {
                let kind = if thinking {
                    BlockKind::Thinking
                } else {
                    BlockKind::Text
                };
                let delta = if thinking {
                    BlockDelta::Thinking(t.clone())
                } else {
                    BlockDelta::Text(t.clone())
                };
                let index: usize = match self.block {
                    Some((k, i)) if k == kind => i,
                    _ => {
                        let i: usize = self.next_index;
                        let content_block = if thinking {
                            ContentBlock::Thinking
                        } else {
                            ContentBlock::Text
                        };
                        self.open_block(kind, content_block, events);
                        i
                    },
                };
                emit(events, StreamEvent::ContentBlockDelta { index, delta });
            }
        }
        assert(event_views(events@) =~= event_views(old(events)@) + with_fragment(
            old(self)@,
            thinking,
            text_of(*text),
        ).1);
    }

    /// Opens the block of a tool call that shows its id for the first time.
    fn emit_tool_start(&mut self, call: &DeltaToolCall, events: &mut Vec<StreamEvent>)
        requires
            old(self)@.next_index < usize::MAX,
        ensures
            final(self)@ == with_tool_start(old(self)@, call@).0,
            event_views(final(events)@) == event_views(old(events)@) + with_tool_start(
                old(self)@,
                call@,
            ).1,
    {
        broadcast use vstd::std_specs::hash::group_hash_axioms;

        if let Some(id) = &call.id {
            if !self.tool_call_map.contains_key(&call.index) {
                let name = match &call.function {
                    Some(f) => text_or(&f.name, ""),
                    None => String::new(),
                };
                proof {
                    reveal_strlit("");
                    assert(""@ =~= seq![]);
                    assert(name@ == call@.name.unwrap_or(seq![]));
                }
                let index: usize = self.next_index;
                self.open_block(
                    BlockKind::ToolUse,
                    ContentBlock::ToolUse { id: id.clone(), name },
                    events,
                );
                self.tool_call_map.insert(call.index, index);
            }
        }
        assert(self@.tool_call_map =~= with_tool_start(old(self)@, call@).0.tool_call_map);
        assert(event_views(events@) =~= event_views(old(events)@) + with_tool_start(
            old(self)@,
            call@,
        ).1);
    }

    /// Takes in one piece of a tool call.
    fn emit_tool_call(&mut self, call: &DeltaToolCall, events: &mut Vec<StreamEvent>)
        requires
            old(self)@.next_index < usize::MAX,
        ensures
            final(self)@ == with_tool_call(old(self)@, call@).0,
            event_views(final(events)@) == event_views(old(events)@) + with_tool_call(
                old(self)@,
                call@,
            ).1,
    {
        broadcast use vstd::std_specs::hash::group_hash_axioms;

        self.emit_tool_start(call, events);
        let ghost opening = event_views(events@);
        if let Some(f) = &call.function {
            if let Some(arguments) = &f.arguments {
                if !arguments.as_str().is_empty() {
                    if let Some(own) = self.tool_call_map.get(&call.index) {
                        let own: usize = *own;
                        if let Some((BlockKind::ToolUse, index)) = self.block {
                            if own == index {
                                emit(
                                    events,
                                    StreamEvent::ContentBlockDelta {
                                        index,
                                        delta: BlockDelta::InputJson(arguments.clone()),
                                    },
                                );
                            }
                        }
                    }
                }
            }
        }
        assert(event_views(events@) =~= opening + argument_events(self@, call@));
        assert(event_views(events@) =~= event_views(old(events)@) + with_tool_call(
            old(self)@,
            call@,
        ).1);
    }

    /// Takes in pieces of tool calls, in order.
    fn emit_tool_calls(&mut self, calls: &Vec<DeltaToolCall>, events: &mut Vec<StreamEvent>)
        requires
            old(self)@.next_index + calls@.len() <= usize::MAX,
        ensures
            final(self)@ == with_tool_calls(old(self)@, call_views(calls@)).0,
            event_views(final(events)@) == event_views(old(events)@) + with_tool_calls(
                old(self)@,
                call_views(calls@),
            ).1,
    {
        let ghost views = call_views(calls@);
        let mut i: usize = 0;
        assert(views.take(0) =~= seq![]);
        assert(event_views(events@) =~= event_views(old(events)@) + with_tool_calls(
            self@,
            views.take(0),
        ).1);
        while i < calls.len()
            invariant
                i <= calls@.len(),
                views == call_views(calls@),
                old(self)@.next_index + calls@.len() <= usize::MAX,
                self@ == with_tool_calls(old(self)@, views.take(i as int)).0,
                event_views(events@) == event_views(old(events)@) + with_tool_calls(
                    old(self)@,
                    views.take(i as int),
                ).1,
            decreases calls@.len() - i,
        {
            proof {
                lemma_tool_calls_index(old(self)@, views.take(i as int));
            }
            self.emit_tool_call(&calls[i], events);
            i = i + 1;
            assert(views.take(i as int).drop_last() =~= views.take(i - 1));
            assert(event_views(events@) =~= event_views(old(events)@) + with_tool_calls(
                old(self)@,
                views.take(i as int),
            ).1);
        }
        assert(views.take(i as int) =~= views);
    }

    /// Ends the message, once.
    fn emit_finish(&mut self, finish_reason: &Option<String>, events: &mut Vec<StreamEvent>)
        ensures
            final(self)@ == with_finish(old(self)@, text_of(*finish_reason)).0,
            event_views(final(events)@) == event_views(old(events)@) + with_finish(
                old(self)@,
                text_of(*finish_reason),
            ).1,
    {
        if let Some(reason) = finish_reason {
            if !self.finished {
                self.close_current_block(events);
                self.finished = true;
                emit(events, StreamEvent::MessageDelta { stop_reason: map_stop_reason(reason) });
            }
        }
        assert(event_views(events@) =~= event_views(old(events)@) + with_finish(
            old(self)@,
            text_of(*finish_reason),
        ).1);
    }

    /// Takes in what a choice adds: thinking, then text, then tool calls, then the end.
    fn emit_choice(&mut self, choice: &StreamChoice, events: &mut Vec<StreamEvent>)
        requires
            old(self)@.next_index + 2 + choice@.tool_calls.len() <= usize::MAX,
        ensures
            final(self)@ == with_choice(old(self)@, choice@).0,
            event_views(final(events)@) == event_views(old(events)@) + with_choice(
                old(self)@,
                choice@,
            ).1,
    {
        self.emit_fragment(true, &choice.delta.reasoning, events);
        self.emit_fragment(false, &choice.delta.content, events);
        self.emit_tool_calls(&choice.delta.tool_calls, events);
        self.emit_finish(&choice.finish_reason, events);
        assert(event_views(events@) =~= event_views(old(events)@) + with_choice(
            old(self)@,
            choice@,
        ).1);
    }
}

/// The client's name for the reason for which the upstream stopped.
pub fn map_stop_reason(finish_reason: &str) -> (r: String)
    ensures
        r@ == stop_reason(finish_reason@),
{
    let reason = finish_reason.to_owned();
    if reason.eq(&"tool_calls".to_owned()) {
        "tool_use".to_owned()
    } else if reason.eq(&"length".to_owned()) {
        "max_tokens".to_owned()
    } else {
        "end_turn".to_owned()
    }
}

/// The state before anything has arrived.
pub fn initial_state(fallback_model: String) -> (s: StreamState)
    ensures
        s@ == initial(fallback_model@),
        s@.wf(),
{
    broadcast use vstd::std_specs::hash::group_hash_axioms;

    let s = StreamState {
        fallback_model,
        message_started: false,
        finished: false,
        block: None,
        next_index: 0,
        tool_call_map: HashMap::new(),
    };
    assert(s@.tool_call_map =~= Map::empty());
    s
}

/// Tells whether there are indices left for the blocks that `chunk` may open, where
/// `reserved` of them are spoken for.
pub(crate) fn room_left(state: &StreamState, reserved: usize, chunk: &StreamChunk) -> (left: Option<
    usize,
>)
    requires
        state@.next_index + reserved <= usize::MAX,
    ensures
        left is Some <==> state@.next_index + reserved + demand(chunk@) <= usize::MAX,
        left matches Some(n) ==> n == reserved + demand(chunk@),
{
    if chunk.choices.len() == 0 {
        Some(reserved)
    } else {
        let left: usize = usize::MAX - state.next_index - reserved;
        let calls: usize = chunk.choices[0].delta.tool_calls.len();
        if left >= 2 && calls <= left - 2 {
            Some(reserved + 2 + calls)
        } else {
            None
        }
    }
}

/// Tells whether there are indices left for the blocks that `chunk` may open.
pub fn has_room(state: &StreamState, chunk: &StreamChunk) -> (r: bool)
    ensures
        r == room(state@, chunk@),
{
    room_left(state, 0, chunk).is_some()
}

/// Takes in a chunk and gives out the events that it makes.
pub fn translate_chunk(state: &mut StreamState, chunk: &StreamChunk) -> (events: Vec<StreamEvent>)
    requires
        room(old(state)@, chunk@),
    ensures
        final(state)@ == with_chunk(old(state)@, chunk@).0,
        event_views(events@) == with_chunk(old(state)@, chunk@).1,
        old(state)@.wf() ==> final(state)@.wf(),
{
    let mut events: Vec<StreamEvent> = Vec::new();
    assert(event_views(events@) =~= seq![]);
    if chunk.choices.len() > 0 {
        state.emit_start(chunk, &mut events);
        state.emit_choice(&chunk.choices[0], &mut events);
    }
    assert(event_views(events@) =~= with_chunk(old(state)@, chunk@).1);
    proof {
        if old(state)@.wf() {
            law_chunk_keeps_wf(old(state)@, chunk@);
        }
    }
    events
}

/// Takes in the end marker and gives out the events that it makes.
pub fn translate_done(state: &mut StreamState) -> (events: Vec<StreamEvent>)
    ensures
        final(state)@ == with_done(old(state)@).0,
        event_views(events@) == with_done(old(state)@).1,
        old(state)@.wf() ==> final(state)@.wf(),
{
    let mut events: Vec<StreamEvent> = Vec::new();
    assert(event_views(events@) =~= seq![]);
    state.close_current_block(&mut events);
    emit(&mut events, StreamEvent::MessageStop);
    assert(event_views(events@) =~= with_done(old(state)@).1);
    events
}

/// The events that tell the client of a failure in mid-stream.
pub fn translate_error(message: String) -> (events: Vec<StreamEvent>)
    ensures
        event_views(events@) == seq![EventView::Error { message: message@ }],
{
    let mut events: Vec<StreamEvent> = Vec::new();
    assert(event_views(events@) =~= seq![]);
    emit(&mut events, StreamEvent::Error { message });
    assert(event_views(events@) =~= seq![EventView::Error { message: message@ }]);
    events
}

/// The index of the next block is a machine integer.
pub(crate) proof fn lemma_index_fits(state: StreamState)
    ensures
        0 <= state@.next_index <= usize::MAX,
{
}

/// A tool call opens at most one block.
proof fn lemma_tool_calls_index(s: StateView, calls: Seq<ToolCallView>)
    ensures
        s.next_index <= with_tool_calls(s, calls).0.next_index <= s.next_index + calls.len(),
    decreases calls.len(),
{
    if calls.len() > 0 {
        lemma_tool_calls_index(s, calls.drop_last());
    }
}

/// A chunk opens no more blocks than it may.
pub(crate) proof fn lemma_chunk_index(s: StateView, chunk: ChunkView)
    ensures
        s.next_index <= with_chunk(s, chunk).0.next_index <= s.next_index + demand(chunk),
{
    if let Some(choice) = chunk.choice {
        let a = started(s, chunk).0;
        let b = with_fragment(a, true, choice.reasoning).0;
        let c = with_fragment(b, false, choice.content).0;
        lemma_tool_calls_index(c, choice.tool_calls);
    }
}

/// Tool calls keep a state well formed.
pub(crate) proof fn lemma_tool_calls_wf(s: StateView, calls: Seq<ToolCallView>)
    requires
        s.wf(),
        s.message_started,
    ensures
        with_tool_calls(s, calls).0.wf(),
        with_tool_calls(s, calls).0.message_started,
        with_tool_calls(s, calls).0.finished == s.finished,
    decreases calls.len(),
{
    if calls.len() > 0 {
        lemma_tool_calls_wf(s, calls.drop_last());
    }
}

/// Every chunk keeps a state well formed.
pub proof fn law_chunk_keeps_wf(s: StateView, chunk: ChunkView)
    requires
        s.wf(),
    ensures
        with_chunk(s, chunk).0.wf(),
{
    if let Some(choice) = chunk.choice {
        let a = started(s, chunk).0;
        let b = with_fragment(a, true, choice.reasoning).0;
        assert(b.wf());
        let c = with_fragment(b, false, choice.content).0;
        assert(c.wf());
        lemma_tool_calls_wf(c, choice.tool_calls);
    }
}

} // verus!

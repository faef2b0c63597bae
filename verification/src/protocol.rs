//! What a client may rely on in the events of one stream, whatever the upstream sends.

use crate::model::{
    BlockDeltaView, BlockKind, ChoiceView, ChunkView, ContentBlockView, EventView, ToolCallView,
};
use crate::stream::{
    argument_events, closed, initial, law_chunk_keeps_wf, opened, plain_block, plain_delta,
    started, stop_reason, tool_block_open, with_choice, with_chunk, with_done, with_finish,
    with_fragment, with_tool_call, with_tool_calls, with_tool_start, StateView,
};
use vstd::prelude::*;

verus! {

/// What a client knows of the message from the events it has read.
pub struct Reader {
    /// `message_start` has come.
    pub message_started: bool,
    /// `message_delta` has come.
    pub finished: bool,
    /// The block that is open, with its index.
    pub block: Option<(BlockKind, int)>,
    /// How many blocks have been opened.
    pub blocks: int,
}

/// A client that has read nothing.
pub open spec fn new_reader() -> Reader {
    Reader { message_started: false, finished: false, block: None, blocks: 0 }
}

/// Reads one event. `None` where the event has no place there: a second
/// `message_start` or `message_delta`, a block before the message has started or while
/// another is open, a block out of its turn, content for a block that is not the open
/// one or of another kind, or an end of the message while a block is open.
pub open spec fn read(r: Reader, event: EventView) -> Option<Reader> {
    match event {
        EventView::MessageStart { .. } => if !r.message_started {
            Some(Reader { message_started: true, ..r })
        } else {
            None
        },
        EventView::ContentBlockStart { index, content_block } => if r.message_started
            && r.block is None && index == r.blocks {
            Some(Reader { block: Some((content_block.kind(), index)), blocks: r.blocks + 1, ..r })
        } else {
            None
        },
        EventView::ContentBlockDelta { index, delta } => if r.block == Some((delta.kind(), index)) {
            Some(r)
        } else {
            None
        },
        EventView::ContentBlockStop { index } => match r.block {
            Some((_, open)) if open == index => Some(Reader { block: None, ..r }),
            _ => None,
        },
        EventView::MessageDelta { .. } => if r.message_started && !r.finished && r.block is None {
            Some(Reader { finished: true, ..r })
        } else {
            None
        },
        EventView::MessageStop => if r.block is None {
            Some(r)
        } else {
            None
        },
        EventView::Error { .. } => Some(r),
    }
}

/// Reads a run of events; `None` if one of them has no place where it stands.
pub open spec fn read_all(r: Reader, events: Seq<EventView>) -> Option<Reader>
    decreases events.len(),
{
    if events.len() == 0 {
        Some(r)
    } else {
        match read_all(r, events.drop_last()) {
            Some(q) => read(q, events.last()),
            None => None,
        }
    }
}

/// What a client knows once it has read everything up to the state `s`.
pub open spec fn reader_at(s: StateView) -> Reader {
    Reader {
        message_started: s.message_started,
        finished: s.finished,
        block: s.block,
        blocks: s.next_index,
    }
}

/// What an upstream can hand to the translation: a chunk, or the end marker.
pub enum Input {
    Chunk(ChunkView),
    Done,
}

/// Takes in one input.
pub open spec fn with_input(s: StateView, input: Input) -> (StateView, Seq<EventView>) {
    match input {
        Input::Chunk(chunk) => with_chunk(s, chunk),
        Input::Done => with_done(s),
    }
}

/// Takes in a run of inputs, in order.
pub open spec fn with_inputs(s: StateView, inputs: Seq<Input>) -> (StateView, Seq<EventView>)
    decreases inputs.len(),
{
    if inputs.len() == 0 {
        (s, seq![])
    } else {
        let (t, events) = with_inputs(s, inputs.drop_last());
        let (u, more) = with_input(t, inputs.last());
        (u, events + more)
    }
}

/// Taking in two runs of inputs one after the other is taking them in in one.
pub proof fn law_inputs_in_two_runs(s: StateView, a: Seq<Input>, b: Seq<Input>)
    ensures
        with_inputs(s, a + b).0 == with_inputs(with_inputs(s, a).0, b).0,
        with_inputs(s, a + b).1 == with_inputs(s, a).1 + with_inputs(with_inputs(s, a).0, b).1,
    decreases b.len(),
{
    if b.len() == 0 {
        assert(a + b =~= a);
        assert(with_inputs(s, a).1 + with_inputs(with_inputs(s, a).0, b).1 =~= with_inputs(
            s,
            a,
        ).1);
    } else {
        assert((a + b).drop_last() =~= a + b.drop_last());
        law_inputs_in_two_runs(s, a, b.drop_last());
        assert(with_inputs(s, a + b).1 =~= with_inputs(s, a).1 + with_inputs(
            with_inputs(s, a).0,
            b,
        ).1);
    }
}

/// Reading two runs of events one after the other is reading them in one.
proof fn lemma_read_concat(r: Reader, a: Seq<EventView>, b: Seq<EventView>)
    requires
        read_all(r, a) is Some,
    ensures
        read_all(r, a + b) == read_all(read_all(r, a)->0, b),
    decreases b.len(),
{
    if b.len() == 0 {
        assert(a + b =~= a);
    } else {
        assert((a + b).drop_last() =~= a + b.drop_last());
        lemma_read_concat(r, a, b.drop_last());
    }
}

/// Reading one event.
proof fn lemma_read_one(r: Reader, e: EventView)
    ensures
        read_all(r, seq![e]) == read(r, e),
{
    assert(seq![e].drop_last() =~= seq![]);
    assert(read_all(r, seq![e].drop_last()) == Some(r));
}

/// Reading one event more.
proof fn lemma_read_push(r: Reader, a: Seq<EventView>, e: EventView)
    ensures
        read_all(r, a.push(e)) == (match read_all(r, a) {
            Some(q) => read(q, e),
            None => None,
        }),
{
    assert(a.push(e).drop_last() =~= a);
}

proof fn lemma_read_closed(s: StateView)
    ensures
        read_all(reader_at(s), closed(s).1) == Some(reader_at(closed(s).0)),
{
    if let Some((_, index)) = s.block {
        lemma_read_one(reader_at(s), EventView::ContentBlockStop { index });
    }
}

proof fn lemma_read_opened(s: StateView, content_block: ContentBlockView)
    requires
        s.message_started,
    ensures
        read_all(reader_at(s), opened(s, content_block).1) == Some(
            reader_at(opened(s, content_block).0),
        ),
{
    lemma_read_closed(s);
    lemma_read_push(
        reader_at(s),
        closed(s).1,
        EventView::ContentBlockStart { index: s.next_index, content_block },
    );
}

proof fn lemma_read_fragment(s: StateView, thinking: bool, text: Option<Seq<char>>)
    requires
        s.message_started,
    ensures
        read_all(reader_at(s), with_fragment(s, thinking, text).1) == Some(
            reader_at(with_fragment(s, thinking, text).0),
        ),
{
    if let Some(t) = text {
        if t.len() > 0 {
            let delta = plain_delta(thinking, t);
            lemma_read_opened(s, plain_block(thinking));
            lemma_read_push(
                reader_at(s),
                opened(s, plain_block(thinking)).1,
                EventView::ContentBlockDelta { index: s.next_index, delta },
            );
            if let Some((kind, index)) = s.block {
                lemma_read_one(reader_at(s), EventView::ContentBlockDelta { index, delta });
            }
        }
    }
}

proof fn lemma_read_tool_call(s: StateView, call: ToolCallView)
    requires
        s.message_started,
    ensures
        read_all(reader_at(s), with_tool_call(s, call).1) == Some(
            reader_at(with_tool_call(s, call).0),
        ),
{
    if call.id is Some && !s.tool_call_map.contains_key(call.index) {
        lemma_read_opened(
            s,
            ContentBlockView::ToolUse { id: call.id->0, name: call.name.unwrap_or(seq![]) },
        );
    }
    let (o, events) = with_tool_start(s, call);
    let more = argument_events(o, call);
    if more.len() > 0 {
        lemma_read_one(reader_at(o), more[0]);
        assert(more =~= seq![more[0]]);
    }
    lemma_read_concat(reader_at(s), events, more);
}

proof fn lemma_read_tool_calls(s: StateView, calls: Seq<ToolCallView>)
    requires
        s.message_started,
    ensures
        with_tool_calls(s, calls).0.message_started,
        read_all(reader_at(s), with_tool_calls(s, calls).1) == Some(
            reader_at(with_tool_calls(s, calls).0),
        ),
    decreases calls.len(),
{
    if calls.len() > 0 {
        lemma_read_tool_calls(s, calls.drop_last());
        let (o, events) = with_tool_calls(s, calls.drop_last());
        lemma_read_tool_call(o, calls.last());
        lemma_read_concat(reader_at(s), events, with_tool_call(o, calls.last()).1);
    }
}

proof fn lemma_read_finish(s: StateView, finish_reason: Option<Seq<char>>)
    requires
        s.message_started,
    ensures
        read_all(reader_at(s), with_finish(s, finish_reason).1) == Some(
            reader_at(with_finish(s, finish_reason).0),
        ),
{
    if let Some(reason) = finish_reason {
        lemma_read_closed(s);
        lemma_read_push(
            reader_at(s),
            closed(s).1,
            EventView::MessageDelta { stop_reason: stop_reason(reason) },
        );
    }
}

proof fn lemma_read_choice(s: StateView, choice: ChoiceView)
    requires
        s.message_started,
    ensures
        read_all(reader_at(s), with_choice(s, choice).1) == Some(
            reader_at(with_choice(s, choice).0),
        ),
{
    let (a, thinking) = with_fragment(s, true, choice.reasoning);
    let (b, text) = with_fragment(a, false, choice.content);
    let (c, tools) = with_tool_calls(b, choice.tool_calls);
    let (d, end) = with_finish(c, choice.finish_reason);
    lemma_read_fragment(s, true, choice.reasoning);
    lemma_read_fragment(a, false, choice.content);
    lemma_read_tool_calls(b, choice.tool_calls);
    lemma_read_finish(c, choice.finish_reason);
    lemma_read_concat(reader_at(s), thinking, text);
    lemma_read_concat(reader_at(s), thinking + text, tools);
    lemma_read_concat(reader_at(s), thinking + text + tools, end);
}

/// The events of any input have their place behind those that came before.
pub proof fn law_input_follows_protocol(s: StateView, input: Input)
    ensures
        read_all(reader_at(s), with_input(s, input).1) == Some(reader_at(with_input(s, input).0)),
{
    match input {
        Input::Chunk(chunk) => {
            if let Some(choice) = chunk.choice {
                let (a, start) = started(s, chunk);
                if !s.message_started {
                    lemma_read_one(reader_at(s), start[0]);
                    assert(start =~= seq![start[0]]);
                }
                lemma_read_choice(a, choice);
                lemma_read_concat(reader_at(s), start, with_choice(a, choice).1);
            }
        },
        Input::Done => {
            lemma_read_closed(s);
            lemma_read_push(reader_at(s), closed(s).1, EventView::MessageStop);
        },
    }
}

/// Whatever the upstream sends, every event of the stream has its place.
pub proof fn law_stream_follows_protocol(fallback_model: Seq<char>, inputs: Seq<Input>)
    ensures
        with_inputs(initial(fallback_model), inputs).0.wf(),
        read_all(new_reader(), with_inputs(initial(fallback_model), inputs).1) == Some(
            reader_at(with_inputs(initial(fallback_model), inputs).0),
        ),
    decreases inputs.len(),
{
    let s = initial(fallback_model);
    if inputs.len() > 0 {
        law_stream_follows_protocol(fallback_model, inputs.drop_last());
        let (t, events) = with_inputs(s, inputs.drop_last());
        law_input_follows_protocol(t, inputs.last());
        lemma_read_concat(new_reader(), events, with_input(t, inputs.last()).1);
        if let Input::Chunk(chunk) = inputs.last() {
            law_chunk_keeps_wf(t, chunk);
        }
    }
}

/// The events of the stream that `inputs` make.
pub open spec fn stream_events(fallback_model: Seq<char>, inputs: Seq<Input>) -> Seq<EventView> {
    with_inputs(initial(fallback_model), inputs).1
}

/// Whether an event opens, fills or closes the block `index`.
pub open spec fn touches(event: EventView, index: int) -> bool {
    match event {
        EventView::ContentBlockStart { index: i, .. } => i == index,
        EventView::ContentBlockDelta { index: i, .. } => i == index,
        EventView::ContentBlockStop { index: i } => i == index,
        _ => false,
    }
}

/// What stays true of a client once it is true.
proof fn lemma_reader_grows(r: Reader, events: Seq<EventView>, gone: int)
    requires
        read_all(r, events) is Some,
        gone < r.blocks,
        r.block matches Some((_, i)) ==> i != gone,
    ensures
        r.message_started ==> read_all(r, events)->0.message_started,
        r.finished ==> read_all(r, events)->0.finished,
        read_all(r, events)->0.blocks >= r.blocks,
        read_all(r, events)->0.block matches Some((_, i)) ==> i != gone,
        forall|k: int| 0 <= k < events.len() ==> !touches(#[trigger] events[k], gone),
        r.message_started ==> forall|k: int|
            0 <= k < events.len() ==> !(#[trigger] events[k] is MessageStart),
        r.finished ==> forall|k: int|
            0 <= k < events.len() ==> !(#[trigger] events[k] is MessageDelta),
        forall|k: int|
            0 <= k < events.len() ==> (#[trigger] events[k] matches EventView::ContentBlockStart {
                index,
                ..
            } ==> index >= r.blocks),
    decreases events.len(),
{
    if events.len() > 0 {
        lemma_reader_grows(r, events.drop_last(), gone);
        assert forall|k: int| 0 <= k < events.len() implies (k < events.len() - 1 && events[k]
            == events.drop_last()[k]) || (k == events.len() - 1 && events[k] == events.last()) by {}
    }
}

/// A client that has started from nothing has counted the open block, and has seen the
/// message start.
proof fn lemma_reader_sound(events: Seq<EventView>)
    requires
        read_all(new_reader(), events) is Some,
    ensures
        ({
            let q = read_all(new_reader(), events)->0;
            &&& q.blocks >= 0
            &&& q.block matches Some((_, i)) ==> 0 <= i < q.blocks && q.message_started
            &&& q.message_started ==> exists|k: int|
                0 <= k < events.len() && #[trigger] events[k] is MessageStart
        }),
    decreases events.len(),
{
    if events.len() > 0 {
        let init = events.drop_last();
        lemma_reader_sound(init);
        let q = read_all(new_reader(), init)->0;
        if q.message_started {
            let k = choose|k: int| 0 <= k < init.len() && #[trigger] init[k] is MessageStart;
            assert(events[k] is MessageStart);
        } else {
            let last = events.len() - 1;
            assert(events[last] == events.last());
        }
    }
}

/// What comes before a point of a stream that reads well reads well.
proof fn lemma_read_prefix(r: Reader, events: Seq<EventView>, n: int)
    requires
        read_all(r, events) is Some,
        0 <= n <= events.len(),
    ensures
        read_all(r, events.take(n)) is Some,
        read_all(read_all(r, events.take(n))->0, events.skip(n)) is Some,
        n > 0 ==> read(read_all(r, events.take(n - 1))->0, events[n - 1]) == read_all(
            r,
            events.take(n),
        ) && read_all(r, events.take(n - 1)) is Some,
    decreases events.len(),
{
    if n < events.len() {
        lemma_read_prefix(r, events.drop_last(), n);
        assert(events.drop_last().take(n) =~= events.take(n));
        if n > 0 {
            assert(events.drop_last().take(n - 1) =~= events.take(n - 1));
        }
    } else {
        assert(events.take(n) =~= events);
        if n > 0 {
            assert(events.take(n - 1) =~= events.drop_last());
        }
    }
    lemma_read_concat(r, events.take(n), events.skip(n));
    assert(events.take(n) + events.skip(n) =~= events);
}

/// A block that has been closed is never touched again: nothing is added to it, and no
/// other block takes its index.
pub proof fn law_closed_block_gets_nothing_more(
    fallback_model: Seq<char>,
    inputs: Seq<Input>,
    i: int,
    j: int,
    index: int,
)
    requires
        0 <= i < j < stream_events(fallback_model, inputs).len(),
        stream_events(fallback_model, inputs)[i] == (EventView::ContentBlockStop { index }),
    ensures
        !touches(stream_events(fallback_model, inputs)[j], index),
{
    let events = stream_events(fallback_model, inputs);
    law_stream_follows_protocol(fallback_model, inputs);
    lemma_read_prefix(new_reader(), events, i + 1);
    lemma_reader_sound(events.take(i));
    let q = read_all(new_reader(), events.take(i + 1))->0;
    lemma_reader_grows(q, events.skip(i + 1), index);
    assert(events[j] == events.skip(i + 1)[j - i - 1]);
}

/// Blocks open under rising indices, so no index is used twice.
pub proof fn law_block_indices_rise(
    fallback_model: Seq<char>,
    inputs: Seq<Input>,
    i: int,
    j: int,
)
    requires
        0 <= i < j < stream_events(fallback_model, inputs).len(),
        stream_events(fallback_model, inputs)[i] is ContentBlockStart,
        stream_events(fallback_model, inputs)[j] is ContentBlockStart,
    ensures
        stream_events(fallback_model, inputs)[i]->ContentBlockStart_index < stream_events(
            fallback_model,
            inputs,
        )[j]->ContentBlockStart_index,
{
    let events = stream_events(fallback_model, inputs);
    law_stream_follows_protocol(fallback_model, inputs);
    lemma_read_prefix(new_reader(), events, i + 1);
    lemma_reader_sound(events.take(i + 1));
    let q = read_all(new_reader(), events.take(i + 1))->0;
    lemma_reader_grows(q, events.skip(i + 1), -1);
    assert(events[j] == events.skip(i + 1)[j - i - 1]);
}

/// The message starts once and ends once, however often the upstream says that it does.
pub proof fn law_message_starts_and_ends_once(
    fallback_model: Seq<char>,
    inputs: Seq<Input>,
    i: int,
    j: int,
)
    requires
        0 <= i < j < stream_events(fallback_model, inputs).len(),
    ensures
        stream_events(fallback_model, inputs)[i] is MessageStart ==> !(stream_events(
            fallback_model,
            inputs,
        )[j] is MessageStart),
        stream_events(fallback_model, inputs)[i] is MessageDelta ==> !(stream_events(
            fallback_model,
            inputs,
        )[j] is MessageDelta),
{
    let events = stream_events(fallback_model, inputs);
    law_stream_follows_protocol(fallback_model, inputs);
    lemma_read_prefix(new_reader(), events, i + 1);
    lemma_reader_sound(events.take(i + 1));
    let q = read_all(new_reader(), events.take(i + 1))->0;
    lemma_reader_grows(q, events.skip(i + 1), -1);
    assert(events[j] == events.skip(i + 1)[j - i - 1]);
}

/// No block, and no reason to stop, comes before the message has started.
pub proof fn law_message_start_comes_first(
    fallback_model: Seq<char>,
    inputs: Seq<Input>,
    i: int,
)
    requires
        0 <= i < stream_events(fallback_model, inputs).len(),
        ({
            let e = stream_events(fallback_model, inputs)[i];
            ||| e is ContentBlockStart
            ||| e is ContentBlockDelta
            ||| e is ContentBlockStop
            ||| e is MessageDelta
        }),
    ensures
        exists|k: int|
            0 <= k < i && #[trigger] stream_events(fallback_model, inputs)[k] is MessageStart,
{
    let events = stream_events(fallback_model, inputs);
    law_stream_follows_protocol(fallback_model, inputs);
    lemma_read_prefix(new_reader(), events, i + 1);
    lemma_reader_sound(events.take(i));
    let k = choose|k: int|
        0 <= k < events.take(i).len() && #[trigger] events.take(i)[k] is MessageStart;
    assert(events[k] is MessageStart);
}

/// The end marker closes what is open and ends the stream with `message_stop`.
pub proof fn law_done_closes_and_stops(fallback_model: Seq<char>, inputs: Seq<Input>)
    ensures
        stream_events(fallback_model, inputs.push(Input::Done)).last() == EventView::MessageStop,
        with_inputs(initial(fallback_model), inputs.push(Input::Done)).0.block is None,
{
    assert(inputs.push(Input::Done).drop_last() =~= inputs);
}

/// A chunk that only says why the message ends.
pub open spec fn only_finishes(chunk: ChunkView) -> bool {
    chunk.choice matches Some(choice) && {
        &&& no_text(choice.content)
        &&& no_text(choice.reasoning)
        &&& choice.tool_calls.len() == 0
        &&& choice.finish_reason is Some
    }
}

/// Whether a piece of content is missing or empty.
pub open spec fn no_text(text: Option<Seq<char>>) -> bool {
    text matches Some(t) ==> t.len() == 0
}

/// A second chunk that says why the message ends has no effect.
pub proof fn law_second_finish_does_nothing(s: StateView, first: ChunkView, second: ChunkView)
    requires
        only_finishes(first),
        only_finishes(second),
    ensures
        with_chunk(with_chunk(s, first).0, second) == (
            with_chunk(s, first).0,
            Seq::<EventView>::empty(),
        ),
{
    let t = with_chunk(s, first).0;
    assert(t.finished && t.message_started);
    assert(with_chunk(t, second).1 =~= seq![]);
}

/// A chunk that adds nothing and ends nothing makes no block and no content.
pub proof fn law_empty_pieces_are_not_sent(s: StateView, chunk: ChunkView)
    requires
        chunk.choice is Some,
        no_text(chunk.choice->0.content),
        no_text(chunk.choice->0.reasoning),
        chunk.choice->0.tool_calls.len() == 0,
        chunk.choice->0.finish_reason is None,
    ensures
        with_chunk(s, chunk) == started(s, chunk),
{
    assert(with_chunk(s, chunk).1 =~= started(s, chunk).1);
}

/// Text that comes after the end of the message opens a block of its own, under an index
/// that no block has had.
pub proof fn law_late_text_opens_a_new_block(s: StateView, finish: ChunkView, late: ChunkView)
    requires
        s.wf(),
        !s.finished,
        only_finishes(finish),
        late.choice is Some,
        late.choice->0.content is Some,
        late.choice->0.content->0.len() > 0,
        no_text(late.choice->0.reasoning),
        late.choice->0.tool_calls.len() == 0,
        late.choice->0.finish_reason is None,
    ensures
        with_chunk(s, finish).0.block is None,
        with_chunk(with_chunk(s, finish).0, late).1 == seq![
            EventView::ContentBlockStart {
                index: s.next_index,
                content_block: ContentBlockView::Text,
            },
            EventView::ContentBlockDelta {
                index: s.next_index,
                delta: BlockDeltaView::Text(late.choice->0.content->0),
            },
        ],
        s.block matches Some((_, i)) ==> i < s.next_index,
{
    let t = with_chunk(s, finish).0;
    assert(t.block is None);
    assert(with_chunk(t, late).1 =~= seq![
        EventView::ContentBlockStart {
            index: s.next_index,
            content_block: ContentBlockView::Text,
        },
        EventView::ContentBlockDelta {
            index: s.next_index,
            delta: BlockDeltaView::Text(late.choice->0.content->0),
        },
    ]);
}

/// Arguments for a tool call whose block is no longer open are dropped: they change
/// nothing and reach no other block.
pub proof fn law_late_arguments_are_dropped(s: StateView, call: ToolCallView)
    requires
        s.tool_call_map.contains_key(call.index),
        !tool_block_open(s, call.index),
    ensures
        with_tool_call(s, call) == (s, Seq::<EventView>::empty()),
{
    assert(with_tool_call(s, call).1 =~= seq![]);
}

/// Arguments for a tool call whose block is open go to that block.
pub proof fn law_arguments_reach_their_own_block(s: StateView, call: ToolCallView)
    requires
        tool_block_open(s, call.index),
        call.arguments is Some,
        call.arguments->0.len() > 0,
    ensures
        with_tool_call(s, call) == (
            s,
            seq![
                EventView::ContentBlockDelta {
                    index: s.tool_call_map[call.index],
                    delta: BlockDeltaView::InputJson(call.arguments->0),
                },
            ],
        ),
{
    assert(with_tool_call(s, call).1 =~= seq![
        EventView::ContentBlockDelta {
            index: s.tool_call_map[call.index],
            delta: BlockDeltaView::InputJson(call.arguments->0),
        },
    ]);
}

/// A tool call that shows its id for the first time gets a block that carries the id.
pub proof fn law_new_tool_call_opens_its_block(s: StateView, call: ToolCallView)
    requires
        call.id is Some,
        !s.tool_call_map.contains_key(call.index),
    ensures
        tool_block_open(with_tool_call(s, call).0, call.index),
        with_tool_call(s, call).0.tool_call_map[call.index] == s.next_index,
        with_tool_call(s, call).1.contains(
            EventView::ContentBlockStart {
                index: s.next_index,
                content_block: ContentBlockView::ToolUse {
                    id: call.id->0,
                    name: call.name.unwrap_or(seq![]),
                },
            },
        ),
{
    let events = with_tool_call(s, call).1;
    assert(events[closed(s).1.len() as int] == EventView::ContentBlockStart {
        index: s.next_index,
        content_block: ContentBlockView::ToolUse {
            id: call.id->0,
            name: call.name.unwrap_or(seq![]),
        },
    });
}

/// A piece of a tool call that brings the call's id for the first time, and arguments with
/// it, sends those arguments last, whole, to the block that it has just opened.
pub proof fn law_opening_piece_sends_its_arguments(
    s: StateView,
    call: ToolCallView,
    arguments: Seq<char>,
)
    requires
        call.id is Some,
        !s.tool_call_map.contains_key(call.index),
        call.arguments == Some(arguments),
        arguments.len() > 0,
    ensures
        with_tool_call(s, call).1.len() >= 2,
        with_tool_call(s, call).1.last() == (EventView::ContentBlockDelta {
            index: s.next_index,
            delta: BlockDeltaView::InputJson(arguments),
        }),
        with_tool_call(s, call).1[with_tool_call(s, call).1.len() - 2] == (
        EventView::ContentBlockStart {
            index: s.next_index,
            content_block: ContentBlockView::ToolUse {
                id: call.id->0,
                name: match call.name {
                    Some(name) => name,
                    None => seq![],
                },
            },
        }),
{
    let (o, opening) = with_tool_start(s, call);
    let more = argument_events(o, call);
    assert(more.len() == 1);
    assert(with_tool_call(s, call).1 =~= opening + more);
}

proof fn lemma_tool_calls_keep_map(s: StateView, calls: Seq<ToolCallView>, index: usize)
    requires
        s.tool_call_map.contains_key(index),
    ensures
        with_tool_calls(s, calls).0.tool_call_map.contains_key(index),
        with_tool_calls(s, calls).0.tool_call_map[index] == s.tool_call_map[index],
    decreases calls.len(),
{
    if calls.len() > 0 {
        lemma_tool_calls_keep_map(s, calls.drop_last(), index);
    }
}

/// A tool call keeps the block that was opened for it, whatever comes later.
pub proof fn law_tool_call_keeps_its_block(s: StateView, inputs: Seq<Input>, index: usize)
    requires
        s.tool_call_map.contains_key(index),
    ensures
        with_inputs(s, inputs).0.tool_call_map.contains_key(index),
        with_inputs(s, inputs).0.tool_call_map[index] == s.tool_call_map[index],
    decreases inputs.len(),
{
    if inputs.len() > 0 {
        law_tool_call_keeps_its_block(s, inputs.drop_last(), index);
        let t = with_inputs(s, inputs.drop_last()).0;
        if let Input::Chunk(chunk) = inputs.last() {
            if let Some(choice) = chunk.choice {
                let a = started(t, chunk).0;
                let b = with_fragment(a, true, choice.reasoning).0;
                let c = with_fragment(b, false, choice.content).0;
                lemma_tool_calls_keep_map(c, choice.tool_calls, index);
            }
        }
    }
}

/// The message is named by its first chunk; its model is the fallback where that chunk
/// names none.
pub proof fn law_fallback_model(fallback_model: Seq<char>, chunk: ChunkView)
    requires
        chunk.choice is Some,
    ensures
        with_chunk(initial(fallback_model), chunk).1.first() == (EventView::MessageStart {
            id: chunk.id.unwrap_or(seq![]),
            model: match chunk.model {
                Some(model) => model,
                None => fallback_model,
            },
            role: "assistant"@,
        }),
{
}

/// Whether none of the events is a `message_delta`.
pub open spec fn no_message_delta(events: Seq<EventView>) -> bool {
    forall|i: int| 0 <= i < events.len() ==> !(#[trigger] events[i] is MessageDelta)
}

proof fn lemma_tool_calls_do_not_finish(s: StateView, calls: Seq<ToolCallView>)
    ensures
        with_tool_calls(s, calls).0.finished == s.finished,
        no_message_delta(with_tool_calls(s, calls).1),
    decreases calls.len(),
{
    if calls.len() > 0 {
        lemma_tool_calls_do_not_finish(s, calls.drop_last());
        let (o, events) = with_tool_calls(s, calls.drop_last());
        let more = with_tool_call(o, calls.last()).1;
        assert(no_message_delta(more));
        assert forall|i: int| 0 <= i < (events + more).len() implies !(#[trigger] (events + more)[i]
            is MessageDelta) by {
            if i >= events.len() {
                assert((events + more)[i] == more[i - events.len()]);
            }
        }
    }
}

/// What a chunk sends is what comes before its end, and its end.
proof fn lemma_chunk_ends_with_its_finish(s: StateView, chunk: ChunkView) -> (before: (
    StateView,
    Seq<EventView>,
))
    requires
        chunk.choice is Some,
    ensures
        before.0.finished == s.finished,
        no_message_delta(before.1),
        with_chunk(s, chunk).1 == before.1 + with_finish(
            before.0,
            chunk.choice->0.finish_reason,
        ).1,
{
    let choice = chunk.choice->0;
    let (z, start) = started(s, chunk);
    let (a, thinking) = with_fragment(z, true, choice.reasoning);
    let (b, text) = with_fragment(a, false, choice.content);
    let (c, tools) = with_tool_calls(b, choice.tool_calls);
    let end = with_finish(c, choice.finish_reason).1;
    lemma_tool_calls_do_not_finish(b, choice.tool_calls);
    let before = start + (thinking + text + tools);
    assert(no_message_delta(start));
    assert(no_message_delta(thinking));
    assert(no_message_delta(text));
    assert(with_chunk(s, chunk).1 =~= before + end);
    (c, before)
}

/// A chunk that brings the first reason to stop sends `message_delta` once, as its last
/// event. The client's name for the reason depends on the reason alone, whatever came
/// before.
pub proof fn law_reason_alone_decides(s: StateView, chunk: ChunkView, reason: Seq<char>)
    requires
        chunk.choice is Some,
        chunk.choice->0.finish_reason == Some(reason),
        !s.finished,
    ensures
        with_chunk(s, chunk).0.finished,
        with_chunk(s, chunk).0.block is None,
        with_chunk(s, chunk).1.len() > 0,
        no_message_delta(with_chunk(s, chunk).1.drop_last()),
        with_chunk(s, chunk).1.last() is MessageDelta,
        reason == "tool_calls"@ ==> with_chunk(s, chunk).1.last() == (EventView::MessageDelta {
            stop_reason: "tool_use"@,
        }),
        reason == "length"@ ==> with_chunk(s, chunk).1.last() == (EventView::MessageDelta {
            stop_reason: "max_tokens"@,
        }),
        reason != "tool_calls"@ && reason != "length"@ ==> with_chunk(s, chunk).1.last() == (
        EventView::MessageDelta { stop_reason: "end_turn"@ }),
{
    let before = lemma_chunk_ends_with_its_finish(s, chunk);
    let events = with_chunk(s, chunk).1;
    let end = with_finish(before.0, Some(reason)).1;
    let choice = chunk.choice->0;
    let z = started(s, chunk).0;
    let a = with_fragment(z, true, choice.reasoning).0;
    let b = with_fragment(a, false, choice.content).0;
    lemma_tool_calls_do_not_finish(b, choice.tool_calls);
    reveal_strlit("tool_calls");
    reveal_strlit("length");
    assert("tool_calls"@.len() != "length"@.len());
    assert(events.drop_last() =~= before.1 + end.drop_last());
    assert forall|i: int| 0 <= i < events.drop_last().len() implies !(
    #[trigger] events.drop_last()[i] is MessageDelta) by {
        if i >= before.1.len() {
            assert(events.drop_last()[i] == end.drop_last()[i - before.1.len()]);
        }
    }
}

/// A chunk that brings no reason to stop, or one after the first, sends no
/// `message_delta`.
pub proof fn law_no_delta_without_a_reason(s: StateView, chunk: ChunkView)
    requires
        s.finished || (chunk.choice matches Some(choice) ==> choice.finish_reason is None),
    ensures
        no_message_delta(with_chunk(s, chunk).1),
        with_chunk(s, chunk).0.finished == s.finished,
{
    if let Some(choice) = chunk.choice {
        let before = lemma_chunk_ends_with_its_finish(s, chunk);
        assert(with_chunk(s, chunk).1 =~= before.1);
        let z = started(s, chunk).0;
        let a = with_fragment(z, true, choice.reasoning).0;
        let b = with_fragment(a, false, choice.content).0;
        lemma_tool_calls_do_not_finish(b, choice.tool_calls);
    }
}

/// A client that has seen the end has read a `message_delta`.
proof fn lemma_reader_finished(events: Seq<EventView>)
    requires
        read_all(new_reader(), events) is Some,
        no_message_delta(events),
    ensures
        !read_all(new_reader(), events)->0.finished,
    decreases events.len(),
{
    if events.len() > 0 {
        let init = events.drop_last();
        assert forall|i: int| 0 <= i < init.len() implies !(#[trigger] init[i] is MessageDelta) by {
            assert(init[i] == events[i]);
        }
        lemma_reader_finished(init);
        assert(events[events.len() - 1] == events.last());
    }
}

/// In a stream that has sent no `message_delta` yet, a chunk that brings a reason to stop
/// sends one, and it is the last event so far: `tool_use` for `tool_calls`, `max_tokens`
/// for `length`, and `end_turn` for `stop` and anything else.
pub proof fn law_stream_ends_for_the_reason_given(
    fallback_model: Seq<char>,
    inputs: Seq<Input>,
    chunk: ChunkView,
    reason: Seq<char>,
)
    requires
        no_message_delta(stream_events(fallback_model, inputs)),
        chunk.choice is Some,
        chunk.choice->0.finish_reason == Some(reason),
    ensures
        ({
            let events = stream_events(fallback_model, inputs.push(Input::Chunk(chunk)));
            &&& events.len() > stream_events(fallback_model, inputs).len()
            &&& no_message_delta(events.drop_last())
            &&& reason == "tool_calls"@ ==> events.last() == (EventView::MessageDelta {
                stop_reason: "tool_use"@,
            })
            &&& reason == "length"@ ==> events.last() == (EventView::MessageDelta {
                stop_reason: "max_tokens"@,
            })
            &&& reason != "tool_calls"@ && reason != "length"@ ==> events.last() == (
            EventView::MessageDelta { stop_reason: "end_turn"@ })
        }),
{
    let sent = stream_events(fallback_model, inputs);
    let s = with_inputs(initial(fallback_model), inputs).0;
    law_stream_follows_protocol(fallback_model, inputs);
    lemma_reader_finished(sent);
    law_reason_alone_decides(s, chunk, reason);
    let more = with_chunk(s, chunk).1;
    assert(inputs.push(Input::Chunk(chunk)).drop_last() =~= inputs);
    let events = stream_events(fallback_model, inputs.push(Input::Chunk(chunk)));
    assert(events =~= sent + more);
    assert forall|i: int| 0 <= i < events.drop_last().len() implies !(
    #[trigger] events.drop_last()[i] is MessageDelta) by {
        if i < sent.len() {
            assert(events.drop_last()[i] == sent[i]);
        } else {
            assert(events.drop_last()[i] == more.drop_last()[i - sent.len()]);
        }
    }
}

} // verus!

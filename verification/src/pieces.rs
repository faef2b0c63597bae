//! What each piece of a chunk comes to, in every state of the stream: a piece of text or
//! of thinking, a piece of a tool call, the reason for the end, and the end marker. A
//! chunk that holds several is taken in as if each came in a chunk of its own.

use crate::model::{
    BlockDeltaView, BlockKind, ChoiceView, ChunkView, ContentBlockView, EventView, ToolCallView,
};
use crate::protocol::{law_inputs_in_two_runs, with_inputs, Input};
use crate::stream::{
    argument_events, initial, started, with_choice, with_chunk, with_done, with_finish,
    with_fragment, with_tool_call, with_tool_calls, StateView,
};
use vstd::prelude::*;

verus! {

/// A stream starts with nothing open, nothing sent and no tool calls.
pub proof fn law_stream_starts_empty(fallback_model: Seq<char>)
    ensures
        initial(fallback_model) == (StateView {
            fallback_model,
            message_started: false,
            finished: false,
            block: None,
            next_index: 0,
            tool_call_map: Map::empty(),
        }),
{
}

/// A run of one input is that input, and a run of none changes nothing. With the law of
/// two runs this tells what every run comes to.
pub proof fn law_run_of_one(s: StateView, chunk: ChunkView)
    ensures
        with_inputs(s, seq![]) == (s, Seq::<EventView>::empty()),
        with_inputs(s, seq![Input::Chunk(chunk)]) == with_chunk(s, chunk),
        with_inputs(s, seq![Input::Done]) == with_done(s),
{
    assert(seq![Input::Chunk(chunk)].drop_last() =~= seq![]);
    assert(seq![Input::Done].drop_last() =~= seq![]);
    assert(with_inputs(s, seq![]) == (s, Seq::<EventView>::empty()));
    assert(with_inputs(s, seq![Input::Chunk(chunk)].drop_last()) == (s, Seq::<EventView>::empty()));
    assert(with_inputs(s, seq![Input::Done].drop_last()) == (s, Seq::<EventView>::empty()));
    assert(with_inputs(s, seq![Input::Chunk(chunk)]).1 =~= with_chunk(s, chunk).1);
    assert(with_inputs(s, seq![Input::Done]).1 =~= with_done(s).1);
}

/// A chunk without a choice changes nothing and sends nothing.
pub proof fn law_chunk_without_a_choice(s: StateView, chunk: ChunkView)
    requires
        chunk.choice is None,
    ensures
        with_chunk(s, chunk) == (s, Seq::<EventView>::empty()),
{
}

/// Until the message has started, a chunk sends `message_start` ahead of everything else,
/// with its own id and model; an id that it does not name is empty, and a model that it
/// does not name is the fallback. Apart from that it makes no difference that the message
/// had not started.
pub proof fn law_first_chunk_starts_the_message(s: StateView, chunk: ChunkView)
    requires
        chunk.choice is Some,
        !s.message_started,
    ensures
        ({
            let (t, events) = with_chunk(StateView { message_started: true, ..s }, chunk);
            with_chunk(s, chunk) == (
                t,
                seq![
                    EventView::MessageStart {
                        id: match chunk.id {
                            Some(id) => id,
                            None => seq![],
                        },
                        model: match chunk.model {
                            Some(model) => model,
                            None => s.fallback_model,
                        },
                        role: "assistant"@,
                    },
                ] + events,
            )
        }),
{
    let r = StateView { message_started: true, ..s };
    assert(with_chunk(r, chunk).1 =~= with_choice(r, chunk.choice->0).1);
}

/// The id and the model of a chunk play no part once the message has started.
pub proof fn law_later_chunks_name_nothing(s: StateView, a: ChunkView, b: ChunkView)
    requires
        s.message_started,
        a.choice == b.choice,
    ensures
        with_chunk(s, a) == with_chunk(s, b),
{
}

/// A choice that adds nothing.
pub open spec fn nothing() -> ChoiceView {
    ChoiceView { content: None, reasoning: None, tool_calls: seq![], finish_reason: None }
}

/// A chunk like `chunk`, with `choice` in the place of its own.
pub open spec fn saying(chunk: ChunkView, choice: ChoiceView) -> ChunkView {
    ChunkView { choice: Some(choice), ..chunk }
}

/// A chunk that adds nothing changes nothing, once the message has started.
pub proof fn law_empty_chunk_does_nothing(s: StateView, chunk: ChunkView)
    requires
        s.message_started,
    ensures
        with_chunk(s, saying(chunk, nothing())) == (s, Seq::<EventView>::empty()),
{
    assert(with_chunk(s, saying(chunk, nothing())).1 =~= seq![]);
}

/// A piece of text goes to the open block if that is a block of text, and else to a new
/// one under the next index; the block that was open is closed before. An empty piece
/// does nothing.
pub proof fn law_piece_of_text(s: StateView, chunk: ChunkView, t: Seq<char>)
    requires
        s.message_started,
    ensures
        ({
            let n = s.next_index;
            let after = StateView { block: Some((BlockKind::Text, n)), next_index: n + 1, ..s };
            let start = EventView::ContentBlockStart {
                index: n,
                content_block: ContentBlockView::Text,
            };
            let delta = EventView::ContentBlockDelta { index: n, delta: BlockDeltaView::Text(t) };
            with_chunk(s, saying(chunk, ChoiceView { content: Some(t), ..nothing() })) == (
            if t.len() == 0 {
                (s, Seq::<EventView>::empty())
            } else {
                match s.block {
                    None => (after, seq![start, delta]),
                    Some((BlockKind::Text, index)) => (
                        s,
                        seq![
                            EventView::ContentBlockDelta { index, delta: BlockDeltaView::Text(t) },
                        ],
                    ),
                    Some((_, index)) => (
                        after,
                        seq![EventView::ContentBlockStop { index }, start, delta],
                    ),
                }
            })
        }),
{
    let got = with_chunk(s, saying(chunk, ChoiceView { content: Some(t), ..nothing() }));
    let part = with_fragment(s, false, Some(t));
    assert(got.1 =~= part.1);
}

/// A piece of thinking goes to the open block if that is a block of thinking, and else to
/// a new one under the next index; the block that was open is closed before. An empty
/// piece does nothing.
pub proof fn law_piece_of_thinking(s: StateView, chunk: ChunkView, t: Seq<char>)
    requires
        s.message_started,
    ensures
        ({
            let n = s.next_index;
            let after = StateView { block: Some((BlockKind::Thinking, n)), next_index: n + 1, ..s };
            let start = EventView::ContentBlockStart {
                index: n,
                content_block: ContentBlockView::Thinking,
            };
            let delta = EventView::ContentBlockDelta {
                index: n,
                delta: BlockDeltaView::Thinking(t),
            };
            with_chunk(s, saying(chunk, ChoiceView { reasoning: Some(t), ..nothing() })) == (
            if t.len() == 0 {
                (s, Seq::<EventView>::empty())
            } else {
                match s.block {
                    None => (after, seq![start, delta]),
                    Some((BlockKind::Thinking, index)) => (
                        s,
                        seq![
                            EventView::ContentBlockDelta {
                                index,
                                delta: BlockDeltaView::Thinking(t),
                            },
                        ],
                    ),
                    Some((_, index)) => (
                        after,
                        seq![EventView::ContentBlockStop { index }, start, delta],
                    ),
                }
            })
        }),
{
    let got = with_chunk(s, saying(chunk, ChoiceView { reasoning: Some(t), ..nothing() }));
    let part = with_fragment(s, true, Some(t));
    assert(got.1 =~= part.1);
}

/// A run of one tool call is that tool call.
proof fn lemma_one_call(s: StateView, call: ToolCallView)
    ensures
        with_tool_calls(s, seq![call]) == with_tool_call(s, call),
{
    assert(seq![call].drop_last() =~= seq![]);
    assert(with_tool_calls(s, seq![call].drop_last()) == (s, Seq::<EventView>::empty()));
    assert(with_tool_calls(s, seq![call]).1 =~= with_tool_call(s, call).1);
}

/// The first piece of a tool call that brings an id opens a block under the next index,
/// with that id and the name of the function; the block that was open is closed before.
/// Arguments that the same piece brings go to the new block.
pub proof fn law_piece_that_opens_a_tool_call(s: StateView, chunk: ChunkView, call: ToolCallView)
    requires
        s.message_started,
        call.id is Some,
        !s.tool_call_map.contains_key(call.index),
    ensures
        ({
            let n = s.next_index;
            let stop = match s.block {
                Some((_, index)) => seq![EventView::ContentBlockStop { index }],
                None => seq![],
            };
            let start = EventView::ContentBlockStart {
                index: n,
                content_block: ContentBlockView::ToolUse {
                    id: call.id->0,
                    name: match call.name {
                        Some(name) => name,
                        None => seq![],
                    },
                },
            };
            let arguments = match call.arguments {
                Some(a) if a.len() > 0 => seq![
                    EventView::ContentBlockDelta { index: n, delta: BlockDeltaView::InputJson(a) },
                ],
                _ => seq![],
            };
            with_chunk(s, saying(chunk, ChoiceView { tool_calls: seq![call], ..nothing() })) == (
                StateView {
                    block: Some((BlockKind::ToolUse, n)),
                    next_index: n + 1,
                    tool_call_map: s.tool_call_map.insert(call.index, n),
                    ..s
                },
                stop + seq![start] + arguments,
            )
        }),
{
    let choice = ChoiceView { tool_calls: seq![call], ..nothing() };
    let got = with_chunk(s, saying(chunk, choice));
    let n = s.next_index;
    let stop = match s.block {
        Some((_, index)) => seq![EventView::ContentBlockStop { index }],
        None => seq![],
    };
    let start = EventView::ContentBlockStart {
        index: n,
        content_block: ContentBlockView::ToolUse {
            id: call.id->0,
            name: match call.name {
                Some(name) => name,
                None => seq![],
            },
        },
    };
    let arguments = match call.arguments {
        Some(a) if a.len() > 0 => seq![
            EventView::ContentBlockDelta { index: n, delta: BlockDeltaView::InputJson(a) },
        ],
        _ => seq![],
    };
    lemma_one_call(s, call);
    assert(got.1 =~= with_tool_call(s, call).1);
    assert(with_tool_call(s, call).1 =~= stop + seq![start] + arguments);
}

/// Any other piece of a tool call opens nothing. The arguments that it brings go to the
/// call's own block while that is open, and nowhere else after that, or where there is
/// no such block.
pub proof fn law_piece_that_goes_on_with_a_tool_call(
    s: StateView,
    chunk: ChunkView,
    call: ToolCallView,
)
    requires
        s.message_started,
        call.id is None || s.tool_call_map.contains_key(call.index),
    ensures
        with_chunk(s, saying(chunk, ChoiceView { tool_calls: seq![call], ..nothing() })) == (
            s,
            if s.tool_call_map.contains_key(call.index) && s.block == Some(
                (BlockKind::ToolUse, s.tool_call_map[call.index]),
            ) && call.arguments is Some && call.arguments->0.len() > 0 {
                seq![
                    EventView::ContentBlockDelta {
                        index: s.tool_call_map[call.index],
                        delta: BlockDeltaView::InputJson(call.arguments->0),
                    },
                ]
            } else {
                seq![]
            },
        ),
{
    let choice = ChoiceView { tool_calls: seq![call], ..nothing() };
    let got = with_chunk(s, saying(chunk, choice));
    lemma_one_call(s, call);
    assert(got.1 =~= with_tool_call(s, call).1);
    assert(with_tool_call(s, call).1 =~= argument_events(s, call));
}

/// The first reason to stop closes the open block and sends `message_delta`; a later one
/// does nothing. The client's name for the reason depends on the reason alone.
pub proof fn law_piece_that_finishes(s: StateView, chunk: ChunkView, reason: Seq<char>)
    requires
        s.message_started,
    ensures
        ({
            let delta = EventView::MessageDelta {
                stop_reason: if reason == "tool_calls"@ {
                    "tool_use"@
                } else if reason == "length"@ {
                    "max_tokens"@
                } else {
                    "end_turn"@
                },
            };
            with_chunk(s, saying(chunk, ChoiceView { finish_reason: Some(reason), ..nothing() }))
                == (if s.finished {
                (s, Seq::<EventView>::empty())
            } else {
                (
                    StateView { finished: true, block: None, ..s },
                    match s.block {
                        Some((_, index)) => seq![EventView::ContentBlockStop { index }, delta],
                        None => seq![delta],
                    },
                )
            })
        }),
{
    let choice = ChoiceView { finish_reason: Some(reason), ..nothing() };
    let got = with_chunk(s, saying(chunk, choice));
    assert(got.1 =~= with_finish(s, Some(reason)).1);
}

/// The end marker closes the open block and sends `message_stop`, whatever came before.
pub proof fn law_end_marker(s: StateView)
    ensures
        with_done(s) == (
            StateView { block: None, ..s },
            match s.block {
                Some((_, index)) => seq![
                    EventView::ContentBlockStop { index },
                    EventView::MessageStop,
                ],
                None => seq![EventView::MessageStop],
            },
        ),
{
    assert(with_done(s).1 =~= match s.block {
        Some((_, index)) => seq![EventView::ContentBlockStop { index }, EventView::MessageStop],
        None => seq![EventView::MessageStop],
    });
}

/// Pieces of tool calls, each in a chunk of its own.
pub open spec fn call_by_call(chunk: ChunkView, calls: Seq<ToolCallView>) -> Seq<Input> {
    calls.map_values(
        |call: ToolCallView|
            Input::Chunk(saying(chunk, ChoiceView { tool_calls: seq![call], ..nothing() })),
    )
}

/// A choice taken apart: the thinking, the text, the pieces of tool calls and the reason
/// to stop, in this order, each in a chunk of its own.
pub open spec fn taken_apart(chunk: ChunkView, choice: ChoiceView) -> Seq<Input> {
    seq![
        Input::Chunk(saying(chunk, ChoiceView { reasoning: choice.reasoning, ..nothing() })),
        Input::Chunk(saying(chunk, ChoiceView { content: choice.content, ..nothing() })),
    ] + call_by_call(chunk, choice.tool_calls) + seq![
        Input::Chunk(
            saying(chunk, ChoiceView { finish_reason: choice.finish_reason, ..nothing() }),
        ),
    ]
}

proof fn lemma_call_by_call(s: StateView, chunk: ChunkView, calls: Seq<ToolCallView>)
    requires
        s.message_started,
    ensures
        with_inputs(s, call_by_call(chunk, calls)) == with_tool_calls(s, calls),
        with_tool_calls(s, calls).0.message_started,
    decreases calls.len(),
{
    let inputs = call_by_call(chunk, calls);
    if calls.len() == 0 {
        assert(inputs =~= seq![]);
    } else {
        let init = calls.drop_last();
        lemma_call_by_call(s, chunk, init);
        assert(inputs.drop_last() =~= call_by_call(chunk, init));
        let t = with_tool_calls(s, init).0;
        let choice = ChoiceView { tool_calls: seq![calls.last()], ..nothing() };
        lemma_one_call(t, calls.last());
        assert(with_chunk(t, saying(chunk, choice)).1 =~= with_tool_call(t, calls.last()).1);
        assert(inputs.last() == Input::Chunk(saying(chunk, choice)));
    }
}

/// What the thinking, the text and the reason to stop come to, each in a chunk of its own.
proof fn lemma_plain_pieces(s: StateView, chunk: ChunkView, choice: ChoiceView)
    ensures
        ({
            let thinking = ChoiceView { reasoning: choice.reasoning, ..nothing() };
            let a = started(s, chunk);
            let b = with_fragment(a.0, true, choice.reasoning);
            with_chunk(s, saying(chunk, thinking)) == (b.0, a.1 + b.1)
        }),
        s.message_started ==> with_chunk(
            s,
            saying(chunk, ChoiceView { content: choice.content, ..nothing() }),
        ) == with_fragment(s, false, choice.content),
        s.message_started ==> with_chunk(
            s,
            saying(chunk, ChoiceView { finish_reason: choice.finish_reason, ..nothing() }),
        ) == with_finish(s, choice.finish_reason),
{
    let thinking = ChoiceView { reasoning: choice.reasoning, ..nothing() };
    let text = ChoiceView { content: choice.content, ..nothing() };
    let finish = ChoiceView { finish_reason: choice.finish_reason, ..nothing() };
    let a = started(s, chunk);
    let b = with_fragment(a.0, true, choice.reasoning);
    assert(with_chunk(s, saying(chunk, thinking)).1 =~= a.1 + b.1);
    if s.message_started {
        assert(with_chunk(s, saying(chunk, text)).1 =~= with_fragment(s, false, choice.content).1);
        assert(with_chunk(s, saying(chunk, finish)).1 =~= with_finish(s, choice.finish_reason).1);
    }
}

/// Four runs of inputs in a row.
proof fn lemma_four_runs(
    s: StateView,
    p: Seq<Input>,
    q: Seq<Input>,
    r: Seq<Input>,
    t: Seq<Input>,
)
    ensures
        ({
            let b = with_inputs(s, p);
            let c = with_inputs(b.0, q);
            let d = with_inputs(c.0, r);
            let e = with_inputs(d.0, t);
            with_inputs(s, p + q + r + t) == (e.0, b.1 + c.1 + d.1 + e.1)
        }),
{
    law_inputs_in_two_runs(s, p, q);
    law_inputs_in_two_runs(s, p + q, r);
    law_inputs_in_two_runs(s, p + q + r, t);
}

/// Fragments keep the message started.
proof fn lemma_fragment_keeps_start(s: StateView, thinking: bool, text: Option<Seq<char>>)
    ensures
        with_fragment(s, thinking, text).0.message_started == s.message_started,
{
}

/// A chunk that holds several pieces is taken in as if each came in a chunk of its own:
/// thinking first, then text, then the tool calls in order, then the reason to stop.
pub proof fn law_chunk_comes_apart(s: StateView, chunk: ChunkView)
    requires
        chunk.choice is Some,
    ensures
        with_inputs(s, taken_apart(chunk, chunk.choice->0)) == with_chunk(s, chunk),
{
    let choice = chunk.choice->0;
    let thinking = saying(chunk, ChoiceView { reasoning: choice.reasoning, ..nothing() });
    let text = saying(chunk, ChoiceView { content: choice.content, ..nothing() });
    let finish = saying(chunk, ChoiceView { finish_reason: choice.finish_reason, ..nothing() });
    let calls = call_by_call(chunk, choice.tool_calls);
    let a = started(s, chunk);
    let b = with_fragment(a.0, true, choice.reasoning);
    let c = with_fragment(b.0, false, choice.content);
    let d = with_tool_calls(c.0, choice.tool_calls);
    let e = with_finish(d.0, choice.finish_reason);
    lemma_fragment_keeps_start(a.0, true, choice.reasoning);
    lemma_fragment_keeps_start(b.0, false, choice.content);
    lemma_plain_pieces(s, chunk, choice);
    lemma_plain_pieces(b.0, chunk, choice);
    lemma_plain_pieces(d.0, chunk, choice);
    lemma_call_by_call(c.0, chunk, choice.tool_calls);
    law_run_of_one(s, thinking);
    law_run_of_one(b.0, text);
    law_run_of_one(d.0, finish);
    let first = seq![Input::Chunk(thinking)];
    let second = seq![Input::Chunk(text)];
    let last = seq![Input::Chunk(finish)];
    lemma_four_runs(s, first, second, calls, last);
    assert(taken_apart(chunk, choice) =~= first + second + calls + last);
    lemma_chunk_parts(a.1, b.1, c.1, d.1, e.1);
    assert(with_chunk(s, chunk) == (e.0, a.1 + (b.1 + c.1 + d.1 + e.1)));
}

/// Runs of events put together in one order or the other.
proof fn lemma_chunk_parts(
    a: Seq<EventView>,
    b: Seq<EventView>,
    c: Seq<EventView>,
    d: Seq<EventView>,
    e: Seq<EventView>,
)
    ensures
        a + b + c + d + e == a + (b + c + d + e),
{
    assert(a + b + c + d + e =~= a + (b + c + d + e));
}

} // verus!

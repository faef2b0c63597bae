//! What each call promises, over its arguments and its result as the caller holds them.

use crate::config::{translation_policy, Config, TranslationPolicy};
use crate::content::{brought, brought_by, carried_by, law_all_text_comes_through};
use crate::framing::{law_data_frame, law_frame_by_frame, lemma_data_frame, unbroken};
use crate::model::{
    event_views, BlockDelta, BlockDeltaView, ChunkView, ContentBlock, ContentBlockView,
    DeltaToolCall, EventView, StreamChoice, StreamChunk, StreamEvent,
};
use crate::pieces::{law_end_marker, law_run_of_one};
use crate::protocol::{law_inputs_in_two_runs, law_reason_alone_decides, with_inputs, Input};
use crate::proxy::{
    header_fields, recorded_status, stream_fields, stream_headers, wants_stream, Exchange, Next,
    Record, Stage,
};
use crate::relay::{
    answered, create_sse_stream, inputs_of, inputs_of_payload, inputs_of_payloads,
    lemma_inputs_of_payloads_concat, room_for, serialize_event, total_demand, Incoming, JsonLine,
    SseStream,
};
use crate::sse::{frame_payloads, payload_views, payloads, pending, Decoder, Payload};
use crate::stream::{
    has_room, initial, initial_state, map_stop_reason, room, translate_chunk, translate_done,
    translate_error, with_chunk, with_done, StateView, StreamState,
};
use crate::text::{trimmed, utf8_lossy};
use axum::http::{HeaderMap, HeaderValue};
use vstd::prelude::*;
use vstd::utf8::{decode_utf8, valid_utf8};

verus! {

/// Whether an optional string reads as an optional text says.
pub open spec fn reads(s: Option<String>, t: Option<Seq<char>>) -> bool {
    match s {
        Some(s) => t == Some(s@),
        None => t is None,
    }
}

/// A piece of a tool call is seen as it is.
pub proof fn law_tool_call_view(call: DeltaToolCall)
    ensures
        call@.index == call.index,
        reads(call.id, call@.id),
        match call.function {
            Some(f) => reads(f.name, call@.name) && reads(f.arguments, call@.arguments),
            None => call@.name is None && call@.arguments is None,
        },
{
}

/// A choice is seen as it is, with all its pieces of tool calls in order.
pub proof fn law_choice_view(choice: StreamChoice)
    ensures
        reads(choice.delta.content, choice@.content),
        reads(choice.delta.reasoning, choice@.reasoning),
        reads(choice.finish_reason, choice@.finish_reason),
        choice@.tool_calls.len() == choice.delta.tool_calls@.len(),
        forall|i: int|
            0 <= i < choice@.tool_calls.len() ==> #[trigger] choice@.tool_calls[i]
                == choice.delta.tool_calls@[i]@,
{
}

/// A chunk is seen as it is, with the first of its choices.
pub proof fn law_chunk_view(chunk: StreamChunk)
    ensures
        reads(chunk.id, chunk@.id),
        reads(chunk.model, chunk@.model),
        chunk.choices@.len() == 0 ==> chunk@.choice is None,
        chunk.choices@.len() > 0 ==> chunk@.choice == Some(chunk.choices@[0]@),
{
}

/// An event is seen as it is.
pub proof fn law_event_view(event: StreamEvent)
    ensures
        match event {
            StreamEvent::MessageStart { id, model, role } => event@ == (EventView::MessageStart {
                id: id@,
                model: model@,
                role: role@,
            }),
            StreamEvent::ContentBlockStart { index, content_block } => {
                event@ matches EventView::ContentBlockStart { index: i, content_block: seen } && i
                    == index && match content_block {
                    ContentBlock::Text => seen == ContentBlockView::Text,
                    ContentBlock::Thinking => seen == ContentBlockView::Thinking,
                    ContentBlock::ToolUse { id, name } => seen == (ContentBlockView::ToolUse {
                        id: id@,
                        name: name@,
                    }),
                }
            },
            StreamEvent::ContentBlockDelta { index, delta } => {
                event@ matches EventView::ContentBlockDelta { index: i, delta: seen } && i == index
                    && match delta {
                    BlockDelta::Text(t) => seen == BlockDeltaView::Text(t@),
                    BlockDelta::Thinking(t) => seen == BlockDeltaView::Thinking(t@),
                    BlockDelta::InputJson(t) => seen == BlockDeltaView::InputJson(t@),
                }
            },
            StreamEvent::ContentBlockStop { index } => event@ == (EventView::ContentBlockStop {
                index: index as int,
            }),
            StreamEvent::MessageDelta { stop_reason } => event@ == (EventView::MessageDelta {
                stop_reason: stop_reason@,
            }),
            StreamEvent::MessageStop => event@ == EventView::MessageStop,
            StreamEvent::Error { message } => event@ == (EventView::Error { message: message@ }),
        },
{
}

/// Runs of events and of payloads are seen one by one.
pub proof fn law_views_of_runs(events: Seq<StreamEvent>, ps: Seq<Payload>)
    ensures
        event_views(events).len() == events.len(),
        forall|i: int| 0 <= i < events.len() ==> #[trigger] event_views(events)[i] == events[i]@,
        payload_views(ps).len() == ps.len(),
        forall|i: int| 0 <= i < ps.len() ==> #[trigger] payload_views(ps)[i] == ps[i]@,
{
}

/// The names of the events on the wire.
pub proof fn law_event_names(event: &StreamEvent, name: &'static str)
    requires
        call_ensures(StreamEvent::event_type, (event,), name),
    ensures
        match *event {
            StreamEvent::MessageStart { .. } => name@ == "message_start"@,
            StreamEvent::ContentBlockStart { .. } => name@ == "content_block_start"@,
            StreamEvent::ContentBlockDelta { .. } => name@ == "content_block_delta"@,
            StreamEvent::ContentBlockStop { .. } => name@ == "content_block_stop"@,
            StreamEvent::MessageDelta { .. } => name@ == "message_delta"@,
            StreamEvent::MessageStop => name@ == "message_stop"@,
            StreamEvent::Error { .. } => name@ == "error"@,
        },
{
}

/// The names of the kinds of block on the wire.
pub proof fn law_block_names(block: &ContentBlock, name: &'static str)
    requires
        call_ensures(ContentBlock::block_type, (block,), name),
    ensures
        match *block {
            ContentBlock::Text => name@ == "text"@,
            ContentBlock::Thinking => name@ == "thinking"@,
            ContentBlock::ToolUse { .. } => name@ == "tool_use"@,
        },
{
}

/// The names of the kinds of delta on the wire.
pub proof fn law_delta_names(delta: &BlockDelta, name: &'static str)
    requires
        call_ensures(BlockDelta::delta_type, (delta,), name),
    ensures
        match *delta {
            BlockDelta::Text(_) => name@ == "text_delta"@,
            BlockDelta::Thinking(_) => name@ == "thinking_delta"@,
            BlockDelta::InputJson(_) => name@ == "input_json_delta"@,
        },
{
}

/// The client's name for a reason to stop.
pub proof fn law_stop_reasons(reason: &str, name: String)
    requires
        call_ensures(map_stop_reason, (reason,), name),
    ensures
        reason@ == "tool_calls"@ ==> name@ == "tool_use"@,
        reason@ == "length"@ ==> name@ == "max_tokens"@,
        reason@ != "tool_calls"@ && reason@ != "length"@ ==> name@ == "end_turn"@,
{
    reveal_strlit("tool_calls");
    reveal_strlit("length");
    assert("tool_calls"@.len() != "length"@.len());
}

/// There is room for a chunk while the indices last: one for thinking, one for text and
/// one for each piece of a tool call.
pub proof fn law_room(state: &StreamState, chunk: &StreamChunk, fits: bool)
    requires
        call_ensures(has_room, (state, chunk), fits),
    ensures
        fits == room(state@, chunk@),
        chunk.choices@.len() == 0 && state@.next_index <= usize::MAX ==> fits,
        chunk.choices@.len() > 0 ==> (fits <==> state@.next_index + 2
            + chunk.choices@[0].delta.tool_calls@.len() <= usize::MAX),
{
}

/// A chunk that brings the first reason to stop ends with `message_delta`, under the
/// client's name for that reason.
pub proof fn law_translated_finish(
    state: &mut StreamState,
    chunk: &StreamChunk,
    events: Vec<StreamEvent>,
    reason: String,
)
    requires
        call_ensures(translate_chunk, (state, chunk), events),
        chunk.choices@.len() > 0,
        chunk.choices@[0].finish_reason == Some(reason),
        !old(state)@.finished,
    ensures
        events@.len() > 0,
        events@[events@.len() - 1] matches StreamEvent::MessageDelta { stop_reason } && {
            &&& reason@ == "tool_calls"@ ==> stop_reason@ == "tool_use"@
            &&& reason@ == "length"@ ==> stop_reason@ == "max_tokens"@
            &&& reason@ != "tool_calls"@ && reason@ != "length"@ ==> stop_reason@ == "end_turn"@
        },
{
    law_reason_alone_decides(old(state)@, chunk@, reason@);
    law_views_of_runs(events@, seq![]);
    assert(event_views(events@).last() == events@[events@.len() - 1]@);
}

/// A chunk is translated into events that carry its text and its thinking, whole.
pub proof fn law_translated_text(
    state: &mut StreamState,
    chunk: &StreamChunk,
    events: Vec<StreamEvent>,
    thinking: bool,
)
    requires
        call_ensures(translate_chunk, (state, chunk), events),
        chunk.choices@.len() > 0,
    ensures
        carried_by(event_views(events@), thinking) == (match (if thinking {
            chunk.choices@[0].delta.reasoning
        } else {
            chunk.choices@[0].delta.content
        }) {
            Some(t) => t@,
            None => seq![],
        }),
{
    let inputs = seq![Input::Chunk(chunk@)];
    law_run_of_one(old(state)@, chunk@);
    law_all_text_comes_through(old(state)@, inputs, thinking);
    assert(inputs.drop_last() =~= seq![]);
    assert(brought_by(inputs.drop_last(), thinking) =~= seq![]);
    assert(brought_by(inputs, thinking) =~= brought(Input::Chunk(chunk@), thinking));
}

/// The state of the translation goes on from chunk to chunk.
pub proof fn law_translated_chunk(
    state: &mut StreamState,
    chunk: &StreamChunk,
    events: Vec<StreamEvent>,
)
    requires
        call_ensures(translate_chunk, (state, chunk), events),
    ensures
        with_inputs(old(state)@, seq![Input::Chunk(chunk@)]) == (
            final(state)@,
            event_views(events@),
        ),
{
    law_run_of_one(old(state)@, chunk@);
}

/// The end marker closes what is open and is answered with `message_stop`.
pub proof fn law_translated_end(state: &mut StreamState, events: Vec<StreamEvent>)
    requires
        call_ensures(translate_done, (state,), events),
    ensures
        final(state)@.block is None,
        events@.len() > 0,
        events@[events@.len() - 1] is MessageStop,
        old(state)@.block is None ==> events@.len() == 1,
        old(state)@.block matches Some((_, i)) ==> events@.len() == 2 && (
        events@[0] matches StreamEvent::ContentBlockStop { index } && index == i),
{
    law_end_marker(old(state)@);
    law_views_of_runs(events@, seq![]);
    assert(event_views(events@).last() == events@[events@.len() - 1]@);
    law_views_of_runs(events@, seq![]);
    assert(event_views(events@)[0] == events@[0]@);
}

/// A failure is told to the client as it reads.
pub proof fn law_translated_error(message: String, events: Vec<StreamEvent>)
    requires
        call_ensures(translate_error, (message,), events),
    ensures
        events@.len() == 1,
        events@[0] matches StreamEvent::Error { message: told } && told@ == message@,
{
    law_views_of_runs(events@, seq![]);
    assert(event_views(events@)[0] == events@[0]@);
}

/// A stream starts with the model to fall back on, and nothing else.
pub proof fn law_new_states(model: String, state: StreamState, stream: SseStream, decoder: Decoder)
    requires
        call_ensures(initial_state, (model,), state),
        call_ensures(create_sse_stream, (model,), stream),
        call_ensures(Decoder::new, (), decoder),
    ensures
        state@ == initial(model@),
        stream@.state == initial(model@),
        stream@.held == Seq::<char>::empty(),
        !stream@.ended,
        decoder@ == Seq::<char>::empty(),
{
}

/// Text that completes a `data: ` frame, wherever it was cut, gives out what stands behind
/// the prefix, whole and unchanged, and leaves nothing held.
pub proof fn law_completed_frame(
    decoder: &mut Decoder,
    text: &str,
    out: Vec<Payload>,
    d: Seq<char>,
)
    requires
        call_ensures(Decoder::push_text, (decoder, text), out),
        unbroken(d),
        old(decoder)@ + text@ == "data: "@ + d + "\n\n"@,
    ensures
        out@.len() == 1,
        trimmed(d) != "[DONE]"@ ==> (out@[0] matches Payload::Data(data) && data@ == d),
        trimmed(d) == "[DONE]"@ ==> out@[0] is Done,
        final(decoder)@ == Seq::<char>::empty(),
{
    law_data_frame(d);
    law_views_of_runs(seq![], out@);
    assert(payload_views(out@)[0] == out@[0]@);
}

/// Bytes that complete a `data: ` frame, wherever it was cut between characters, give out
/// what stands behind the prefix, whole and unchanged.
pub proof fn law_received_frame(
    stream: &mut SseStream,
    bytes: &[u8],
    out: Vec<Payload>,
    d: Seq<char>,
)
    requires
        call_ensures(SseStream::receive, (stream, bytes), out),
        !old(stream)@.ended,
        valid_utf8(bytes@),
        unbroken(d),
        old(stream)@.held + decode_utf8(bytes@) == "data: "@ + d + "\n\n"@,
    ensures
        out@.len() == 1,
        trimmed(d) != "[DONE]"@ ==> (out@[0] matches Payload::Data(data) && data@ == d),
        trimmed(d) == "[DONE]"@ ==> out@[0] is Done,
        final(stream)@.held == Seq::<char>::empty(),
        final(stream)@.state == old(stream)@.state,
        !final(stream)@.ended,
{
    law_data_frame(d);
    law_views_of_runs(seq![], out@);
    assert(payload_views(out@)[0] == out@[0]@);
}

/// A decoder gives out the payloads of all that was held and all that has come, and holds
/// what is left. Bytes are taken in as the text that they decode to.
pub proof fn law_decoder_goes_on(
    decoder: &mut Decoder,
    text: &str,
    out: Vec<Payload>,
    other: &mut Decoder,
    bytes: &[u8],
    got: Vec<Payload>,
)
    requires
        call_ensures(Decoder::push_text, (decoder, text), out),
        call_ensures(Decoder::push_bytes, (other, bytes), got),
    ensures
        payload_views(out@) == payloads(old(decoder)@ + text@),
        final(decoder)@ == pending(old(decoder)@ + text@),
        payload_views(got@) == payloads(old(other)@ + utf8_lossy(bytes@)),
        final(other)@ == pending(old(other)@ + utf8_lossy(bytes@)),
        valid_utf8(bytes@) && old(other)@ == old(decoder)@ && text@ == decode_utf8(bytes@)
            ==> payload_views(got@) == payload_views(out@) && final(other)@ == final(decoder)@,
{
}

/// A stream receives bytes as a decoder that holds the same would.
pub proof fn law_stream_receives_as_a_decoder(
    stream: &mut SseStream,
    decoder: &mut Decoder,
    bytes: &[u8],
    out: Vec<Payload>,
    got: Vec<Payload>,
)
    requires
        call_ensures(SseStream::receive, (stream, bytes), out),
        call_ensures(Decoder::push_bytes, (decoder, bytes), got),
        !old(stream)@.ended,
        old(stream)@.held == old(decoder)@,
    ensures
        payload_views(out@) == payload_views(got@),
        final(stream)@.held == final(decoder)@,
        final(stream)@.state == old(stream)@.state,
        !final(stream)@.ended,
{
}

/// A `data: ` frame on the wire, with whatever follows it: a chunk is translated, the end
/// marker ends the message, and data that is no chunk does nothing; then comes what
/// follows.
pub proof fn law_frame_on_the_wire(
    recognize: spec_fn(Seq<char>) -> Option<ChunkView>,
    s: StateView,
    d: Seq<char>,
    rest: Seq<char>,
)
    requires
        unbroken(d),
    ensures
        answered(recognize, s, "data: "@ + d + "\n\n"@ + rest) == ({
            let (t, events) = if trimmed(d) == "[DONE]"@ {
                with_done(s)
            } else {
                match recognize(d) {
                    Some(chunk) => with_chunk(s, chunk),
                    None => (s, seq![]),
                }
            };
            let (u, more) = answered(recognize, t, rest);
            (u, events + more)
        }),
{
    let line = "data: "@ + d;
    lemma_data_frame(d);
    law_frame_by_frame(line, rest);
    let ps = frame_payloads(line);
    let here = inputs_of_payloads(recognize, ps);
    lemma_inputs_of_payloads_concat(recognize, ps, payloads(rest));
    law_inputs_in_two_runs(s, here, inputs_of_payloads(recognize, payloads(rest)));
    assert(ps.drop_last() =~= seq![]);
    assert(inputs_of_payloads(recognize, ps.drop_last()) =~= seq![]);
    assert(here =~= inputs_of_payload(recognize, ps[0]));
    if trimmed(d) == "[DONE]"@ {
        law_run_of_one(s, arbitrary());
        assert(here =~= seq![Input::Done]);
    } else {
        match recognize(d) {
            Some(chunk) => {
                law_run_of_one(s, chunk);
                assert(here =~= seq![Input::Chunk(chunk)]);
            },
            None => {
                law_run_of_one(s, arbitrary());
                assert(here =~= seq![]);
            },
        }
    }
}

/// What payloads hand to the translation: the end marker, or the chunk, each once and in
/// order; what is no chunk hands on nothing.
pub proof fn law_inputs_one_by_one(before: Seq<Incoming>, last: Incoming)
    ensures
        inputs_of(seq![]) == Seq::<Input>::empty(),
        inputs_of(before.push(last)) == (match last {
            Incoming::Done => inputs_of(before).push(Input::Done),
            Incoming::Chunk(chunk) => inputs_of(before).push(Input::Chunk(chunk@)),
            Incoming::Unrecognized => inputs_of(before),
        }),
{
    assert(before.push(last).drop_last() =~= before);
    assert(inputs_of(before.push(last)) =~= match last {
        Incoming::Done => inputs_of(before).push(Input::Done),
        Incoming::Chunk(chunk) => inputs_of(before).push(Input::Chunk(chunk@)),
        Incoming::Unrecognized => inputs_of(before),
    });
}

/// The payloads are relayed to the client as the events that they make, one after the
/// other.
pub proof fn law_relayed(
    stream: &mut SseStream,
    incoming: &Vec<Incoming>,
    events: Vec<StreamEvent>,
)
    requires
        call_ensures(SseStream::relay, (stream, incoming), events),
        !old(stream)@.ended,
    ensures
        (final(stream)@.state, event_views(events@)) == with_inputs(
            old(stream)@.state,
            inputs_of(incoming@),
        ),
        final(stream)@.held == old(stream)@.held,
        !final(stream)@.ended,
{
}

/// There is room for a run of payloads while the indices last.
pub proof fn law_room_for_a_run(
    stream: &SseStream,
    incoming: &Vec<Incoming>,
    fits: bool,
    before: Seq<Incoming>,
    last: Incoming,
)
    requires
        call_ensures(SseStream::has_room_for, (stream, incoming), fits),
    ensures
        fits == room_for(stream@, incoming@),
        fits <==> stream@.state.next_index + total_demand(incoming@) <= usize::MAX,
        total_demand(seq![]) == 0,
        total_demand(before.push(last)) == total_demand(before) + (match last {
            Incoming::Chunk(chunk) => if chunk.choices@.len() > 0 {
                2 + chunk.choices@[0].delta.tool_calls@.len()
            } else {
                0
            },
            _ => 0,
        }),
{
    assert(before.push(last).drop_last() =~= before);
}

/// A failure of the upstream is told to the client, once, and ends the answer.
pub proof fn law_failure_is_told(stream: &mut SseStream, error: &str, events: Vec<StreamEvent>)
    requires
        call_ensures(SseStream::fail, (stream, error), events),
    ensures
        final(stream)@.ended,
        !old(stream)@.ended ==> events@.len() == 1 && (events@[0] matches StreamEvent::Error {
            message,
        } && message@ == "Stream error: "@ + error@),
        old(stream)@.ended ==> events@.len() == 0,
{
    if !old(stream)@.ended {
        law_views_of_runs(events@, seq![]);
        assert(event_views(events@)[0] == events@[0]@);
    }
}

/// After a failure nothing more is taken in and nothing more is sent.
pub proof fn law_nothing_after_a_failure(
    stream: &mut SseStream,
    other: &mut SseStream,
    bytes: &[u8],
    out: Vec<Payload>,
    incoming: &Vec<Incoming>,
    events: Vec<StreamEvent>,
)
    requires
        call_ensures(SseStream::receive, (stream, bytes), out),
        call_ensures(SseStream::relay, (other, incoming), events),
        old(stream)@.ended,
        old(other)@.ended,
    ensures
        out@.len() == 0,
        events@.len() == 0,
        final(stream)@.ended,
        final(other)@.ended,
{
}

/// JSON is taken for the wire exactly if it is on one line, and unchanged.
pub proof fn law_json_line(text: String, line: Option<JsonLine>)
    requires
        call_ensures(JsonLine::new, (text,), line),
    ensures
        line is Some <==> !text@.contains('\n'),
        line matches Some(l) ==> l@ == text@,
{
    if text@.contains('\n') {
        let i = choose|i: int| 0 <= i < text@.len() && text@[i] == '\n';
        assert(text@[i] == '\n');
    } else {
        assert forall|i: int| 0 <= i < text@.len() implies #[trigger] text@[i] != '\n' by {
            assert(text@.contains(text@[i]));
        }
    }
}

/// An event goes on the wire as its name behind `event: `, and its JSON, whole and
/// unchanged, behind `data: `.
pub proof fn law_event_on_the_wire(
    event: &StreamEvent,
    json: JsonLine,
    text: String,
    name: &'static str,
)
    requires
        call_ensures(serialize_event, (event, Some(json)), text),
        call_ensures(StreamEvent::event_type, (event,), name),
    ensures
        text@ == "event: "@ + name@ + "\ndata: "@ + json@ + "\n\n"@,
{
}

/// Where there is no JSON, the data is empty.
pub proof fn law_event_without_json(event: &StreamEvent, text: String, name: &'static str)
    requires
        call_ensures(serialize_event, (event, None), text),
        call_ensures(StreamEvent::event_type, (event,), name),
    ensures
        text@ == "event: "@ + name@ + "\ndata: "@ + "\n\n"@,
{
    assert("event: "@ + name@ + "\ndata: "@ + Seq::<char>::empty() + "\n\n"@ =~= "event: "@ + name@
        + "\ndata: "@ + "\n\n"@);
}

/// A streamed answer has three headers.
pub proof fn law_stream_headers(headers: HeaderMap<HeaderValue>)
    requires
        call_ensures(stream_headers, (), headers),
    ensures
        header_fields(headers) == stream_fields(),
        stream_fields().dom() == set!["content-type"@, "cache-control"@, "connection"@],
        stream_fields()["content-type"@] == seq!["text/event-stream"@],
        stream_fields()["cache-control"@] == seq!["no-cache"@],
        stream_fields()["connection"@] == seq!["keep-alive"@],
{
    reveal_strlit("content-type");
    reveal_strlit("cache-control");
    reveal_strlit("connection");
    assert("content-type"@.len() == 12);
    assert("cache-control"@.len() == 13);
    assert("connection"@.len() == 10);
    assert(stream_fields().dom() =~= set!["content-type"@, "cache-control"@, "connection"@]);
}

/// Only a request that asks for a stream is answered with one.
pub proof fn law_stream_on_request(stream: Option<bool>, wanted: bool, exchange: Exchange)
    requires
        call_ensures(wants_stream, (stream,), wanted),
        call_ensures(Exchange::begin, (stream,), exchange),
    ensures
        wanted <==> stream == Some(true),
        exchange@.streaming <==> stream == Some(true),
        exchange@.stage == Stage::Translating,
{
}

/// A request that could be translated is asked for in the way it wants; one that could not
/// fails, and is over.
pub proof fn law_translated_request(exchange: &mut Exchange, ok: bool, next: Next)
    requires
        call_ensures(Exchange::translated, (exchange, ok), next),
    ensures
        next == Next::Fail <==> !ok,
        ok ==> (next == Next::AskStreaming <==> old(exchange)@.streaming),
        ok ==> final(exchange)@.stage == Stage::Asking,
        !ok ==> final(exchange)@.stage == Stage::Closed,
        final(exchange)@.streaming == old(exchange)@.streaming,
{
}

/// Of an answered request its status is recorded, of a failed one 500, and whether it was
/// to be streamed.
pub proof fn law_recorded_request<E>(
    exchange: &mut Exchange,
    answer: &Result<u16, E>,
    record: Record,
    status: u16,
    streaming: bool,
)
    requires
        call_ensures(Exchange::answered::<E>, (exchange, answer), record),
        call_ensures(recorded_status::<E>, (answer,), status),
        call_ensures(Exchange::is_streaming, (&*old(exchange),), streaming),
    ensures
        match *answer {
            Ok(s) => record.status == s,
            Err(_) => record.status == 500,
        },
        record.status == status,
        record.streaming == streaming,
        streaming == old(exchange)@.streaming,
        final(exchange)@.stage == Stage::Closed,
{
}

/// What may be called when: a chunk is taken in while there is room for it, a run of
/// payloads likewise, and everything else at any time.
pub proof fn law_stream_takes_what_comes(
    state: &mut StreamState,
    chunk: &StreamChunk,
    stream: &mut SseStream,
    incoming: &Vec<Incoming>,
    bytes: &[u8],
    error: &str,
    decoder: &mut Decoder,
    message: String,
)
    ensures
        room(old(state)@, chunk@) ==> call_requires(translate_chunk, (state, chunk)),
        call_requires(translate_done, (state,)),
        call_requires(translate_error, (message,)),
        room_for(old(stream)@, incoming@) ==> call_requires(SseStream::relay, (stream, incoming)),
        call_requires(SseStream::receive, (stream, bytes)),
        call_requires(SseStream::fail, (stream, error)),
        call_requires(Decoder::push_text, (decoder, error)),
        call_requires(Decoder::push_bytes, (decoder, bytes)),
        call_requires(create_sse_stream, (message,)),
        call_requires(JsonLine::new, (message,)),
{
}

/// A request is translated when it has come in, and answered when it has been asked for.
pub proof fn law_exchange_takes_what_comes<E>(
    exchange: &mut Exchange,
    stream: Option<bool>,
    ok: bool,
    answer: &Result<u16, E>,
)
    ensures
        call_requires(Exchange::begin, (stream,)),
        old(exchange)@.stage == Stage::Translating ==> call_requires(
            Exchange::translated,
            (exchange, ok),
        ),
        old(exchange)@.stage == Stage::Asking ==> call_requires(
            Exchange::answered::<E>,
            (exchange, answer),
        ),
{
}

/// The translation goes by the settings, unchanged.
pub proof fn law_policy_follows_the_settings(config: &Config, policy: TranslationPolicy)
    requires
        call_ensures(translation_policy, (config,), policy),
    ensures
        policy.reasoning_model == config.reasoning_model,
        policy.completion_model == config.completion_model,
        policy.model_map@ == config.model_map@,
        policy.ignore_terms@ == config.system_prompt_ignore_terms@,
{
}

} // verus!

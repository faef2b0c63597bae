//! What a client gets of the content that an upstream sends: all of the text, in order,
//! and the arguments of a tool call in its own block and no other, all that came in time.

use crate::model::{
    BlockDeltaView, BlockKind, ChoiceView, ChunkView, ContentBlockView, EventView, ToolCallView,
};
use crate::protocol::{
    law_stream_follows_protocol, stream_events, with_input, with_inputs, Input,
};
use crate::stream::{
    argument_events, closed, initial, lemma_tool_calls_wf, started, with_choice, with_done,
    with_finish, with_fragment, with_tool_call, with_tool_calls, with_tool_start, StateView,
};
use vstd::prelude::*;

verus! {

/// The text, or the thinking, that an event carries.
pub open spec fn carried(event: EventView, thinking: bool) -> Seq<char> {
    match event {
        EventView::ContentBlockDelta { delta: BlockDeltaView::Text(t), .. } if !thinking => t,
        EventView::ContentBlockDelta { delta: BlockDeltaView::Thinking(t), .. } if thinking => t,
        _ => seq![],
    }
}

/// The text, or the thinking, that a run of events carries.
pub open spec fn carried_by(events: Seq<EventView>, thinking: bool) -> Seq<char>
    decreases events.len(),
{
    if events.len() == 0 {
        seq![]
    } else {
        carried_by(events.drop_last(), thinking) + carried(events.last(), thinking)
    }
}

/// The text, or the thinking, that an input brings.
pub open spec fn brought(input: Input, thinking: bool) -> Seq<char> {
    match input {
        Input::Chunk(ChunkView { choice: Some(choice), .. }) => if thinking {
            choice.reasoning.unwrap_or(seq![])
        } else {
            choice.content.unwrap_or(seq![])
        },
        _ => seq![],
    }
}

/// The text, or the thinking, that a run of inputs brings.
pub open spec fn brought_by(inputs: Seq<Input>, thinking: bool) -> Seq<char>
    decreases inputs.len(),
{
    if inputs.len() == 0 {
        seq![]
    } else {
        brought_by(inputs.drop_last(), thinking) + brought(inputs.last(), thinking)
    }
}

proof fn lemma_carried_concat(a: Seq<EventView>, b: Seq<EventView>, thinking: bool)
    ensures
        carried_by(a + b, thinking) == carried_by(a, thinking) + carried_by(b, thinking),
    decreases b.len(),
{
    if b.len() == 0 {
        assert(a + b =~= a);
        assert(carried_by(a, thinking) + carried_by(b, thinking) =~= carried_by(a, thinking));
    } else {
        assert((a + b).drop_last() =~= a + b.drop_last());
        lemma_carried_concat(a, b.drop_last(), thinking);
        assert(carried_by(a + b, thinking) =~= carried_by(a, thinking) + carried_by(b, thinking));
    }
}

/// Events of which none carries text carry none.
proof fn lemma_carried_none(events: Seq<EventView>, thinking: bool)
    requires
        forall|i: int|
            0 <= i < events.len() ==> carried(#[trigger] events[i], thinking) == Seq::<
                char,
            >::empty(),
    ensures
        carried_by(events, thinking) == Seq::<char>::empty(),
    decreases events.len(),
{
    if events.len() > 0 {
        assert(carried(events[events.len() - 1], thinking) =~= seq![]);
        lemma_carried_none(events.drop_last(), thinking);
        assert(carried_by(events, thinking) =~= seq![]);
    }
}

proof fn lemma_carried_fragment(
    s: StateView,
    kind: bool,
    text: Option<Seq<char>>,
    thinking: bool,
)
    ensures
        carried_by(with_fragment(s, kind, text).1, thinking) == (if kind == thinking {
            text.unwrap_or(seq![])
        } else {
            seq![]
        }),
{
    let events = with_fragment(s, kind, text).1;
    if events.len() > 0 {
        let init = events.drop_last();
        let t = text->0;
        assert forall|i: int| 0 <= i < init.len() implies carried(
            #[trigger] init[i],
            thinking,
        ) == Seq::<char>::empty() by {}
        lemma_carried_none(init, thinking);
        assert(carried_by(events, thinking) =~= carried(events.last(), thinking));
    } else {
        assert(text.unwrap_or(seq![]) =~= seq![]);
    }
}

proof fn lemma_carried_tool_calls(s: StateView, calls: Seq<ToolCallView>, thinking: bool)
    ensures
        carried_by(with_tool_calls(s, calls).1, thinking) == Seq::<char>::empty(),
    decreases calls.len(),
{
    if calls.len() > 0 {
        lemma_carried_tool_calls(s, calls.drop_last(), thinking);
        let (o, events) = with_tool_calls(s, calls.drop_last());
        let more = with_tool_call(o, calls.last()).1;
        lemma_carried_none(more, thinking);
        lemma_carried_concat(events, more, thinking);
        assert(carried_by(with_tool_calls(s, calls).1, thinking) =~= seq![]);
    }
}

proof fn lemma_carried_choice(s: StateView, choice: ChoiceView, thinking: bool)
    ensures
        carried_by(with_choice(s, choice).1, thinking) == (if thinking {
            choice.reasoning.unwrap_or(seq![])
        } else {
            choice.content.unwrap_or(seq![])
        }),
{
    let (a, first) = with_fragment(s, true, choice.reasoning);
    let (b, second) = with_fragment(a, false, choice.content);
    let (c, tools) = with_tool_calls(b, choice.tool_calls);
    let end = with_finish(c, choice.finish_reason).1;
    lemma_carried_fragment(s, true, choice.reasoning, thinking);
    lemma_carried_fragment(a, false, choice.content, thinking);
    lemma_carried_tool_calls(b, choice.tool_calls, thinking);
    lemma_carried_none(end, thinking);
    lemma_carried_concat(first, second, thinking);
    lemma_carried_concat(first + second, tools, thinking);
    lemma_carried_concat(first + second + tools, end, thinking);
    let whole = carried_by(with_choice(s, choice).1, thinking);
    if thinking {
        assert(whole =~= choice.reasoning.unwrap_or(seq![]));
    } else {
        assert(whole =~= choice.content.unwrap_or(seq![]));
    }
}

/// No text and no thinking is lost, doubled or put in another order: what the events
/// carry, put together, is what the chunks brought, put together.
pub proof fn law_all_text_comes_through(s: StateView, inputs: Seq<Input>, thinking: bool)
    ensures
        carried_by(with_inputs(s, inputs).1, thinking) == brought_by(inputs, thinking),
    decreases inputs.len(),
{
    if inputs.len() > 0 {
        law_all_text_comes_through(s, inputs.drop_last(), thinking);
        let (t, events) = with_inputs(s, inputs.drop_last());
        let more = with_input(t, inputs.last()).1;
        lemma_carried_concat(events, more, thinking);
        match inputs.last() {
            Input::Chunk(chunk) => {
                if let Some(choice) = chunk.choice {
                    let (a, start) = started(t, chunk);
                    lemma_carried_none(start, thinking);
                    lemma_carried_choice(a, choice, thinking);
                    lemma_carried_concat(start, with_choice(a, choice).1, thinking);
                    assert(carried_by(more, thinking) =~= brought(inputs.last(), thinking));
                } else {
                    assert(carried_by(more, thinking) =~= brought(inputs.last(), thinking));
                }
            },
            Input::Done => {
                lemma_carried_none(more, thinking);
                assert(carried_by(more, thinking) =~= brought(inputs.last(), thinking));
            },
        }
    }
}

/// The pieces of tool calls that an input brings.
pub open spec fn calls_in(input: Input) -> Seq<ToolCallView> {
    match input {
        Input::Chunk(ChunkView { choice: Some(choice), .. }) => choice.tool_calls,
        _ => seq![],
    }
}

/// The pieces of tool calls that a run of inputs brings, in order.
pub open spec fn calls_of(inputs: Seq<Input>) -> Seq<ToolCallView>
    decreases inputs.len(),
{
    if inputs.len() == 0 {
        seq![]
    } else {
        calls_of(inputs.drop_last()) + calls_in(inputs.last())
    }
}

/// Whether an event opens the block `index` for the tool call of which `call` is a piece.
pub open spec fn opens_for(event: EventView, index: int, call: ToolCallView) -> bool {
    &&& call.id is Some
    &&& event == (EventView::ContentBlockStart {
        index,
        content_block: ContentBlockView::ToolUse {
            id: call.id->0,
            name: call.name.unwrap_or(seq![]),
        },
    })
}

/// Whether the block of the tool call `key` was opened with the id that the upstream
/// gave for that call.
pub open spec fn block_is_own(
    s: StateView,
    events: Seq<EventView>,
    calls: Seq<ToolCallView>,
    key: usize,
) -> bool {
    exists|i: int, j: int|
        #![trigger events[i], calls[j]]
        0 <= i < events.len() && 0 <= j < calls.len() && calls[j].index == key && opens_for(
            events[i],
            s.tool_call_map[key],
            calls[j],
        )
}

/// Whether arguments that were sent to the block `index` are those of the tool call that
/// the block was opened for.
pub open spec fn arguments_are_own(
    s: StateView,
    calls: Seq<ToolCallView>,
    index: int,
    arguments: Seq<char>,
) -> bool {
    exists|j: int|
        0 <= j < calls.len() && (#[trigger] calls[j]).arguments == Some(arguments)
            && s.tool_call_map.contains_key(calls[j].index) && s.tool_call_map[calls[j].index]
            == index
}

/// Whether every tool block carries its own call's id, and every piece of arguments went
/// to the block of its own call.
pub open spec fn well_assigned(
    s: StateView,
    events: Seq<EventView>,
    calls: Seq<ToolCallView>,
) -> bool {
    &&& forall|key: usize| #[trigger]
        s.tool_call_map.contains_key(key) ==> block_is_own(s, events, calls, key)
    &&& forall|i: int|
        0 <= i < events.len() ==> (#[trigger] events[i] matches EventView::ContentBlockDelta {
            index,
            delta: BlockDeltaView::InputJson(arguments),
        } ==> arguments_are_own(s, calls, index, arguments))
}

/// Whether an event sends arguments.
pub open spec fn sends_arguments(event: EventView) -> bool {
    event matches EventView::ContentBlockDelta { delta: BlockDeltaView::InputJson(_), .. }
}

/// Events that send no arguments, and a state with the same tool calls, change nothing.
proof fn lemma_assigned_same(
    s: StateView,
    events: Seq<EventView>,
    calls: Seq<ToolCallView>,
    t: StateView,
    more: Seq<EventView>,
)
    requires
        well_assigned(s, events, calls),
        t.tool_call_map == s.tool_call_map,
        forall|i: int| 0 <= i < more.len() ==> !sends_arguments(#[trigger] more[i]),
    ensures
        well_assigned(t, events + more, calls),
{
    let all = events + more;
    assert forall|key: usize| #[trigger] t.tool_call_map.contains_key(key) implies block_is_own(
        t,
        all,
        calls,
        key,
    ) by {
        assert(block_is_own(s, events, calls, key));
        let (i, j) = choose|i: int, j: int|
            #![trigger events[i], calls[j]]
            0 <= i < events.len() && 0 <= j < calls.len() && calls[j].index == key && opens_for(
                events[i],
                s.tool_call_map[key],
                calls[j],
            );
        assert(all[i] == events[i]);
    }
    assert forall|i: int| 0 <= i < all.len() implies (#[trigger] all[i] matches EventView::ContentBlockDelta {
        index,
        delta: BlockDeltaView::InputJson(arguments),
    } ==> arguments_are_own(t, calls, index, arguments)) by {
        if i < events.len() {
            assert(all[i] == events[i]);
            if let EventView::ContentBlockDelta {
                index,
                delta: BlockDeltaView::InputJson(arguments),
            } = events[i] {
                assert(arguments_are_own(s, calls, index, arguments));
                let j = choose|j: int|
                    0 <= j < calls.len() && (#[trigger] calls[j]).arguments == Some(arguments)
                        && s.tool_call_map.contains_key(calls[j].index)
                        && s.tool_call_map[calls[j].index] == index;
                assert(calls[j].arguments == Some(arguments));
            }
        } else {
            assert(all[i] == more[i - events.len()]);
            assert(!sends_arguments(more[i - events.len()]));
        }
    }
}

/// One piece of a tool call keeps everything well assigned.
proof fn lemma_assigned_call(
    s: StateView,
    events: Seq<EventView>,
    calls: Seq<ToolCallView>,
    call: ToolCallView,
)
    requires
        well_assigned(s, events, calls),
    ensures
        well_assigned(
            with_tool_call(s, call).0,
            events + with_tool_call(s, call).1,
            calls.push(call),
        ),
{
    let (o, opening) = with_tool_start(s, call);
    let arguments = argument_events(o, call);
    let t = with_tool_call(s, call).0;
    let more = with_tool_call(s, call).1;
    let all = events + more;
    let pieces = calls.push(call);
    let n = calls.len() as int;
    assert(pieces[n] == call);
    assert forall|key: usize| #[trigger] t.tool_call_map.contains_key(key) implies block_is_own(
        t,
        all,
        pieces,
        key,
    ) by {
        if s.tool_call_map.contains_key(key) {
            assert(block_is_own(s, events, calls, key));
            let (i, j) = choose|i: int, j: int|
                #![trigger events[i], calls[j]]
                0 <= i < events.len() && 0 <= j < calls.len() && calls[j].index == key
                    && opens_for(events[i], s.tool_call_map[key], calls[j]);
            assert(all[i] == events[i]);
            assert(pieces[j] == calls[j]);
        } else {
            let i = (events.len() + closed(s).1.len()) as int;
            assert(all[i] == more[closed(s).1.len() as int]);
            assert(opens_for(all[i], t.tool_call_map[key], pieces[n]));
        }
    }
    assert forall|i: int| 0 <= i < all.len() implies (#[trigger] all[i] matches EventView::ContentBlockDelta {
        index,
        delta: BlockDeltaView::InputJson(a),
    } ==> arguments_are_own(t, pieces, index, a)) by {
        if i < events.len() {
            assert(all[i] == events[i]);
            if let EventView::ContentBlockDelta { index, delta: BlockDeltaView::InputJson(a) } =
                events[i] {
                assert(arguments_are_own(s, calls, index, a));
                let j = choose|j: int|
                    0 <= j < calls.len() && (#[trigger] calls[j]).arguments == Some(a)
                        && s.tool_call_map.contains_key(calls[j].index)
                        && s.tool_call_map[calls[j].index] == index;
                assert(pieces[j] == calls[j]);
                assert(t.tool_call_map.contains_key(calls[j].index));
            }
        } else {
            assert(all[i] == more[i - events.len()]);
            if i - events.len() >= opening.len() {
                assert(more[i - events.len()] == arguments[i - events.len() - opening.len()]);
                assert(pieces[n].arguments == call.arguments);
            } else {
                assert(more[i - events.len()] == opening[i - events.len()]);
            }
        }
    }
}

proof fn lemma_assigned_calls(
    s: StateView,
    events: Seq<EventView>,
    calls: Seq<ToolCallView>,
    more: Seq<ToolCallView>,
)
    requires
        well_assigned(s, events, calls),
    ensures
        well_assigned(
            with_tool_calls(s, more).0,
            events + with_tool_calls(s, more).1,
            calls + more,
        ),
    decreases more.len(),
{
    if more.len() == 0 {
        assert(events + with_tool_calls(s, more).1 =~= events);
        assert(calls + more =~= calls);
    } else {
        let init = more.drop_last();
        lemma_assigned_calls(s, events, calls, init);
        let (o, made) = with_tool_calls(s, init);
        lemma_assigned_call(o, events + made, calls + init, more.last());
        assert((calls + init).push(more.last()) =~= calls + more);
        assert((events + made) + with_tool_call(o, more.last()).1 =~= events + with_tool_calls(
            s,
            more,
        ).1);
    }
}

proof fn lemma_assigned_fragment(
    s: StateView,
    events: Seq<EventView>,
    calls: Seq<ToolCallView>,
    thinking: bool,
    text: Option<Seq<char>>,
)
    requires
        well_assigned(s, events, calls),
    ensures
        well_assigned(
            with_fragment(s, thinking, text).0,
            events + with_fragment(s, thinking, text).1,
            calls,
        ),
{
    let (t, more) = with_fragment(s, thinking, text);
    lemma_assigned_same(s, events, calls, t, more);
}

proof fn lemma_assigned_finish(
    s: StateView,
    events: Seq<EventView>,
    calls: Seq<ToolCallView>,
    finish_reason: Option<Seq<char>>,
)
    requires
        well_assigned(s, events, calls),
    ensures
        well_assigned(
            with_finish(s, finish_reason).0,
            events + with_finish(s, finish_reason).1,
            calls,
        ),
{
    let (t, more) = with_finish(s, finish_reason);
    lemma_assigned_same(s, events, calls, t, more);
}

proof fn lemma_assigned_choice(
    s: StateView,
    events: Seq<EventView>,
    calls: Seq<ToolCallView>,
    choice: ChoiceView,
)
    requires
        well_assigned(s, events, calls),
    ensures
        well_assigned(
            with_choice(s, choice).0,
            events + with_choice(s, choice).1,
            calls + choice.tool_calls,
        ),
{
    let (a, first) = with_fragment(s, true, choice.reasoning);
    lemma_assigned_fragment(s, events, calls, true, choice.reasoning);
    let (b, second) = with_fragment(a, false, choice.content);
    lemma_assigned_fragment(a, events + first, calls, false, choice.content);
    let (c, tools) = with_tool_calls(b, choice.tool_calls);
    lemma_assigned_calls(b, events + first + second, calls, choice.tool_calls);
    let (d, end) = with_finish(c, choice.finish_reason);
    lemma_assigned_finish(
        c,
        events + first + second + tools,
        calls + choice.tool_calls,
        choice.finish_reason,
    );
    assert(events + first + second + tools + end =~= events + (first + second + tools + end));
}

/// Any input keeps everything well assigned.
proof fn lemma_assigned_input(
    s: StateView,
    events: Seq<EventView>,
    calls: Seq<ToolCallView>,
    input: Input,
)
    requires
        well_assigned(s, events, calls),
    ensures
        well_assigned(
            with_input(s, input).0,
            events + with_input(s, input).1,
            calls + calls_in(input),
        ),
{
    match input {
        Input::Chunk(chunk) => {
            if let Some(choice) = chunk.choice {
                let (a, start) = started(s, chunk);
                lemma_assigned_same(s, events, calls, a, start);
                lemma_assigned_choice(a, events + start, calls, choice);
                let made = with_choice(a, choice).1;
                assert(events + start + made =~= events + (start + made));
            } else {
                assert(events + with_input(s, input).1 =~= events);
                assert(calls + calls_in(input) =~= calls);
            }
        },
        Input::Done => {
            lemma_assigned_same(s, events, calls, with_done(s).0, with_done(s).1);
            assert(calls + calls_in(input) =~= calls);
        },
    }
}

/// In every stream each tool block carries the id that the upstream gave for its call, no
/// two calls share a block, and arguments go to no block but that of their own call.
pub proof fn law_arguments_are_never_misassigned(fallback_model: Seq<char>, inputs: Seq<Input>)
    ensures
        well_assigned(
            with_inputs(initial(fallback_model), inputs).0,
            stream_events(fallback_model, inputs),
            calls_of(inputs),
        ),
        with_inputs(initial(fallback_model), inputs).0.wf(),
    decreases inputs.len(),
{
    law_stream_follows_protocol(fallback_model, inputs);
    if inputs.len() > 0 {
        let init = inputs.drop_last();
        law_arguments_are_never_misassigned(fallback_model, init);
        let (s, events) = with_inputs(initial(fallback_model), init);
        lemma_assigned_input(s, events, calls_of(init), inputs.last());
    }
}

/// The arguments that an event sends to the block `index`.
pub open spec fn arguments_in(event: EventView, index: int) -> Seq<char> {
    match event {
        EventView::ContentBlockDelta { index: i, delta: BlockDeltaView::InputJson(a) } if i
            == index => a,
        _ => seq![],
    }
}

/// The arguments that a run of events sends to the block `index`, put together.
pub open spec fn arguments_at(events: Seq<EventView>, index: int) -> Seq<char>
    decreases events.len(),
{
    if events.len() == 0 {
        seq![]
    } else {
        arguments_at(events.drop_last(), index) + arguments_in(events.last(), index)
    }
}

/// Whether one of the pieces brings an id for the tool call `key`.
pub open spec fn shows_id(calls: Seq<ToolCallView>, key: usize) -> bool {
    exists|j: int| 0 <= j < calls.len() && (#[trigger] calls[j]).index == key && calls[j].id is Some
}

/// The arguments of the tool call `key`, put together: those of all its pieces from the
/// one that brings its id on.
pub open spec fn arguments_brought(calls: Seq<ToolCallView>, key: usize) -> Seq<char>
    decreases calls.len(),
{
    if calls.len() == 0 {
        seq![]
    } else if calls.last().index == key && shows_id(calls, key) {
        arguments_brought(calls.drop_last(), key) + calls.last().arguments.unwrap_or(seq![])
    } else {
        arguments_brought(calls.drop_last(), key)
    }
}

proof fn lemma_arguments_concat(a: Seq<EventView>, b: Seq<EventView>, index: int)
    ensures
        arguments_at(a + b, index) == arguments_at(a, index) + arguments_at(b, index),
    decreases b.len(),
{
    if b.len() == 0 {
        assert(a + b =~= a);
        assert(arguments_at(a, index) + arguments_at(b, index) =~= arguments_at(a, index));
    } else {
        assert((a + b).drop_last() =~= a + b.drop_last());
        lemma_arguments_concat(a, b.drop_last(), index);
        assert(arguments_at(a + b, index) =~= arguments_at(a, index) + arguments_at(b, index));
    }
}

/// Events of which none sends arguments to the block send it none.
proof fn lemma_arguments_none(events: Seq<EventView>, index: int)
    requires
        forall|i: int|
            0 <= i < events.len() ==> arguments_in(#[trigger] events[i], index) == Seq::<
                char,
            >::empty(),
    ensures
        arguments_at(events, index) == Seq::<char>::empty(),
    decreases events.len(),
{
    if events.len() > 0 {
        assert(arguments_in(events[events.len() - 1], index) =~= seq![]);
        lemma_arguments_none(events.drop_last(), index);
        assert(arguments_at(events, index) =~= seq![]);
    }
}

/// One piece more shows the ids that were shown before, and its own.
proof fn lemma_shows_id_push(calls: Seq<ToolCallView>, call: ToolCallView, key: usize)
    ensures
        shows_id(calls.push(call), key) <==> shows_id(calls, key) || (call.index == key && call.id
            is Some),
{
    let all = calls.push(call);
    if shows_id(calls, key) {
        let j = choose|j: int|
            0 <= j < calls.len() && (#[trigger] calls[j]).index == key && calls[j].id is Some;
        assert(all[j] == calls[j]);
    }
    if call.index == key && call.id is Some {
        assert(all[calls.len() as int] == call);
    }
    if shows_id(all, key) {
        let j = choose|j: int|
            0 <= j < all.len() && (#[trigger] all[j]).index == key && all[j].id is Some;
        if j < calls.len() {
            assert(calls[j] == all[j]);
        }
    }
}

/// Where no id has been shown, no arguments count.
proof fn lemma_nothing_brought(calls: Seq<ToolCallView>, key: usize)
    requires
        !shows_id(calls, key),
    ensures
        arguments_brought(calls, key) == Seq::<char>::empty(),
    decreases calls.len(),
{
    if calls.len() > 0 {
        let init = calls.drop_last();
        lemma_shows_id_push(init, calls.last(), key);
        assert(init.push(calls.last()) =~= calls);
        lemma_nothing_brought(init, key);
    }
}

/// Whether the block of each tool call has got its arguments: all of them while it is
/// open, and after that those that came in time.
pub open spec fn arguments_kept(
    s: StateView,
    events: Seq<EventView>,
    calls: Seq<ToolCallView>,
) -> bool {
    &&& forall|key: usize| #[trigger]
        s.tool_call_map.contains_key(key) <==> shows_id(calls, key)
    &&& forall|key: usize| #[trigger]
        s.tool_call_map.contains_key(key) ==> {
            let got = arguments_at(events, s.tool_call_map[key]);
            &&& got.is_prefix_of(arguments_brought(calls, key))
            &&& s.block == Some((BlockKind::ToolUse, s.tool_call_map[key])) ==> got
                == arguments_brought(calls, key)
        }
    &&& forall|i: int|
        i >= s.next_index ==> #[trigger] arguments_at(events, i) == Seq::<char>::empty()
}

/// Events that send no arguments, and a state that opens no tool call, change nothing.
proof fn lemma_kept_same(
    s: StateView,
    events: Seq<EventView>,
    calls: Seq<ToolCallView>,
    t: StateView,
    more: Seq<EventView>,
)
    requires
        arguments_kept(s, events, calls),
        t.tool_call_map == s.tool_call_map,
        t.next_index >= s.next_index,
        t.block matches Some((BlockKind::ToolUse, i)) ==> s.block == t.block,
        forall|i: int| 0 <= i < more.len() ==> !sends_arguments(#[trigger] more[i]),
    ensures
        arguments_kept(t, events + more, calls),
{
    assert forall|i: int| #[trigger] arguments_at(events + more, i) == arguments_at(events, i) by {
        lemma_arguments_concat(events, more, i);
        assert forall|k: int| 0 <= k < more.len() implies arguments_in(#[trigger] more[k], i)
            == Seq::<char>::empty() by {
            assert(!sends_arguments(more[k]));
        }
        lemma_arguments_none(more, i);
        assert(arguments_at(events + more, i) =~= arguments_at(events, i));
    }
    assert forall|key: usize| #[trigger] t.tool_call_map.contains_key(key) implies ({
        let got = arguments_at(events + more, t.tool_call_map[key]);
        &&& got.is_prefix_of(arguments_brought(calls, key))
        &&& t.block == Some((BlockKind::ToolUse, t.tool_call_map[key])) ==> got
            == arguments_brought(calls, key)
    }) by {
        assert(s.tool_call_map.contains_key(key));
    }
    assert forall|key: usize| #[trigger] t.tool_call_map.contains_key(key) <==> shows_id(
        calls,
        key,
    ) by {
        assert(s.tool_call_map.contains_key(key) <==> shows_id(calls, key));
    }
}

/// What one piece of a tool call sends to each block.
proof fn lemma_call_arguments(s: StateView, call: ToolCallView, index: int)
    requires
        s.wf(),
    ensures
        ({
            let (t, more) = with_tool_call(s, call);
            arguments_at(more, index) == (if t.tool_call_map.contains_key(call.index)
                && t.tool_call_map[call.index] == index && t.block == Some(
                (BlockKind::ToolUse, index),
            ) {
                call.arguments.unwrap_or(seq![])
            } else {
                seq![]
            })
        }),
{
    let (o, opening) = with_tool_start(s, call);
    let last = argument_events(o, call);
    lemma_arguments_concat(opening, last, index);
    lemma_arguments_none(opening, index);
    if last.len() > 0 {
        assert(last.drop_last() =~= seq![]);
        assert(arguments_at(last.drop_last(), index) =~= seq![]);
        assert(arguments_at(last, index) =~= arguments_in(last[0], index));
    }
    let sent = arguments_at(with_tool_call(s, call).1, index);
    assert(sent =~= arguments_at(last, index));
    if call.arguments.unwrap_or(seq![]).len() == 0 {
        assert(call.arguments.unwrap_or(seq![]) =~= seq![]);
    }
}

/// One piece of a tool call keeps the arguments together.
proof fn lemma_kept_call(
    s: StateView,
    events: Seq<EventView>,
    calls: Seq<ToolCallView>,
    call: ToolCallView,
)
    requires
        s.wf(),
        arguments_kept(s, events, calls),
    ensures
        arguments_kept(
            with_tool_call(s, call).0,
            events + with_tool_call(s, call).1,
            calls.push(call),
        ),
{
    let (t, more) = with_tool_call(s, call);
    let all = events + more;
    let pieces = calls.push(call);
    assert(pieces.drop_last() =~= calls);
    assert forall|key: usize| #[trigger] t.tool_call_map.contains_key(key) <==> shows_id(
        pieces,
        key,
    ) by {
        lemma_shows_id_push(calls, call, key);
        assert(s.tool_call_map.contains_key(key) <==> shows_id(calls, key));
    }
    assert forall|i: int| i >= t.next_index implies #[trigger] arguments_at(all, i) == Seq::<
        char,
    >::empty() by {
        lemma_arguments_concat(events, more, i);
        lemma_call_arguments(s, call, i);
        assert(arguments_at(events, i) =~= seq![]);
        assert(arguments_at(all, i) =~= seq![]);
    }
    assert forall|key: usize| #[trigger] t.tool_call_map.contains_key(key) implies ({
        let got = arguments_at(all, t.tool_call_map[key]);
        &&& got.is_prefix_of(arguments_brought(pieces, key))
        &&& t.block == Some((BlockKind::ToolUse, t.tool_call_map[key])) ==> got
            == arguments_brought(pieces, key)
    }) by {
        let index = t.tool_call_map[key];
        lemma_shows_id_push(calls, call, key);
        lemma_arguments_concat(events, more, index);
        lemma_call_arguments(s, call, index);
        let before = arguments_at(events, index);
        let brought = arguments_brought(calls, key);
        assert(s.tool_call_map.contains_key(key) <==> shows_id(calls, key));
        if s.tool_call_map.contains_key(key) {
            assert(before.is_prefix_of(brought));
            if call.index == key {
                let more = call.arguments.unwrap_or(seq![]);
                assert(arguments_brought(pieces, key) == brought + more);
                if t.block == Some((BlockKind::ToolUse, index)) {
                    assert(before == brought);
                } else {
                    assert(arguments_at(all, index) =~= before);
                    assert(before =~= (brought + call.arguments.unwrap_or(seq![])).subrange(
                        0,
                        before.len() as int,
                    ));
                }
            } else {
                assert(t.tool_call_map.contains_key(call.index) ==> t.tool_call_map[call.index]
                    != index);
                assert(arguments_at(all, index) =~= before);
                assert(arguments_brought(pieces, key) == brought);
            }
        } else {
            lemma_nothing_brought(calls, key);
            assert(before =~= seq![]);
            assert(arguments_at(all, index) =~= call.arguments.unwrap_or(seq![]));
            assert(arguments_brought(pieces, key) =~= call.arguments.unwrap_or(seq![]));
        }
        if t.block == Some((BlockKind::ToolUse, index)) {
            assert(arguments_at(all, index) =~= arguments_brought(pieces, key));
        }
    }
}

proof fn lemma_kept_calls(
    s: StateView,
    events: Seq<EventView>,
    calls: Seq<ToolCallView>,
    more: Seq<ToolCallView>,
)
    requires
        s.wf(),
        s.message_started,
        arguments_kept(s, events, calls),
    ensures
        with_tool_calls(s, more).0.wf(),
        arguments_kept(
            with_tool_calls(s, more).0,
            events + with_tool_calls(s, more).1,
            calls + more,
        ),
    decreases more.len(),
{
    if more.len() == 0 {
        assert(events + with_tool_calls(s, more).1 =~= events);
        assert(calls + more =~= calls);
    } else {
        let init = more.drop_last();
        lemma_kept_calls(s, events, calls, init);
        let (o, made) = with_tool_calls(s, init);
        lemma_kept_call(o, events + made, calls + init, more.last());
        lemma_tool_calls_wf(s, more);
        assert((calls + init).push(more.last()) =~= calls + more);
        assert((events + made) + with_tool_call(o, more.last()).1 =~= events + with_tool_calls(
            s,
            more,
        ).1);
    }
}

proof fn lemma_kept_fragment(
    s: StateView,
    events: Seq<EventView>,
    calls: Seq<ToolCallView>,
    thinking: bool,
    text: Option<Seq<char>>,
)
    requires
        s.wf(),
        s.message_started,
        arguments_kept(s, events, calls),
    ensures
        with_fragment(s, thinking, text).0.wf(),
        with_fragment(s, thinking, text).0.message_started,
        arguments_kept(
            with_fragment(s, thinking, text).0,
            events + with_fragment(s, thinking, text).1,
            calls,
        ),
{
    let (t, more) = with_fragment(s, thinking, text);
    lemma_kept_same(s, events, calls, t, more);
}

proof fn lemma_kept_finish(
    s: StateView,
    events: Seq<EventView>,
    calls: Seq<ToolCallView>,
    finish_reason: Option<Seq<char>>,
)
    requires
        arguments_kept(s, events, calls),
    ensures
        arguments_kept(
            with_finish(s, finish_reason).0,
            events + with_finish(s, finish_reason).1,
            calls,
        ),
{
    let (t, more) = with_finish(s, finish_reason);
    lemma_kept_same(s, events, calls, t, more);
}

proof fn lemma_kept_choice(
    s: StateView,
    events: Seq<EventView>,
    calls: Seq<ToolCallView>,
    choice: ChoiceView,
)
    requires
        s.wf(),
        s.message_started,
        arguments_kept(s, events, calls),
    ensures
        arguments_kept(
            with_choice(s, choice).0,
            events + with_choice(s, choice).1,
            calls + choice.tool_calls,
        ),
{
    let (a, first) = with_fragment(s, true, choice.reasoning);
    lemma_kept_fragment(s, events, calls, true, choice.reasoning);
    let (b, second) = with_fragment(a, false, choice.content);
    lemma_kept_fragment(a, events + first, calls, false, choice.content);
    let (c, tools) = with_tool_calls(b, choice.tool_calls);
    lemma_kept_calls(b, events + first + second, calls, choice.tool_calls);
    let (d, end) = with_finish(c, choice.finish_reason);
    lemma_kept_finish(
        c,
        events + first + second + tools,
        calls + choice.tool_calls,
        choice.finish_reason,
    );
    assert(events + first + second + tools + end =~= events + (first + second + tools + end));
}

/// Any input keeps the arguments together.
proof fn lemma_kept_input(
    s: StateView,
    events: Seq<EventView>,
    calls: Seq<ToolCallView>,
    input: Input,
)
    requires
        s.wf(),
        arguments_kept(s, events, calls),
    ensures
        arguments_kept(
            with_input(s, input).0,
            events + with_input(s, input).1,
            calls + calls_in(input),
        ),
{
    match input {
        Input::Chunk(chunk) => {
            if let Some(choice) = chunk.choice {
                let (a, start) = started(s, chunk);
                lemma_kept_same(s, events, calls, a, start);
                lemma_kept_choice(a, events + start, calls, choice);
                let made = with_choice(a, choice).1;
                assert(events + start + made =~= events + (start + made));
            } else {
                assert(events + with_input(s, input).1 =~= events);
                assert(calls + calls_in(input) =~= calls);
            }
        },
        Input::Done => {
            lemma_kept_same(s, events, calls, with_done(s).0, with_done(s).1);
            assert(calls + calls_in(input) =~= calls);
        },
    }
}

/// No arguments are lost, doubled or put in another order: while the block of a tool call
/// is open, the arguments that were sent to it, put together, are those of all the pieces
/// of that call from the one that brought its id on. Once it is closed they are a first
/// part of these. A call has a block exactly if one of its pieces brought an id.
pub proof fn law_all_arguments_come_through(fallback_model: Seq<char>, inputs: Seq<Input>)
    ensures
        arguments_kept(
            with_inputs(initial(fallback_model), inputs).0,
            stream_events(fallback_model, inputs),
            calls_of(inputs),
        ),
    decreases inputs.len(),
{
    law_stream_follows_protocol(fallback_model, inputs);
    if inputs.len() > 0 {
        let init = inputs.drop_last();
        law_stream_follows_protocol(fallback_model, init);
        law_all_arguments_come_through(fallback_model, init);
        let (s, events) = with_inputs(initial(fallback_model), init);
        lemma_kept_input(s, events, calls_of(init), inputs.last());
    }
}

} // verus!

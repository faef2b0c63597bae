//! One streamed answer from end to end: bytes of the upstream in, events for the client
//! out, and the text that puts an event on the wire.

use crate::model::{event_type_of, event_views, ChunkView, EventView, StreamChunk, StreamEvent};
use crate::protocol::{
    law_inputs_in_two_runs, law_stream_follows_protocol, new_reader, read_all, reader_at,
    with_input, with_inputs, Input,
};
use crate::sse::{
    data_payload, decoded, frame_payloads, frames, law_cut_text, law_pending_is_incomplete,
    lemma_decode_pieces, lemma_next_break_stays, line_payload, lines, lines_payloads, next_break,
    next_newline, payload_views, payloads, pending, reassembled, without_carriage_return, Decoder,
    Payload, PayloadView,
};
use crate::stream::{
    demand, initial, initial_state, lemma_chunk_index, lemma_index_fits, room, room_left,
    translate_chunk, translate_done, translate_error, StateView, StreamState,
};
use crate::text::{chars_of, joined, utf8_lossy};
use vstd::prelude::*;
use vstd::utf8::{decode_utf8, valid_utf8};

verus! {

/// A payload that has been looked into.
#[derive(Debug)]
pub enum Incoming {
    /// The end marker.
    Done,
    /// A chunk.
    Chunk(StreamChunk),
    /// Data that is no chunk.
    Unrecognized,
}

/// What an incoming payload hands to the translation: nothing, if it is no chunk.
pub open spec fn inputs_of_incoming(incoming: Incoming) -> Seq<Input> {
    match incoming {
        Incoming::Done => seq![Input::Done],
        Incoming::Chunk(chunk) => seq![Input::Chunk(chunk@)],
        Incoming::Unrecognized => seq![],
    }
}

/// Where a streamed answer stands.
pub struct SseView {
    /// Text that is not part of a complete frame yet.
    pub held: Seq<char>,
    /// The state of the translation.
    pub state: StateView,
    /// Whether the upstream has failed.
    pub ended: bool,
}

/// A streamed answer under way.
#[derive(Debug)]
pub struct SseStream {
    decoder: Decoder,
    state: StreamState,
    ended: bool,
}

impl View for SseStream {
    type V = SseView;

    closed spec fn view(&self) -> SseView {
        SseView { held: self.decoder@, state: self.state@, ended: self.ended }
    }
}

/// Starts a streamed answer, of which nothing has arrived.
pub fn create_sse_stream(fallback_model: String) -> (s: SseStream)
    ensures
        s@ == (SseView { held: seq![], state: initial(fallback_model@), ended: false }),
        s@.state.wf(),
{
    SseStream { decoder: Decoder::new(), state: initial_state(fallback_model), ended: false }
}

/// What a run of payloads hands to the translation, in order.
pub open spec fn inputs_of(incoming: Seq<Incoming>) -> Seq<Input>
    decreases incoming.len(),
{
    if incoming.len() == 0 {
        seq![]
    } else {
        inputs_of(incoming.drop_last()) + inputs_of_incoming(incoming.last())
    }
}

/// How many blocks a run of payloads may open.
pub open spec fn total_demand(incoming: Seq<Incoming>) -> nat
    decreases incoming.len(),
{
    if incoming.len() == 0 {
        0
    } else {
        total_demand(incoming.drop_last()) + (match incoming.last() {
            Incoming::Chunk(chunk) => demand(chunk@),
            _ => 0,
        })
    }
}

/// Whether there are indices left for the blocks that a run of payloads may open.
pub open spec fn room_for(s: SseView, incoming: Seq<Incoming>) -> bool {
    s.state.next_index + total_demand(incoming) <= usize::MAX
}

impl SseStream {
    /// Takes in bytes of the upstream and gives out the payloads that they complete.
    /// After a failure nothing more is taken in.
    pub fn receive(&mut self, bytes: &[u8]) -> (out: Vec<Payload>)
        ensures
            old(self)@.ended ==> out@.len() == 0 && final(self)@ == old(self)@,
            !old(self)@.ended ==> {
                let text = old(self)@.held + utf8_lossy(bytes@);
                &&& payload_views(out@) == payloads(text)
                &&& final(self)@ == (SseView { held: pending(text), ..old(self)@ })
            },
            !old(self)@.ended && valid_utf8(bytes@) ==> {
                let text = old(self)@.held + decode_utf8(bytes@);
                &&& payload_views(out@) == payloads(text)
                &&& final(self)@ == (SseView { held: pending(text), ..old(self)@ })
            },
    {
        if self.ended {
            Vec::new()
        } else {
            self.decoder.push_bytes(bytes)
        }
    }

    /// Tells whether there are indices left for the blocks that a run of payloads may
    /// open.
    pub fn has_room_for(&self, incoming: &Vec<Incoming>) -> (r: bool)
        ensures
            r == room_for(self@, incoming@),
    {
        proof {
            lemma_index_fits(self.state);
        }
        let mut reserved: usize = 0;
        let mut i: usize = 0;
        assert(incoming@.take(0) =~= seq![]);
        while i < incoming.len()
            invariant
                i <= incoming@.len(),
                reserved == total_demand(incoming@.take(i as int)),
                self@.state.next_index + reserved <= usize::MAX,
                self@.state == self.state@,
            decreases incoming@.len() - i,
        {
            assert(incoming@.take(i + 1).drop_last() =~= incoming@.take(i as int));
            if let Incoming::Chunk(chunk) = &incoming[i] {
                match room_left(&self.state, reserved, chunk) {
                    Some(n) => {
                        reserved = n;
                    },
                    None => {
                        proof {
                            lemma_demand_grows(incoming@, i + 1);
                        }
                        return false;
                    },
                }
            }
            i = i + 1;
        }
        assert(incoming@.take(i as int) =~= incoming@);
        true
    }

    /// Takes in one payload.
    fn relay_one(&mut self, incoming: &Incoming) -> (events: Vec<StreamEvent>)
        requires
            incoming matches Incoming::Chunk(chunk) ==> room(old(self)@.state, chunk@),
        ensures
            ({
                let (state, made) = with_inputs(
                    old(self)@.state,
                    inputs_of_incoming(*incoming),
                );
                &&& event_views(events@) == made
                &&& final(self)@ == (SseView { state, ..old(self)@ })
            }),
            old(self)@.state.wf() ==> final(self)@.state.wf(),
    {
        match incoming {
            Incoming::Done => {
                proof {
                    lemma_one_input(self.state@, Input::Done);
                }
                translate_done(&mut self.state)
            },
            Incoming::Chunk(chunk) => {
                proof {
                    lemma_one_input(self.state@, Input::Chunk(chunk@));
                }
                translate_chunk(&mut self.state, chunk)
            },
            Incoming::Unrecognized => {
                let events: Vec<StreamEvent> = Vec::new();
                assert(event_views(events@) =~= seq![]);
                events
            },
        }
    }

    /// Takes in payloads and gives out the events that they make, in order. What is no
    /// chunk makes none, and after a failure nothing does.
    pub fn relay(&mut self, incoming: &Vec<Incoming>) -> (events: Vec<StreamEvent>)
        requires
            room_for(old(self)@, incoming@),
        ensures
            old(self)@.ended ==> events@.len() == 0 && final(self)@ == old(self)@,
            !old(self)@.ended ==> {
                let (state, made) = with_inputs(old(self)@.state, inputs_of(incoming@));
                &&& event_views(events@) == made
                &&& final(self)@ == (SseView { state, ..old(self)@ })
            },
            old(self)@.state.wf() ==> final(self)@.state.wf(),
    {
        let mut events: Vec<StreamEvent> = Vec::new();
        assert(event_views(events@) =~= seq![]);
        if self.ended {
            return events;
        }
        let ghost s = self@.state;
        let mut i: usize = 0;
        assert(incoming@.take(0) =~= seq![]);
        while i < incoming.len()
            invariant
                i <= incoming@.len(),
                s == old(self)@.state,
                s.next_index + total_demand(incoming@) <= usize::MAX,
                self@ == (SseView {
                    state: with_inputs(s, inputs_of(incoming@.take(i as int))).0,
                    ..old(self)@
                }),
                event_views(events@) == with_inputs(s, inputs_of(incoming@.take(i as int))).1,
                s.wf() ==> self@.state.wf(),
            decreases incoming@.len() - i,
        {
            let ghost done = incoming@.take(i as int);
            let ghost before = events@;
            proof {
                assert(incoming@.take(i + 1).drop_last() =~= done);
                lemma_inputs_index(s, done);
                lemma_demand_grows(incoming@, i + 1);
                law_inputs_in_two_runs(
                    s,
                    inputs_of(done),
                    inputs_of_incoming(incoming@[i as int]),
                );
            }
            let mut more = self.relay_one(&incoming[i]);
            let ghost made = more@;
            events.append(&mut more);
            assert(event_views(events@) =~= event_views(before) + event_views(made));
            i = i + 1;
        }
        assert(incoming@.take(i as int) =~= incoming@);
        events
    }

    /// Takes in a failure of the upstream: the client is told, once, and the answer ends.
    pub fn fail(&mut self, error: &str) -> (events: Vec<StreamEvent>)
        ensures
            old(self)@.ended ==> events@.len() == 0,
            !old(self)@.ended ==> event_views(events@) == seq![
                EventView::Error { message: "Stream error: "@ + error@ },
            ],
            final(self)@ == (SseView { ended: true, ..old(self)@ }),
    {
        if self.ended {
            Vec::new()
        } else {
            self.ended = true;
            translate_error(joined("Stream error: ", error))
        }
    }
}

/// More payloads ask for no fewer blocks.
proof fn lemma_demand_grows(incoming: Seq<Incoming>, n: int)
    requires
        0 <= n <= incoming.len(),
    ensures
        total_demand(incoming.take(n)) <= total_demand(incoming),
    decreases incoming.len(),
{
    if n < incoming.len() {
        lemma_demand_grows(incoming.drop_last(), n);
        assert(incoming.drop_last().take(n) =~= incoming.take(n));
    } else {
        assert(incoming.take(n) =~= incoming);
    }
}

/// A run of payloads opens no more blocks than it may.
proof fn lemma_inputs_index(s: StateView, incoming: Seq<Incoming>)
    ensures
        s.next_index <= with_inputs(s, inputs_of(incoming)).0.next_index <= s.next_index
            + total_demand(incoming),
    decreases incoming.len(),
{
    if incoming.len() > 0 {
        lemma_inputs_index(s, incoming.drop_last());
        let t = with_inputs(s, inputs_of(incoming.drop_last())).0;
        law_inputs_in_two_runs(
            s,
            inputs_of(incoming.drop_last()),
            inputs_of_incoming(incoming.last()),
        );
        match incoming.last() {
            Incoming::Done => {
                lemma_one_input(t, Input::Done);
            },
            Incoming::Chunk(chunk) => {
                lemma_one_input(t, Input::Chunk(chunk@));
                lemma_chunk_index(t, chunk@);
            },
            Incoming::Unrecognized => {},
        }
    }
}

/// One input, as a run of one.
proof fn lemma_one_input(s: StateView, input: Input)
    ensures
        with_inputs(s, seq![input]) == with_input(s, input),
{
    assert(seq![input].drop_last() =~= seq![]);
    assert(with_inputs(s, seq![input].drop_last()) == (s, Seq::<EventView>::empty()));
    assert(with_inputs(s, seq![input]).1 =~= with_input(s, input).1);
}

/// The text of an event on the wire: its type, and its JSON behind `data: `.
pub open spec fn event_text(event_type: Seq<char>, json: Seq<char>) -> Seq<char> {
    "event: "@ + event_type + "\ndata: "@ + json + "\n\n"@
}

/// JSON that is written on one line, as compact JSON always is.
#[derive(Debug)]
pub struct JsonLine {
    text: String,
}

impl View for JsonLine {
    type V = Seq<char>;

    closed spec fn view(&self) -> Seq<char> {
        self.text@
    }
}

impl JsonLine {
    #[verifier::type_invariant]
    spec fn inv(self) -> bool {
        on_one_line(self.text@)
    }

    /// Takes JSON that is written on one line, and nothing else.
    pub fn new(text: String) -> (line: Option<JsonLine>)
        ensures
            match line {
                Some(line) => on_one_line(text@) && line@ == text@,
                None => !on_one_line(text@),
            },
    {
        let chars = chars_of(text.as_str());
        let mut i: usize = 0;
        while i < chars.len()
            invariant
                i <= chars@.len(),
                chars@ == text@,
                forall|k: int| 0 <= k < i ==> #[trigger] text@[k] != '\n',
            decreases chars@.len() - i,
        {
            if chars[i] == '\n' {
                assert(text@[i as int] == '\n');
                return None;
            }
            i = i + 1;
        }
        Some(JsonLine { text })
    }
}

/// The data of an event: its JSON, or nothing where there is none.
pub open spec fn data_of(json: Option<JsonLine>) -> Seq<char> {
    match json {
        Some(json) => json@,
        None => seq![],
    }
}

/// Puts an event on the wire. `json` is the event as JSON; where there is none, the data
/// is empty. Whatever the texts inside the event hold, this is exactly one frame, and its
/// one `data: ` line gives the JSON back. That the JSON is that of the event is up to the
/// caller.
pub fn serialize_event(event: &StreamEvent, json: Option<JsonLine>) -> (text: String)
    ensures
        text@ == event_text(event_type_of(event@), data_of(json)),
        one_frame(text@),
        frames(text@) == seq![event_frame(event_type_of(event@), data_of(json))],
        data_lines(lines(event_frame(event_type_of(event@), data_of(json)))) == seq![
            data_of(json),
        ],
{
    let mut text = joined("event: ", event.event_type());
    text.append("\ndata: ");
    match &json {
        Some(json) => {
            proof {
                use_type_invariant(json);
            }
            text.append(json.text.as_str());
        },
        None => {},
    }
    text.append("\n\n");
    assert(text@ =~= event_text(event_type_of(event@), data_of(json)));
    proof {
        law_event_is_one_frame(event@, data_of(json));
        law_event_data_reads_back(event@, data_of(json));
    }
    text
}

/// What a payload hands to the translation, where `recognize` tells which data is a chunk.
pub open spec fn inputs_of_payload(
    recognize: spec_fn(Seq<char>) -> Option<ChunkView>,
    payload: PayloadView,
) -> Seq<Input> {
    match payload {
        PayloadView::Done => seq![Input::Done],
        PayloadView::Data(data) => match recognize(data) {
            Some(chunk) => seq![Input::Chunk(chunk)],
            None => seq![],
        },
    }
}

/// What a run of payloads hands to the translation, in order.
pub open spec fn inputs_of_payloads(
    recognize: spec_fn(Seq<char>) -> Option<ChunkView>,
    ps: Seq<PayloadView>,
) -> Seq<Input>
    decreases ps.len(),
{
    if ps.len() == 0 {
        seq![]
    } else {
        inputs_of_payloads(recognize, ps.drop_last()) + inputs_of_payload(recognize, ps.last())
    }
}

/// What the translation makes of a text.
pub open spec fn answered(
    recognize: spec_fn(Seq<char>) -> Option<ChunkView>,
    s: StateView,
    text: Seq<char>,
) -> (StateView, Seq<EventView>) {
    with_inputs(s, inputs_of_payloads(recognize, payloads(text)))
}

pub(crate) proof fn lemma_inputs_of_payloads_concat(
    recognize: spec_fn(Seq<char>) -> Option<ChunkView>,
    a: Seq<PayloadView>,
    b: Seq<PayloadView>,
)
    ensures
        inputs_of_payloads(recognize, a + b) == inputs_of_payloads(recognize, a)
            + inputs_of_payloads(recognize, b),
    decreases b.len(),
{
    if b.len() == 0 {
        assert(a + b =~= a);
        assert(inputs_of_payloads(recognize, a) + inputs_of_payloads(recognize, b)
            =~= inputs_of_payloads(recognize, a));
    } else {
        assert((a + b).drop_last() =~= a + b.drop_last());
        lemma_inputs_of_payloads_concat(recognize, a, b.drop_last());
        assert(inputs_of_payloads(recognize, a + b) =~= inputs_of_payloads(recognize, a)
            + inputs_of_payloads(recognize, b));
    }
}

/// The events of an answer do not depend on where its text was cut on the way: two
/// pieces make the events, and leave the state, that the whole does.
pub proof fn law_events_ignore_cuts(
    recognize: spec_fn(Seq<char>) -> Option<ChunkView>,
    s: StateView,
    held: Seq<char>,
    a: Seq<char>,
    b: Seq<char>,
)
    ensures
        ({
            let (t, first) = answered(recognize, s, held + a);
            let (u, second) = answered(recognize, t, pending(held + a) + b);
            let (whole, events) = answered(recognize, s, held + (a + b));
            whole == u && events == first + second
        }),
{
    law_cut_text(held, a, b);
    lemma_inputs_of_payloads_concat(
        recognize,
        payloads(held + a),
        payloads(pending(held + a) + b),
    );
    law_inputs_in_two_runs(
        s,
        inputs_of_payloads(recognize, payloads(held + a)),
        inputs_of_payloads(recognize, payloads(pending(held + a) + b)),
    );
}

/// What the translation makes of pieces of text that arrive one after the other: each is
/// received behind what was held, and its payloads are relayed.
pub open spec fn answered_in_turn(
    recognize: spec_fn(Seq<char>) -> Option<ChunkView>,
    s: StateView,
    held: Seq<char>,
    pieces: Seq<Seq<char>>,
) -> (StateView, Seq<EventView>)
    decreases pieces.len(),
{
    if pieces.len() == 0 {
        (s, seq![])
    } else {
        let (t, events) = answered(recognize, s, held + pieces.first());
        let (u, more) = answered_in_turn(
            recognize,
            t,
            pending(held + pieces.first()),
            pieces.drop_first(),
        );
        (u, events + more)
    }
}

/// However the text of an answer is cut on the way, receiving and relaying the pieces in
/// turn makes the events, and leaves the state, that the whole text does.
pub proof fn law_events_ignore_all_cuts(
    recognize: spec_fn(Seq<char>) -> Option<ChunkView>,
    s: StateView,
    held: Seq<char>,
    pieces: Seq<Seq<char>>,
)
    requires
        next_break(held, 0) is None,
    ensures
        answered_in_turn(recognize, s, held, pieces).0 == answered(
            recognize,
            s,
            held + reassembled(pieces),
        ).0,
        answered_in_turn(recognize, s, held, pieces).1 == answered(
            recognize,
            s,
            held + reassembled(pieces),
        ).1,
    decreases pieces.len(),
{
    if pieces.len() == 0 {
        assert(held + reassembled(pieces) =~= held);
        assert(payloads(held) =~= seq![]);
        assert(inputs_of_payloads(recognize, payloads(held)) =~= seq![]);
    } else {
        let first = pieces.first();
        let rest = pieces.drop_first();
        let t = answered(recognize, s, held + first).0;
        law_pending_is_incomplete(held + first);
        law_events_ignore_all_cuts(recognize, t, pending(held + first), rest);
        law_events_ignore_cuts(recognize, s, held, first, reassembled(rest));
    }
}

/// However the bytes of an answer are cut between characters, and into however many
/// pieces, receiving and relaying the pieces in turn makes the events, and leaves the
/// state, that the uncut bytes do.
pub proof fn law_events_ignore_byte_cuts(
    recognize: spec_fn(Seq<char>) -> Option<ChunkView>,
    s: StateView,
    held: Seq<char>,
    pieces: Seq<Seq<u8>>,
)
    requires
        next_break(held, 0) is None,
        forall|i: int| 0 <= i < pieces.len() ==> valid_utf8(#[trigger] pieces[i]),
    ensures
        valid_utf8(reassembled(pieces)),
        answered_in_turn(recognize, s, held, decoded(pieces)) == answered(
            recognize,
            s,
            held + decode_utf8(reassembled(pieces)),
        ),
{
    lemma_decode_pieces(pieces);
    law_events_ignore_all_cuts(recognize, s, held, decoded(pieces));
}

/// Whether a line holds neither the end marker nor a chunk.
pub open spec fn silent_line(
    recognize: spec_fn(Seq<char>) -> Option<ChunkView>,
    line: Seq<char>,
) -> bool {
    forall|i: int|
        0 <= i < line_payload(line).len() ==> match #[trigger] line_payload(line)[i] {
            PayloadView::Done => false,
            PayloadView::Data(data) => recognize(data) is None,
        }
}

/// Whether none of the lines of a frame holds the end marker or a chunk.
pub open spec fn silent_frame(
    recognize: spec_fn(Seq<char>) -> Option<ChunkView>,
    frame: Seq<char>,
) -> bool {
    forall|i: int| 0 <= i < lines(frame).len() ==> silent_line(recognize, #[trigger] lines(frame)[i])
}

/// Lines that hold neither the end marker nor a chunk hand nothing to the translation.
proof fn lemma_silent_lines(
    recognize: spec_fn(Seq<char>) -> Option<ChunkView>,
    ls: Seq<Seq<char>>,
)
    requires
        forall|i: int| 0 <= i < ls.len() ==> silent_line(recognize, #[trigger] ls[i]),
    ensures
        inputs_of_payloads(recognize, lines_payloads(ls)) == Seq::<Input>::empty(),
    decreases ls.len(),
{
    if ls.len() > 0 {
        let rest = ls.drop_first();
        let here = line_payload(ls[0]);
        assert(silent_line(recognize, ls[0]));
        assert forall|i: int| 0 <= i < rest.len() implies silent_line(
            recognize,
            #[trigger] rest[i],
        ) by {
            assert(rest[i] == ls[i + 1]);
        }
        lemma_silent_lines(recognize, rest);
        lemma_inputs_of_payloads_concat(recognize, here, lines_payloads(rest));
        if here.len() > 0 {
            assert(inputs_of_payload(recognize, here[0]) =~= seq![]);
            assert(here.drop_last() =~= seq![]);
            assert(inputs_of_payloads(recognize, here.drop_last()) =~= seq![]);
        }
        assert(inputs_of_payloads(recognize, here) =~= seq![]);
    }
}

/// A complete frame whose lines hold neither the end marker nor a chunk, put in where a
/// frame ends, changes no event and leaves the same state.
pub proof fn law_silent_frame_changes_nothing(
    recognize: spec_fn(Seq<char>) -> Option<ChunkView>,
    s: StateView,
    before: Seq<char>,
    frame: Seq<char>,
    behind: Seq<char>,
)
    requires
        pending(before) == Seq::<char>::empty(),
        next_break(frame + "\n\n"@, 0) == Some(frame.len() as int),
        silent_frame(recognize, frame),
    ensures
        answered(recognize, s, before + (frame + "\n\n"@) + behind) == answered(
            recognize,
            s,
            before + behind,
        ),
        pending(before + (frame + "\n\n"@) + behind) == pending(before + behind),
{
    let extra = frame + "\n\n"@;
    let t = extra + behind;
    let p = frame.len() as int;
    reveal_strlit("\n\n");
    lemma_next_break_stays(extra, behind, 0);
    assert(t.take(p) =~= frame);
    assert(t.skip(p + 2) =~= behind);
    law_cut_text(Seq::empty(), before, t);
    law_cut_text(Seq::empty(), before, behind);
    assert(Seq::<char>::empty() + before =~= before);
    assert(Seq::<char>::empty() + t =~= t);
    assert(Seq::<char>::empty() + behind =~= behind);
    assert(Seq::<char>::empty() + (before + t) =~= before + extra + behind);
    assert(Seq::<char>::empty() + (before + behind) =~= before + behind);
    lemma_silent_lines(recognize, lines(frame));
    lemma_inputs_of_payloads_concat(recognize, frame_payloads(frame), payloads(behind));
    lemma_inputs_of_payloads_concat(recognize, payloads(before), payloads(t));
    lemma_inputs_of_payloads_concat(recognize, payloads(before), payloads(behind));
    assert(inputs_of_payloads(recognize, payloads(t)) =~= inputs_of_payloads(
        recognize,
        payloads(behind),
    ));
}

/// An end that no pair of line feeds completes changes no event and leaves the same state,
/// whatever it holds.
pub proof fn law_unterminated_end_changes_nothing(
    recognize: spec_fn(Seq<char>) -> Option<ChunkView>,
    s: StateView,
    before: Seq<char>,
    end: Seq<char>,
)
    requires
        next_break(pending(before) + end, 0) is None,
    ensures
        answered(recognize, s, before + end) == answered(recognize, s, before),
        pending(before + end) == pending(before) + end,
{
    law_cut_text(Seq::empty(), before, end);
    assert(Seq::<char>::empty() + before =~= before);
    assert(Seq::<char>::empty() + (before + end) =~= before + end);
    assert(payloads(before + end) =~= payloads(before));
}

/// Whether `incoming` is what `recognize` makes of a payload.
pub open spec fn recognized(
    recognize: spec_fn(Seq<char>) -> Option<ChunkView>,
    payload: PayloadView,
    incoming: Incoming,
) -> bool {
    match payload {
        PayloadView::Done => incoming is Done,
        PayloadView::Data(data) => match recognize(data) {
            Some(chunk) => incoming matches Incoming::Chunk(c) && c@ == chunk,
            None => incoming is Unrecognized,
        },
    }
}

/// Payloads that have been looked into one by one hand the same inputs to the translation
/// as the payloads do.
proof fn lemma_recognized_inputs(
    recognize: spec_fn(Seq<char>) -> Option<ChunkView>,
    ps: Seq<PayloadView>,
    incoming: Seq<Incoming>,
)
    requires
        ps.len() == incoming.len(),
        forall|i: int| 0 <= i < ps.len() ==> recognized(recognize, #[trigger] ps[i], incoming[i]),
    ensures
        inputs_of(incoming) == inputs_of_payloads(recognize, ps),
    decreases ps.len(),
{
    if ps.len() > 0 {
        let last = ps.len() - 1;
        assert(recognized(recognize, ps[last], incoming[last]));
        assert forall|i: int| 0 <= i < last implies recognized(
            recognize,
            #[trigger] ps.drop_last()[i],
            incoming.drop_last()[i],
        ) by {
            assert(recognized(recognize, ps[i], incoming[i]));
        }
        lemma_recognized_inputs(recognize, ps.drop_last(), incoming.drop_last());
    }
}

/// Receiving a text, looking into each of its payloads and relaying them makes the events
/// of that text: with `s` before `receive`, the payloads that it gives out, and what
/// `recognize` makes of each of them, `relay` answers the text.
pub proof fn law_receive_and_relay_answer_the_text(
    recognize: spec_fn(Seq<char>) -> Option<ChunkView>,
    s: SseView,
    text: Seq<char>,
    incoming: Seq<Incoming>,
)
    requires
        incoming.len() == payloads(s.held + text).len(),
        forall|i: int|
            0 <= i < incoming.len() ==> recognized(
                recognize,
                #[trigger] payloads(s.held + text)[i],
                incoming[i],
            ),
    ensures
        inputs_of(incoming) == inputs_of_payloads(recognize, payloads(s.held + text)),
        with_inputs(s.state, inputs_of(incoming)) == answered(recognize, s.state, s.held + text),
{
    lemma_recognized_inputs(recognize, payloads(s.held + text), incoming);
}

/// Whatever text the upstream sends, the events of the answer follow the protocol.
pub proof fn law_answer_follows_protocol(
    recognize: spec_fn(Seq<char>) -> Option<ChunkView>,
    fallback_model: Seq<char>,
    text: Seq<char>,
)
    ensures
        read_all(new_reader(), answered(recognize, initial(fallback_model), text).1) == Some(
            reader_at(answered(recognize, initial(fallback_model), text).0),
        ),
{
    law_stream_follows_protocol(fallback_model, inputs_of_payloads(recognize, payloads(text)));
}

/// Where there is no line feed before `p`, and one at `p`, it is the next.
proof fn lemma_newline_at(t: Seq<char>, i: int, p: int)
    requires
        0 <= i <= p < t.len(),
        t[p] == '\n',
        forall|k: int| i <= k < p ==> t[k] != '\n',
    ensures
        next_newline(t, i) == Some(p),
    decreases p - i,
{
    if i < p {
        lemma_newline_at(t, i + 1, p);
    }
}

/// Where there is no line feed, there is none to find.
proof fn lemma_no_newline(t: Seq<char>, i: int)
    requires
        0 <= i,
        forall|k: int| i <= k < t.len() ==> t[k] != '\n',
    ensures
        next_newline(t, i) is None,
    decreases t.len() - i,
{
    if i < t.len() {
        lemma_no_newline(t, i + 1);
    }
}

/// Where no pair of line feeds starts before `p`, and one at `p`, it is the next.
proof fn lemma_break_at(t: Seq<char>, i: int, p: int)
    requires
        0 <= i <= p,
        p + 1 < t.len(),
        t[p] == '\n',
        t[p + 1] == '\n',
        forall|k: int| i <= k < p ==> t[k] != '\n' || #[trigger] t[k + 1] != '\n',
    ensures
        next_break(t, i) == Some(p),
    decreases p - i,
{
    if i < p {
        assert(t[i] != '\n' || t[i + 1] != '\n');
        lemma_break_at(t, i + 1, p);
    }
}

/// How many line feeds a text holds.
pub open spec fn line_feeds(t: Seq<char>) -> nat
    decreases t.len(),
{
    if t.len() == 0 {
        0
    } else {
        line_feeds(t.drop_last()) + (if t.last() == '\n' {
            1nat
        } else {
            0
        })
    }
}

proof fn lemma_line_feeds_concat(a: Seq<char>, b: Seq<char>)
    ensures
        line_feeds(a + b) == line_feeds(a) + line_feeds(b),
    decreases b.len(),
{
    if b.len() == 0 {
        assert(a + b =~= a);
    } else {
        assert((a + b).drop_last() =~= a + b.drop_last());
        lemma_line_feeds_concat(a, b.drop_last());
    }
}

proof fn lemma_line_feeds_none(t: Seq<char>)
    requires
        on_one_line(t),
    ensures
        line_feeds(t) == 0,
    decreases t.len(),
{
    if t.len() > 0 {
        assert(t[t.len() - 1] != '\n');
        assert(on_one_line(t.drop_last()));
        lemma_line_feeds_none(t.drop_last());
    }
}

/// Whether a text holds no line feed, as compact JSON does not.
pub open spec fn on_one_line(t: Seq<char>) -> bool {
    forall|i: int| 0 <= i < t.len() ==> #[trigger] t[i] != '\n'
}

/// The text of an event without the pair of line feeds at its end.
pub open spec fn event_frame(event_type: Seq<char>, json: Seq<char>) -> Seq<char> {
    "event: "@ + event_type + "\ndata: "@ + json
}

/// Where the line feeds of an event's text stand.
proof fn lemma_event_line_feeds(event: EventView, json: Seq<char>)
    requires
        on_one_line(json),
    ensures
        ({
            let name = event_type_of(event);
            let t = event_text(name, json);
            let head = "event: "@ + name;
            let tail = "data: "@ + json;
            let frame = event_frame(name, json);
            &&& t == frame + "\n\n"@
            &&& frame == head + seq!['\n'] + tail
            &&& on_one_line(head)
            &&& on_one_line(tail)
            &&& t.len() == frame.len() + 2
            &&& next_break(t, 0) == Some(frame.len() as int)
            &&& t.take(frame.len() as int) == frame
            &&& t.skip(frame.len() as int + 2) == Seq::<char>::empty()
            &&& forall|i: int|
                0 <= i < t.len() - 2 ==> t[i] != '\n' || #[trigger] t[i + 1] != '\n'
        }),
{
    let name = event_type_of(event);
    lemma_type_is_one_line(event);
    reveal_strlit("event: ");
    reveal_strlit("\ndata: ");
    reveal_strlit("data: ");
    reveal_strlit("\n\n");
    let t = event_text(name, json);
    let head = "event: "@ + name;
    let tail = "data: "@ + json;
    let frame = event_frame(name, json);
    let n = head.len() as int;
    let p = frame.len() as int;
    assert("\ndata: "@ =~= seq!['\n'] + "data: "@);
    assert(frame =~= head + seq!['\n'] + tail);
    assert(t =~= frame + "\n\n"@);
    assert forall|k: int| 0 <= k < head.len() implies #[trigger] head[k] != '\n' by {
        if k >= 7 {
            assert(head[k] == name[k - 7]);
        }
    }
    assert forall|k: int| 0 <= k < tail.len() implies #[trigger] tail[k] != '\n' by {
        if k >= 6 {
            assert(tail[k] == json[k - 6]);
        }
    }
    assert forall|k: int| 0 <= k < p implies t[k] != '\n' || #[trigger] t[k + 1] != '\n' by {
        if k < n {
            assert(t[k] == head[k]);
        } else if k == n {
            assert(t[k + 1] == tail[0]);
        } else {
            assert(t[k] == tail[k - n - 1]);
        }
    }
    lemma_break_at(t, 0, p);
    assert(t.take(p) =~= frame);
    assert(t.skip(p + 2) =~= seq![]);
}

/// Whether a text is exactly one frame: it ends with a pair of line feeds, there is no
/// other pair in it, and it holds three line feeds in all.
pub open spec fn one_frame(t: Seq<char>) -> bool {
    &&& frames(t).len() == 1
    &&& t == frames(t)[0] + "\n\n"@
    &&& pending(t) == Seq::<char>::empty()
    &&& line_feeds(t) == 3
    &&& forall|i: int|
        0 <= i < t.len() - 1 && t[i] == '\n' && #[trigger] t[i + 1] == '\n' ==> i == t.len() - 2
}

/// What is put on the wire as an event, where its JSON is on one line, is exactly one
/// frame.
pub proof fn law_event_is_one_frame(event: EventView, json: Seq<char>)
    requires
        on_one_line(json),
    ensures
        one_frame(event_text(event_type_of(event), json)),
        frames(event_text(event_type_of(event), json)) == seq![
            event_frame(event_type_of(event), json),
        ],
{
    let name = event_type_of(event);
    let t = event_text(name, json);
    let head = "event: "@ + name;
    let tail = "data: "@ + json;
    let frame = event_frame(name, json);
    lemma_event_line_feeds(event, json);
    reveal_strlit("\n\n");
    assert(frames(t.skip(frame.len() as int + 2)) =~= seq![]);
    assert(frames(t) =~= seq![frame]);
    assert(pending(t.skip(frame.len() as int + 2)) =~= seq![]);
    lemma_line_feeds_none(head);
    lemma_line_feeds_none(tail);
    assert(line_feeds(seq!['\n']) == 1) by {
        assert(seq!['\n'].drop_last() =~= seq![]);
        assert(line_feeds(seq!['\n'].drop_last()) == 0);
    }
    assert(line_feeds("\n\n"@) == 2) by {
        assert("\n\n"@ =~= seq!['\n'] + seq!['\n']);
        lemma_line_feeds_concat(seq!['\n'], seq!['\n']);
    }
    lemma_line_feeds_concat(head, seq!['\n']);
    lemma_line_feeds_concat(head + seq!['\n'], tail);
    lemma_line_feeds_concat(frame, "\n\n"@);
}

/// What stands behind the prefix of each `data: ` line.
pub open spec fn data_lines(ls: Seq<Seq<char>>) -> Seq<Seq<char>>
    decreases ls.len(),
{
    if ls.len() == 0 {
        seq![]
    } else if ls.first().len() >= 6 && ls.first().take(6) == "data: "@ {
        seq![ls.first().skip(6)] + data_lines(ls.drop_first())
    } else {
        data_lines(ls.drop_first())
    }
}

/// The frame of an event has two lines: its type, and its data. So it has one `data: `
/// line, and this gives the JSON back.
pub proof fn law_event_data_reads_back(event: EventView, json: Seq<char>)
    requires
        on_one_line(json),
    ensures
        lines(event_frame(event_type_of(event), json)) == seq![
            "event: "@ + event_type_of(event),
            "data: "@ + json,
        ],
        data_lines(lines(event_frame(event_type_of(event), json))) == seq![json],
{
    let name = event_type_of(event);
    let head = "event: "@ + name;
    let tail = "data: "@ + json;
    let frame = event_frame(name, json);
    let n = head.len() as int;
    lemma_type_is_one_line(event);
    lemma_event_line_feeds(event, json);
    reveal_strlit("event: ");
    reveal_strlit("data: ");
    assert forall|k: int| 0 <= k < n implies frame[k] != '\n' by {
        assert(frame[k] == head[k]);
    }
    lemma_newline_at(frame, 0, n);
    assert(frame.take(n) =~= head);
    assert(frame.skip(n + 1) =~= tail);
    assert(without_carriage_return(head) == head) by {
        if name.len() == 0 {
            assert(head.last() == "event: "@[6]);
        } else {
            assert(head.last() == name.last());
        }
    }
    lemma_no_newline(tail, 0);
    assert(lines(tail) == seq![tail]);
    assert(lines(frame) =~= seq![head, tail]);
    assert(head.take(6)[0] != "data: "@[0]);
    assert(tail.take(6) =~= "data: "@);
    assert(tail.skip(6) =~= json);
    assert(seq![head, tail].drop_first() =~= seq![tail]);
    assert(seq![tail].drop_first() =~= seq![]);
    assert(data_lines(seq![tail].drop_first()) =~= seq![]);
    assert(data_lines(seq![tail]) =~= seq![json]);
}

/// The frame of an event has one payload, that of its data.
proof fn lemma_frame_payload(event: EventView, json: Seq<char>)
    requires
        on_one_line(json),
    ensures
        frame_payloads(event_frame(event_type_of(event), json)) == seq![data_payload(json)],
{
    let head = "event: "@ + event_type_of(event);
    let tail = "data: "@ + json;
    law_event_data_reads_back(event, json);
    reveal_strlit("event: ");
    reveal_strlit("data: ");
    assert(head.take(6)[0] != "data: "@[0]);
    assert(tail.take(6) =~= "data: "@);
    assert(tail.skip(6) =~= json);
    assert(seq![head, tail].drop_first() =~= seq![tail]);
    assert(seq![tail].drop_first() =~= seq![]);
    assert(lines_payloads(seq![tail].drop_first()) =~= seq![]);
    assert(lines_payloads(seq![tail]) =~= seq![data_payload(json)]);
    assert(lines_payloads(seq![head, tail]) =~= seq![data_payload(json)]);
}

/// What is put on the wire as an event reads back as one payload, that of its JSON, and
/// leaves nothing over.
pub proof fn law_event_reads_back(event: EventView, json: Seq<char>)
    requires
        on_one_line(json),
    ensures
        payloads(event_text(event_type_of(event), json)) == seq![data_payload(json)],
        pending(event_text(event_type_of(event), json)) == Seq::<char>::empty(),
{
    let name = event_type_of(event);
    let t = event_text(name, json);
    let frame = event_frame(name, json);
    lemma_event_line_feeds(event, json);
    lemma_frame_payload(event, json);
    assert(payloads(t.skip(frame.len() as int + 2)) =~= seq![]);
    assert(pending(t.skip(frame.len() as int + 2)) =~= seq![]);
    assert(payloads(t) =~= seq![data_payload(json)]);
}

/// Events, each with its JSON, as they go on the wire one behind the other.
pub open spec fn wire_text(items: Seq<(EventView, Seq<char>)>) -> Seq<char>
    decreases items.len(),
{
    if items.len() == 0 {
        seq![]
    } else {
        event_text(event_type_of(items.first().0), items.first().1) + wire_text(items.drop_first())
    }
}

/// Events that go on the wire one behind the other come apart again, frame by frame: one
/// frame and one payload for each of them, in order, and nothing over.
pub proof fn law_events_come_apart_again(items: Seq<(EventView, Seq<char>)>)
    requires
        forall|i: int| 0 <= i < items.len() ==> on_one_line((#[trigger] items[i]).1),
    ensures
        frames(wire_text(items)) == items.map_values(
            |item: (EventView, Seq<char>)| event_frame(event_type_of(item.0), item.1),
        ),
        payloads(wire_text(items)) == items.map_values(
            |item: (EventView, Seq<char>)| data_payload(item.1),
        ),
        pending(wire_text(items)) == Seq::<char>::empty(),
    decreases items.len(),
{
    let as_frame = |item: (EventView, Seq<char>)| event_frame(event_type_of(item.0), item.1);
    let as_data = |item: (EventView, Seq<char>)| data_payload(item.1);
    let t = wire_text(items);
    if items.len() == 0 {
        assert(frames(t) =~= items.map_values(as_frame));
        assert(payloads(t) =~= items.map_values(as_data));
        assert(pending(t) =~= seq![]);
    } else {
        let (event, json) = items[0];
        let rest = items.drop_first();
        let first = event_text(event_type_of(event), json);
        let frame = event_frame(event_type_of(event), json);
        let p = frame.len() as int;
        assert(items.first() == items[0]);
        assert forall|i: int| 0 <= i < rest.len() implies on_one_line(
            (#[trigger] rest[i]).1,
        ) by {
            assert(rest[i] == items[i + 1]);
        }
        law_events_come_apart_again(rest);
        lemma_event_line_feeds(event, json);
        lemma_frame_payload(event, json);
        lemma_next_break_stays(first, wire_text(rest), 0);
        assert(t.take(p) =~= frame) by {
            assert(first.take(p) =~= t.take(p));
        }
        assert(t.skip(p + 2) =~= wire_text(rest));
        assert(frames(t) =~= items.map_values(as_frame));
        assert(payloads(t) =~= items.map_values(as_data));
    }
}

/// The type of an event holds no line ending.
proof fn lemma_type_is_one_line(event: EventView)
    ensures
        forall|i: int|
            0 <= i < event_type_of(event).len() ==> {
                &&& #[trigger] event_type_of(event)[i] != '\n'
                &&& event_type_of(event)[i] != '\r'
            },
{
    reveal_strlit("message_start");
    reveal_strlit("content_block_start");
    reveal_strlit("content_block_delta");
    reveal_strlit("content_block_stop");
    reveal_strlit("message_delta");
    reveal_strlit("message_stop");
    reveal_strlit("error");
}

} // verus!

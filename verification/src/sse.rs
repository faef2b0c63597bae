//! Server-sent events on the upstream side: cutting the text that arrives into frames,
//! the frames into lines, and picking the payload out of each `data: ` line.

use crate::text::{chars_of, decode_lossy, string_of, trimmed, trimmed_is, utf8_lossy, white_space};
use vstd::prelude::*;
use vstd::utf8::{decode_utf8, valid_utf8};

verus! {

/// What one `data: ` line carries.
#[derive(Debug)]
pub enum Payload {
    /// The end marker, `[DONE]`.
    Done,
    /// Anything else: the text behind the prefix.
    Data(String),
}

/// A `Payload` with its text as a sequence.
pub enum PayloadView {
    Done,
    Data(Seq<char>),
}

impl View for Payload {
    type V = PayloadView;

    open spec fn view(&self) -> PayloadView {
        match self {
            Payload::Done => PayloadView::Done,
            Payload::Data(s) => PayloadView::Data(s@),
        }
    }
}

/// The views of a run of payloads.
pub open spec fn payload_views(ps: Seq<Payload>) -> Seq<PayloadView> {
    ps.map_values(|p: Payload| p@)
}

/// Where the first line feed of `t` at or after `i` stands.
pub open spec fn next_newline(t: Seq<char>, i: int) -> Option<int>
    decreases t.len() - i,
{
    if i < 0 || i >= t.len() {
        None
    } else if t[i] == '\n' {
        Some(i)
    } else {
        next_newline(t, i + 1)
    }
}

/// Where the first pair of line feeds of `t` at or after `i` starts.
pub open spec fn next_break(t: Seq<char>, i: int) -> Option<int>
    decreases t.len() - i,
{
    if i < 0 || i + 1 >= t.len() {
        None
    } else if t[i] == '\n' && t[i + 1] == '\n' {
        Some(i)
    } else {
        next_break(t, i + 1)
    }
}

/// `next_newline` finds a line feed inside the text.
proof fn lemma_next_newline_bounds(t: Seq<char>, i: int)
    ensures
        next_newline(t, i) matches Some(p) ==> i <= p < t.len() && t[p] == '\n',
    decreases t.len() - i,
{
    if 0 <= i < t.len() && t[i] != '\n' {
        lemma_next_newline_bounds(t, i + 1);
    }
}

/// `next_break` finds a pair of line feeds inside the text.
pub(crate) proof fn lemma_next_break_bounds(t: Seq<char>, i: int)
    ensures
        next_break(t, i) matches Some(p) ==> i <= p && p + 1 < t.len() && t[p] == '\n' && t[p + 1]
            == '\n',
    decreases t.len() - i,
{
    if 0 <= i && i + 1 < t.len() && !(t[i] == '\n' && t[i + 1] == '\n') {
        lemma_next_break_bounds(t, i + 1);
    }
}

/// A line without the carriage return of a two-character line ending.
pub open spec fn without_carriage_return(line: Seq<char>) -> Seq<char> {
    if line.len() > 0 && line.last() == '\r' {
        line.drop_last()
    } else {
        line
    }
}

/// The lines of `t`. A line ends at a line feed, with or without a carriage return
/// before it; the ending of the last line may be missing.
pub open spec fn lines(t: Seq<char>) -> Seq<Seq<char>>
    decreases t.len(),
    via lines_shrink
{
    if t.len() == 0 {
        seq![]
    } else {
        match next_newline(t, 0) {
            Some(p) => seq![without_carriage_return(t.take(p))] + lines(t.skip(p + 1)),
            None => seq![t],
        }
    }
}

#[via_fn]
proof fn lines_shrink(t: Seq<char>) {
    lemma_next_newline_bounds(t, 0);
}

/// The payload behind the prefix of a `data: ` line.
pub open spec fn data_payload(data: Seq<char>) -> PayloadView {
    if trimmed(data) == "[DONE]"@ {
        PayloadView::Done
    } else {
        PayloadView::Data(data)
    }
}

/// The payload of one line: none unless the line starts with `data: `.
pub open spec fn line_payload(line: Seq<char>) -> Seq<PayloadView> {
    if line.len() >= 6 && line.take(6) == "data: "@ {
        seq![data_payload(line.skip(6))]
    } else {
        seq![]
    }
}

/// The payloads of a run of lines, in order.
pub open spec fn lines_payloads(ls: Seq<Seq<char>>) -> Seq<PayloadView>
    decreases ls.len(),
{
    if ls.len() == 0 {
        seq![]
    } else {
        line_payload(ls.first()) + lines_payloads(ls.drop_first())
    }
}

/// The payloads of one frame.
pub open spec fn frame_payloads(frame: Seq<char>) -> Seq<PayloadView> {
    lines_payloads(lines(frame))
}

/// The payloads of all the frames of `t` that are complete: a frame ends at the first
/// pair of line feeds.
pub open spec fn payloads(t: Seq<char>) -> Seq<PayloadView>
    decreases t.len(),
    via payloads_shrink
{
    match next_break(t, 0) {
        Some(p) => frame_payloads(t.take(p)) + payloads(t.skip(p + 2)),
        None => seq![],
    }
}

#[via_fn]
proof fn payloads_shrink(t: Seq<char>) {
    lemma_next_break_bounds(t, 0);
}

/// The frames of `t` that are complete, each without the pair of line feeds at its end.
pub open spec fn frames(t: Seq<char>) -> Seq<Seq<char>>
    decreases t.len(),
    via frames_shrink
{
    match next_break(t, 0) {
        Some(p) => seq![t.take(p)] + frames(t.skip(p + 2)),
        None => seq![],
    }
}

#[via_fn]
proof fn frames_shrink(t: Seq<char>) {
    lemma_next_break_bounds(t, 0);
}

/// What is left of `t` behind its last complete frame.
pub open spec fn pending(t: Seq<char>) -> Seq<char>
    decreases t.len(),
    via pending_shrink
{
    match next_break(t, 0) {
        Some(p) => pending(t.skip(p + 2)),
        None => t,
    }
}

#[via_fn]
proof fn pending_shrink(t: Seq<char>) {
    lemma_next_break_bounds(t, 0);
}

/// Appends the payload of the line `t[from..to]`, if it has one, to `out`.
fn push_line(t: &[char], from: usize, to: usize, out: &mut Vec<Payload>)
    requires
        from <= to <= t@.len(),
    ensures
        payload_views(final(out)@) == payload_views(old(out)@) + line_payload(
            t@.subrange(from as int, to as int),
        ),
{
    let ghost line = t@.subrange(from as int, to as int);
    if to - from >= 6 && string_of(t, from, from + 6).eq(&"data: ".to_owned()) {
        assert(line.take(6) =~= t@.subrange(from as int, from + 6));
        assert(line.skip(6) =~= t@.subrange(from + 6, to as int));
        let payload = if trimmed_is(t, from + 6, to, "[DONE]") {
            Payload::Done
        } else {
            Payload::Data(string_of(t, from + 6, to))
        };
        out.push(payload);
    } else if to - from >= 6 {
        assert(line.take(6) =~= t@.subrange(from as int, from + 6));
    }
    assert(payload_views(out@) =~= payload_views(old(out)@) + line_payload(line));
}

/// Appends the payloads of the frame `t[from..to]` to `out`.
fn push_frame(t: &[char], from: usize, to: usize, out: &mut Vec<Payload>)
    requires
        from <= to <= t@.len(),
    ensures
        payload_views(final(out)@) == payload_views(old(out)@) + frame_payloads(
            t@.subrange(from as int, to as int),
        ),
{
    let ghost frame = t@.subrange(from as int, to as int);
    let ghost whole = payload_views(out@) + frame_payloads(frame);
    let mut start: usize = from;
    let mut i: usize = from;
    while i < to
        invariant
            from <= start <= i <= to <= t@.len(),
            next_newline(t@.subrange(start as int, to as int), 0) == next_newline(
                t@.subrange(start as int, to as int),
                i - start,
            ),
            whole == payload_views(out@) + frame_payloads(t@.subrange(start as int, to as int)),
        decreases to - i,
    {
        let ghost rest = t@.subrange(start as int, to as int);
        assert(rest[i - start] == t@[i as int]);
        if t[i] == '\n' {
            let end: usize = if i > start && t[i - 1] == '\r' {
                i - 1
            } else {
                i
            };
            assert(rest.take(i - start) =~= t@.subrange(start as int, i as int));
            assert(without_carriage_return(rest.take(i - start)) =~= t@.subrange(
                start as int,
                end as int,
            ));
            assert(rest.skip(i - start + 1) =~= t@.subrange(i + 1, to as int));
            let ghost line = t@.subrange(start as int, end as int);
            let ghost before = payload_views(out@);
            push_line(t, start, end, out);
            proof {
                let tail = t@.subrange(i + 1, to as int);
                assert(lines(rest) == seq![line] + lines(tail));
                assert(lines(rest).first() == line);
                assert(lines(rest).drop_first() =~= lines(tail));
                assert(frame_payloads(rest) == line_payload(line) + frame_payloads(tail));
                assert(before + (line_payload(line) + frame_payloads(tail)) =~= (before
                    + line_payload(line)) + frame_payloads(tail));
            }
            start = i + 1;
            i = start;
        } else {
            i = i + 1;
        }
    }
    let ghost rest = t@.subrange(start as int, to as int);
    if start < to {
        push_line(t, start, to, out);
        proof {
            assert(lines(rest) == seq![rest]);
            assert(seq![rest].drop_first() =~= Seq::<Seq<char>>::empty());
            assert(lines_payloads(seq![rest].drop_first()) =~= seq![]);
            assert(frame_payloads(rest) =~= line_payload(rest));
        }
    } else {
        assert(frame_payloads(rest) =~= seq![]);
    }
    assert(payload_views(out@) =~= whole);
}

/// The text that has arrived from the upstream and is not part of a complete frame yet.
#[derive(Debug)]
pub struct Decoder {
    buffer: Vec<char>,
}

impl View for Decoder {
    type V = Seq<char>;

    closed spec fn view(&self) -> Seq<char> {
        self.buffer@
    }
}

impl Decoder {
    /// A decoder to which nothing has arrived.
    pub fn new() -> (d: Decoder)
        ensures
            d@ == Seq::<char>::empty(),
    {
        Decoder { buffer: Vec::new() }
    }

    /// Takes in more text and gives out the payloads of the frames that it completes.
    pub fn push_text(&mut self, text: &str) -> (out: Vec<Payload>)
        ensures
            payload_views(out@) == payloads(old(self)@ + text@),
            final(self)@ == pending(old(self)@ + text@),
    {
        let mut more = chars_of(text);
        self.buffer.append(&mut more);
        let ghost whole = self.buffer@;
        assert(whole =~= old(self)@ + text@);
        let len: usize = self.buffer.len();
        let mut out: Vec<Payload> = Vec::new();
        assert(payload_views(out@) =~= seq![]);
        let mut start: usize = 0;
        let mut i: usize = 0;
        assert(whole.skip(0) =~= whole);
        while i < len && i + 1 < len
            invariant
                whole == self.buffer@,
                len == whole.len(),
                start <= i <= len,
                next_break(whole.skip(start as int), 0) == next_break(
                    whole.skip(start as int),
                    i - start,
                ),
                payload_views(out@) + payloads(whole.skip(start as int)) == payloads(whole),
                pending(whole.skip(start as int)) == pending(whole),
            decreases len - i,
        {
            let ghost rest = whole.skip(start as int);
            assert(rest[i - start] == whole[i as int]);
            assert(rest[i - start + 1] == whole[i + 1]);
            if self.buffer[i] == '\n' && self.buffer[i + 1] == '\n' {
                assert(rest.take(i - start) =~= whole.subrange(start as int, i as int));
                assert(rest.skip(i - start + 2) =~= whole.skip(i + 2));
                let ghost before = payload_views(out@);
                push_frame(&self.buffer, start, i, &mut out);
                proof {
                    let frame = whole.subrange(start as int, i as int);
                    let tail = whole.skip(i + 2);
                    assert(payloads(rest) == frame_payloads(frame) + payloads(tail));
                    assert(before + (frame_payloads(frame) + payloads(tail)) =~= (before
                        + frame_payloads(frame)) + payloads(tail));
                }
                start = i + 2;
                i = start;
            } else {
                i = i + 1;
            }
        }
        proof {
            let rest = whole.skip(start as int);
            assert(next_break(rest, i - start) is None);
            assert(payloads(rest) =~= seq![]);
            assert(pending(rest) == rest);
            assert(payload_views(out@) =~= payloads(whole));
        }
        let mut kept: Vec<char> = Vec::new();
        let mut k: usize = start;
        while k < len
            invariant
                whole == self.buffer@,
                len == whole.len(),
                start <= k <= len,
                kept@ == whole.subrange(start as int, k as int),
            decreases len - k,
        {
            kept.push(self.buffer[k]);
            k = k + 1;
            assert(whole.subrange(start as int, k as int) =~= whole.subrange(
                start as int,
                k - 1,
            ).push(whole[k - 1]));
        }
        assert(kept@ =~= whole.skip(start as int));
        self.buffer = kept;
        out
    }

    /// Takes in bytes as they came off the wire. Each run of bytes is decoded by itself,
    /// with replacement characters where it is not UTF-8.
    pub fn push_bytes(&mut self, bytes: &[u8]) -> (out: Vec<Payload>)
        ensures
            payload_views(out@) == payloads(old(self)@ + utf8_lossy(bytes@)),
            final(self)@ == pending(old(self)@ + utf8_lossy(bytes@)),
            valid_utf8(bytes@) ==> {
                &&& payload_views(out@) == payloads(old(self)@ + decode_utf8(bytes@))
                &&& final(self)@ == pending(old(self)@ + decode_utf8(bytes@))
            },
    {
        let text = decode_lossy(bytes);
        self.push_text(text.as_str())
    }
}

/// A pair of line feeds stays the first one when more text follows it.
pub(crate) proof fn lemma_next_break_stays(a: Seq<char>, b: Seq<char>, i: int)
    requires
        next_break(a, i) is Some,
    ensures
        next_break(a + b, i) == next_break(a, i),
    decreases a.len() - i,
{
    lemma_next_break_bounds(a, i);
    assert((a + b)[i] == a[i]);
    assert((a + b)[i + 1] == a[i + 1]);
    if !(a[i] == '\n' && a[i + 1] == '\n') {
        lemma_next_break_stays(a, b, i + 1);
    }
}

/// Taking out the complete frames of `a` before `b` arrives changes nothing.
proof fn lemma_append(a: Seq<char>, b: Seq<char>)
    ensures
        payloads(a + b) == payloads(a) + payloads(pending(a) + b),
        pending(a + b) == pending(pending(a) + b),
    decreases a.len(),
{
    match next_break(a, 0) {
        Some(p) => {
            lemma_next_break_bounds(a, 0);
            lemma_next_break_stays(a, b, 0);
            let rest = a.skip(p + 2);
            assert((a + b).take(p) =~= a.take(p));
            assert((a + b).skip(p + 2) =~= rest + b);
            lemma_append(rest, b);
            assert(payloads(a + b) =~= payloads(a) + payloads(pending(a) + b));
        },
        None => {
            assert(payloads(a) =~= seq![]);
            assert(payloads(a + b) =~= payloads(a) + payloads(pending(a) + b));
        },
    }
}

/// Text that arrives in two pieces, wherever it is cut, yields the same payloads and
/// leaves the same text pending as when it arrives in one.
pub proof fn law_cut_text(held: Seq<char>, a: Seq<char>, b: Seq<char>)
    ensures
        payloads(held + a) + payloads(pending(held + a) + b) == payloads(held + (a + b)),
        pending(pending(held + a) + b) == pending(held + (a + b)),
{
    lemma_append(held + a, b);
    assert((held + a) + b =~= held + (a + b));
}

/// The payloads that come out when the pieces arrive one after the other.
pub open spec fn delivered(held: Seq<char>, pieces: Seq<Seq<char>>) -> Seq<PayloadView>
    decreases pieces.len(),
{
    if pieces.len() == 0 {
        seq![]
    } else {
        payloads(held + pieces.first()) + delivered(
            pending(held + pieces.first()),
            pieces.drop_first(),
        )
    }
}

/// What is left pending when the pieces have arrived one after the other.
pub open spec fn left_over(held: Seq<char>, pieces: Seq<Seq<char>>) -> Seq<char>
    decreases pieces.len(),
{
    if pieces.len() == 0 {
        held
    } else {
        left_over(pending(held + pieces.first()), pieces.drop_first())
    }
}

/// The pieces put back together.
pub open spec fn reassembled<T>(pieces: Seq<Seq<T>>) -> Seq<T>
    decreases pieces.len(),
{
    if pieces.len() == 0 {
        seq![]
    } else {
        pieces.first() + reassembled(pieces.drop_first())
    }
}

/// However a text is cut into pieces, the payloads that come out are those of the text,
/// and so is what is left pending.
pub proof fn law_delivery_ignores_cuts(held: Seq<char>, pieces: Seq<Seq<char>>)
    requires
        next_break(held, 0) is None,
    ensures
        delivered(held, pieces) == payloads(held + reassembled(pieces)),
        left_over(held, pieces) == pending(held + reassembled(pieces)),
    decreases pieces.len(),
{
    if pieces.len() == 0 {
        assert(held + reassembled(pieces) =~= held);
        assert(delivered(held, pieces) =~= payloads(held));
    } else {
        let first = pieces.first();
        let rest = pieces.drop_first();
        law_pending_is_incomplete(held + first);
        law_delivery_ignores_cuts(pending(held + first), rest);
        law_cut_text(held, first, reassembled(rest));
    }
}

/// Bytes cut between two characters decode to the same text, so they yield the same
/// payloads as the uncut bytes.
pub proof fn law_cut_bytes(held: Seq<char>, a: Seq<u8>, b: Seq<u8>)
    requires
        valid_utf8(a),
        valid_utf8(b),
    ensures
        valid_utf8(a + b),
        payloads(held + decode_utf8(a)) + payloads(pending(held + decode_utf8(a)) + decode_utf8(b))
            == payloads(held + decode_utf8(a + b)),
        pending(pending(held + decode_utf8(a)) + decode_utf8(b)) == pending(
            held + decode_utf8(a + b),
        ),
{
    vstd::utf8::valid_utf8_concat(a, b);
    lemma_decode_concat(a, b);
    law_cut_text(held, decode_utf8(a), decode_utf8(b));
}

/// Two runs of valid UTF-8, one behind the other, decode one behind the other.
proof fn lemma_decode_concat(a: Seq<u8>, b: Seq<u8>)
    requires
        valid_utf8(a),
        valid_utf8(b),
    ensures
        decode_utf8(a + b) == decode_utf8(a) + decode_utf8(b),
    decreases a.len(),
{
    if a.len() == 0 {
        assert(a + b =~= b);
        assert(decode_utf8(a) =~= seq![]);
        assert(decode_utf8(a) + decode_utf8(b) =~= decode_utf8(b));
    } else {
        let rest = vstd::utf8::pop_first_scalar(a);
        assert(vstd::utf8::pop_first_scalar(a + b) =~= rest + b);
        vstd::utf8::valid_utf8_concat(a, b);
        lemma_decode_concat(rest, b);
        assert(decode_utf8(a + b) =~= decode_utf8(a) + decode_utf8(b));
    }
}

/// Pieces of bytes, each decoded by itself.
pub open spec fn decoded(pieces: Seq<Seq<u8>>) -> Seq<Seq<char>> {
    pieces.map_values(|piece: Seq<u8>| decode_utf8(piece))
}

/// Bytes cut between characters decode, piece by piece, to the pieces of their text.
pub(crate) proof fn lemma_decode_pieces(pieces: Seq<Seq<u8>>)
    requires
        forall|i: int| 0 <= i < pieces.len() ==> valid_utf8(#[trigger] pieces[i]),
    ensures
        valid_utf8(reassembled(pieces)),
        decode_utf8(reassembled(pieces)) == reassembled(decoded(pieces)),
    decreases pieces.len(),
{
    if pieces.len() == 0 {
        assert(decode_utf8(reassembled(pieces)) =~= seq![]);
    } else {
        let first = pieces[0];
        let rest = pieces.drop_first();
        assert forall|i: int| 0 <= i < rest.len() implies valid_utf8(#[trigger] rest[i]) by {
            assert(rest[i] == pieces[i + 1]);
        }
        lemma_decode_pieces(rest);
        vstd::utf8::valid_utf8_concat(first, reassembled(rest));
        lemma_decode_concat(first, reassembled(rest));
        assert(decoded(pieces).drop_first() =~= decoded(rest));
    }
}

/// However bytes are cut between characters, and into however many pieces, the payloads
/// that come out are those of the uncut bytes, and so is what is left pending.
pub proof fn law_delivery_ignores_byte_cuts(held: Seq<char>, pieces: Seq<Seq<u8>>)
    requires
        next_break(held, 0) is None,
        forall|i: int| 0 <= i < pieces.len() ==> valid_utf8(#[trigger] pieces[i]),
    ensures
        valid_utf8(reassembled(pieces)),
        delivered(held, decoded(pieces)) == payloads(held + decode_utf8(reassembled(pieces))),
        left_over(held, decoded(pieces)) == pending(held + decode_utf8(reassembled(pieces))),
{
    lemma_decode_pieces(pieces);
    law_delivery_ignores_cuts(held, decoded(pieces));
}

/// What is left pending holds no complete frame.
pub proof fn law_pending_is_incomplete(t: Seq<char>)
    ensures
        next_break(pending(t), 0) is None,
    decreases t.len(),
{
    match next_break(t, 0) {
        Some(p) => {
            lemma_next_break_bounds(t, 0);
            law_pending_is_incomplete(t.skip(p + 2));
        },
        None => {},
    }
}

/// A frame of nothing but white space carries no payload.
pub proof fn law_blank_frame_is_skipped(frame: Seq<char>)
    requires
        forall|i: int| 0 <= i < frame.len() ==> white_space(#[trigger] frame[i]),
    ensures
        frame_payloads(frame) == Seq::<PayloadView>::empty(),
    decreases frame.len(),
{
    if frame.len() > 0 {
        match next_newline(frame, 0) {
            Some(p) => {
                lemma_next_newline_bounds(frame, 0);
                let line = without_carriage_return(frame.take(p));
                let rest = frame.skip(p + 1);
                lemma_blank_line(line);
                law_blank_frame_is_skipped(rest);
                assert(lines(frame).first() == line);
                assert(lines(frame).drop_first() =~= lines(rest));
                assert(frame_payloads(frame) =~= seq![]);
            },
            None => {
                lemma_blank_line(frame);
                assert(lines(frame).first() == frame);
                assert(lines(frame).drop_first() =~= seq![]);
                assert(lines_payloads(lines(frame).drop_first()) =~= seq![]);
                assert(frame_payloads(frame) =~= seq![]);
            },
        }
    }
}

/// A line of nothing but white space has no `data: ` in front.
proof fn lemma_blank_line(line: Seq<char>)
    requires
        forall|i: int| 0 <= i < line.len() ==> white_space(#[trigger] line[i]),
    ensures
        line_payload(line) == Seq::<PayloadView>::empty(),
{
    reveal_strlit("data: ");
    if line.len() >= 6 {
        assert(white_space(line[0]));
        assert(line.take(6)[0] != "data: "@[0]);
    }
}

} // verus!

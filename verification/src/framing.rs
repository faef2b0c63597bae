//! Frames, lines and payloads, the other way round: what comes out of a text that is put
//! together from them.

use crate::sse::{
    frame_payloads, frames, law_pending_is_incomplete, lemma_next_break_bounds, line_payload,
    lines, lines_payloads, next_break, next_newline, payloads, pending, Payload, PayloadView,
};
use crate::text::{trimmed, trimmed_end, trimmed_start, white_space};
use vstd::prelude::*;

verus! {

/// Whether a text is white space and nothing else.
pub open spec fn blank(t: Seq<char>) -> bool {
    forall|i: int| 0 <= i < t.len() ==> white_space(#[trigger] t[i])
}

/// What is white space: the controls from tab to carriage return, the space, the next
/// line, and the spaces and separators of Unicode.
pub proof fn law_white_space(c: char)
    ensures
        white_space(c) <==> {
            ||| 0x9 <= c as int <= 0xd
            ||| 0x2000 <= c as int <= 0x200a
            ||| set![0x20int, 0x85, 0xa0, 0x1680, 0x2028, 0x2029, 0x202f, 0x205f, 0x3000].contains(
                c as int,
            )
        },
{
}

proof fn lemma_trimmed_start(a: Seq<char>, t: Seq<char>)
    requires
        blank(a),
        t.len() > 0 ==> !white_space(t[0]),
    ensures
        trimmed_start(a + t) == t,
    decreases a.len(),
{
    if a.len() == 0 {
        assert(a + t =~= t);
    } else {
        assert(white_space(a[0]));
        assert((a + t).drop_first() =~= a.drop_first() + t);
        assert forall|i: int| 0 <= i < a.drop_first().len() implies white_space(
            #[trigger] a.drop_first()[i],
        ) by {
            assert(a.drop_first()[i] == a[i + 1]);
        }
        lemma_trimmed_start(a.drop_first(), t);
    }
}

proof fn lemma_trimmed_end(t: Seq<char>, b: Seq<char>)
    requires
        blank(b),
        t.len() > 0 ==> !white_space(t.last()),
    ensures
        trimmed_end(t + b) == t,
    decreases b.len(),
{
    if b.len() == 0 {
        assert(t + b =~= t);
    } else {
        assert(white_space(b[b.len() - 1]));
        assert((t + b).drop_last() =~= t + b.drop_last());
        assert forall|i: int| 0 <= i < b.drop_last().len() implies white_space(
            #[trigger] b.drop_last()[i],
        ) by {
            assert(b.drop_last()[i] == b[i]);
        }
        lemma_trimmed_end(t, b.drop_last());
    }
}

/// Trimming takes away the white space on either side, all of it and nothing else.
pub proof fn law_trimming(a: Seq<char>, t: Seq<char>, b: Seq<char>)
    requires
        blank(a),
        blank(b),
        t.len() > 0,
        !white_space(t[0]),
        !white_space(t.last()),
    ensures
        trimmed(a + t + b) == t,
{
    assert(a + t + b =~= a + (t + b));
    lemma_trimmed_start(a, t + b);
    lemma_trimmed_end(t, b);
}

/// Of a blank text trimming leaves nothing.
pub proof fn law_trimming_blank(t: Seq<char>)
    requires
        blank(t),
    ensures
        trimmed(t) == Seq::<char>::empty(),
{
    assert(t + Seq::<char>::empty() =~= t);
    lemma_trimmed_start(t, seq![]);
}

/// Whether a text is all on one line.
pub open spec fn unbroken(t: Seq<char>) -> bool {
    !t.contains('\n')
}

/// The line that is `data: ` and a text has one payload: the text, whole and unchanged.
/// Only where the text reads `[DONE]`, but for white space around it, is the payload the
/// end marker.
pub proof fn law_data_line(d: Seq<char>)
    ensures
        trimmed(d) != "[DONE]"@ ==> line_payload("data: "@ + d) == seq![PayloadView::Data(d)],
        trimmed(d) == "[DONE]"@ ==> line_payload("data: "@ + d) == seq![PayloadView::Done],
{
    reveal_strlit("data: ");
    assert(("data: "@ + d).take(6) =~= "data: "@);
    assert(("data: "@ + d).skip(6) =~= d);
}

/// The end marker may have white space around it.
pub proof fn law_end_marker_line(a: Seq<char>, b: Seq<char>)
    requires
        blank(a),
        blank(b),
    ensures
        line_payload("data: "@ + (a + "[DONE]"@ + b)) == seq![PayloadView::Done],
{
    reveal_strlit("[DONE]");
    law_trimming(a, "[DONE]"@, b);
    law_data_line(a + "[DONE]"@ + b);
}

/// A line that does not start with `data: ` has no payload.
pub proof fn law_other_line(line: Seq<char>)
    requires
        !("data: "@.is_prefix_of(line)),
    ensures
        line_payload(line) == Seq::<PayloadView>::empty(),
{
    reveal_strlit("data: ");
    if line.len() >= 6 && line.take(6) == "data: "@ {
        assert("data: "@ =~= line.subrange(0, 6));
    }
}

proof fn lemma_newline_behind(a: Seq<char>, b: Seq<char>, i: int)
    requires
        unbroken(a),
        0 <= i <= a.len(),
    ensures
        next_newline(a + seq!['\n'] + b, i) == Some(a.len() as int),
    decreases a.len() - i,
{
    let t = a + seq!['\n'] + b;
    if i < a.len() {
        assert(t[i] == a[i]);
        assert(a.contains(a[i]));
        lemma_newline_behind(a, b, i + 1);
    } else {
        assert(t[i] == '\n');
    }
}

proof fn lemma_no_newline_in(a: Seq<char>, i: int)
    requires
        unbroken(a),
        0 <= i <= a.len(),
    ensures
        next_newline(a, i) is None,
    decreases a.len() - i,
{
    if i < a.len() {
        assert(a.contains(a[i]));
        lemma_no_newline_in(a, i + 1);
    }
}

/// The payloads of a frame are those of its lines, in order. A line ends at a line feed,
/// and a carriage return right before that belongs to the ending.
pub proof fn law_line_by_line(line: Seq<char>, rest: Seq<char>)
    requires
        unbroken(line),
        line.len() > 0 ==> line.last() != '\r',
    ensures
        frame_payloads(line + seq!['\n'] + rest) == line_payload(line) + frame_payloads(rest),
        frame_payloads(line + seq!['\r', '\n'] + rest) == line_payload(line) + frame_payloads(rest),
{
    lemma_line_first(line, rest);
    let returned = line.push('\r');
    assert(unbroken(returned)) by {
        assert forall|i: int| 0 <= i < returned.len() implies returned[i] != '\n' by {
            if i < line.len() {
                assert(line.contains(line[i]));
            }
        }
    }
    lemma_line_first(returned, rest);
    assert(returned + seq!['\n'] + rest =~= line + seq!['\r', '\n'] + rest);
    assert(returned.drop_last() =~= line);
}

proof fn lemma_line_first(line: Seq<char>, rest: Seq<char>)
    requires
        unbroken(line),
    ensures
        frame_payloads(line + seq!['\n'] + rest) == line_payload(
            if line.len() > 0 && line.last() == '\r' {
                line.drop_last()
            } else {
                line
            },
        ) + frame_payloads(rest),
{
    let t = line + seq!['\n'] + rest;
    let n = line.len() as int;
    lemma_newline_behind(line, rest, 0);
    assert(t.take(n) =~= line);
    assert(t.skip(n + 1) =~= rest);
    let shown = if line.len() > 0 && line.last() == '\r' {
        line.drop_last()
    } else {
        line
    };
    assert(lines(t) == seq![shown] + lines(rest));
    assert(lines(t).first() == shown);
    assert(lines(t).drop_first() =~= lines(rest));
}

/// The last line of a frame needs no ending; it is taken as it stands.
pub proof fn law_last_line(line: Seq<char>)
    requires
        unbroken(line),
    ensures
        frame_payloads(line) == line_payload(line),
{
    lemma_no_newline_in(line, 0);
    if line.len() > 0 {
        assert(lines(line) == seq![line]);
        assert(seq![line].drop_first() =~= seq![]);
        assert(lines_payloads(seq![line].drop_first()) =~= seq![]);
        assert(frame_payloads(line) =~= line_payload(line));
    } else {
        assert(frame_payloads(line) =~= seq![]);
    }
}

/// Whether a text, with a pair of line feeds behind it, has no such pair before that.
pub open spec fn is_frame(frame: Seq<char>) -> bool {
    let t = frame + "\n\n"@;
    forall|k: int| 0 <= k < frame.len() ==> t[k] != '\n' || #[trigger] t[k + 1] != '\n'
}

proof fn lemma_break_behind(frame: Seq<char>, rest: Seq<char>, i: int)
    requires
        is_frame(frame),
        0 <= i <= frame.len(),
    ensures
        next_break(frame + "\n\n"@ + rest, i) == Some(frame.len() as int),
    decreases frame.len() - i,
{
    reveal_strlit("\n\n");
    let t = frame + "\n\n"@;
    let all = t + rest;
    assert(all[i] == t[i]);
    assert(all[i + 1] == t[i + 1]);
    if i < frame.len() {
        lemma_break_behind(frame, rest, i + 1);
    }
}

/// The payloads of a text are those of its frames, in order: a frame, the pair of line
/// feeds that ends it, and what follows give the payloads of the frame and then those of
/// what follows.
pub proof fn law_frame_by_frame(frame: Seq<char>, rest: Seq<char>)
    requires
        is_frame(frame),
    ensures
        payloads(frame + "\n\n"@ + rest) == frame_payloads(frame) + payloads(rest),
        frames(frame + "\n\n"@ + rest) == seq![frame] + frames(rest),
        pending(frame + "\n\n"@ + rest) == pending(rest),
{
    reveal_strlit("\n\n");
    let t = frame + "\n\n"@ + rest;
    let n = frame.len() as int;
    lemma_break_behind(frame, rest, 0);
    assert(t.take(n) =~= frame);
    assert(t.skip(n + 2) =~= rest);
}

proof fn lemma_no_break_in(t: Seq<char>, i: int)
    requires
        forall|k: int| 0 <= k < t.len() - 1 ==> t[k] != '\n' || #[trigger] t[k + 1] != '\n',
        0 <= i,
    ensures
        next_break(t, i) is None,
    decreases t.len() - i,
{
    if i + 1 < t.len() {
        assert(t[i] != '\n' || t[i + 1] != '\n');
        lemma_no_break_in(t, i + 1);
    }
}

/// A text without a pair of line feeds has no payloads yet, and all of it is held.
pub proof fn law_incomplete_text_waits(t: Seq<char>)
    requires
        forall|k: int| 0 <= k < t.len() - 1 ==> t[k] != '\n' || #[trigger] t[k + 1] != '\n',
    ensures
        payloads(t) == Seq::<PayloadView>::empty(),
        frames(t) == Seq::<Seq<char>>::empty(),
        pending(t) == t,
{
    lemma_no_break_in(t, 0);
}

/// Frames, each with its pair of line feeds, one behind the other.
pub open spec fn ended(fs: Seq<Seq<char>>) -> Seq<char>
    decreases fs.len(),
{
    if fs.len() == 0 {
        seq![]
    } else {
        fs.first() + "\n\n"@ + ended(fs.drop_first())
    }
}

/// Nothing of a text is lost, doubled or put in another order: its frames, each with its
/// pair of line feeds, and what is pending behind them make up the text. No frame holds
/// the end of another, and what is pending holds no end at all.
pub proof fn law_frames_make_up_the_text(t: Seq<char>)
    ensures
        t == ended(frames(t)) + pending(t),
        forall|i: int| 0 <= i < frames(t).len() ==> is_frame(#[trigger] frames(t)[i]),
        next_break(pending(t), 0) is None,
    decreases t.len(),
{
    law_pending_is_incomplete(t);
    match next_break(t, 0) {
        Some(p) => {
            lemma_next_break_bounds(t, 0);
            lemma_before_break(t, 0, p);
            reveal_strlit("\n\n");
            let frame = t.take(p);
            let rest = t.skip(p + 2);
            law_frames_make_up_the_text(rest);
            assert(frames(t).first() == frame);
            assert(frames(t).drop_first() =~= frames(rest));
            assert(t =~= frame + "\n\n"@ + rest);
            assert(t =~= ended(frames(t)) + pending(t));
            let closed = frame + "\n\n"@;
            assert forall|k: int| 0 <= k < frame.len() implies closed[k] != '\n'
                || #[trigger] closed[k + 1] != '\n' by {
                assert(closed[k] == t[k] && closed[k + 1] == t[k + 1]);
                assert(t[k] != '\n' || t[k + 1] != '\n');
            }
            assert forall|i: int| 0 <= i < frames(t).len() implies is_frame(
                #[trigger] frames(t)[i],
            ) by {
                if i > 0 {
                    assert(frames(t)[i] == frames(rest)[i - 1]);
                }
            }
        },
        None => {
            assert(t =~= ended(frames(t)) + pending(t));
        },
    }
}

proof fn lemma_before_break(t: Seq<char>, i: int, p: int)
    requires
        0 <= i,
        next_break(t, i) == Some(p),
    ensures
        forall|k: int| i <= k < p ==> t[k] != '\n' || #[trigger] t[k + 1] != '\n',
    decreases t.len() - i,
{
    lemma_next_break_bounds(t, i);
    if !(t[i] == '\n' && t[i + 1] == '\n') {
        lemma_before_break(t, i + 1, p);
    }
}

/// A frame that is one `data: ` line, with any text behind the prefix that is on one line,
/// gives that text as its one payload, whole and unchanged, or the end marker; and nothing
/// of it is left pending.
pub proof fn law_data_frame(d: Seq<char>)
    requires
        unbroken(d),
    ensures
        trimmed(d) != "[DONE]"@ ==> payloads("data: "@ + d + "\n\n"@) == seq![PayloadView::Data(d)],
        trimmed(d) == "[DONE]"@ ==> payloads("data: "@ + d + "\n\n"@) == seq![PayloadView::Done],
        pending("data: "@ + d + "\n\n"@) == Seq::<char>::empty(),
{
    lemma_data_frame(d);
    let line = "data: "@ + d;
    law_frame_by_frame(line, seq![]);
    assert(line + "\n\n"@ + seq![] =~= line + "\n\n"@);
    assert(payloads(Seq::<char>::empty()) =~= seq![]);
    assert(frame_payloads(line) + payloads(Seq::<char>::empty()) =~= frame_payloads(line));
}

/// A `data: ` line is a frame.
pub(crate) proof fn lemma_data_frame(d: Seq<char>)
    requires
        unbroken(d),
    ensures
        is_frame("data: "@ + d),
        unbroken("data: "@ + d),
        trimmed(d) != "[DONE]"@ ==> frame_payloads("data: "@ + d) == seq![PayloadView::Data(d)],
        trimmed(d) == "[DONE]"@ ==> frame_payloads("data: "@ + d) == seq![PayloadView::Done],
{
    reveal_strlit("data: ");
    reveal_strlit("\n\n");
    let line = "data: "@ + d;
    assert forall|k: int| 0 <= k < line.len() implies #[trigger] line[k] != '\n' by {
        if k >= 6 {
            assert(line[k] == d[k - 6]);
            assert(d.contains(d[k - 6]));
        }
    }
    let t = line + "\n\n"@;
    assert forall|k: int| 0 <= k < line.len() implies t[k] != '\n' || #[trigger] t[k + 1]
        != '\n' by {
        assert(t[k] == line[k]);
    }
    law_last_line(line);
    law_data_line(d);
}

/// A payload is seen as it is.
pub proof fn law_payload_view(payload: Payload)
    ensures
        match payload {
            Payload::Done => payload@ == PayloadView::Done,
            Payload::Data(text) => payload@ == PayloadView::Data(text@),
        },
{
}

} // verus!

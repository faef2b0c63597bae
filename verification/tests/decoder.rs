use anthropic_proxy::sse::{Decoder, Payload};
use anthropic_proxy::text::is_white_space;

fn shown(payloads: Vec<Payload>) -> Vec<String> {
    payloads
        .into_iter()
        .map(|p| match p {
            Payload::Done => "<done>".to_string(),
            Payload::Data(s) => s,
        })
        .collect()
}

#[test]
fn a_frame_comes_out_once_it_is_complete() {
    let mut d = Decoder::new();
    assert!(d.push_text("data: o").is_empty());
    assert!(d.push_text("ne\n").is_empty());
    assert_eq!(shown(d.push_text("\ndata: two\n\nda")), ["one", "two"]);
    assert_eq!(shown(d.push_text("ta: three\n\n")), ["three"]);
}

#[test]
fn a_frame_may_hold_several_lines() {
    let mut d = Decoder::new();
    let out = d.push_text("event: x\ndata: a\r\nid: 7\ndata: b\ndata: c\n\n");
    assert_eq!(shown(out), ["a", "b", "c"]);
}

#[test]
fn a_carriage_return_stays_where_no_line_feed_follows_in_the_frame() {
    let mut d = Decoder::new();
    assert_eq!(shown(d.push_text("data: a\rb\n\n")), ["a\rb"]);
    assert_eq!(shown(d.push_text("data: a\r\n\n")), ["a\r"]);
    assert!(d.push_text("data: never\r\n\r\n").is_empty());
}

#[test]
fn the_end_marker_may_have_white_space_around_it() {
    let mut d = Decoder::new();
    assert_eq!(shown(d.push_text("data: [DONE]\n\n")), ["<done>"]);
    assert_eq!(shown(d.push_text("data: \t[DONE]\u{a0} \n\n")), ["<done>"]);
    assert_eq!(shown(d.push_text("data: [DONE] x\n\n")), ["[DONE] x"]);
    assert_eq!(shown(d.push_text("data: [done]\n\n")), ["[done]"]);
}

#[test]
fn only_the_exact_prefix_counts() {
    let mut d = Decoder::new();
    assert!(d.push_text("data:x\n\n data: y\n\nDATA: z\n\n: comment\n\n").is_empty());
    assert_eq!(shown(d.push_text("data:  two spaces\n\n")), [" two spaces"]);
    assert_eq!(shown(d.push_text("data: \n\n")), [""]);
}

#[test]
fn blank_frames_are_skipped() {
    let mut d = Decoder::new();
    assert!(d.push_text("\n\n \t\n\n\u{3000}\n \n\n").is_empty());
    assert_eq!(shown(d.push_text("\n\ndata: x\n\n")), ["x"]);
}

#[test]
fn three_line_feeds_leave_one_over() {
    let mut d = Decoder::new();
    assert_eq!(shown(d.push_text("data: a\n\n\ndata: b\n\n")), ["a", "b"]);
    assert_eq!(shown(d.push_text("data: a\n\n\n\ndata: b\n\n")), ["a", "b"]);
}

#[test]
fn bytes_are_decoded_run_by_run() {
    let mut d = Decoder::new();
    assert_eq!(shown(d.push_bytes("data: é✓\n\n".as_bytes())), ["é✓"]);
    let mut cut = Decoder::new();
    assert!(cut.push_bytes(b"data: \xc3").is_empty());
    assert_eq!(shown(cut.push_bytes(b"\xa9\n\n")), ["\u{fffd}\u{fffd}"]);
    let mut bad = Decoder::new();
    assert_eq!(shown(bad.push_bytes(b"data: a\xffb\n\n")), ["a\u{fffd}b"]);
}

#[test]
fn a_cut_between_characters_changes_nothing() {
    let text = "data: é\n\ndata: [DONE]\n\ndata: ✓ x\r\ny\n\nrest";
    let mut d = Decoder::new();
    let expected = shown(d.push_bytes(text.as_bytes()));
    assert_eq!(expected, ["é", "<done>", "✓ x"]);
    for cut in 0..text.len() {
        if text.is_char_boundary(cut) {
            let mut e = Decoder::new();
            let mut out = shown(e.push_bytes(text[..cut].as_bytes()));
            out.append(&mut shown(e.push_bytes(text[cut..].as_bytes())));
            assert_eq!(out, expected);
        }
    }
}

#[test]
fn white_space_is_what_the_standard_library_takes_for_it() {
    for c in '\u{0}'..='\u{10ffff}' {
        assert_eq!(is_white_space(c), c.is_whitespace());
    }
}

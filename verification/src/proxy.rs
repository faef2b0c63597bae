//! What the handler of a request decides: how it is answered, under which headers, and
//! which status is recorded of it.

use axum::http::{HeaderMap, HeaderValue};
use vstd::prelude::*;

verus! {

/// The header map of the `http` crate, which axum hands on.
#[verifier::external_type_specification]
#[verifier::external_body]
#[verifier::reject_recursive_types(T)]
pub struct ExHeaderMap<T>(axum::http::HeaderMap<T>);

/// The header value of the `http` crate, which axum hands on.
#[verifier::external_type_specification]
#[verifier::external_body]
pub struct ExHeaderValue(axum::http::HeaderValue);

/// The fields of a header map: under each name, in lower case, its values in order.
pub uninterp spec fn header_fields(headers: HeaderMap<HeaderValue>) -> Map<
    Seq<char>,
    Seq<Seq<char>>,
>;

/// A character in lower case, if it is an ASCII letter.
pub open spec fn ascii_lower(c: char) -> char {
    if 'A' <= c <= 'Z' {
        (c as int + 32) as char
    } else {
        c
    }
}

/// A text in lower case, as far as ASCII goes.
pub open spec fn lower(t: Seq<char>) -> Seq<char> {
    t.map_values(|c: char| ascii_lower(c))
}

/// Whether a text is made of ASCII letters and hyphens, and short enough to be the name
/// of a header.
pub open spec fn plain_name(t: Seq<char>) -> bool {
    &&& 0 < t.len() <= 64
    &&& forall|i: int|
        0 <= i < t.len() ==> 'a' <= #[trigger] t[i] <= 'z' || 'A' <= t[i] <= 'Z' || t[i] == '-'
}

/// Whether a text is made of visible ASCII characters and spaces.
pub open spec fn plain_value(t: Seq<char>) -> bool {
    forall|i: int| 0 <= i < t.len() ==> ' ' <= #[trigger] t[i] <= '~'
}

/// The fields of an empty header map.
pub open spec fn no_fields() -> Map<Seq<char>, Seq<Seq<char>>> {
    Map::empty()
}

/// Calls `HeaderMap::new`: the map is empty.
#[verifier::external_body]
fn empty_headers() -> (headers: HeaderMap<HeaderValue>)
    ensures
        header_fields(headers) == no_fields(),
{
    HeaderMap::new()
}

/// Calls `HeaderMap::insert` with the value that `HeaderValue::from_static` makes: the
/// value takes the place of all that stood under the name, whose case does not matter,
/// and the other fields stay as they are. It panics on a name or a value with characters
/// that HTTP does not allow there, and once the map holds some thousands of fields.
#[verifier::external_body]
fn insert_header(headers: &mut HeaderMap<HeaderValue>, name: &'static str, value: &'static str)
    requires
        plain_name(name@),
        plain_value(value@),
        header_fields(*old(headers)).dom().finite(),
        header_fields(*old(headers)).dom().len() < 64,
    ensures
        header_fields(*final(headers)) == header_fields(*old(headers)).insert(
            lower(name@),
            seq![value@],
        ),
{
    headers.insert(name, HeaderValue::from_static(value));
}

/// The headers of a streamed answer.
pub open spec fn stream_fields() -> Map<Seq<char>, Seq<Seq<char>>> {
    map![
        "content-type"@ => seq!["text/event-stream"@],
        "cache-control"@ => seq!["no-cache"@],
        "connection"@ => seq!["keep-alive"@],
    ]
}

/// Makes the headers of a streamed answer.
pub fn stream_headers() -> (headers: HeaderMap<HeaderValue>)
    ensures
        header_fields(headers) == stream_fields(),
{
    proof {
        reveal_strlit("Content-Type");
        reveal_strlit("content-type");
        reveal_strlit("text/event-stream");
        reveal_strlit("Cache-Control");
        reveal_strlit("cache-control");
        reveal_strlit("no-cache");
        reveal_strlit("Connection");
        reveal_strlit("connection");
        reveal_strlit("keep-alive");
        assert(lower("Content-Type"@) =~= "content-type"@);
        assert(lower("Cache-Control"@) =~= "cache-control"@);
        assert(lower("Connection"@) =~= "connection"@);
    }
    let mut headers = empty_headers();
    insert_header(&mut headers, "Content-Type", "text/event-stream");
    insert_header(&mut headers, "Cache-Control", "no-cache");
    insert_header(&mut headers, "Connection", "keep-alive");
    assert(header_fields(headers) =~= stream_fields());
    headers
}

/// Tells whether a request asks for a streamed answer: only if it says so.
pub fn wants_stream(stream: Option<bool>) -> (r: bool)
    ensures
        r <==> stream == Some(true),
{
    match stream {
        Some(stream) => stream,
        None => false,
    }
}

/// The status that is recorded of a request: that of the answer, or 500 for an error.
pub fn recorded_status<E>(answer: &Result<u16, E>) -> (status: u16)
    ensures
        status == (match *answer {
            Ok(status) => status,
            Err(_) => 500u16,
        }),
{
    match answer {
        Ok(status) => *status,
        Err(_) => 500,
    }
}

/// How far the handling of a request has come.
#[derive(Debug, Clone, Copy, PartialEq, Eq, Structural)]
pub enum Stage {
    /// It is being translated.
    Translating,
    /// The upstreams are being asked.
    Asking,
    /// It has been answered.
    Closed,
}

/// What follows the translation of a request.
#[derive(Debug, Clone, Copy, PartialEq, Eq, Structural)]
pub enum Next {
    /// Ask the upstreams, and stream the answer.
    AskStreaming,
    /// Ask the upstreams, and hand the answer on as a whole.
    AskWhole,
    /// Return the error of the translation.
    Fail,
}

/// What is recorded of a request that has been answered.
#[derive(Debug, Clone, Copy, PartialEq, Eq, Structural)]
pub struct Record {
    pub status: u16,
    pub streaming: bool,
}

/// The handling of one request: what is asked, and what is recorded.
#[derive(Debug)]
pub struct Exchange {
    streaming: bool,
    stage: Stage,
}

/// An `Exchange`, laid open.
pub struct ExchangeView {
    pub streaming: bool,
    pub stage: Stage,
}

impl View for Exchange {
    type V = ExchangeView;

    closed spec fn view(&self) -> ExchangeView {
        ExchangeView { streaming: self.streaming, stage: self.stage }
    }
}

impl Exchange {
    /// Begins with a request that has come in.
    pub fn begin(stream: Option<bool>) -> (exchange: Exchange)
        ensures
            exchange@ == (ExchangeView {
                streaming: stream == Some(true),
                stage: Stage::Translating,
            }),
    {
        Exchange { streaming: wants_stream(stream), stage: Stage::Translating }
    }

    /// Whether the answer is to be streamed. This is recorded when the request comes in.
    pub fn is_streaming(&self) -> (r: bool)
        ensures
            r == self@.streaming,
    {
        self.streaming
    }

    /// Goes on from the translation. A request that cannot be translated reaches no
    /// upstream, and nothing is recorded of its end.
    pub fn translated(&mut self, ok: bool) -> (next: Next)
        requires
            old(self)@.stage == Stage::Translating,
        ensures
            next == (if !ok {
                Next::Fail
            } else if old(self)@.streaming {
                Next::AskStreaming
            } else {
                Next::AskWhole
            }),
            final(self)@ == (ExchangeView {
                stage: if ok {
                    Stage::Asking
                } else {
                    Stage::Closed
                },
                ..old(self)@
            }),
    {
        if !ok {
            self.stage = Stage::Closed;
            Next::Fail
        } else {
            self.stage = Stage::Asking;
            if self.streaming {
                Next::AskStreaming
            } else {
                Next::AskWhole
            }
        }
    }

    /// Ends with the status of the answer, or with an error, and tells what is recorded.
    pub fn answered<E>(&mut self, answer: &Result<u16, E>) -> (record: Record)
        requires
            old(self)@.stage == Stage::Asking,
        ensures
            record == (Record {
                status: match *answer {
                    Ok(status) => status,
                    Err(_) => 500u16,
                },
                streaming: old(self)@.streaming,
            }),
            final(self)@ == (ExchangeView { stage: Stage::Closed, ..old(self)@ }),
    {
        self.stage = Stage::Closed;
        Record { status: recorded_status(answer), streaming: self.streaming }
    }
}

} // verus!

# anthropic-proxy

A proxy that speaks Anthropic's Messages protocol to its clients and an OpenAI-style chat
completions protocol to its upstreams.

The library under `src/` decides; it does no I/O. Its functions are verified with Verus
against their contracts. A handful of wrappers call into std, reqwest and axum; their
contracts are trusted, and say so.

- `upstream`: which upstream to ask, what its answer comes to, and what is measured of it.
- `sse`: cutting the text of an upstream's stream into frames and payloads.
- `stream`: turning the chunks of a stream into the events of a message.
- `protocol`, `content`: what a client may rely on in those events.
- `relay`: a streamed answer from end to end.
- `proxy`, `config`: how a request is answered and recorded, and the settings.
- `model`, `text`: the vocabularies of the two streams, and strings.

`app/` holds the axum handlers, and the JSON of requests, whole answers and streams.

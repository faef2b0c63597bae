use anthropic_proxy::config::{translation_policy, Config};
use anthropic_proxy::proxy::{
    recorded_status, stream_headers, wants_stream, Exchange, Next, Record,
};
use anthropic_proxy::upstream::{
    is_retriable_status, is_success_status, metric_for, refusal_message, tokens_for, Action, Endpoint,
    Event, Failover, Method, Metric, ProxyError,
};

fn config(chat: &[&str], models: &[&str], api_key: Option<&str>) -> Config {
    Config {
        chat_completions_urls: chat.iter().map(|s| s.to_string()).collect(),
        models_urls: models.iter().map(|s| s.to_string()).collect(),
        api_key: api_key.map(|s| s.to_string()),
        reasoning_model: Some("thinker".to_string()),
        completion_model: None,
        model_map: vec![("a".to_string(), "b".to_string())],
        system_prompt_ignore_terms: vec!["x".to_string(), "y".to_string()],
        verbose: false,
    }
}

fn sent(action: Action<u8>) -> (String, Option<String>, u64) {
    match action {
        Action::Send(r) => (r.url, r.authorization, r.timeout_secs),
        other => panic!("expected a request, got {:?}", other),
    }
}

fn upstream_error(action: Action<u8>) -> String {
    match action {
        Action::Fail(ProxyError::Upstream(text)) => text,
        other => panic!("expected an upstream error, got {:?}", other),
    }
}

fn http_error(action: Action<u8>) -> u8 {
    match action {
        Action::Fail(ProxyError::Http(e)) => e,
        other => panic!("expected an HTTP error, got {:?}", other),
    }
}

#[test]
fn retriable_statuses() {
    for status in 0..=u16::MAX {
        let expected = status == 429 || (500..=599).contains(&status);
        assert_eq!(is_retriable_status(status), expected);
        assert_eq!(is_success_status(status), (200..300).contains(&status));
    }
}

#[test]
fn the_policy_is_taken_from_the_settings() {
    let policy = translation_policy(&config(&[], &[], None));
    assert_eq!(policy.reasoning_model, Some("thinker".to_string()));
    assert_eq!(policy.completion_model, None);
    assert_eq!(policy.model_map, vec![("a".to_string(), "b".to_string())]);
    assert_eq!(policy.ignore_terms, vec!["x".to_string(), "y".to_string()]);
}

#[test]
fn the_first_upstream_that_serves_is_taken() {
    let c = config(&["u1", "u2", "u3", "u4"], &[], Some("k"));
    let (mut f, action) = Failover::start::<u8>(&c, Endpoint::ChatCompletions);
    assert_eq!(sent(action), ("u1".to_string(), Some("Bearer k".to_string()), 300));
    let action = f.step(Event::Unreachable(1, "refused".to_string()));
    assert_eq!(sent(action).0, "u2");
    assert!(matches!(f.step(Event::<u8>::Status(503)), Action::ReadErrorBody));
    let action = f.step(Event::<u8>::ErrorBody(Some("busy".to_string())));
    assert_eq!(sent(action).0, "u3");
    assert!(matches!(f.step(Event::<u8>::Status(200)), Action::Accept));
}

#[test]
fn a_refusal_that_is_not_worth_a_retry_is_final() {
    let c = config(&["u1", "u2"], &[], None);
    let (mut f, action) = Failover::start::<u8>(&c, Endpoint::ChatCompletions);
    assert_eq!(sent(action), ("u1".to_string(), None, 300));
    assert!(matches!(f.step(Event::<u8>::Status(404)), Action::ReadErrorBody));
    let action = f.step(Event::<u8>::ErrorBody(Some("no such model".to_string())));
    assert_eq!(upstream_error(action), "Upstream returned 404 Not Found: no such model");
}

#[test]
fn the_last_error_remains() {
    let c = config(&["u1", "u2"], &[], None);
    let (mut f, action) = Failover::start::<u8>(&c, Endpoint::ChatCompletions);
    sent(action);
    sent(f.step(Event::Unreachable(1, "first".to_string())));
    assert!(matches!(f.step(Event::<u8>::Status(429)), Action::ReadErrorBody));
    let action = f.step(Event::<u8>::ErrorBody(None));
    assert_eq!(upstream_error(action), "Upstream returned 429 Too Many Requests: Unknown error");

    let (mut f, action) = Failover::start::<u8>(&c, Endpoint::ChatCompletions);
    sent(action);
    sent(f.step(Event::Unreachable(1, "first".to_string())));
    assert_eq!(http_error(f.step(Event::Unreachable(2, "second".to_string()))), 2);
}

#[test]
fn the_list_of_models_tells_http_errors_in_words() {
    let c = config(&[], &["m1"], Some("k"));
    let (mut f, action) = Failover::start::<u8>(&c, Endpoint::Models);
    assert_eq!(sent(action), ("m1".to_string(), Some("Bearer k".to_string()), 60));
    let action = f.step(Event::Unreachable(7, "timed out".to_string()));
    assert_eq!(upstream_error(action), "HTTP error: timed out");
}

#[test]
fn without_upstreams_the_request_fails_at_once() {
    let c = config(&[], &[], None);
    let (_, action) = Failover::start::<u8>(&c, Endpoint::ChatCompletions);
    assert_eq!(upstream_error(action), "All upstreams failed");
    let (_, action) = Failover::start::<u8>(&c, Endpoint::Models);
    assert_eq!(upstream_error(action), "All upstreams failed");
}

#[test]
fn a_body_that_cannot_be_read_is_final() {
    let c = config(&["u1", "u2"], &[], None);
    let (mut f, action) = Failover::start::<u8>(&c, Endpoint::ChatCompletions);
    sent(action);
    assert!(matches!(f.step(Event::<u8>::Status(201)), Action::Accept));
    assert_eq!(http_error(f.step(Event::BadBody(9))), 9);
}

#[test]
fn statuses_without_a_phrase_are_told_so() {
    let c = config(&["u1"], &[], None);
    let (mut f, action) = Failover::start::<u8>(&c, Endpoint::ChatCompletions);
    sent(action);
    f.step(Event::<u8>::Status(599));
    let action = f.step(Event::<u8>::ErrorBody(Some("?".to_string())));
    assert_eq!(upstream_error(action), "Upstream returned 599 <unknown status code>: ?");
}

#[test]
fn refusals_read_as_status_and_body() {
    assert_eq!(refusal_message("418 Teapot", &Some("short".to_string())), "Upstream returned 418 Teapot: short");
    assert_eq!(refusal_message("500", &None), "Upstream returned 500: Unknown error");
}

#[test]
fn streamed_answers_have_their_headers() {
    let headers = stream_headers();
    assert_eq!(headers.len(), 3);
    assert_eq!(headers.get("content-type").unwrap(), "text/event-stream");
    assert_eq!(headers.get("cache-control").unwrap(), "no-cache");
    assert_eq!(headers.get("connection").unwrap(), "keep-alive");
}

#[test]
fn a_request_is_streamed_only_if_it_says_so() {
    assert!(wants_stream(Some(true)));
    assert!(!wants_stream(Some(false)));
    assert!(!wants_stream(None));
}

#[test]
fn an_error_is_recorded_as_500() {
    assert_eq!(recorded_status(&Ok::<u16, ()>(200)), 200);
    assert_eq!(recorded_status(&Err::<u16, ()>(())), 500);
}

#[test]
fn chat_completions_are_posted_and_models_are_got() {
    let c = config(&["u1", "u2"], &["m1"], None);
    let (mut f, action) = Failover::start::<u8>(&c, Endpoint::ChatCompletions);
    match action {
        Action::Send(r) => assert!(r.method == Method::Post && r.with_body),
        other => panic!("expected a request, got {:?}", other),
    }
    match f.step(Event::Unreachable(1, "x".to_string())) {
        Action::Send(r) => assert!(r.method == Method::Post && r.with_body && r.url == "u2"),
        other => panic!("expected a request, got {:?}", other),
    }
    let (_, action) = Failover::start::<u8>(&c, Endpoint::Models);
    match action {
        Action::Send(r) => assert!(r.method == Method::Get && !r.with_body && r.url == "m1"),
        other => panic!("expected a request, got {:?}", other),
    }
}

#[test]
fn chat_completions_are_measured_and_models_are_not() {
    let chat = Endpoint::ChatCompletions;
    assert_eq!(metric_for(chat, &Event::<u8>::Status(200)), Some(Metric::Latency));
    assert_eq!(metric_for(chat, &Event::<u8>::Status(503)), Some(Metric::Latency));
    assert_eq!(metric_for(chat, &Event::<u8>::ErrorBody(None)), Some(Metric::Error));
    assert_eq!(metric_for(chat, &Event::Unreachable(1u8, "x".to_string())), Some(Metric::Error));
    assert_eq!(metric_for(chat, &Event::BadBody(1u8)), None);
    assert_eq!(metric_for(Endpoint::Models, &Event::<u8>::Status(200)), None);
    assert_eq!(metric_for(Endpoint::Models, &Event::<u8>::ErrorBody(None)), None);
}

#[test]
fn a_request_is_asked_for_as_it_says_and_recorded_once() {
    let mut streamed = Exchange::begin(Some(true));
    assert!(streamed.is_streaming());
    assert_eq!(streamed.translated(true), Next::AskStreaming);
    let record = streamed.answered(&Ok::<u16, ()>(200));
    assert_eq!(record, Record { status: 200, streaming: true });

    let mut whole = Exchange::begin(None);
    assert!(!whole.is_streaming());
    assert_eq!(whole.translated(true), Next::AskWhole);
    let record = whole.answered(&Err::<u16, ()>(()));
    assert_eq!(record, Record { status: 500, streaming: false });
}

#[test]
fn a_request_that_cannot_be_translated_fails() {
    let mut exchange = Exchange::begin(Some(true));
    assert_eq!(exchange.translated(false), Next::Fail);
}

#[test]
fn every_attempt_is_measured_in_order() {
    let c = config(&["u1", "u2", "u3", "u4"], &["m1"], None);
    let chat = Endpoint::ChatCompletions;
    let (mut f, _) = Failover::start::<u8>(&c, chat);
    let mut measured = Vec::new();
    for event in [
        Event::Unreachable(1u8, "x".to_string()),
        Event::Status(503),
        Event::ErrorBody(None),
        Event::Status(200),
    ] {
        measured.extend(metric_for(chat, &event));
        f.step(event);
    }
    assert_eq!(
        measured,
        [Metric::Error, Metric::Latency, Metric::Error, Metric::Latency]
    );
}

#[test]
fn tokens_are_recorded_of_whole_chat_completions_that_decode() {
    let chat = Endpoint::ChatCompletions;
    assert_eq!(tokens_for(chat, false, Some((3, 4))), Some((3, 4)));
    assert_eq!(tokens_for(chat, false, None), None);
    assert_eq!(tokens_for(chat, true, Some((3, 4))), None);
    assert_eq!(tokens_for(Endpoint::Models, false, Some((3, 4))), None);
}

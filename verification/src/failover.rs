//! What comes of asking the upstreams, in the terms of the settings and of what each
//! upstream would do.

use crate::config::Config;
use crate::model::text_of;
use crate::upstream::{
    after, after_outcome, canonical_reason, expected, first_action, found, is_retriable_status,
    is_success_status, law_first_conclusive_upstream_decides, law_last_error_remains,
    law_no_upstream_fails, metric_for, refusal_message, request_to, requests, search, sent,
    status_text, tokens_for, unstarted, Action, ActionView, Endpoint, Event, EventView, Failover,
    FailoverView, Method, Metric, Outcome, Phase, ProxyError, ProxyErrorView, UpstreamRequest,
};
use vstd::prelude::*;

verus! {

/// The addresses that the settings hold for an endpoint, in their order.
pub open spec fn addresses(config: Config, endpoint: Endpoint) -> Seq<String> {
    match endpoint {
        Endpoint::ChatCompletions => config.chat_completions_urls@,
        Endpoint::Models => config.models_urls@,
    }
}

/// Each request of a search goes to the upstream that is being tried.
proof fn lemma_requests_go_out_in_order<E>(f: FailoverView, outcomes: Seq<Outcome<E>>, i: int)
    requires
        f.phase == Phase::Sending,
        0 <= f.at < f.urls.len(),
        0 <= i < requests(f, ActionView::Send(request_to(f, f.at)), outcomes).len(),
    ensures
        requests(f, ActionView::Send(request_to(f, f.at)), outcomes)[i] == request_to(f, f.at + i),
        f.at + i < f.urls.len(),
    decreases f.urls.len() - f.at,
{
    let action = ActionView::<E>::Send(request_to(f, f.at));
    let (g, next) = after_outcome(f, outcomes[f.at]);
    let rest = requests(g, next, outcomes);
    assert(requests(f, action, outcomes) == seq![request_to(f, f.at)] + rest);
    if i > 0 {
        assert(next is Send);
        assert(next == ActionView::<E>::Send(request_to(g, g.at)));
        lemma_requests_go_out_in_order(g, outcomes, i - 1);
        assert(request_to(g, g.at + i - 1) == request_to(f, f.at + i));
    }
}

/// Every request that is sent, the first and each later one, goes to the address in its
/// place in the settings and carries the key of the settings, if there is one. A chat
/// completion is posted with a body and has five minutes; the list of models is got
/// without one and has one minute.
pub proof fn law_every_request_follows_the_settings<E>(
    config: Config,
    endpoint: Endpoint,
    outcomes: Seq<Outcome<E>>,
    i: int,
)
    requires
        0 <= i < sent(config, endpoint, outcomes).len(),
    ensures
        i < addresses(config, endpoint).len(),
        sent(config, endpoint, outcomes)[i].url == addresses(config, endpoint)[i]@,
        match config.api_key {
            Some(key) => sent(config, endpoint, outcomes)[i].authorization == Some(
                "Bearer "@ + key@,
            ),
            None => sent(config, endpoint, outcomes)[i].authorization is None,
        },
        endpoint == Endpoint::ChatCompletions ==> {
            &&& sent(config, endpoint, outcomes)[i].method == Method::Post
            &&& sent(config, endpoint, outcomes)[i].with_body
            &&& sent(config, endpoint, outcomes)[i].timeout_secs == 300
        },
        endpoint == Endpoint::Models ==> {
            &&& sent(config, endpoint, outcomes)[i].method == Method::Get
            &&& !sent(config, endpoint, outcomes)[i].with_body
            &&& sent(config, endpoint, outcomes)[i].timeout_secs == 60
        },
{
    let (f, action) = first_action::<E>(unstarted(config, endpoint));
    if unstarted(config, endpoint).urls.len() > 0 {
        lemma_requests_go_out_in_order(f, outcomes, i);
    }
}

/// Whether an upstream is passed over: it cannot be reached, or answers that it has had
/// too many requests or that the fault is its own.
pub open spec fn passed_over<E>(outcome: Outcome<E>) -> bool {
    match outcome {
        Outcome::Unreachable(..) => true,
        Outcome::Answered(status, _) => status == 429 || 500 <= status < 600,
    }
}

/// The first upstream behind those that are passed over serves the request if it answers
/// with a status of success. It and those before it have been asked, each once and in the
/// order of the settings, and no other.
pub proof fn law_first_good_answer_is_accepted<E>(
    config: Config,
    endpoint: Endpoint,
    outcomes: Seq<Outcome<E>>,
    k: int,
    status: u16,
    body: Option<Seq<char>>,
)
    requires
        outcomes.len() == addresses(config, endpoint).len(),
        0 <= k < outcomes.len(),
        forall|i: int| 0 <= i < k ==> passed_over(#[trigger] outcomes[i]),
        outcomes[k] == Outcome::<E>::Answered(status, body),
        200 <= status < 300,
    ensures
        found(config, endpoint, outcomes).1 == ActionView::<E>::Accept,
        found(config, endpoint, outcomes).0.at == k,
        sent(config, endpoint, outcomes).len() == k + 1,
        forall|i: int|
            0 <= i <= k ==> (#[trigger] sent(config, endpoint, outcomes)[i]).url == addresses(
                config,
                endpoint,
            )[i]@,
{
    law_first_conclusive_upstream_decides(config, endpoint, outcomes, k);
    assert forall|i: int| 0 <= i <= k implies (#[trigger] sent(config, endpoint, outcomes)[i]).url
        == addresses(config, endpoint)[i]@ by {
        law_every_request_follows_the_settings(config, endpoint, outcomes, i);
    }
}

/// Listing the models: as many upstreams stand for asking as the settings hold addresses
/// for it. Where those before `k` cannot be reached, or answer 429 or with a server error,
/// and `k` answers with a status of success, the addresses up to `k` are asked in order
/// and the list of `k` is accepted.
pub proof fn law_models_are_asked_for_in_order<E>(
    config: Config,
    outcomes: Seq<Outcome<E>>,
    k: int,
)
    requires
        outcomes.len() == config.models_urls@.len(),
        0 <= k < config.models_urls@.len(),
        forall|i: int|
            0 <= i < k ==> match #[trigger] outcomes[i] {
                Outcome::Unreachable(..) => true,
                Outcome::Answered(status, _) => status == 429 || 500 <= status <= 599,
            },
        outcomes[k] matches Outcome::Answered(status, _) && 200 <= status <= 299,
    ensures
        found(config, Endpoint::Models, outcomes).1 == ActionView::<E>::Accept,
        found(config, Endpoint::Models, outcomes).0.urls.len() == config.models_urls@.len(),
        sent(config, Endpoint::Models, outcomes).len() == k + 1,
        forall|i: int|
            0 <= i <= k ==> (#[trigger] sent(config, Endpoint::Models, outcomes)[i]).url
                == config.models_urls@[i]@,
        forall|i: int|
            0 <= i <= k ==> match config.api_key {
                Some(key) => (
                #[trigger] sent(config, Endpoint::Models, outcomes)[i]).authorization == Some(
                    "Bearer "@ + key@,
                ),
                None => sent(config, Endpoint::Models, outcomes)[i].authorization is None,
            },
{
    assert forall|i: int| 0 <= i < k implies passed_over(#[trigger] outcomes[i]) by {}
    if let Outcome::Answered(status, body) = outcomes[k] {
        law_first_good_answer_is_accepted(config, Endpoint::Models, outcomes, k, status, body);
    }
    lemma_search_keeps_urls(first_action::<E>(unstarted(config, Endpoint::Models)), outcomes);
    assert forall|i: int| 0 <= i <= k implies match config.api_key {
        Some(key) => (#[trigger] sent(config, Endpoint::Models, outcomes)[i]).authorization
            == Some("Bearer "@ + key@),
        None => sent(config, Endpoint::Models, outcomes)[i].authorization is None,
    } by {
        law_every_request_follows_the_settings(config, Endpoint::Models, outcomes, i);
    }
}

/// Chat completions: as many upstreams stand for asking as the settings hold addresses for
/// it. Where those before `k` cannot be reached, or answer 429 or with a server error, and
/// `k` answers with a status of success, the addresses up to `k` are asked in order, each
/// with the key, and the answer of `k` is accepted.
pub proof fn law_completions_are_asked_for_in_order<E>(
    config: Config,
    outcomes: Seq<Outcome<E>>,
    k: int,
)
    requires
        outcomes.len() == config.chat_completions_urls@.len(),
        0 <= k < config.chat_completions_urls@.len(),
        forall|i: int|
            0 <= i < k ==> match #[trigger] outcomes[i] {
                Outcome::Unreachable(..) => true,
                Outcome::Answered(status, _) => status == 429 || 500 <= status <= 599,
            },
        outcomes[k] matches Outcome::Answered(status, _) && 200 <= status <= 299,
    ensures
        found(config, Endpoint::ChatCompletions, outcomes).1 == ActionView::<E>::Accept,
        found(config, Endpoint::ChatCompletions, outcomes).0.urls.len()
            == config.chat_completions_urls@.len(),
        sent(config, Endpoint::ChatCompletions, outcomes).len() == k + 1,
        forall|i: int|
            0 <= i <= k ==> (#[trigger] sent(config, Endpoint::ChatCompletions, outcomes)[i]).url
                == config.chat_completions_urls@[i]@,
        forall|i: int|
            0 <= i <= k ==> match config.api_key {
                Some(key) => (
                #[trigger] sent(config, Endpoint::ChatCompletions, outcomes)[i]).authorization
                    == Some("Bearer "@ + key@),
                None => sent(config, Endpoint::ChatCompletions, outcomes)[i].authorization is None,
            },
{
    let chat = Endpoint::ChatCompletions;
    assert forall|i: int| 0 <= i < k implies passed_over(#[trigger] outcomes[i]) by {}
    if let Outcome::Answered(status, body) = outcomes[k] {
        law_first_good_answer_is_accepted(config, chat, outcomes, k, status, body);
    }
    lemma_search_keeps_urls(first_action::<E>(unstarted(config, chat)), outcomes);
    assert forall|i: int| 0 <= i <= k implies match config.api_key {
        Some(key) => (
        #[trigger] sent(config, Endpoint::ChatCompletions, outcomes)[i]).authorization == Some(
            "Bearer "@ + key@,
        ),
        None => sent(config, Endpoint::ChatCompletions, outcomes)[i].authorization is None,
    } by {
        law_every_request_follows_the_settings(config, chat, outcomes, i);
    }
}

/// The upstreams of a search stay what they are.
proof fn lemma_search_keeps_urls<E>(at: (FailoverView, ActionView<E>), outcomes: Seq<Outcome<E>>)
    ensures
        search(at.0, at.1, outcomes).0.urls == at.0.urls,
    decreases
            at.0.urls.len() - at.0.at,
            if at.1 is Send {
                1int
            } else {
                0
            },
{
    let (f, action) = at;
    if action is Send && f.phase == Phase::Sending && 0 <= f.at < f.urls.len() {
        lemma_search_keeps_urls(after_outcome(f, outcomes[f.at]), outcomes);
    }
}

/// How the refusal of an upstream reads to the client.
pub open spec fn refused<E>(status: u16, body: Option<Seq<char>>) -> ProxyErrorView<E> {
    ProxyErrorView::Upstream(
        "Upstream returned "@ + status_text(status, canonical_reason(status)) + ": "@ + (
        match body {
            Some(text) => text,
            None => "Unknown error"@,
        }),
    )
}

/// The first upstream behind those that are passed over ends the search with its refusal
/// if it answers with any other status. None behind it is asked.
pub proof fn law_first_other_answer_is_the_error<E>(
    config: Config,
    endpoint: Endpoint,
    outcomes: Seq<Outcome<E>>,
    k: int,
    status: u16,
    body: Option<Seq<char>>,
)
    requires
        outcomes.len() == addresses(config, endpoint).len(),
        0 <= k < outcomes.len(),
        forall|i: int| 0 <= i < k ==> passed_over(#[trigger] outcomes[i]),
        outcomes[k] == Outcome::<E>::Answered(status, body),
        status < 200 || 300 <= status < 429 || 429 < status < 500 || 600 <= status,
    ensures
        found(config, endpoint, outcomes).1 == ActionView::Fail(refused::<E>(status, body)),
        found(config, endpoint, outcomes).0.at == k,
        sent(config, endpoint, outcomes).len() == k + 1,
{
    law_first_conclusive_upstream_decides(config, endpoint, outcomes, k);
}

/// Where every upstream is passed over, all of them have been asked, and what remains is
/// what came of the last: its refusal, or that it could not be reached.
pub proof fn law_all_are_asked_before_giving_up<E>(
    config: Config,
    endpoint: Endpoint,
    outcomes: Seq<Outcome<E>>,
)
    requires
        outcomes.len() == addresses(config, endpoint).len(),
        outcomes.len() > 0,
        forall|i: int| 0 <= i < outcomes.len() ==> passed_over(#[trigger] outcomes[i]),
    ensures
        sent(config, endpoint, outcomes).len() == addresses(config, endpoint).len(),
        match outcomes[outcomes.len() - 1] {
            Outcome::Answered(status, body) => found(config, endpoint, outcomes).1
                == ActionView::Fail(refused::<E>(status, body)),
            Outcome::Unreachable(error, text) => {
                &&& endpoint == Endpoint::ChatCompletions ==> found(config, endpoint, outcomes).1
                    == ActionView::Fail(ProxyErrorView::Http(error))
                &&& endpoint == Endpoint::Models ==> found(config, endpoint, outcomes).1
                    == ActionView::Fail(ProxyErrorView::<E>::Upstream("HTTP error: "@ + text))
            },
        },
{
    law_last_error_remains(config, endpoint, outcomes);
}

/// Where the settings hold no address, nothing is asked.
pub proof fn law_nobody_to_ask<E>(config: Config, endpoint: Endpoint, outcomes: Seq<Outcome<E>>)
    requires
        addresses(config, endpoint).len() == 0,
    ensures
        sent(config, endpoint, outcomes).len() == 0,
        found(config, endpoint, outcomes).1 == ActionView::Fail(
            ProxyErrorView::<E>::Upstream("All upstreams failed"@),
        ),
{
    law_no_upstream_fails(config, endpoint, outcomes);
}

/// A status reads as its three digits, a space, and its reason phrase.
pub proof fn law_status_reads_as_its_digits(status: u16, reason: Option<Seq<char>>)
    requires
        100 <= status <= 999,
    ensures
        ({
            let t = status_text(status, reason);
            &&& t.len() >= 4
            &&& forall|i: int| 0 <= i < 3 ==> '0' <= #[trigger] t[i] <= '9'
            &&& (t[0] as int - 48) * 100 + (t[1] as int - 48) * 10 + (t[2] as int - 48) == status
            &&& t[3] == ' '
            &&& t.skip(4) == (match reason {
                Some(reason) => reason,
                None => "<unknown status code>"@,
            })
        }),
{
    reveal_strlit(" ");
    reveal_strlit("<unknown status code>");
    let t = status_text(status, reason);
    let phrase = match reason {
        Some(reason) => reason,
        None => "<unknown status code>"@,
    };
    assert(t.skip(4) =~= phrase);
}

/// What an accepted response comes to whose body cannot be read.
pub proof fn law_unreadable_body_is_an_error<E>(f: FailoverView, error: E)
    ensures
        after(f, EventView::BadBody(error)).1 == ActionView::Fail(ProxyErrorView::Http(error)),
        after(f, EventView::BadBody(error)).0 == (FailoverView { phase: Phase::Closed, ..f }),
{
}

/// While a request is out, it may turn out that the upstream cannot be reached, or any
/// status may come; then the body of a refusal, or a body that cannot be read.
pub proof fn law_what_may_come<E>(status: u16, error: E, text: Seq<char>, body: Option<Seq<char>>)
    ensures
        expected(Phase::Sending, EventView::Unreachable(error, text)),
        100 <= status <= 999 ==> expected(Phase::Sending, EventView::<E>::Status(status)),
        expected(Phase::Refused(status), EventView::<E>::ErrorBody(body)),
        expected(Phase::Accepted, EventView::BadBody(error)),
{
}

/// The search begins with the first address of the settings and says what to send there.
pub proof fn law_search_begins_with_the_first<E>(
    config: &Config,
    endpoint: Endpoint,
    begun: (Failover, Action<E>),
)
    requires
        call_ensures(Failover::start::<E>, (config, endpoint), begun),
    ensures
        begun.0@.endpoint == endpoint,
        begun.0@.urls.len() == addresses(*config, endpoint).len(),
        forall|i: int|
            0 <= i < begun.0@.urls.len() ==> #[trigger] begun.0@.urls[i] == addresses(
                *config,
                endpoint,
            )[i]@,
        match config.api_key {
            Some(key) => begun.0@.authorization == Some("Bearer "@ + key@),
            None => begun.0@.authorization is None,
        },
        begun.0@.at == 0,
        addresses(*config, endpoint).len() > 0 ==> {
            &&& begun.0@.phase == Phase::Sending
            &&& begun.1 matches Action::Send(request) && {
                &&& request.url@ == addresses(*config, endpoint)[0]@
                &&& match config.api_key {
                    Some(key) => request.authorization matches Some(value) && value@ == "Bearer "@
                        + key@,
                    None => request.authorization is None,
                }
                &&& request.method == (if endpoint == Endpoint::Models {
                    Method::Get
                } else {
                    Method::Post
                })
                &&& request.with_body == (endpoint == Endpoint::ChatCompletions)
                &&& request.timeout_secs == (if endpoint == Endpoint::Models {
                    60
                } else {
                    300int
                })
            }
        },
        addresses(*config, endpoint).len() == 0 ==> (begun.1 matches Action::Fail(
            ProxyError::Upstream(text),
        ) && text@ == "All upstreams failed"@),
{
}

/// An upstream that cannot be reached makes the search go on to the next address, with
/// the same key; where there is none, the search fails with the error of the client or
/// with how it reads.
pub proof fn law_unreachable_upstream_is_passed_over<E>(
    failover: &mut Failover,
    error: E,
    text: String,
    action: Action<E>,
)
    requires
        call_ensures(
            Failover::step::<E>,
            (failover, Event::Unreachable(error, text)),
            action,
        ),
        old(failover)@.phase == Phase::Sending,
        0 <= old(failover)@.at < old(failover)@.urls.len(),
    ensures
        old(failover)@.at + 1 < old(failover)@.urls.len() ==> goes_on(
            *old(failover),
            *final(failover),
            action,
        ),
        old(failover)@.at + 1 == old(failover)@.urls.len() ==> {
            &&& final(failover)@.phase == Phase::Closed
            &&& old(failover)@.endpoint == Endpoint::ChatCompletions ==> action == Action::Fail(
                ProxyError::Http(error),
            )
            &&& old(failover)@.endpoint == Endpoint::Models ==> (action matches Action::Fail(
                ProxyError::Upstream(message),
            ) && message@ == "HTTP error: "@ + text@)
        },
{
    assert(action@ == after(old(failover)@, EventView::Unreachable(error, text@)).1);
}

/// Whether a search goes on to the next address: one further, with all else as it was,
/// and a request to that address with the same key.
pub open spec fn goes_on<E>(before: Failover, after: Failover, action: Action<E>) -> bool {
    &&& after@ == (FailoverView { at: before@.at + 1, phase: Phase::Sending, ..before@ })
    &&& action matches Action::Send(request) && {
        &&& request.url@ == before@.urls[before@.at + 1]
        &&& match request.authorization {
            Some(value) => before@.authorization == Some(value@),
            None => before@.authorization is None,
        }
        &&& request.method == (if before@.endpoint == Endpoint::Models {
            Method::Get
        } else {
            Method::Post
        })
        &&& request.with_body == (before@.endpoint == Endpoint::ChatCompletions)
        &&& request.timeout_secs == (if before@.endpoint == Endpoint::Models {
            60
        } else {
            300int
        })
    }
}

/// A status of success is accepted; of any other the body is read.
pub proof fn law_status_is_looked_at<E>(failover: &mut Failover, status: u16, action: Action<E>)
    requires
        call_ensures(Failover::step::<E>, (failover, Event::Status(status)), action),
        old(failover)@.phase == Phase::Sending,
    ensures
        200 <= status < 300 ==> action is Accept && final(failover)@ == (FailoverView {
            phase: Phase::Accepted,
            ..old(failover)@
        }),
        !(200 <= status < 300) ==> action is ReadErrorBody && final(failover)@ == (FailoverView {
            phase: Phase::Refused(status),
            ..old(failover)@
        }),
{
    assert(action@ == after(old(failover)@, EventView::<E>::Status(status)).1);
}

/// A refusal with 429 or a server error makes the search go on to the next address, where
/// there is one. Any other refusal, and the last one, is the error that the client gets.
pub proof fn law_refusal_is_passed_over_or_final<E>(
    failover: &mut Failover,
    status: u16,
    body: Option<String>,
    action: Action<E>,
)
    requires
        call_ensures(Failover::step::<E>, (failover, Event::ErrorBody(body)), action),
        old(failover)@.phase == Phase::Refused(status),
        0 <= old(failover)@.at < old(failover)@.urls.len(),
    ensures
        ({
            let more = old(failover)@.at + 1 < old(failover)@.urls.len();
            let again = status == 429 || 500 <= status < 600;
            &&& more && again ==> goes_on(*old(failover), *final(failover), action)
            &&& !(more && again) ==> {
                &&& final(failover)@.phase == Phase::Closed
                &&& action matches Action::Fail(ProxyError::Upstream(message)) && message@
                    == "Upstream returned "@ + status_text(status, canonical_reason(status))
                    + ": "@ + (match body {
                    Some(text) => text@,
                    None => "Unknown error"@,
                })
            }
        }),
{
    assert(action@ == after(
        old(failover)@,
        EventView::<E>::ErrorBody(text_of(body)),
    ).1);
}

/// A response that was accepted, but whose body cannot be read, fails with the error of
/// the client, and no other upstream is asked.
pub proof fn law_unreadable_body_ends_the_search<E>(
    failover: &mut Failover,
    error: E,
    action: Action<E>,
)
    requires
        call_ensures(Failover::step::<E>, (failover, Event::BadBody(error)), action),
        old(failover)@.phase == Phase::Accepted,
    ensures
        action == Action::Fail(ProxyError::Http(error)),
        final(failover)@ == (FailoverView { phase: Phase::Closed, ..old(failover)@ }),
{
    assert(action@ == after(old(failover)@, EventView::BadBody(error)).1);
}

/// A search may be begun with any settings, and takes in whatever comes of what it asked
/// for.
pub proof fn law_search_takes_what_comes<E>(
    config: &Config,
    endpoint: Endpoint,
    failover: &mut Failover,
    error: E,
    text: String,
    status: u16,
    body: Option<String>,
)
    ensures
        call_requires(Failover::start::<E>, (config, endpoint)),
        old(failover)@.phase == Phase::Sending ==> call_requires(
            Failover::step::<E>,
            (failover, Event::Unreachable(error, text)),
        ),
        old(failover)@.phase == Phase::Sending && 100 <= status <= 999 ==> call_requires(
            Failover::step::<E>,
            (failover, Event::Status(status)),
        ),
        old(failover)@.phase == Phase::Refused(status) ==> call_requires(
            Failover::step::<E>,
            (failover, Event::ErrorBody(body)),
        ),
        old(failover)@.phase == Phase::Accepted ==> call_requires(
            Failover::step::<E>,
            (failover, Event::BadBody(error)),
        ),
{
}

/// A refusal reads as the status and the body, where there is one.
pub proof fn law_refusal_reads(status: &str, body: &Option<String>, message: String)
    requires
        call_ensures(refusal_message, (status, body), message),
    ensures
        message@ == "Upstream returned "@ + status@ + ": "@ + (match *body {
            Some(text) => text@,
            None => "Unknown error"@,
        }),
{
}

/// Which statuses are worth another upstream, and which are of success.
pub proof fn law_statuses(status: u16, retriable: bool, success: bool)
    requires
        call_ensures(is_retriable_status, (status,), retriable),
        call_ensures(is_success_status, (status,), success),
    ensures
        retriable <==> status == 429 || 500 <= status < 600,
        success <==> 200 <= status < 300,
        !(retriable && success),
{
}

/// What is measured of each event: of chat completions the latency of every answer, and
/// an error for each upstream that cannot be reached and each refusal; of the list of
/// models nothing.
pub proof fn law_metrics<E>(endpoint: Endpoint, event: &Event<E>, metric: Option<Metric>)
    requires
        call_ensures(metric_for::<E>, (endpoint, event), metric),
    ensures
        metric == Some(Metric::Latency) <==> endpoint == Endpoint::ChatCompletions && *event
            is Status,
        metric == Some(Metric::Error) <==> endpoint == Endpoint::ChatCompletions && (*event
            is Unreachable || *event is ErrorBody),
{
}

/// Tokens are recorded as the answer gives them, of chat completions that are not
/// streamed, and of nothing else.
pub proof fn law_tokens(
    endpoint: Endpoint,
    streaming: bool,
    usage: Option<(u32, u32)>,
    tokens: Option<(u32, u32)>,
)
    requires
        call_ensures(tokens_for, (endpoint, streaming, usage), tokens),
    ensures
        endpoint == Endpoint::ChatCompletions && !streaming ==> tokens == usage,
        endpoint == Endpoint::Models || streaming ==> tokens is None,
{
}

/// A request is seen as it is.
pub proof fn law_request_view(request: UpstreamRequest)
    ensures
        request@.method == request.method,
        request@.url == request.url@,
        request@.with_body == request.with_body,
        request@.timeout_secs == request.timeout_secs,
        match request.authorization {
            Some(value) => request@.authorization == Some(value@),
            None => request@.authorization is None,
        },
{
}

} // verus!

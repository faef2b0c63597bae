//! Asking the upstreams, one after the other, until one of them settles the matter.
//!
//! `Failover` decides; whoever holds it sends the requests and reads the responses, and
//! tells it what came of each.

use crate::config::{copy_strings, Config};
use crate::model::text_of;
use crate::text::joined;
use vstd::prelude::*;

verus! {

/// Whether a refusal with this status leaves the next upstream worth trying.
pub open spec fn retriable(status: u16) -> bool {
    status == 429 || 500 <= status <= 599
}

/// Tells whether a refusal with `status` should move on to the next upstream: too many
/// requests, or any server error.
pub fn is_retriable_status(status: u16) -> (r: bool)
    ensures
        r == retriable(status),
{
    status == 429 || (500 <= status && status <= 599)
}

/// Whether a status is one of success.
pub open spec fn success(status: u16) -> bool {
    200 <= status <= 299
}

/// Tells whether `status` is one of success.
pub fn is_success_status(status: u16) -> (r: bool)
    ensures
        r == success(status),
{
    200 <= status && status <= 299
}

/// Whether a number is an HTTP status at all.
pub open spec fn is_status(status: u16) -> bool {
    100 <= status <= 999
}

/// The reason phrase that `http::StatusCode::canonical_reason` has for a status; `None`
/// where it has none.
pub uninterp spec fn canonical_reason(status: u16) -> Option<Seq<char>>;

/// The decimal digit of a number below ten.
pub open spec fn digit(n: int) -> char {
    (n + 48) as char
}

/// The three decimal digits of a status.
pub open spec fn status_digits(status: u16) -> Seq<char> {
    seq![
        digit(status as int / 100),
        digit(status as int / 10 % 10),
        digit(status as int % 10),
    ]
}

/// A status as it reads: its digits, and its reason phrase.
pub open spec fn status_text(status: u16, reason: Option<Seq<char>>) -> Seq<char> {
    status_digits(status) + " "@ + (match reason {
        Some(reason) => reason,
        None => "<unknown status code>"@,
    })
}

/// Calls the `Display` of `http::StatusCode`, which reqwest hands on: the number in
/// decimal, a space, and the canonical reason or `<unknown status code>`. Which phrase
/// belongs to which status is not stated beyond the name `canonical_reason`. A number
/// outside 100 to 999 is no `StatusCode`.
#[verifier::external_body]
pub(crate) fn display_status(status: u16) -> (text: String)
    requires
        is_status(status),
    ensures
        text@ == status_text(status, canonical_reason(status)),
{
    reqwest::StatusCode::from_u16(status).unwrap().to_string()
}

/// How the refusal of an upstream reads.
pub open spec fn refusal_text(status: Seq<char>, body: Option<Seq<char>>) -> Seq<char> {
    "Upstream returned "@ + status + ": "@ + (match body {
        Some(text) => text,
        None => "Unknown error"@,
    })
}

/// The message for a refusal: the status as it reads, and the body of the response,
/// where it could be read.
pub fn refusal_message(status: &str, body: &Option<String>) -> (message: String)
    ensures
        message@ == refusal_text(status@, text_of(*body)),
{
    let mut message = joined("Upstream returned ", status);
    message.append(": ");
    match body {
        Some(text) => {
            message.append(text.as_str());
        },
        None => {
            message.append("Unknown error");
        },
    }
    assert(message@ =~= refusal_text(status@, text_of(*body)));
    message
}

/// Why a request failed. `E` is the error of the HTTP client.
#[derive(Debug)]
pub enum ProxyError<E> {
    /// The HTTP client failed.
    Http(E),
    /// The upstreams did not serve the request.
    Upstream(String),
}

/// A `ProxyError` with its text as a sequence.
pub enum ProxyErrorView<E> {
    Http(E),
    Upstream(Seq<char>),
}

impl<E> View for ProxyError<E> {
    type V = ProxyErrorView<E>;

    open spec fn view(&self) -> ProxyErrorView<E> {
        match self {
            ProxyError::Http(e) => ProxyErrorView::Http(*e),
            ProxyError::Upstream(s) => ProxyErrorView::Upstream(s@),
        }
    }
}

/// What is asked of the upstreams.
#[derive(Debug, Clone, Copy, PartialEq, Eq, Structural)]
pub enum Endpoint {
    ChatCompletions,
    Models,
}

/// How long an upstream may take, in seconds.
pub open spec fn timeout_of(endpoint: Endpoint) -> u64 {
    match endpoint {
        Endpoint::ChatCompletions => 300,
        Endpoint::Models => 60,
    }
}

/// The method of a request.
#[derive(Debug, Clone, Copy, PartialEq, Eq, Structural)]
pub enum Method {
    Get,
    Post,
}

/// How an endpoint is asked for.
pub open spec fn method_of(endpoint: Endpoint) -> Method {
    match endpoint {
        Endpoint::ChatCompletions => Method::Post,
        Endpoint::Models => Method::Get,
    }
}

/// A request that is to be sent.
#[derive(Debug)]
pub struct UpstreamRequest {
    pub method: Method,
    pub url: String,
    /// Whether the translated request goes along, as JSON.
    pub with_body: bool,
    /// The value of the `Authorization` header, where there is one.
    pub authorization: Option<String>,
    pub timeout_secs: u64,
}

/// An `UpstreamRequest` with its texts as sequences.
pub struct RequestView {
    pub method: Method,
    pub url: Seq<char>,
    pub with_body: bool,
    pub authorization: Option<Seq<char>>,
    pub timeout_secs: u64,
}

impl View for UpstreamRequest {
    type V = RequestView;

    open spec fn view(&self) -> RequestView {
        RequestView {
            method: self.method,
            url: self.url@,
            with_body: self.with_body,
            authorization: text_of(self.authorization),
            timeout_secs: self.timeout_secs,
        }
    }
}

/// What came of an action.
#[derive(Debug)]
pub enum Event<E> {
    /// No response came: the error, and how it reads.
    Unreachable(E, String),
    /// A response came, with this status.
    Status(u16),
    /// The body of a refusal, where it could be read.
    ErrorBody(Option<String>),
    /// The body of an accepted response could not be read.
    BadBody(E),
}

/// An `Event` with its texts as sequences.
pub enum EventView<E> {
    Unreachable(E, Seq<char>),
    Status(u16),
    ErrorBody(Option<Seq<char>>),
    BadBody(E),
}

impl<E> View for Event<E> {
    type V = EventView<E>;

    open spec fn view(&self) -> EventView<E> {
        match self {
            Event::Unreachable(e, text) => EventView::Unreachable(*e, text@),
            Event::Status(status) => EventView::Status(*status),
            Event::ErrorBody(body) => EventView::ErrorBody(text_of(*body)),
            Event::BadBody(e) => EventView::BadBody(*e),
        }
    }
}

/// What is to be done next.
#[derive(Debug)]
pub enum Action<E> {
    /// Send this request.
    Send(UpstreamRequest),
    /// Read the body of the refusal.
    ReadErrorBody,
    /// The upstream serves the request: hand its response on.
    Accept,
    /// Give up.
    Fail(ProxyError<E>),
}

/// An `Action` with its texts as sequences.
pub enum ActionView<E> {
    Send(RequestView),
    ReadErrorBody,
    Accept,
    Fail(ProxyErrorView<E>),
}

impl<E> View for Action<E> {
    type V = ActionView<E>;

    open spec fn view(&self) -> ActionView<E> {
        match self {
            Action::Send(request) => ActionView::Send(request@),
            Action::ReadErrorBody => ActionView::ReadErrorBody,
            Action::Accept => ActionView::Accept,
            Action::Fail(error) => ActionView::Fail(error@),
        }
    }
}

/// What is measured of an upstream.
#[derive(Debug, Clone, Copy, PartialEq, Eq, Structural)]
pub enum Metric {
    /// How long the response took.
    Latency,
    /// That it was no use.
    Error,
}

/// What is measured when an event comes: of chat completions, the latency of every
/// response, and an error for every upstream that could not be reached or has refused; of
/// the list of models, nothing.
pub open spec fn metric_of<E>(endpoint: Endpoint, event: EventView<E>) -> Option<Metric> {
    match endpoint {
        Endpoint::ChatCompletions => match event {
            EventView::Status(_) => Some(Metric::Latency),
            EventView::Unreachable(..) => Some(Metric::Error),
            EventView::ErrorBody(_) => Some(Metric::Error),
            EventView::BadBody(_) => None,
        },
        Endpoint::Models => None,
    }
}

/// Tells what to measure when an event comes.
pub fn metric_for<E>(endpoint: Endpoint, event: &Event<E>) -> (metric: Option<Metric>)
    ensures
        metric == metric_of(endpoint, event@),
{
    match endpoint {
        Endpoint::ChatCompletions => match event {
            Event::Status(_) => Some(Metric::Latency),
            Event::Unreachable(..) => Some(Metric::Error),
            Event::ErrorBody(_) => Some(Metric::Error),
            Event::BadBody(_) => None,
        },
        Endpoint::Models => None,
    }
}

/// Tells what to record of the tokens that an answer has cost, prompt and completion.
/// `usage` is what the body of the answer says; there is none where it could not be
/// decoded. Only a chat completion that is not streamed has its tokens recorded.
pub fn tokens_for(endpoint: Endpoint, streaming: bool, usage: Option<(u32, u32)>) -> (tokens:
    Option<(u32, u32)>)
    ensures
        tokens == (if endpoint == Endpoint::ChatCompletions && !streaming {
            usage
        } else {
            None
        }),
{
    match endpoint {
        Endpoint::ChatCompletions => if streaming {
            None
        } else {
            usage
        },
        Endpoint::Models => None,
    }
}

/// How far the attempt at one upstream has come.
#[derive(Debug, Clone, Copy, PartialEq, Eq, Structural)]
pub enum Phase {
    /// The request is out.
    Sending,
    /// The upstream has refused, with this status.
    Refused(u16),
    /// The upstream serves the request.
    Accepted,
    /// There is nothing left to do.
    Closed,
}

/// Where the search for an upstream stands.
#[verifier::ext_equal]
pub struct FailoverView {
    pub endpoint: Endpoint,
    pub urls: Seq<Seq<char>>,
    pub authorization: Option<Seq<char>>,
    /// The upstream that is being tried.
    pub at: int,
    pub phase: Phase,
}

impl FailoverView {
    /// Unless there is nothing left to do, one of the upstreams is being tried, and a
    /// refusal has a status that is not one of success.
    pub open spec fn wf(self) -> bool {
        &&& self.phase != Phase::Closed ==> 0 <= self.at < self.urls.len()
        &&& self.phase matches Phase::Refused(status) ==> is_status(status) && !success(status)
    }
}

/// The request to the upstream `i`. A chat completion is posted, with a body; the list
/// of models is got, without one.
pub open spec fn request_to(f: FailoverView, i: int) -> RequestView {
    RequestView {
        method: method_of(f.endpoint),
        url: f.urls[i],
        with_body: f.endpoint == Endpoint::ChatCompletions,
        authorization: f.authorization,
        timeout_secs: timeout_of(f.endpoint),
    }
}

/// Moves on to the next upstream; if there is none, `error` is what is left.
pub open spec fn next_or_fail<E>(f: FailoverView, error: ProxyErrorView<E>) -> (
    FailoverView,
    ActionView<E>,
) {
    if f.at + 1 < f.urls.len() {
        (
            FailoverView { at: f.at + 1, phase: Phase::Sending, ..f },
            ActionView::Send(request_to(f, f.at + 1)),
        )
    } else {
        (FailoverView { phase: Phase::Closed, ..f }, ActionView::Fail(error))
    }
}

/// What it comes to that an upstream could not be reached.
pub open spec fn unreachable_error<E>(endpoint: Endpoint, error: E, text: Seq<char>) -> ProxyErrorView<
    E,
> {
    match endpoint {
        Endpoint::ChatCompletions => ProxyErrorView::Http(error),
        Endpoint::Models => ProxyErrorView::Upstream("HTTP error: "@ + text),
    }
}

/// What it comes to that an upstream has refused.
pub open spec fn refusal_error<E>(status: u16, body: Option<Seq<char>>) -> ProxyErrorView<E> {
    ProxyErrorView::Upstream(refusal_text(status_text(status, canonical_reason(status)), body))
}

/// Whether an event can come in a phase.
pub open spec fn expected<E>(phase: Phase, event: EventView<E>) -> bool {
    match event {
        EventView::Unreachable(..) => phase == Phase::Sending,
        EventView::Status(status) => phase == Phase::Sending && is_status(status),
        EventView::ErrorBody(_) => phase is Refused,
        EventView::BadBody(_) => phase == Phase::Accepted,
    }
}

/// The first action.
pub open spec fn first_action<E>(f: FailoverView) -> (FailoverView, ActionView<E>) {
    if f.urls.len() > 0 {
        (
            FailoverView { at: 0, phase: Phase::Sending, ..f },
            ActionView::Send(request_to(f, 0)),
        )
    } else {
        (
            FailoverView { at: 0, phase: Phase::Closed, ..f },
            ActionView::Fail(ProxyErrorView::Upstream("All upstreams failed"@)),
        )
    }
}

/// What an event leads to. An upstream that cannot be reached, or that refuses with a
/// status worth a retry, is passed over; any other refusal is final; and so is a body
/// that cannot be read, once a response has been accepted.
pub open spec fn after<E>(f: FailoverView, event: EventView<E>) -> (FailoverView, ActionView<E>) {
    match event {
        EventView::Unreachable(error, text) => next_or_fail(
            f,
            unreachable_error(f.endpoint, error, text),
        ),
        EventView::Status(status) => if success(status) {
            (FailoverView { phase: Phase::Accepted, ..f }, ActionView::Accept)
        } else {
            (FailoverView { phase: Phase::Refused(status), ..f }, ActionView::ReadErrorBody)
        },
        EventView::ErrorBody(body) => {
            let status = f.phase->Refused_0;
            if retriable(status) {
                next_or_fail(f, refusal_error(status, body))
            } else {
                (
                    FailoverView { phase: Phase::Closed, ..f },
                    ActionView::Fail(refusal_error(status, body)),
                )
            }
        },
        EventView::BadBody(error) => (
            FailoverView { phase: Phase::Closed, ..f },
            ActionView::Fail(ProxyErrorView::Http(error)),
        ),
    }
}

/// The search for an upstream that serves a request.
#[derive(Debug)]
pub struct Failover {
    endpoint: Endpoint,
    urls: Vec<String>,
    authorization: Option<String>,
    at: usize,
    phase: Phase,
}

/// The texts of a list of strings.
pub open spec fn texts_of(list: Seq<String>) -> Seq<Seq<char>> {
    list.map_values(|s: String| s@)
}

impl View for Failover {
    type V = FailoverView;

    closed spec fn view(&self) -> FailoverView {
        FailoverView {
            endpoint: self.endpoint,
            urls: texts_of(self.urls@),
            authorization: text_of(self.authorization),
            at: self.at as int,
            phase: self.phase,
        }
    }
}

/// The value of the `Authorization` header for a key.
pub open spec fn bearer(api_key: Option<Seq<char>>) -> Option<Seq<char>> {
    match api_key {
        Some(key) => Some("Bearer "@ + key),
        None => None,
    }
}

/// Where an endpoint is asked for.
pub open spec fn urls_for(config: Config, endpoint: Endpoint) -> Seq<Seq<char>> {
    match endpoint {
        Endpoint::ChatCompletions => texts_of(config.chat_completions_urls@),
        Endpoint::Models => texts_of(config.models_urls@),
    }
}

/// The search before it has begun.
pub open spec fn unstarted(config: Config, endpoint: Endpoint) -> FailoverView {
    FailoverView {
        endpoint,
        urls: urls_for(config, endpoint),
        authorization: bearer(text_of(config.api_key)),
        at: 0,
        phase: Phase::Closed,
    }
}

impl Failover {
    /// Unless there is nothing left to do, one of the upstreams is being tried.
    #[verifier::type_invariant]
    spec fn inv(self) -> bool {
        self@.wf()
    }

    /// The request to the upstream that is being tried.
    fn request(&self) -> (request: UpstreamRequest)
        requires
            0 <= self@.at < self@.urls.len(),
        ensures
            request@ == request_to(self@, self@.at),
    {
        let authorization = match &self.authorization {
            Some(value) => Some(value.clone()),
            None => None,
        };
        let url = self.urls[self.at].clone();
        match self.endpoint {
            Endpoint::ChatCompletions => UpstreamRequest {
                method: Method::Post,
                url,
                with_body: true,
                authorization,
                timeout_secs: 300,
            },
            Endpoint::Models => UpstreamRequest {
                method: Method::Get,
                url,
                with_body: false,
                authorization,
                timeout_secs: 60,
            },
        }
    }

    /// Begins the search: the upstreams of the endpoint, in the order of the settings.
    pub fn start<E>(config: &Config, endpoint: Endpoint) -> (r: (Failover, Action<E>))
        ensures
            (r.0@, r.1@) == first_action::<E>(unstarted(*config, endpoint)),
            r.0@.wf(),
    {
        let urls = match endpoint {
            Endpoint::ChatCompletions => copy_strings(&config.chat_completions_urls),
            Endpoint::Models => copy_strings(&config.models_urls),
        };
        let authorization = match &config.api_key {
            Some(key) => Some(joined("Bearer ", key.as_str())),
            None => None,
        };
        let phase = if urls.len() > 0 {
            Phase::Sending
        } else {
            Phase::Closed
        };
        let failover = Failover { endpoint, urls, authorization, at: 0, phase };
        if failover.urls.len() > 0 {
            let request = failover.request();
            (failover, Action::Send(request))
        } else {
            (failover, Action::Fail(ProxyError::Upstream("All upstreams failed".to_owned())))
        }
    }

    /// Moves on to the next upstream; if there is none, `error` is what is left.
    fn next_or_fail<E>(&mut self, error: ProxyError<E>) -> (action: Action<E>)
        requires
            0 <= old(self)@.at < old(self)@.urls.len(),
        ensures
            (final(self)@, action@) == next_or_fail(old(self)@, error@),
    {
        proof {
            use_type_invariant(&*self);
        }
        if self.urls.len() - self.at > 1 {
            self.at = self.at + 1;
            self.phase = Phase::Sending;
            Action::Send(self.request())
        } else {
            self.phase = Phase::Closed;
            Action::Fail(error)
        }
    }

    /// Takes in what came of the last action, and tells the next.
    pub fn step<E>(&mut self, event: Event<E>) -> (action: Action<E>)
        requires
            expected(old(self)@.phase, event@),
        ensures
            (final(self)@, action@) == after(old(self)@, event@),
            final(self)@.wf(),
    {
        proof {
            use_type_invariant(&*self);
        }
        match event {
            Event::Unreachable(error, text) => {
                let error = match self.endpoint {
                    Endpoint::ChatCompletions => ProxyError::Http(error),
                    Endpoint::Models => ProxyError::Upstream(
                        joined("HTTP error: ", text.as_str()),
                    ),
                };
                self.next_or_fail(error)
            },
            Event::Status(status) => {
                if is_success_status(status) {
                    self.phase = Phase::Accepted;
                    Action::Accept
                } else {
                    self.phase = Phase::Refused(status);
                    Action::ReadErrorBody
                }
            },
            Event::ErrorBody(body) => {
                let status: u16 = match self.phase {
                    Phase::Refused(status) => status,
                    _ => 0,
                };
                let error = ProxyError::Upstream(
                    refusal_message(display_status(status).as_str(), &body),
                );
                if is_retriable_status(status) {
                    self.next_or_fail(error)
                } else {
                    self.phase = Phase::Closed;
                    Action::Fail(error)
                }
            },
            Event::BadBody(error) => {
                self.phase = Phase::Closed;
                Action::Fail(ProxyError::Http(error))
            },
        }
    }
}

/// What an upstream would do with the request.
pub enum Outcome<E> {
    /// It cannot be reached.
    Unreachable(E, Seq<char>),
    /// It answers with a status and, should it be asked for, a body.
    Answered(u16, Option<Seq<char>>),
}

/// Whether an upstream that does this settles the matter.
pub open spec fn conclusive<E>(outcome: Outcome<E>) -> bool {
    match outcome {
        Outcome::Unreachable(..) => false,
        Outcome::Answered(status, _) => !retriable(status),
    }
}

/// What it comes to that an upstream does this, other than to serve the request.
pub open spec fn outcome_error<E>(endpoint: Endpoint, outcome: Outcome<E>) -> ProxyErrorView<E> {
    match outcome {
        Outcome::Unreachable(error, text) => unreachable_error(endpoint, error, text),
        Outcome::Answered(status, body) => refusal_error(status, body),
    }
}

/// Whether an upstream that does this serves the request.
pub open spec fn serves<E>(outcome: Outcome<E>) -> bool {
    outcome matches Outcome::Answered(status, _) && success(status)
}

/// Tries one upstream: sends the request, and reads the body of a refusal.
pub open spec fn after_outcome<E>(f: FailoverView, outcome: Outcome<E>) -> (
    FailoverView,
    ActionView<E>,
) {
    match outcome {
        Outcome::Unreachable(error, text) => after(f, EventView::Unreachable(error, text)),
        Outcome::Answered(status, body) => {
            let (g, action) = after(f, EventView::<E>::Status(status));
            if action == ActionView::<E>::ReadErrorBody {
                after(g, EventView::ErrorBody(body))
            } else {
                (g, action)
            }
        },
    }
}

/// Follows the actions to the end, where `outcomes` tells what each upstream would do.
pub open spec fn search<E>(
    f: FailoverView,
    action: ActionView<E>,
    outcomes: Seq<Outcome<E>>,
) -> (FailoverView, ActionView<E>)
    decreases
            f.urls.len() - f.at,
            if action is Send {
                1int
            } else {
                0
            },
{
    if action is Send && f.phase == Phase::Sending && 0 <= f.at < f.urls.len() {
        let (g, next) = after_outcome(f, outcomes[f.at]);
        search(g, next, outcomes)
    } else {
        (f, action)
    }
}

/// The requests that are sent on the way to the end.
pub open spec fn requests<E>(
    f: FailoverView,
    action: ActionView<E>,
    outcomes: Seq<Outcome<E>>,
) -> Seq<RequestView>
    decreases
            f.urls.len() - f.at,
            if action is Send {
                1int
            } else {
                0
            },
{
    if action is Send && f.phase == Phase::Sending && 0 <= f.at < f.urls.len() {
        let (g, next) = after_outcome(f, outcomes[f.at]);
        seq![action->Send_0] + requests(g, next, outcomes)
    } else {
        seq![]
    }
}

/// The requests that the search for an upstream sends.
pub open spec fn sent<E>(config: Config, endpoint: Endpoint, outcomes: Seq<Outcome<E>>) -> Seq<
    RequestView,
> {
    let (f, action) = first_action::<E>(unstarted(config, endpoint));
    requests(f, action, outcomes)
}

/// The requests to the first `n` upstreams, in order.
pub open spec fn requests_to_first(f: FailoverView, n: nat) -> Seq<RequestView> {
    Seq::new(n, |i: int| request_to(f, i))
}

/// What is measured when an event comes, as a sequence.
pub open spec fn event_metrics<E>(endpoint: Endpoint, event: EventView<E>) -> Seq<Metric> {
    match metric_of(endpoint, event) {
        Some(metric) => seq![metric],
        None => seq![],
    }
}

/// What is measured on the way to the end, event by event.
pub open spec fn metrics<E>(
    f: FailoverView,
    action: ActionView<E>,
    outcomes: Seq<Outcome<E>>,
) -> Seq<Metric>
    decreases
            f.urls.len() - f.at,
            if action is Send {
                1int
            } else {
                0
            },
{
    if action is Send && f.phase == Phase::Sending && 0 <= f.at < f.urls.len() {
        let (g, next) = after_outcome(f, outcomes[f.at]);
        let here = match outcomes[f.at] {
            Outcome::Unreachable(error, text) => event_metrics(
                f.endpoint,
                EventView::Unreachable(error, text),
            ),
            Outcome::Answered(status, body) => event_metrics(
                f.endpoint,
                EventView::<E>::Status(status),
            ) + (if after(f, EventView::<E>::Status(status)).1 == ActionView::<E>::ReadErrorBody {
                event_metrics(f.endpoint, EventView::<E>::ErrorBody(body))
            } else {
                seq![]
            }),
        };
        here + metrics(g, next, outcomes)
    } else {
        seq![]
    }
}

/// What is measured in the search for an upstream.
pub open spec fn measured<E>(config: Config, endpoint: Endpoint, outcomes: Seq<Outcome<E>>) -> Seq<
    Metric,
> {
    let (f, action) = first_action::<E>(unstarted(config, endpoint));
    metrics(f, action, outcomes)
}

/// What there is to measure of one upstream: of chat completions, the latency if it
/// answers, and an error unless it serves the request; of the list of models, nothing.
pub open spec fn attempt_metrics<E>(endpoint: Endpoint, outcome: Outcome<E>) -> Seq<Metric> {
    if endpoint == Endpoint::Models {
        seq![]
    } else if outcome is Unreachable {
        seq![Metric::Error]
    } else if serves(outcome) {
        seq![Metric::Latency]
    } else {
        seq![Metric::Latency, Metric::Error]
    }
}

/// What there is to measure of several upstreams, in order.
pub open spec fn attempts_metrics<E>(endpoint: Endpoint, outcomes: Seq<Outcome<E>>) -> Seq<Metric>
    decreases outcomes.len(),
{
    if outcomes.len() == 0 {
        seq![]
    } else {
        attempt_metrics(endpoint, outcomes.first()) + attempts_metrics(
            endpoint,
            outcomes.drop_first(),
        )
    }
}

/// What the search for an upstream comes to.
pub open spec fn found<E>(config: Config, endpoint: Endpoint, outcomes: Seq<Outcome<E>>) -> (
    FailoverView,
    ActionView<E>,
) {
    let (f, action) = first_action::<E>(unstarted(config, endpoint));
    search(f, action, outcomes)
}

/// From the upstream `f.at` on, the upstreams before `k` are passed over.
proof fn lemma_search<E>(f: FailoverView, outcomes: Seq<Outcome<E>>, k: int)
    requires
        f.phase == Phase::Sending,
        0 <= f.at <= k < f.urls.len(),
        outcomes.len() == f.urls.len(),
        forall|i: int| f.at <= i < k ==> !conclusive(#[trigger] outcomes[i]),
        conclusive(outcomes[k]) || k == f.urls.len() - 1,
    ensures
        ({
            let (g, end) = search(f, ActionView::Send(request_to(f, f.at)), outcomes);
            if serves(outcomes[k]) {
                &&& end == ActionView::<E>::Accept
                &&& g == (FailoverView { at: k, phase: Phase::Accepted, ..f })
            } else {
                &&& end == ActionView::Fail(outcome_error(f.endpoint, outcomes[k]))
                &&& g == (FailoverView { at: k, phase: Phase::Closed, ..f })
            }
        }),
        requests(f, ActionView::Send(request_to(f, f.at)), outcomes) == Seq::new(
            (k - f.at + 1) as nat,
            |i: int| request_to(f, f.at + i),
        ),
    decreases k - f.at,
{
    let (g, next) = after_outcome(f, outcomes[f.at]);
    let first = request_to(f, f.at);
    let all = Seq::new((k - f.at + 1) as nat, |i: int| request_to(f, f.at + i));
    if f.at < k {
        assert(!conclusive(outcomes[f.at]));
        lemma_search(g, outcomes, k);
        assert(seq![first] + requests(g, next, outcomes) =~= all);
    } else {
        assert(search(g, next, outcomes) == (g, next));
        assert(requests(g, next, outcomes) =~= seq![]);
        assert(seq![first] + requests(g, next, outcomes) =~= all);
    }
}

/// From the upstream `f.at` up to `k`, each is measured in turn.
proof fn lemma_metrics<E>(f: FailoverView, outcomes: Seq<Outcome<E>>, k: int)
    requires
        f.phase == Phase::Sending,
        0 <= f.at <= k < f.urls.len(),
        outcomes.len() == f.urls.len(),
        forall|i: int| f.at <= i < k ==> !conclusive(#[trigger] outcomes[i]),
        conclusive(outcomes[k]) || k == f.urls.len() - 1,
    ensures
        metrics(f, ActionView::Send(request_to(f, f.at)), outcomes) == attempts_metrics(
            f.endpoint,
            outcomes.subrange(f.at, k + 1),
        ),
    decreases k - f.at,
{
    let (g, next) = after_outcome(f, outcomes[f.at]);
    let tried = outcomes.subrange(f.at, k + 1);
    assert(tried.drop_first() =~= outcomes.subrange(f.at + 1, k + 1));
    if f.at < k {
        assert(!conclusive(outcomes[f.at]));
        lemma_metrics(g, outcomes, k);
    } else {
        assert(metrics(g, next, outcomes) =~= seq![]);
        assert(attempts_metrics(f.endpoint, tried.drop_first()) =~= seq![]);
    }
    assert(metrics(f, ActionView::Send(request_to(f, f.at)), outcomes) =~= attempt_metrics(
        f.endpoint,
        outcomes[f.at],
    ) + metrics(g, next, outcomes));
}

/// Of chat completions, every upstream that is asked is measured, once and in order: the
/// latency of its response, if one came, and an error, unless it serves the request. Those
/// behind the upstream `k` that ends the search are not. Of the list of models nothing is
/// measured.
pub proof fn law_every_attempt_is_measured<E>(
    config: Config,
    endpoint: Endpoint,
    outcomes: Seq<Outcome<E>>,
    k: int,
)
    requires
        outcomes.len() == urls_for(config, endpoint).len(),
        0 <= k < outcomes.len(),
        conclusive(outcomes[k]) || k == outcomes.len() - 1,
        forall|i: int| 0 <= i < k ==> !conclusive(#[trigger] outcomes[i]),
    ensures
        measured(config, endpoint, outcomes) == attempts_metrics(endpoint, outcomes.take(k + 1)),
{
    let (f, action) = first_action::<E>(unstarted(config, endpoint));
    lemma_metrics(f, outcomes, k);
    assert(outcomes.take(k + 1) =~= outcomes.subrange(0, k + 1));
}

/// The first upstream that settles the matter decides: if it serves the request, its
/// response is handed on, and if it refuses for good, its refusal is the error. It is the
/// last one asked; the upstreams before it, each asked once and in order, could not be
/// reached or had a status worth a retry.
pub proof fn law_first_conclusive_upstream_decides<E>(
    config: Config,
    endpoint: Endpoint,
    outcomes: Seq<Outcome<E>>,
    k: int,
)
    requires
        outcomes.len() == urls_for(config, endpoint).len(),
        0 <= k < outcomes.len(),
        conclusive(outcomes[k]),
        forall|i: int| 0 <= i < k ==> !conclusive(#[trigger] outcomes[i]),
    ensures
        found(config, endpoint, outcomes).0.at == k,
        sent(config, endpoint, outcomes) == requests_to_first(
            unstarted(config, endpoint),
            (k + 1) as nat,
        ),
        serves(outcomes[k]) ==> found(config, endpoint, outcomes).1 == ActionView::<E>::Accept,
        !serves(outcomes[k]) ==> found(config, endpoint, outcomes).1 == ActionView::Fail(
            outcome_error(endpoint, outcomes[k]),
        ),
{
    let (f, action) = first_action::<E>(unstarted(config, endpoint));
    lemma_search(f, outcomes, k);
    assert(sent(config, endpoint, outcomes) =~= requests_to_first(
        unstarted(config, endpoint),
        (k + 1) as nat,
    ));
}

/// Where no upstream settles the matter, each is asked once and in order, and the last
/// one's error is the error.
pub proof fn law_last_error_remains<E>(
    config: Config,
    endpoint: Endpoint,
    outcomes: Seq<Outcome<E>>,
)
    requires
        outcomes.len() == urls_for(config, endpoint).len(),
        outcomes.len() > 0,
        forall|i: int| 0 <= i < outcomes.len() ==> !conclusive(#[trigger] outcomes[i]),
    ensures
        found(config, endpoint, outcomes).0.at == outcomes.len() - 1,
        sent(config, endpoint, outcomes) == requests_to_first(
            unstarted(config, endpoint),
            outcomes.len(),
        ),
        found(config, endpoint, outcomes).1 == ActionView::Fail(
            outcome_error(endpoint, outcomes.last()),
        ),
{
    let (f, action) = first_action::<E>(unstarted(config, endpoint));
    lemma_search(f, outcomes, outcomes.len() - 1);
    assert(sent(config, endpoint, outcomes) =~= requests_to_first(
        unstarted(config, endpoint),
        outcomes.len(),
    ));
}

/// Where there is no upstream to ask, nothing is sent and the request fails at once.
pub proof fn law_no_upstream_fails<E>(
    config: Config,
    endpoint: Endpoint,
    outcomes: Seq<Outcome<E>>,
)
    requires
        urls_for(config, endpoint).len() == 0,
    ensures
        sent(config, endpoint, outcomes) == Seq::<RequestView>::empty(),
        found(config, endpoint, outcomes).1 == ActionView::Fail(
            ProxyErrorView::<E>::Upstream("All upstreams failed"@),
        ),
{
}

/// The upstreams are tried in order, each at most once, and every request goes to the
/// one that is being tried.
pub proof fn law_upstreams_are_tried_in_order<E>(f: FailoverView, event: EventView<E>)
    requires
        f.wf(),
        expected(f.phase, event),
    ensures
        after(f, event).0.wf(),
        match after(f, event).1 {
            ActionView::Send(request) => {
                &&& after(f, event).0.at == f.at + 1
                &&& request == request_to(f, f.at + 1)
            },
            _ => after(f, event).0.at == f.at,
        },
{
}

} // verus!

//! The decisions of one proxied HTTP/1.1 request/response exchange.
//!
//! The caller performs each action (connecting, reading and writing the two
//! sockets) and reports its outcome back as the next event; the exchange
//! decides what happens next, which failures count against the backend, and
//! which response status the metrics see.
use vstd::prelude::*;

use crate::error::Error;
use crate::http::{
    content_length, content_length_spec, end_to_end, forward_request_head,
    forwarded_request_text, reject_unsupported, response_head_text, serialize_response_head,
    unsupported_spec, HttpRequestHead, HttpResponseHead,
};

verus! {

/// What the caller observed since the last step.
pub enum ExchangeEvent {
    /// The request head was read from the client (or could not be).
    RequestHead(Result<HttpRequestHead, Error>),
    /// The connection to the backend was (or was not) established.
    BackendConnected(bool),
    /// The request head was (or was not) written to the backend.
    RequestHeadWritten(bool),
    /// The request body was (or was not) copied to the backend.
    RequestBodyCopied(bool),
    /// The response head was read from the backend (or could not be).
    ResponseHead(Result<HttpResponseHead, Error>),
    /// The response head was (or was not) written to the client.
    ResponseHeadWritten(bool),
    /// The response body copy to the client ended.
    ResponseBodyCopied(bool),
}

/// How much of the response body to relay.
#[derive(Debug, Clone, Copy, PartialEq, Eq, Structural)]
pub enum BodyTransfer {
    /// Exactly this many bytes.
    Exactly(u64),
    /// Everything until the backend closes.
    UntilEof,
}

/// What the caller must do next.
#[derive(Debug)]
pub enum ExchangeAction {
    ConnectBackend,
    WriteRequestHead(String),
    CopyRequestBody(u64),
    ReadResponseHead,
    WriteResponseHead(String),
    CopyResponseBody(BodyTransfer),
    /// Close the client connection; the exchange is over.
    Close,
}

/// The abstract form of an [`ExchangeAction`].
pub enum ActionView {
    ConnectBackend,
    WriteRequestHead(Seq<char>),
    CopyRequestBody(u64),
    ReadResponseHead,
    WriteResponseHead(Seq<char>),
    CopyResponseBody(BodyTransfer),
    Close,
}

impl View for ExchangeAction {
    type V = ActionView;

    open spec fn view(&self) -> ActionView {
        match self {
            ExchangeAction::ConnectBackend => ActionView::ConnectBackend,
            ExchangeAction::WriteRequestHead(t) => ActionView::WriteRequestHead(t@),
            ExchangeAction::CopyRequestBody(n) => ActionView::CopyRequestBody(*n),
            ExchangeAction::ReadResponseHead => ActionView::ReadResponseHead,
            ExchangeAction::WriteResponseHead(t) => ActionView::WriteResponseHead(t@),
            ExchangeAction::CopyResponseBody(b) => ActionView::CopyResponseBody(*b),
            ExchangeAction::Close => ActionView::Close,
        }
    }
}

/// One decision: the next action, whether the backend is to be charged
/// with a failure, and the response status to count, if any.
#[derive(Debug)]
pub struct ExchangeStep {
    pub action: ExchangeAction,
    pub backend_failed: bool,
    pub status: Option<u16>,
}

/// Where an exchange stands.
#[derive(Debug, Clone, Copy, PartialEq, Eq, Structural)]
pub enum ExchangeStage {
    AwaitingRequest,
    Connecting,
    WritingRequest,
    SendingBody,
    AwaitingResponse,
    WritingResponse,
    RelayingBody,
    Closed,
}

/// What follows once the request head is written.
#[derive(Debug, Clone, Copy, PartialEq, Eq, Structural)]
pub enum AfterRequest {
    CopyBody(u64),
    AwaitResponse,
    Close,
}

/// What follows once the response head is written.
#[derive(Debug, Clone, Copy, PartialEq, Eq, Structural)]
pub enum AfterResponse {
    Relay(BodyTransfer),
    Close,
}

/// One exchange between a client and a backend.
#[derive(Debug)]
pub struct HttpExchange {
    stage: ExchangeStage,
    client_ip: String,
    request_text: String,
    after_request: AfterRequest,
    response_text: String,
    after_response: AfterResponse,
}

/// The abstract state of an [`HttpExchange`].
pub struct ExchangeView {
    pub stage: ExchangeStage,
    pub client_ip: Seq<char>,
    pub request_text: Seq<char>,
    pub after_request: AfterRequest,
    pub response_text: Seq<char>,
    pub after_response: AfterResponse,
}

impl View for HttpExchange {
    type V = ExchangeView;

    closed spec fn view(&self) -> ExchangeView {
        ExchangeView {
            stage: self.stage,
            client_ip: self.client_ip@,
            request_text: self.request_text@,
            after_request: self.after_request,
            response_text: self.response_text@,
            after_response: self.after_response,
        }
    }
}

/// The request side: a body of `n > 0` bytes is copied, none (or an empty
/// one) means waiting for the response, an invalid length closes.
pub open spec fn after_request_spec(len: Result<Option<nat>, ()>) -> AfterRequest {
    match len {
        Ok(Some(n)) => if n > 0 {
            AfterRequest::CopyBody(n as u64)
        } else {
            AfterRequest::AwaitResponse
        },
        Ok(None) => AfterRequest::AwaitResponse,
        Err(()) => AfterRequest::Close,
    }
}

/// The response side: a body of `n > 0` bytes is relayed exactly, otherwise
/// everything until the backend closes; an invalid length closes.
pub open spec fn after_response_spec(len: Result<Option<nat>, ()>) -> AfterResponse {
    match len {
        Ok(Some(n)) => if n > 0 {
            AfterResponse::Relay(BodyTransfer::Exactly(n as u64))
        } else {
            AfterResponse::Relay(BodyTransfer::UntilEof)
        },
        Ok(None) => AfterResponse::Relay(BodyTransfer::UntilEof),
        Err(()) => AfterResponse::Close,
    }
}

/// The closing step: the exchange ends, charging the backend when
/// `failed`.
pub open spec fn close_spec(v: ExchangeView, failed: bool) -> (
    ExchangeView,
    ActionView,
    bool,
    Option<u16>,
) {
    (ExchangeView { stage: ExchangeStage::Closed, ..v }, ActionView::Close, failed, None)
}

/// The decision for event `e` in state `v`: the next state, the action, the
/// backend charge and the status to count.
pub open spec fn step_spec(v: ExchangeView, e: ExchangeEvent) -> (
    ExchangeView,
    ActionView,
    bool,
    Option<u16>,
) {
    match (v.stage, e) {
        (ExchangeStage::AwaitingRequest, ExchangeEvent::RequestHead(Ok(head))) => {
            if unsupported_spec(head.headers@) is Err {
                close_spec(v, false)
            } else {
                (
                    ExchangeView {
                        stage: ExchangeStage::Connecting,
                        request_text: forwarded_request_text(head, v.client_ip),
                        after_request: after_request_spec(
                            content_length_spec(end_to_end(head.headers@)),
                        ),
                        ..v
                    },
                    ActionView::ConnectBackend,
                    false,
                    None,
                )
            }
        },
        (ExchangeStage::Connecting, ExchangeEvent::BackendConnected(ok)) => {
            if ok {
                (
                    ExchangeView { stage: ExchangeStage::WritingRequest, ..v },
                    ActionView::WriteRequestHead(v.request_text),
                    false,
                    None,
                )
            } else {
                close_spec(v, true)
            }
        },
        (ExchangeStage::WritingRequest, ExchangeEvent::RequestHeadWritten(ok)) => {
            if !ok {
                close_spec(v, true)
            } else {
                match v.after_request {
                    AfterRequest::CopyBody(n) => (
                        ExchangeView { stage: ExchangeStage::SendingBody, ..v },
                        ActionView::CopyRequestBody(n),
                        false,
                        None,
                    ),
                    AfterRequest::AwaitResponse => (
                        ExchangeView { stage: ExchangeStage::AwaitingResponse, ..v },
                        ActionView::ReadResponseHead,
                        false,
                        None,
                    ),
                    AfterRequest::Close => close_spec(v, false),
                }
            }
        },
        (ExchangeStage::SendingBody, ExchangeEvent::RequestBodyCopied(ok)) => {
            if ok {
                (
                    ExchangeView { stage: ExchangeStage::AwaitingResponse, ..v },
                    ActionView::ReadResponseHead,
                    false,
                    None,
                )
            } else {
                close_spec(v, true)
            }
        },
        (ExchangeStage::AwaitingResponse, ExchangeEvent::ResponseHead(Ok(head))) => {
            let text = response_head_text(head);
            (
                ExchangeView {
                    stage: ExchangeStage::WritingResponse,
                    response_text: text,
                    after_response: after_response_spec(content_length_spec(head.headers@)),
                    ..v
                },
                ActionView::WriteResponseHead(text),
                false,
                Some(head.status),
            )
        },
        (ExchangeStage::AwaitingResponse, ExchangeEvent::ResponseHead(Err(_))) => close_spec(
            v,
            true,
        ),
        (ExchangeStage::WritingResponse, ExchangeEvent::ResponseHeadWritten(ok)) => {
            if !ok {
                close_spec(v, false)
            } else {
                match v.after_response {
                    AfterResponse::Relay(t) => (
                        ExchangeView { stage: ExchangeStage::RelayingBody, ..v },
                        ActionView::CopyResponseBody(t),
                        false,
                        None,
                    ),
                    AfterResponse::Close => close_spec(v, false),
                }
            }
        },
        _ => close_spec(v, false),
    }
}


// ---------------------------------------------------------------------------
// Laws
// ---------------------------------------------------------------------------

/// A closed exchange stays closed: whatever is reported, it answers `Close`,
/// charges nothing and counts no status.
pub proof fn lemma_closed_is_final(v: ExchangeView, e: ExchangeEvent)
    requires
        v.stage == ExchangeStage::Closed,
    ensures
        step_spec(v, e) == close_spec(v, false),
{
}

/// A request the proxy does not support (a `Transfer-Encoding` or `Upgrade`
/// header) is never forwarded: the exchange closes without contacting the
/// backend.
pub proof fn lemma_unsupported_never_forwarded(v: ExchangeView, head: HttpRequestHead)
    requires
        v.stage == ExchangeStage::AwaitingRequest,
        unsupported_spec(head.headers@) is Err,
    ensures
        step_spec(v, ExchangeEvent::RequestHead(Ok(head))).1 == ActionView::Close,
        step_spec(v, ExchangeEvent::RequestHead(Ok(head))).0.stage == ExchangeStage::Closed,
        !step_spec(v, ExchangeEvent::RequestHead(Ok(head))).2,
{
}

/// A failure is charged to the backend only for something that went wrong
/// with the backend: connecting, writing the request to it, or reading the
/// response from it.
pub proof fn lemma_failures_are_backend_side(v: ExchangeView, e: ExchangeEvent)
    requires
        step_spec(v, e).2,
    ensures
        v.stage == ExchangeStage::Connecting || v.stage == ExchangeStage::WritingRequest
            || v.stage == ExchangeStage::SendingBody || v.stage == ExchangeStage::AwaitingResponse,
{
}

/// Every failure on the backend's side is charged to it: a failed connect,
/// a request head or body that could not be written to it, or a response
/// head that could not be read from it closes the exchange with the backend
/// charged and no status counted. Together with the law above, a step
/// charges the backend exactly on these failures.
pub proof fn lemma_backend_failures_charged(v: ExchangeView, e: ExchangeEvent)
    ensures
        ({
            let backend_broke = {
                ||| (v.stage == ExchangeStage::Connecting
                    && e == ExchangeEvent::BackendConnected(false))
                ||| (v.stage == ExchangeStage::WritingRequest
                    && e == ExchangeEvent::RequestHeadWritten(false))
                ||| (v.stage == ExchangeStage::SendingBody
                    && e == ExchangeEvent::RequestBodyCopied(false))
                ||| (v.stage == ExchangeStage::AwaitingResponse
                    && e matches ExchangeEvent::ResponseHead(Err(_)))
            };
            &&& step_spec(v, e).2 <==> backend_broke
            &&& backend_broke ==> {
                &&& step_spec(v, e).1 == ActionView::Close
                &&& step_spec(v, e).0.stage == ExchangeStage::Closed
                &&& step_spec(v, e).3 is None
            }
        }),
{
}

/// What reaches the backend is the client's request head with the
/// hop-by-hop headers removed and the forwarding headers added: once the
/// head is accepted and the backend connected, the next action writes
/// exactly that text.
pub proof fn lemma_backend_receives_forwarded_head(v: ExchangeView, head: HttpRequestHead)
    requires
        v.stage == ExchangeStage::AwaitingRequest,
        unsupported_spec(head.headers@) is Ok,
    ensures
        ({
            let first = step_spec(v, ExchangeEvent::RequestHead(Ok(head)));
            let second = step_spec(first.0, ExchangeEvent::BackendConnected(true));
            &&& first.1 == ActionView::ConnectBackend
            &&& second.1 == ActionView::WriteRequestHead(
                forwarded_request_text(head, v.client_ip),
            )
        }),
{
}

/// The status of every response read from the backend is counted once, when
/// its head arrives, and at no other step.
pub proof fn lemma_status_counted_on_response_head(v: ExchangeView, e: ExchangeEvent)
    ensures
        step_spec(v, e).3 is Some <==> (v.stage == ExchangeStage::AwaitingResponse
            && e matches ExchangeEvent::ResponseHead(Ok(_))),
{
}

impl HttpExchange {
    /// An exchange for a client at the address text `client_ip`, waiting for
    /// its request head.
    pub fn new(client_ip: &str) -> (r: Self)
        ensures
            r@.stage == ExchangeStage::AwaitingRequest,
            r@.client_ip == client_ip@,
    {
        HttpExchange {
            stage: ExchangeStage::AwaitingRequest,
            client_ip: String::from_str(client_ip),
            request_text: String::new(),
            after_request: AfterRequest::Close,
            response_text: String::new(),
            after_response: AfterResponse::Close,
        }
    }

    pub fn stage(&self) -> (r: ExchangeStage)
        ensures
            r == self@.stage,
    {
        self.stage
    }

    fn close(&mut self, failed: bool) -> (r: ExchangeStep)
        ensures
            (final(self)@, r.action@, r.backend_failed, r.status) == close_spec(old(self)@, failed),
    {
        self.stage = ExchangeStage::Closed;
        ExchangeStep { action: ExchangeAction::Close, backend_failed: failed, status: None }
    }

    fn proceed(&mut self, stage: ExchangeStage, action: ExchangeAction) -> (r: ExchangeStep)
        ensures
            final(self)@ == (ExchangeView { stage, ..old(self)@ }),
            r.action == action,
            !r.backend_failed,
            r.status is None,
    {
        self.stage = stage;
        ExchangeStep { action, backend_failed: false, status: None }
    }

    /// Decides the next action from what the caller observed.
    pub fn step(&mut self, event: ExchangeEvent) -> (r: ExchangeStep)
        ensures
            (final(self)@, r.action@, r.backend_failed, r.status) == step_spec(old(self)@, event),
    {
        let ghost e = event;
        match (self.stage, event) {
            (ExchangeStage::AwaitingRequest, ExchangeEvent::RequestHead(Ok(head))) => {
                if reject_unsupported(&head).is_err() {
                    return self.close(false);
                }
                let (text, length) = forward_request_head(head, self.client_ip.as_str());
                self.request_text = text;
                self.after_request =
                    match length {
                        Ok(Some(n)) => if n > 0 {
                            AfterRequest::CopyBody(n)
                        } else {
                            AfterRequest::AwaitResponse
                        },
                        Ok(None) => AfterRequest::AwaitResponse,
                        Err(_) => AfterRequest::Close,
                    };
                self.proceed(ExchangeStage::Connecting, ExchangeAction::ConnectBackend)
            },
            (ExchangeStage::Connecting, ExchangeEvent::BackendConnected(ok)) => {
                if ok {
                    let text = self.request_text.clone();
                    self.proceed(ExchangeStage::WritingRequest, ExchangeAction::WriteRequestHead(text))
                } else {
                    self.close(true)
                }
            },
            (ExchangeStage::WritingRequest, ExchangeEvent::RequestHeadWritten(ok)) => {
                if !ok {
                    self.close(true)
                } else {
                    match self.after_request {
                        AfterRequest::CopyBody(n) => self.proceed(
                            ExchangeStage::SendingBody,
                            ExchangeAction::CopyRequestBody(n),
                        ),
                        AfterRequest::AwaitResponse => self.proceed(
                            ExchangeStage::AwaitingResponse,
                            ExchangeAction::ReadResponseHead,
                        ),
                        AfterRequest::Close => self.close(false),
                    }
                }
            },
            (ExchangeStage::SendingBody, ExchangeEvent::RequestBodyCopied(ok)) => {
                if ok {
                    self.proceed(ExchangeStage::AwaitingResponse, ExchangeAction::ReadResponseHead)
                } else {
                    self.close(true)
                }
            },
            (ExchangeStage::AwaitingResponse, ExchangeEvent::ResponseHead(Ok(head))) => {
                let text = serialize_response_head(&head);
                let length = content_length(head.headers.as_slice());
                self.response_text = text.clone();
                self.after_response =
                    match length {
                        Ok(Some(n)) => if n > 0 {
                            AfterResponse::Relay(BodyTransfer::Exactly(n))
                        } else {
                            AfterResponse::Relay(BodyTransfer::UntilEof)
                        },
                        Ok(None) => AfterResponse::Relay(BodyTransfer::UntilEof),
                        Err(_) => AfterResponse::Close,
                    };
                self.stage = ExchangeStage::WritingResponse;
                ExchangeStep {
                    action: ExchangeAction::WriteResponseHead(text),
                    backend_failed: false,
                    status: Some(head.status),
                }
            },
            (ExchangeStage::AwaitingResponse, ExchangeEvent::ResponseHead(Err(_))) => {
                self.close(true)
            },
            (ExchangeStage::WritingResponse, ExchangeEvent::ResponseHeadWritten(ok)) => {
                if !ok {
                    self.close(false)
                } else {
                    match self.after_response {
                        AfterResponse::Relay(t) => self.proceed(
                            ExchangeStage::RelayingBody,
                            ExchangeAction::CopyResponseBody(t),
                        ),
                        AfterResponse::Close => self.close(false),
                    }
                }
            },
            _ => self.close(false),
        }
    }
}

} // verus!

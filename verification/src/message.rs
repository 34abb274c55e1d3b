//! The message data model of the protocol and its classifier.
//!
//! A decoded payload is a bag of optional envelope fields; the
//! classifier turns it into one of the three message shapes — Request,
//! Response or Notification — or rejects it.  A Request or Response
//! always carries an identifier, a Notification never does, and a
//! Response carries exactly one of a result and an error.

use vstd::prelude::*;
use crate::json::is_value_text;

verus! {

/// The error object a failed Response carries: the peer's numeric
/// code, its message text, and optional opaque data.
pub ghost struct ErrorModel {
    pub code: int,
    pub message: Seq<u8>,
    pub data: Option<Seq<u8>>,
}

/// The envelope fields of one parsed payload.  `params`, `result` and
/// `data` hold raw value text; `method` and the error message are
/// decoded strings.
pub ghost struct PayloadModel {
    pub id: Option<int>,
    pub method: Option<Seq<u8>>,
    pub params: Option<Seq<u8>>,
    pub result: Option<Seq<u8>>,
    pub error: Option<ErrorModel>,
}

impl PayloadModel {
    /// The payload with no fields set, from which parsing starts.
    pub open spec fn empty() -> PayloadModel {
        PayloadModel { id: None, method: None, params: None, result: None, error: None }
    }
}

/// Executable counterpart of [`ErrorModel`].
pub struct ErrorInfo {
    pub code: i64,
    pub message: Vec<u8>,
    pub data: Option<Vec<u8>>,
}

/// Executable counterpart of [`PayloadModel`]: what the frame decoder
/// hands to the classifier.
pub struct Payload {
    pub id: Option<i64>,
    pub method: Option<Vec<u8>>,
    pub params: Option<Vec<u8>>,
    pub result: Option<Vec<u8>>,
    pub error: Option<ErrorInfo>,
}

/// View of an optional byte vector as an optional byte sequence.
pub open spec fn opt_bytes_view(o: Option<Vec<u8>>) -> Option<Seq<u8>> {
    match o {
        Option::None => Option::None,
        Option::Some(v) => Option::Some(v@),
    }
}

impl View for ErrorInfo {
    type V = ErrorModel;

    open spec fn view(&self) -> ErrorModel {
        ErrorModel {
            code: self.code as int,
            message: self.message@,
            data: opt_bytes_view(self.data),
        }
    }
}

impl View for Payload {
    type V = PayloadModel;

    open spec fn view(&self) -> PayloadModel {
        PayloadModel {
            id: match self.id {
                Option::None => Option::None,
                Option::Some(n) => Option::Some(n as int),
            },
            method: opt_bytes_view(self.method),
            params: opt_bytes_view(self.params),
            result: opt_bytes_view(self.result),
            error: match self.error {
                Option::None => Option::None,
                Option::Some(e) => Option::Some(e@),
            },
        }
    }
}

/// How a Response ended: the peer's result value, or its error object.
pub enum ResponseOutcome {
    Success { result: Vec<u8> },
    Failure { code: i64, message: Vec<u8>, data: Option<Vec<u8>> },
}

/// One protocol message.  Requests and Responses carry an identifier,
/// Notifications do not; `params` may be absent, as the wire allows.
pub enum Message {
    Request { id: i64, method: Vec<u8>, params: Option<Vec<u8>> },
    Response { id: i64, outcome: ResponseOutcome },
    Notification { method: Vec<u8>, params: Option<Vec<u8>> },
}

/// Ghost counterpart of [`ResponseOutcome`].
pub ghost enum OutcomeModel {
    Success { result: Seq<u8> },
    Failure { code: int, message: Seq<u8>, data: Option<Seq<u8>> },
}

/// Ghost counterpart of [`Message`].
pub ghost enum MessageModel {
    Request { id: int, method: Seq<u8>, params: Option<Seq<u8>> },
    Response { id: int, outcome: OutcomeModel },
    Notification { method: Seq<u8>, params: Option<Seq<u8>> },
}

impl View for Message {
    type V = MessageModel;

    open spec fn view(&self) -> MessageModel {
        match self {
            Message::Request { id, method, params } => MessageModel::Request {
                id: *id as int,
                method: method@,
                params: opt_bytes_view(*params),
            },
            Message::Response { id, outcome } => MessageModel::Response {
                id: *id as int,
                outcome: match outcome {
                    ResponseOutcome::Success { result } => OutcomeModel::Success {
                        result: result@,
                    },
                    ResponseOutcome::Failure { code, message, data } => OutcomeModel::Failure {
                        code: *code as int,
                        message: message@,
                        data: opt_bytes_view(*data),
                    },
                },
            },
            Message::Notification { method, params } => MessageModel::Notification {
                method: method@,
                params: opt_bytes_view(*params),
            },
        }
    }
}

/// An optional opaque text is either absent or one complete value.
pub open spec fn opt_value_text(o: Option<Seq<u8>>) -> bool {
    match o {
        Option::None => true,
        Option::Some(t) => is_value_text(t),
    }
}

impl MessageModel {
    /// Validity for encoding: every opaque text the message carries is
    /// exactly one complete JSON value.
    pub open spec fn wf(self) -> bool {
        match self {
            MessageModel::Request { params, .. } => opt_value_text(params),
            MessageModel::Response { outcome, .. } => match outcome {
                OutcomeModel::Success { result } => is_value_text(result),
                OutcomeModel::Failure { data, .. } => opt_value_text(data),
            },
            MessageModel::Notification { params, .. } => opt_value_text(params),
        }
    }
}

/// The classification rule of the protocol, on payload models: an
/// identifier and a method make a Request; a method alone makes a
/// Notification; an identifier with exactly one of result and error
/// makes a Response; anything else is no message.
pub open spec fn classify_model(p: PayloadModel) -> Option<MessageModel> {
    match p.method {
        Option::Some(m) => match p.id {
            Option::Some(id) => Option::Some(
                MessageModel::Request { id, method: m, params: p.params },
            ),
            Option::None => Option::Some(
                MessageModel::Notification { method: m, params: p.params },
            ),
        },
        Option::None => match p.id {
            Option::Some(id) => match (p.result, p.error) {
                (Option::Some(r), Option::None) => Option::Some(
                    MessageModel::Response { id, outcome: OutcomeModel::Success { result: r } },
                ),
                (Option::None, Option::Some(e)) => Option::Some(
                    MessageModel::Response {
                        id,
                        outcome: OutcomeModel::Failure {
                            code: e.code,
                            message: e.message,
                            data: e.data,
                        },
                    },
                ),
                _ => Option::None,
            },
            Option::None => Option::None,
        },
    }
}

/// The payload that carries a given message on the wire.
pub open spec fn payload_of(m: MessageModel) -> PayloadModel {
    match m {
        MessageModel::Request { id, method, params } => PayloadModel {
            id: Option::Some(id),
            method: Option::Some(method),
            params,
            result: Option::None,
            error: Option::None,
        },
        MessageModel::Notification { method, params } => PayloadModel {
            id: Option::None,
            method: Option::Some(method),
            params,
            result: Option::None,
            error: Option::None,
        },
        MessageModel::Response { id, outcome } => match outcome {
            OutcomeModel::Success { result } => PayloadModel {
                id: Option::Some(id),
                method: Option::None,
                params: Option::None,
                result: Option::Some(result),
                error: Option::None,
            },
            OutcomeModel::Failure { code, message, data } => PayloadModel {
                id: Option::Some(id),
                method: Option::None,
                params: Option::None,
                result: Option::None,
                error: Option::Some(ErrorModel { code, message, data }),
            },
        },
    }
}

/// A message's own payload classifies back to the message itself.
pub proof fn lemma_classify_payload_of(m: MessageModel)
    ensures
        classify_model(payload_of(m)) == Option::Some(m),
{
}

/// Classifies a parsed payload, or reports an unclassifiable shape as
/// `None`, which callers surface as an unexpected-message failure.
pub fn classify(p: Payload) -> (r: Option<Message>)
    ensures
        match r {
            Option::Some(m) => classify_model(p@) == Option::Some(m@),
            Option::None => classify_model(p@) is None,
        },
{
    match p.method {
        Option::Some(m) => match p.id {
            Option::Some(id) => Option::Some(
                Message::Request { id, method: m, params: p.params },
            ),
            Option::None => Option::Some(Message::Notification { method: m, params: p.params }),
        },
        Option::None => match p.id {
            Option::Some(id) => match (p.result, p.error) {
                (Option::Some(r), Option::None) => Option::Some(
                    Message::Response { id, outcome: ResponseOutcome::Success { result: r } },
                ),
                (Option::None, Option::Some(e)) => Option::Some(
                    Message::Response {
                        id,
                        outcome: ResponseOutcome::Failure {
                            code: e.code,
                            message: e.message,
                            data: e.data,
                        },
                    },
                ),
                _ => Option::None,
            },
            Option::None => Option::None,
        },
    }
}

} // verus!

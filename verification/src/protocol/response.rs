//! Responses to a client.

use vstd::prelude::*;

verus! {

/// A response with the identifier of the request that it answers. Events repeat the
/// identifier of the `init` request.
#[derive(Debug, Clone, PartialEq, Eq)]
pub struct ResponseMessage {
    pub id: String,
    pub status: ResponseStatus,
}

/// What a response says.
#[derive(Debug, Clone, PartialEq, Eq)]
pub enum ResponseStatus {
    /// An `init` or a `set` is done.
    Done,
    /// A request failed, in words.
    Error { error: ErrorPayload },
    /// A trigger target saw an edge.
    Event { event: EventPayload },
    /// The values of a `get`.
    PinValue { value: PinValuePayload },
}

/// The values of a `get`: one, or one for each target in order.
#[derive(Debug, Clone, PartialEq, Eq)]
pub enum PinValuePayload {
    Value(u8),
    Values(Vec<u8>),
}

/// An edge of a trigger target.
#[derive(Debug, Clone, PartialEq, Eq)]
pub struct EventPayload {
    pub target: String,
    pub kind: EventType,
}

/// Direction of an edge.
#[derive(Debug, Clone, Copy, PartialEq, Eq, Structural)]
pub enum EventType {
    Rising,
    Falling,
}

/// A failure in words.
pub type ErrorPayload = String;

/// A [`ResponseMessage`] in mathematical terms.
pub ghost enum ResponseModel {
    Done,
    Error(Seq<char>),
    Event(Seq<char>, EventType),
    Value(u8),
    Values(Seq<u8>),
}

impl View for ResponseStatus {
    type V = ResponseModel;

    open spec fn view(&self) -> ResponseModel {
        match *self {
            ResponseStatus::Done => ResponseModel::Done,
            ResponseStatus::Error { error } => ResponseModel::Error(error@),
            ResponseStatus::Event { event } => ResponseModel::Event(event.target@, event.kind),
            ResponseStatus::PinValue { value } => match value {
                PinValuePayload::Value(byte) => ResponseModel::Value(byte),
                PinValuePayload::Values(bytes) => ResponseModel::Values(bytes@),
            },
        }
    }
}

impl View for ResponseMessage {
    type V = (Seq<char>, ResponseModel);

    open spec fn view(&self) -> (Seq<char>, ResponseModel) {
        (self.id@, self.status@)
    }
}

impl ResponseMessage {
    /// The request is done.
    pub fn ok(id: &str) -> (response: Self)
        ensures
            response@ == (id@, ResponseModel::Done),
    {
        ResponseMessage { id: id.to_owned(), status: ResponseStatus::Done }
    }

    /// The values of a `get`.
    pub fn pin_value(id: &str, value: PinValuePayload) -> (response: Self)
        ensures
            response@ == (id@, (ResponseStatus::PinValue { value })@),
    {
        ResponseMessage { id: id.to_owned(), status: ResponseStatus::PinValue { value } }
    }

    /// An edge of a trigger target.
    pub fn event(id: &str, event: EventPayload) -> (response: Self)
        ensures
            response@ == (id@, ResponseModel::Event(event.target@, event.kind)),
    {
        ResponseMessage { id: id.to_owned(), status: ResponseStatus::Event { event } }
    }

    /// The request failed.
    pub fn error(id: &str, error: ErrorPayload) -> (response: Self)
        ensures
            response@ == (id@, ResponseModel::Error(error@)),
    {
        ResponseMessage { id: id.to_owned(), status: ResponseStatus::Error { error } }
    }
}

} // verus!

//! What makes a line a request.

use vstd::prelude::*;
use vstd::string::StringExecFns;

use crate::protocol::request::RequestMessage;
use crate::text::blank;
use crate::text::contains_char;
use crate::text::is_blank;
use crate::text::same_text;

verus! {

/// Why a line is not a request, or a response not a line.
#[derive(Debug, Clone, PartialEq, Eq)]
pub enum ProtocolError {
    InvalidFraming,
    UnknownAction(String),
    InvalidJson(String),
    Validation(String),
    Serialize(String),
}

/// A [`ProtocolError`] with its texts as character sequences.
pub ghost enum ProtocolErrorModel {
    InvalidFraming,
    UnknownAction(Seq<char>),
    InvalidJson(Seq<char>),
    Validation(Seq<char>),
    Serialize(Seq<char>),
}

impl View for ProtocolError {
    type V = ProtocolErrorModel;

    open spec fn view(&self) -> ProtocolErrorModel {
        match *self {
            ProtocolError::InvalidFraming => ProtocolErrorModel::InvalidFraming,
            ProtocolError::UnknownAction(action) => ProtocolErrorModel::UnknownAction(action@),
            ProtocolError::InvalidJson(text) => ProtocolErrorModel::InvalidJson(text@),
            ProtocolError::Validation(text) => ProtocolErrorModel::Validation(text@),
            ProtocolError::Serialize(text) => ProtocolErrorModel::Serialize(text@),
        }
    }
}

impl ProtocolErrorModel {
    /// The error in words.
    pub open spec fn text(self) -> Seq<char> {
        match self {
            ProtocolErrorModel::InvalidFraming =>
                "request line must not contain line terminators"@,
            ProtocolErrorModel::UnknownAction(action) => "request action `"@ + action
                + "` is not supported"@,
            ProtocolErrorModel::InvalidJson(text) => "invalid JSON: "@ + text,
            ProtocolErrorModel::Validation(text) => "protocol validation failed: "@ + text,
            ProtocolErrorModel::Serialize(text) => "protocol serialization failed: "@ + text,
        }
    }
}

impl ProtocolError {
    /// The error in words.
    pub fn message(&self) -> (message: String)
        ensures
            message@ == self@.text(),
    {
        match self {
            ProtocolError::InvalidFraming =>
                "request line must not contain line terminators".to_owned(),
            ProtocolError::UnknownAction(action) => "request action `".to_owned().concat(
                action.as_str(),
            ).concat("` is not supported"),
            ProtocolError::InvalidJson(text) => "invalid JSON: ".to_owned().concat(text.as_str()),
            ProtocolError::Validation(text) => "protocol validation failed: ".to_owned().concat(
                text.as_str(),
            ),
            ProtocolError::Serialize(text) => "protocol serialization failed: ".to_owned().concat(
                text.as_str(),
            ),
        }
    }
}

/// What every request starts with.
#[derive(Debug, Clone, PartialEq, Eq)]
pub struct RequestEnvelope {
    pub id: String,
    pub action: String,
}

/// The actions that requests can name.
pub open spec fn known_action(action: Seq<char>) -> bool {
    action == "init"@ || action == "get"@ || action == "set"@
}

/// Why a line with this envelope is not a request, as far as line and envelope tell: the line
/// is one line, the envelope can be read, the identifier is more than whitespace and the
/// action is known.
pub open spec fn envelope_fault(
    line: Seq<char>,
    envelope: Result<(Seq<char>, Seq<char>), Seq<char>>,
) -> Option<ProtocolErrorModel> {
    if line.contains('\n') || line.contains('\r') {
        Some(ProtocolErrorModel::InvalidFraming)
    } else {
        match envelope {
            Err(error) => Some(ProtocolErrorModel::InvalidJson(error)),
            Ok((id, action)) => if blank(id) {
                Some(ProtocolErrorModel::Validation("request id must not be empty"@))
            } else if !known_action(action) {
                Some(ProtocolErrorModel::UnknownAction(action))
            } else {
                None
            },
        }
    }
}

/// The view of what reading an envelope gave.
pub open spec fn envelope_model(envelope: Result<RequestEnvelope, String>) -> Result<
    (Seq<char>, Seq<char>),
    Seq<char>,
> {
    match envelope {
        Ok(envelope) => Ok((envelope.id@, envelope.action@)),
        Err(error) => Err(error@),
    }
}

/// Checks that a line is one line.
pub fn check_framing(line: &str) -> (result: Result<(), ProtocolError>)
    ensures
        match result {
            Ok(_) => !line@.contains('\n') && !line@.contains('\r'),
            Err(error) => (line@.contains('\n') || line@.contains('\r')) && error@
                == ProtocolErrorModel::InvalidFraming,
        },
{
    if contains_char(line, '\n') || contains_char(line, '\r') {
        Err(ProtocolError::InvalidFraming)
    } else {
        Ok(())
    }
}

/// Accepts a line as a request, given what reading its envelope and its whole as JSON gave.
pub fn parse_request_line(
    line: &str,
    envelope: Result<RequestEnvelope, String>,
    request: Result<RequestMessage, String>,
) -> (result: Result<RequestMessage, ProtocolError>)
    ensures
        match envelope_fault(line@, envelope_model(envelope)) {
            Some(fault) => result matches Err(error) && error@ == fault,
            None => match request {
                Ok(message) => result == Ok::<RequestMessage, ProtocolError>(message),
                Err(error) => result matches Err(found) && found@
                    == ProtocolErrorModel::InvalidJson(error@),
            },
        },
{
    match check_framing(line) {
        Ok(_) => {},
        Err(error) => return Err(error),
    }
    let envelope = match envelope {
        Ok(envelope) => envelope,
        Err(error) => return Err(ProtocolError::InvalidJson(error)),
    };
    if is_blank(envelope.id.as_str()) {
        return Err(ProtocolError::Validation("request id must not be empty".to_owned()));
    }
    let action = envelope.action.as_str();
    if !(same_text(action, "init") || same_text(action, "get") || same_text(action, "set")) {
        return Err(ProtocolError::UnknownAction(envelope.action.clone()));
    }
    match request {
        Ok(message) => Ok(message),
        Err(error) => Err(ProtocolError::InvalidJson(error)),
    }
}

} // verus!

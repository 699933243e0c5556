//! What can go wrong on a connection.

use vstd::prelude::*;
use vstd::string::StringExecFns;

use crate::protocol::line::ProtocolError;
use crate::protocol::line::ProtocolErrorModel;

verus! {

/// Where the service listens.
#[derive(Debug, Clone, PartialEq, Eq)]
pub struct ServerConfig {
    pub socket_path: String,
}

/// Why a connection fails.
#[derive(Debug, Clone, PartialEq, Eq)]
pub enum UdsConnectionError {
    Protocol(ProtocolError),
    Io(String),
    Transport(String),
}

/// A [`UdsConnectionError`] with its texts as character sequences.
pub ghost enum UdsConnectionErrorModel {
    Protocol(ProtocolErrorModel),
    Io(Seq<char>),
    Transport(Seq<char>),
}

impl View for UdsConnectionError {
    type V = UdsConnectionErrorModel;

    open spec fn view(&self) -> UdsConnectionErrorModel {
        match *self {
            UdsConnectionError::Protocol(error) => UdsConnectionErrorModel::Protocol(error@),
            UdsConnectionError::Io(text) => UdsConnectionErrorModel::Io(text@),
            UdsConnectionError::Transport(text) => UdsConnectionErrorModel::Transport(text@),
        }
    }
}

impl UdsConnectionErrorModel {
    /// The error in words.
    pub open spec fn text(self) -> Seq<char> {
        match self {
            UdsConnectionErrorModel::Protocol(error) => error.text(),
            UdsConnectionErrorModel::Io(text) => text,
            UdsConnectionErrorModel::Transport(text) => "transport error: "@ + text,
        }
    }
}

/// Errors of a connection, told apart by what a session does about them.
pub trait ConnectionError {
    /// The error in words.
    spec fn words(&self) -> Seq<char>;

    /// The client broke the protocol.
    spec fn protocol_fault(&self) -> bool;

    /// The connection failed otherwise.
    spec fn transport_fault(&self) -> bool;

    /// The failure of reading or writing in words, where it is one.
    spec fn io_fault(&self) -> Option<Seq<char>>;

    /// The error in words.
    fn message(&self) -> (message: String)
        ensures
            message@ == self.words(),
    ;

    /// Whether the client broke the protocol.
    fn is_protocol_error(&self) -> (result: bool)
        ensures
            result == self.protocol_fault(),
    ;

    /// Whether the connection failed otherwise.
    fn is_transport_error(&self) -> (result: bool)
        ensures
            result == self.transport_fault(),
    ;

    /// The failure of reading or writing, or the error itself where it is another.
    fn try_into_io_error(self) -> (result: Result<String, Self>) where Self: Sized
        ensures
            match result {
                Ok(text) => self.io_fault() == Some(text@),
                Err(error) => self.io_fault() is None && error == self,
            },
    ;
}

impl ConnectionError for UdsConnectionError {
    open spec fn words(&self) -> Seq<char> {
        self@.text()
    }

    open spec fn protocol_fault(&self) -> bool {
        self@ is Protocol
    }

    open spec fn transport_fault(&self) -> bool {
        !(self@ is Protocol)
    }

    open spec fn io_fault(&self) -> Option<Seq<char>> {
        match self@ {
            UdsConnectionErrorModel::Io(text) => Some(text),
            _ => None,
        }
    }

    fn message(&self) -> (message: String) {
        match self {
            UdsConnectionError::Protocol(error) => error.message(),
            UdsConnectionError::Io(text) => text.clone(),
            UdsConnectionError::Transport(text) => "transport error: ".to_owned().concat(
                text.as_str(),
            ),
        }
    }

    fn is_protocol_error(&self) -> (result: bool) {
        match self {
            UdsConnectionError::Protocol(_) => true,
            _ => false,
        }
    }

    fn is_transport_error(&self) -> (result: bool) {
        !self.is_protocol_error()
    }

    fn try_into_io_error(self) -> (result: Result<String, Self>) {
        match self {
            UdsConnectionError::Io(text) => Ok(text),
            other => Err(other),
        }
    }
}

/// What can go wrong when a connection is cut into lines.
#[derive(Debug, Clone, PartialEq, Eq)]
pub enum LineFault {
    TooLong,
    Io(String),
}

/// A fault of cutting into lines, as an error of the connection.
pub fn map_lines_codec_error(fault: LineFault) -> (error: UdsConnectionError)
    ensures
        error@ == (match fault {
            LineFault::TooLong => UdsConnectionErrorModel::Transport("maximum line length exceeded"@),
            LineFault::Io(text) => UdsConnectionErrorModel::Io(text@),
        }),
{
    match fault {
        LineFault::TooLong => UdsConnectionError::Transport("maximum line length exceeded".to_owned()),
        LineFault::Io(text) => UdsConnectionError::Io(text),
    }
}

/// A connection in words, by the paths of its two ends where they have any.
pub fn describe_connection(local: Option<String>, peer: Option<String>) -> (text: String)
    ensures
        text@ == "uds local="@ + path_or_unnamed(local) + " peer="@ + path_or_unnamed(peer),
{
    let local = match local {
        Some(path) => path,
        None => "unnamed".to_owned(),
    };
    let peer = match peer {
        Some(path) => path,
        None => "unnamed".to_owned(),
    };
    "uds local=".to_owned().concat(local.as_str()).concat(" peer=").concat(peer.as_str())
}

/// The path of an end of a connection, or that it has none.
pub open spec fn path_or_unnamed(path: Option<String>) -> Seq<char> {
    match path {
        Some(path) => path@,
        None => "unnamed"@,
    }
}

} // verus!

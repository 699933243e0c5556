//! Commands to a session.

use vstd::prelude::*;

use crate::protocol::request::RequestMessage;

verus! {

/// What a session is told from outside.
#[derive(Debug, PartialEq, Eq)]
pub enum ReactorCommand {
    /// The client sent a request.
    InboundRequest(RequestMessage),
    /// A chip has edge events.
    GpioReady { chip_index: u32 },
    /// A step of a sequence is due.
    ScheduledWake { token: u64 },
    /// The client went away.
    TransportClosed,
    /// The service shuts down.
    Shutdown,
}

impl ReactorCommand {
    /// Whether the session goes on after the command.
    pub fn keeps_session(&self) -> (keeps: bool)
        ensures
            keeps == !(self is TransportClosed || self is Shutdown),
    {
        match self {
            ReactorCommand::TransportClosed => false,
            ReactorCommand::Shutdown => false,
            _ => true,
        }
    }
}

} // verus!

//! What holds of the words that events and schedules are kept in, and of connections.

use vstd::prelude::*;

use crate::cluster::schedule::generation;
use crate::cluster::schedule::runs;
use crate::gpio::sys::convert::failed_call;
use crate::system_event::next_sequence;
use crate::system_event::word_code;
use crate::system_event::word_sequence;
use crate::transport::path_or_unnamed;
use crate::transport::ConnectionError;
use crate::transport::UdsConnectionError;

verus! {

/// A word of events is made up of its sequence number, in the upper half, and its code, in the
/// lower half. Sequence numbers go up by one and start again behind the last.
pub proof fn event_words_are_sequence_and_code(word: u64, sequence: u32)
    ensures
        word == word_sequence(word) as int * 0x1_0000_0000 + word_code(word),
        word_code(word) < 0x1_0000_0000,
        sequence < u32::MAX ==> next_sequence(sequence) == sequence + 1,
        next_sequence(u32::MAX) == 0,
{
}

/// The word of a schedule is made up of its generation and of one bit that says whether it
/// runs.
pub proof fn schedule_words_are_generation_and_bit(word: u64)
    ensures
        runs(word) ==> word == 2 * generation(word) + 1,
        !runs(word) ==> word == 2 * generation(word),
{
}

/// An error of a connection is one of the protocol or one of the transport; only a failure of
/// reading or writing can be handed on as such.
pub proof fn connection_errors_are_told_apart(error: UdsConnectionError)
    ensures
        error.protocol_fault() <==> error is Protocol,
        error.transport_fault() <==> error is Io || error is Transport,
        match error {
            UdsConnectionError::Io(text) => error.io_fault() == Some(text@),
            _ => error.io_fault() is None,
        },
{
}

/// An end of a connection is told by its path, or as unnamed; a failed call is told with what
/// was called and why it failed.
pub proof fn ends_and_calls_are_told(path: String, context: Seq<char>, cause: Seq<char>)
    ensures
        path_or_unnamed(Some(path)) == path@,
        path_or_unnamed(None) == "unnamed"@,
        failed_call(context, cause).text() == context + ": "@ + cause,
{
}

} // verus!

//! Events for the whole process, packed into one word: a sequence number above a code.

use vstd::prelude::*;

verus! {

/// No event.
pub const NO_EVENT: u64 = 0;

/// The process is to shut down.
pub const SHUTDOWN: u64 = 1;

/// The sequence number of a word.
pub open spec fn word_sequence(word: u64) -> u32 {
    (word / 0x1_0000_0000) as u32
}

/// The code of a word.
pub open spec fn word_code(word: u64) -> u64 {
    word % 0x1_0000_0000
}

/// The number behind a sequence number.
pub open spec fn next_sequence(sequence: u32) -> u32 {
    if sequence == u32::MAX {
        0
    } else {
        (sequence + 1) as u32
    }
}

/// The word of the next event. Only the low half of the code is kept.
pub fn emitted(word: u64, code: u64) -> (next: u64)
    ensures
        word_sequence(next) == next_sequence(word_sequence(word)),
        word_code(next) == word_code(code),
{
    let low: u64 = code & 0xFFFF_FFFF;
    let sequence: u64 = word >> 32;
    let counted: u64 = sequence.wrapping_add(1);
    let next: u64 = (counted << 32) | low;
    proof {
        assert(word >> 32 == word / 0x1_0000_0000 && word >> 32 <= 0xFFFF_FFFF) by (bit_vector);
        assert(code & 0xFFFF_FFFF == code % 0x1_0000_0000) by (bit_vector);
        assert(counted == sequence + 1);
        assert(((counted << 32) | low) / 0x1_0000_0000 == if counted == 0x1_0000_0000 {
            0u64
        } else {
            counted
        }) by (bit_vector)
            requires
                counted <= 0x1_0000_0000,
                low <= 0xFFFF_FFFF,
        ;
        assert(((counted << 32) | low) % 0x1_0000_0000 == low) by (bit_vector)
            requires
                low <= 0xFFFF_FFFF,
        ;
    }
    next
}

/// The code of the latest event.
pub fn current(word: u64) -> (code: u64)
    ensures
        code == word_code(word),
{
    assert(word & 0xFFFF_FFFF == word % 0x1_0000_0000) by (bit_vector);
    word & 0xFFFF_FFFF
}

/// The event of a word, unless it was seen before: its sequence number and its code.
pub fn observed(word: u64, seen: u32) -> (event: Option<(u32, u64)>)
    ensures
        match event {
            Some((sequence, code)) => {
                &&& sequence == word_sequence(word)
                &&& code == word_code(word)
                &&& sequence != seen
                &&& code != NO_EVENT
            },
            None => word_sequence(word) == seen || word_code(word) == NO_EVENT,
        },
{
    assert(word >> 32 == word / 0x1_0000_0000 && word >> 32 <= 0xFFFF_FFFF) by (bit_vector);
    let sequence: u32 = (word >> 32) as u32;
    let code: u64 = current(word);
    if sequence != seen && code != NO_EVENT {
        Some((sequence, code))
    } else {
        None
    }
}

/// Whoever has seen the event before sees the next one, whatever its code.
pub proof fn next_event_is_seen(word: u64, next: u64)
    requires
        word_sequence(next) == next_sequence(word_sequence(word)),
    ensures
        word_sequence(next) != word_sequence(word),
{
}

} // verus!

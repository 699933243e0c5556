//! The word that says whether a schedule runs, and how often it has been stopped.

use vstd::prelude::*;

verus! {

/// The bit that is set while the schedule runs.
pub const ENABLED_MASK: u64 = 1;

/// What one generation adds to the word.
pub const GENERATION_INC: u64 = 2;

/// Whether the schedule runs.
pub open spec fn runs(word: u64) -> bool {
    word % 2 == 1
}

/// How often the schedule has been stopped.
pub open spec fn generation(word: u64) -> u64 {
    word / 2
}

/// Whether the schedule runs.
pub fn enabled(word: u64) -> (result: bool)
    ensures
        result == runs(word),
{
    proof {
        assert((word & 1 != 0) == (word % 2 == 1)) by (bit_vector);
    }
    word & ENABLED_MASK != 0
}

/// How often the schedule has been stopped.
pub fn generation_of(word: u64) -> (result: u64)
    ensures
        result == generation(word),
{
    word / 2
}

/// The word once the schedule runs; its generation stays. Nothing is to be done where it
/// runs already.
pub fn enable(word: u64) -> (next: Option<u64>)
    ensures
        next is None <==> runs(word),
        next matches Some(next) ==> runs(next) && generation(next) == generation(word),
{
    if enabled(word) {
        return None;
    }
    proof {
        assert(word % 2 == 0 ==> (word | 1) % 2 == 1 && (word | 1) / 2 == word / 2) by (bit_vector);
    }
    Some(word | ENABLED_MASK)
}

/// The word once the schedule is stopped; its generation goes up by one and starts again
/// behind the last. Nothing is to be done where it does not run.
pub fn disable(word: u64) -> (next: Option<u64>)
    ensures
        next is None <==> !runs(word),
        next matches Some(next) ==> !runs(next) && generation(next) == if generation(word)
            == u64::MAX / 2 {
            0
        } else {
            (generation(word) + 1) as u64
        },
{
    if !enabled(word) {
        return None;
    }
    proof {
        assert(word % 2 == 1 ==> (word & !1u64) == word - 1) by (bit_vector);
    }
    Some((word & !ENABLED_MASK).wrapping_add(GENERATION_INC))
}

/// What a wait does next.
#[derive(Debug, Clone, Copy, PartialEq, Eq, Structural)]
pub enum WaitStep {
    /// The schedule is stopped: the wait ends.
    Stopped,
    /// The word changed while the wait was prepared: look again.
    Again,
    /// Sleep until the time comes or the schedule is stopped.
    Sleep,
}

/// What a wait does next, given the word before and after it was prepared.
pub fn wait_step(before: u64, after: u64) -> (step: WaitStep)
    ensures
        step == if !runs(before) {
            WaitStep::Stopped
        } else if !runs(after) || generation(after) != generation(before) {
            WaitStep::Again
        } else {
            WaitStep::Sleep
        },
{
    if !enabled(before) {
        WaitStep::Stopped
    } else if !enabled(after) || generation_of(after) != generation_of(before) {
        WaitStep::Again
    } else {
        WaitStep::Sleep
    }
}

} // verus!

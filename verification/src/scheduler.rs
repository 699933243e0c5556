//! States of a schedule.

use vstd::prelude::*;

verus! {

/// Where a schedule stands.
#[derive(Debug, Clone, Copy, PartialEq, Eq, Structural)]
pub enum ScheduleState {
    Idle,
    Running,
    Cancelled,
    Completed,
}

} // verus!

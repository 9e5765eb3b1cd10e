use vstd::prelude::*;

verus! {

/// Nanoseconds in one second.
pub const NANOS_PER_SECOND: u64 = 1_000_000_000;

/// The time one frame may take at `target_fps` frames per second; a rate of
/// zero counts as one frame per second.
pub open spec fn budget_for(target_fps: u32) -> int {
    if target_fps == 0 {
        NANOS_PER_SECOND as int
    } else {
        NANOS_PER_SECOND as int / target_fps as int
    }
}

/// Paces the render loop to a target frame rate.
pub struct FrameScheduler {
    frame_budget: u64,
}

impl FrameScheduler {
    pub closed spec fn budget(&self) -> int {
        self.frame_budget as int
    }

    pub fn new(target_fps: u32) -> (r: Self)
        ensures
            r.budget() == budget_for(target_fps),
    {
        let safe_fps: u64 = if target_fps == 0 { 1 } else { target_fps as u64 };
        FrameScheduler { frame_budget: NANOS_PER_SECOND / safe_fps }
    }

    /// The frame budget, in nanoseconds.
    pub fn frame_budget(&self) -> (r: u64)
        ensures
            r == self.budget(),
    {
        self.frame_budget
    }

    /// How long to sleep after a frame that took `spent` nanoseconds: the rest
    /// of the budget, or nothing when the frame overran it.
    pub fn remaining_after(&self, spent: u64) -> (r: u64)
        ensures
            spent < self.budget() ==> r == self.budget() - spent,
            spent >= self.budget() ==> r == 0,
    {
        if spent < self.frame_budget {
            self.frame_budget - spent
        } else {
            0
        }
    }
}

/// A frame rate of zero paces like a rate of one, and every positive rate `f`
/// gets a budget of exactly `1_000_000_000 / f` nanoseconds.
pub proof fn lemma_frame_budget(f: u32)
    ensures
        f >= 1 ==> budget_for(f) == 1_000_000_000int / (f as int),
        budget_for(0) == budget_for(1),
        budget_for(f) <= NANOS_PER_SECOND,
{
}

} // verus!

//! Frame and score counters behind the daemon's status report.
//!
//! The counters wrap around at `u64::MAX`, as an atomic `fetch_add` does.
//! Rates per second need a clock and live with the caller.

use vstd::prelude::*;

verus! {

/// `x + 1`, wrapping to 0 past `u64::MAX`.
pub open spec fn wrapping_inc(x: u64) -> u64 {
    if x == u64::MAX { 0 } else { (x + 1) as u64 }
}

/// Capture counters: frames handed to the pipeline and frames dropped
/// because the pipeline was full or gone.
#[derive(Debug)]
pub struct AudioStats {
    frames_emitted: u64,
    frames_dropped: u64,
}

impl AudioStats {
    pub closed spec fn emitted_spec(&self) -> u64 {
        self.frames_emitted
    }

    pub closed spec fn dropped_spec(&self) -> u64 {
        self.frames_dropped
    }

    /// Both counters at zero.
    pub fn new() -> (s: Self)
        ensures
            s.emitted_spec() == 0,
            s.dropped_spec() == 0,
    {
        AudioStats { frames_emitted: 0, frames_dropped: 0 }
    }

    pub fn frames_emitted(&self) -> (n: u64)
        ensures
            n == self.emitted_spec(),
    {
        self.frames_emitted
    }

    pub fn frames_dropped(&self) -> (n: u64)
        ensures
            n == self.dropped_spec(),
    {
        self.frames_dropped
    }

    /// Count one frame handed on.
    pub fn record_frame(&mut self)
        ensures
            final(self).emitted_spec() == wrapping_inc(old(self).emitted_spec()),
            final(self).dropped_spec() == old(self).dropped_spec(),
    {
        self.frames_emitted = self.frames_emitted.wrapping_add(1);
    }

    /// Count one frame dropped.
    pub fn record_drop(&mut self)
        ensures
            final(self).dropped_spec() == wrapping_inc(old(self).dropped_spec()),
            final(self).emitted_spec() == old(self).emitted_spec(),
    {
        self.frames_dropped = self.frames_dropped.wrapping_add(1);
    }
}

/// Inference counter: score vectors produced.
#[derive(Debug)]
pub struct InferenceStats {
    scores_emitted: u64,
}

impl InferenceStats {
    pub closed spec fn scores_spec(&self) -> u64 {
        self.scores_emitted
    }

    /// The counter at zero.
    pub fn new() -> (s: Self)
        ensures
            s.scores_spec() == 0,
    {
        InferenceStats { scores_emitted: 0 }
    }

    pub fn scores_emitted(&self) -> (n: u64)
        ensures
            n == self.scores_spec(),
    {
        self.scores_emitted
    }

    /// Count one score vector.
    pub fn record_score(&mut self)
        ensures
            final(self).scores_spec() == wrapping_inc(old(self).scores_spec()),
    {
        self.scores_emitted = self.scores_emitted.wrapping_add(1);
    }
}

} // verus!

//! Per-wakeword detection state machine.
//!
//! A detector fires only on a rising edge (the score was below its
//! threshold on the previous update and is at or above it now), only while
//! enabled, and only when its cooldown has run out since the previous
//! fire. Time is the elapsed time of the pipeline that feeds it, in
//! nanoseconds, so file replays get the same cooldown semantics as the
//! live microphone. Comparing the score with the threshold is left to the
//! caller, which hands over the outcome as `above`; the threshold itself
//! is carried along untouched.

use vstd::prelude::*;

verus! {

/// The part of a detector that decides whether it fires.
pub struct DetectorState {
    pub enabled: bool,
    pub cooldown_ns: u128,
    pub was_above: bool,
    pub last_fire_ns: Option<u128>,
}

/// `a - b`, or zero when `b > a` (`Duration::saturating_sub`).
pub open spec fn saturating_sub(a: u128, b: u128) -> u128 {
    if a >= b { (a - b) as u128 } else { 0 }
}

/// Whether the cooldown since the previous fire (if any) has run out at `now`.
pub open spec fn cooldown_elapsed(last: Option<u128>, cooldown_ns: u128, now: u128) -> bool {
    match last {
        None => true,
        Some(l) => saturating_sub(now, l) >= cooldown_ns,
    }
}

/// One update: the next state and whether the detector fired.
pub open spec fn detector_step(s: DetectorState, above: bool, now: u128) -> (DetectorState, bool) {
    if !s.enabled {
        (DetectorState { was_above: false, ..s }, false)
    } else {
        let rising = above && !s.was_above;
        if rising && cooldown_elapsed(s.last_fire_ns, s.cooldown_ns, now) {
            (DetectorState { was_above: above, last_fire_ns: Some(now), ..s }, true)
        } else {
            (DetectorState { was_above: above, ..s }, false)
        }
    }
}

/// Microseconds of `now` (nanoseconds), saturated to `u64`
/// (`Duration::as_micros` followed by `u64::try_from(..).unwrap_or(MAX)`).
pub open spec fn micros_of(now_ns: u128) -> u64 {
    if now_ns / 1000 > u64::MAX as u128 { u64::MAX } else { (now_ns / 1000) as u64 }
}

/// Times of the fires produced by feeding `inputs` (`(above, now)`) to a
/// detector that starts in state `s`.
pub open spec fn fire_times(s: DetectorState, inputs: Seq<(bool, u128)>) -> Seq<u128>
    decreases inputs.len(),
{
    if inputs.len() == 0 {
        Seq::empty()
    } else {
        let (next, fired) = detector_step(s, inputs[0].0, inputs[0].1);
        let rest = fire_times(next, inputs.drop_first());
        if fired { seq![inputs[0].1] + rest } else { rest }
    }
}

/// A wakeword detector. `Th` is the threshold the caller compares scores
/// against; the detector only stores it.
#[derive(Debug)]
pub struct Detector<Th> {
    pub name: String,
    pub threshold: Th,
    pub cooldown_ns: u128,
    pub enabled: bool,
    was_above: bool,
    last_fire_ns: Option<u128>,
}

impl<Th> Detector<Th> {
    pub closed spec fn name_spec(&self) -> String {
        self.name
    }

    pub closed spec fn threshold_spec(&self) -> Th {
        self.threshold
    }

    pub closed spec fn state(&self) -> DetectorState {
        DetectorState {
            enabled: self.enabled,
            cooldown_ns: self.cooldown_ns,
            was_above: self.was_above,
            last_fire_ns: self.last_fire_ns,
        }
    }

    /// The detector [`Detector::new`] builds.
    pub closed spec fn fresh(name: String, threshold: Th, cooldown_ms: u32, enabled: bool) -> Self {
        Detector {
            name,
            threshold,
            cooldown_ns: (cooldown_ms as u128 * 1000000) as u128,
            enabled,
            was_above: false,
            last_fire_ns: None,
        }
    }

    /// This detector with new settings and its detection state kept.
    pub closed spec fn retuned(self, threshold: Th, cooldown_ms: u32, enabled: bool) -> Self {
        Detector {
            threshold,
            cooldown_ns: (cooldown_ms as u128 * 1000000) as u128,
            enabled,
            ..self
        }
    }

    /// What [`Detector::fresh`] and [`Detector::retuned`] give, in terms
    /// of the detector's name, threshold and state.
    pub proof fn lemma_settings(self, name: String, threshold: Th, cooldown_ms: u32, enabled: bool)
        ensures
            Self::fresh(name, threshold, cooldown_ms, enabled).name_spec() == name,
            Self::fresh(name, threshold, cooldown_ms, enabled).threshold_spec() == threshold,
            Self::fresh(name, threshold, cooldown_ms, enabled).state() == (DetectorState {
                enabled,
                cooldown_ns: (cooldown_ms as u128 * 1000000) as u128,
                was_above: false,
                last_fire_ns: None,
            }),
            self.retuned(threshold, cooldown_ms, enabled).name_spec() == self.name_spec(),
            self.retuned(threshold, cooldown_ms, enabled).threshold_spec() == threshold,
            self.retuned(threshold, cooldown_ms, enabled).state() == (DetectorState {
                enabled,
                cooldown_ns: (cooldown_ms as u128 * 1000000) as u128,
                ..self.state()
            }),
    {
    }

    /// Take new settings, keeping the detection state (whether the score
    /// was above threshold, when it last fired).
    pub fn retune(&mut self, threshold: Th, cooldown_ms: u32, enabled: bool)
        ensures
            *final(self) == old(self).retuned(threshold, cooldown_ms, enabled),
    {
        self.threshold = threshold;
        self.cooldown_ns = cooldown_ms as u128 * 1000000;
        self.enabled = enabled;
    }

    /// A fresh detector: not above threshold, never fired.
    pub fn new(name: String, threshold: Th, cooldown_ms: u32, enabled: bool) -> (d: Self)
        ensures
            d == Self::fresh(name, threshold, cooldown_ms, enabled),
            d.name_spec() == name,
            d.threshold_spec() == threshold,
            d.state() == (DetectorState {
                enabled,
                cooldown_ns: (cooldown_ms as u128 * 1000000) as u128,
                was_above: false,
                last_fire_ns: None,
            }),
    {
        Detector {
            name,
            threshold,
            cooldown_ns: cooldown_ms as u128 * 1000000,
            enabled,
            was_above: false,
            last_fire_ns: None,
        }
    }

    /// Set the cooldown from milliseconds.
    pub fn set_cooldown_ms(&mut self, ms: u32)
        ensures
            final(self).name_spec() == old(self).name_spec(),
            final(self).threshold_spec() == old(self).threshold_spec(),
            final(self).state() == (DetectorState { cooldown_ns: (ms as u128 * 1000000) as u128, ..old(self).state() }),
    {
        self.cooldown_ns = ms as u128 * 1000000;
    }

    /// Replace the threshold.
    pub fn set_threshold(&mut self, threshold: Th)
        ensures
            final(self).name_spec() == old(self).name_spec(),
            final(self).threshold_spec() == threshold,
            final(self).state() == old(self).state(),
    {
        self.threshold = threshold;
    }

    /// The detector's name.
    pub fn name(&self) -> (n: &String)
        ensures
            *n == self.name_spec(),
    {
        &self.name
    }

    /// Enable or disable the detector.
    pub fn set_enabled(&mut self, enabled: bool)
        ensures
            final(self).name_spec() == old(self).name_spec(),
            final(self).threshold_spec() == old(self).threshold_spec(),
            final(self).state() == (DetectorState { enabled, ..old(self).state() }),
    {
        self.enabled = enabled;
    }

    /// Feed one score outcome at elapsed time `now_ns`. Returns the
    /// detection's timestamp (elapsed microseconds) iff the detector fired.
    pub fn update(&mut self, above: bool, now_ns: u128) -> (r: Option<u64>)
        ensures
            final(self).name_spec() == old(self).name_spec(),
            final(self).threshold_spec() == old(self).threshold_spec(),
            (final(self).state(), r is Some) == detector_step(old(self).state(), above, now_ns),
            r is Some ==> r == Some(micros_of(now_ns)),
    {
        if !self.enabled {
            self.was_above = false;
            return None;
        }
        let rising = above && !self.was_above;
        self.was_above = above;
        if !rising {
            return None;
        }
        if let Some(last) = self.last_fire_ns {
            let since = if now_ns >= last { now_ns - last } else { 0 };
            if since < self.cooldown_ns {
                return None;
            }
        }
        self.last_fire_ns = Some(now_ns);
        let micros = now_ns / 1000;
        if micros > u64::MAX as u128 {
            Some(u64::MAX)
        } else {
            Some(micros as u64)
        }
    }
}

/// A disabled detector never fires, whatever it is fed.
pub proof fn law_disabled_never_fires(s: DetectorState, inputs: Seq<(bool, u128)>)
    requires
        !s.enabled,
    ensures
        fire_times(s, inputs).len() == 0,
    decreases inputs.len(),
{
    if inputs.len() > 0 {
        let (next, fired) = detector_step(s, inputs[0].0, inputs[0].1);
        law_disabled_never_fires(next, inputs.drop_first());
    }
}

/// A detector fires only on a rising edge: the score was below threshold
/// at the previous update and is at or above it now.
pub proof fn law_fires_only_on_rising_edge(s: DetectorState, above: bool, now: u128)
    ensures
        detector_step(s, above, now).1 ==> above && !s.was_above && s.enabled,
{
}

/// A score that stays above threshold fires at most once: after any
/// update with `above`, a second update with `above` does not fire.
pub proof fn law_staying_above_fires_once(s: DetectorState, t1: u128, t2: u128)
    ensures
        !detector_step(detector_step(s, true, t1).0, true, t2).1,
{
}

proof fn lemma_first_fire_after_cooldown(s: DetectorState, inputs: Seq<(bool, u128)>)
    requires
        s.last_fire_ns is Some,
        fire_times(s, inputs).len() > 0,
    ensures
        saturating_sub(fire_times(s, inputs)[0], s.last_fire_ns.unwrap()) >= s.cooldown_ns,
    decreases inputs.len(),
{
    let (next, fired) = detector_step(s, inputs[0].0, inputs[0].1);
    if !fired {
        lemma_first_fire_after_cooldown(next, inputs.drop_first());
    }
}

/// Fires respect the cooldown: in any sequence of updates, each fire
/// comes at least the cooldown after the previous fire (measured with the
/// saturating difference the detector uses), and the first one at least
/// the cooldown after any fire recorded before the sequence.
pub proof fn law_fires_respect_cooldown(s: DetectorState, inputs: Seq<(bool, u128)>)
    ensures
        forall|i: int| 0 <= i < fire_times(s, inputs).len() - 1 ==>
            saturating_sub(#[trigger] fire_times(s, inputs)[i + 1], fire_times(s, inputs)[i]) >= s.cooldown_ns,
        s.last_fire_ns is Some && fire_times(s, inputs).len() > 0 ==>
            saturating_sub(fire_times(s, inputs)[0], s.last_fire_ns.unwrap()) >= s.cooldown_ns,
    decreases inputs.len(),
{
    if fire_times(s, inputs).len() > 0 && s.last_fire_ns is Some {
        lemma_first_fire_after_cooldown(s, inputs);
    }
    if inputs.len() > 0 {
        let (next, fired) = detector_step(s, inputs[0].0, inputs[0].1);
        let rest = fire_times(next, inputs.drop_first());
        law_fires_respect_cooldown(next, inputs.drop_first());
        assert(next.cooldown_ns == s.cooldown_ns);
        if fired {
            assert(next.last_fire_ns == Some(inputs[0].1));
            let all = fire_times(s, inputs);
            assert(all == seq![inputs[0].1] + rest);
            assert forall|i: int| 0 <= i < all.len() - 1 implies
                saturating_sub(#[trigger] all[i + 1], all[i]) >= s.cooldown_ns by {
                if i == 0 {
                    assert(all[0] == inputs[0].1);
                    assert(all[1] == rest[0]);
                    assert(saturating_sub(rest[0], next.last_fire_ns.unwrap()) >= next.cooldown_ns);
                } else {
                    let j = i - 1;
                    assert(all[i] == rest[j]);
                    assert(all[i + 1] == rest[j + 1]);
                    assert(saturating_sub(rest[j + 1], rest[j]) >= next.cooldown_ns);
                }
            }
        }
    }
}

} // verus!

//! One inference step of the detection pipeline: every detector takes the
//! outcome of its classifier for the frame, and score snapshots go out at
//! most every 200 ms.

use vstd::prelude::*;

use crate::detector::{detector_step, micros_of, Detector};
use crate::reload::lists_exactly;

verus! {

/// Minimum time between two score snapshots (200 ms).
pub const SCORE_SNAPSHOT_INTERVAL_NS: u128 = 200000000;

/// A snapshot is due when none was sent yet, or at least the interval has
/// passed since the last one (an earlier `now` counts as no time passed).
pub open spec fn snapshot_due_spec(last: Option<u128>, now: u128) -> bool {
    match last {
        None => true,
        Some(t) => (if now >= t { now - t } else { 0 }) >= SCORE_SNAPSHOT_INTERVAL_NS,
    }
}

/// Whether a score snapshot is due at `now` (nanoseconds).
pub fn snapshot_due(last: Option<u128>, now: u128) -> (b: bool)
    ensures
        b == snapshot_due_spec(last, now),
{
    match last {
        None => true,
        Some(t) => {
            let since = if now >= t { now - t } else { 0 };
            since >= SCORE_SNAPSHOT_INTERVAL_NS
        },
    }
}

/// What a frame produced.
#[derive(Debug)]
pub struct FrameOutcome {
    /// The detectors that fired, by index, each with its timestamp in
    /// microseconds.
    pub fired: Vec<(usize, u64)>,
    /// Whether this frame's scores go out as a snapshot.
    pub snapshot: bool,
}

/// Detector `k` fires when stepped with its outcome for the frame.
pub open spec fn fires_at<Th>(ds: Seq<Detector<Th>>, above: Seq<bool>, now: u128) -> spec_fn(int) -> bool {
    |k: int| detector_step(ds[k].state(), above[k], now).1
}

pub open spec fn fired_indices(fired: Seq<(usize, u64)>) -> Seq<usize> {
    fired.map_values(|p: (usize, u64)| p.0)
}

/// Feed one frame: detector `k` takes `above[k]` (whether its
/// classifier's score reached its threshold) at time `now_ns`, pairing
/// detectors and outcomes in order as far as both go. `last_snapshot` is
/// moved to `now_ns` when a snapshot is due.
pub fn process_scores<Th>(
    detectors: &mut Vec<Detector<Th>>,
    above: &Vec<bool>,
    now_ns: u128,
    last_snapshot: &mut Option<u128>,
) -> (out: FrameOutcome)
    ensures
        final(detectors)@.len() == old(detectors)@.len(),
        forall|k: int| 0 <= k < old(detectors)@.len() ==> {
            let d0 = #[trigger] old(detectors)@[k];
            let d1 = final(detectors)@[k];
            &&& d1.name_spec() == d0.name_spec()
            &&& d1.threshold_spec() == d0.threshold_spec()
            &&& d1.state() == if k < above@.len() {
                detector_step(d0.state(), above@[k], now_ns).0
            } else {
                d0.state()
            }
        },
        lists_exactly(
            fired_indices(out.fired@),
            if old(detectors)@.len() < above@.len() { old(detectors)@.len() as int } else { above@.len() as int },
            fires_at(old(detectors)@, above@, now_ns),
        ),
        forall|j: int| 0 <= j < out.fired@.len() ==> (#[trigger] out.fired@[j]).1 == micros_of(now_ns),
        out.snapshot == snapshot_due_spec(*old(last_snapshot), now_ns),
        *final(last_snapshot) == if out.snapshot { Some(now_ns) } else { *old(last_snapshot) },
{
    let due = snapshot_due(*last_snapshot, now_ns);
    let n = if detectors.len() < above.len() { detectors.len() } else { above.len() };
    let ghost orig = detectors@;
    let ghost p = fires_at(orig, above@, now_ns);
    let mut fired: Vec<(usize, u64)> = Vec::new();
    let mut k: usize = 0;
    while k < n
        invariant
            n <= orig.len(),
            n <= above@.len(),
            n == if orig.len() < above@.len() { orig.len() } else { above@.len() },
            k <= n,
            p == fires_at(orig, above@, now_ns),
            detectors@.len() == orig.len(),
            forall|i: int| k <= i < orig.len() ==> detectors@[i] == orig[i],
            forall|i: int| 0 <= i < k ==> {
                let d0 = #[trigger] orig[i];
                let d1 = detectors@[i];
                &&& d1.name_spec() == d0.name_spec()
                &&& d1.threshold_spec() == d0.threshold_spec()
                &&& d1.state() == detector_step(d0.state(), above@[i], now_ns).0
            },
            lists_exactly(fired_indices(fired@), k as int, p),
            forall|j: int| 0 <= j < fired@.len() ==> (#[trigger] fired@[j]).1 == micros_of(now_ns),
        decreases n - k,
    {
        let ghost before = fired@;
        let mut d = detectors.remove(k);
        assert(d == orig[k as int]);
        let r = d.update(above[k], now_ns);
        detectors.insert(k, d);
        if let Some(ts) = r {
            fired.push((k, ts));
        }
        proof {
            assert(fired_indices(fired@) =~= if p(k as int) {
                fired_indices(before).push(k)
            } else {
                fired_indices(before)
            });
            assert forall|i: int| 0 <= i < k + 1 && #[trigger] p(i) implies fired_indices(fired@).contains(i as usize) by {
                if i < k {
                    let w = choose|w: int| 0 <= w < fired_indices(before).len() && fired_indices(before)[w] == i as usize;
                    assert(fired_indices(fired@)[w] == i as usize);
                } else {
                    assert(fired_indices(fired@)[fired_indices(fired@).len() - 1] == k);
                }
            }
        }
        k += 1;
    }
    if due {
        *last_snapshot = Some(now_ns);
    }
    FrameOutcome { fired, snapshot: due }
}

} // verus!

//! Cutting a sample stream into fixed-size frames.
//!
//! The pipeline consumes 80 ms windows of [`FRAME_SAMPLES`] samples at
//! [`TARGET_SAMPLE_RATE`]. Capture devices running at an integer multiple
//! of that rate are decimated by keeping every `decimation`-th sample; a
//! frame is emitted as soon as it is full, and a trailing partial frame is
//! never emitted. The sample type is left open: capture feeds
//! downmixed floats, the Wyoming and file sources feed normalised PCM.

use vstd::prelude::*;

verus! {

/// The pipeline's sample rate (16 kHz).
pub const TARGET_SAMPLE_RATE: u32 = 16000;

/// Samples per frame: 80 ms at [`TARGET_SAMPLE_RATE`].
pub const FRAME_SAMPLES: usize = 1280;

/// The samples kept by decimation from `xs`, when the first sample of
/// `xs` arrives at decimation phase `phase`: a sample is kept exactly when
/// it arrives at phase 0.
pub open spec fn decimated<T>(xs: Seq<T>, phase: nat, d: nat) -> Seq<T>
    decreases xs.len(),
{
    if xs.len() == 0 {
        Seq::empty()
    } else {
        let head: Seq<T> = if phase == 0 { seq![xs[0]] } else { Seq::empty() };
        head + decimated(xs.drop_first(), ((phase + 1) % d) as nat, d)
    }
}

/// Abstract state of an assembler: the decimation phase and the samples
/// of the frame under construction.
pub struct AssemblerState<T> {
    pub phase: nat,
    pub pending: Seq<T>,
}

/// One sample fed: the next state and the frame completed by it, if any.
pub open spec fn feed_step<T>(s: AssemblerState<T>, x: T, d: nat) -> (AssemblerState<T>, Option<Seq<T>>) {
    let next_phase = ((s.phase + 1) % d) as nat;
    if s.phase != 0 {
        (AssemblerState { phase: next_phase, pending: s.pending }, None)
    } else if s.pending.len() + 1 < FRAME_SAMPLES {
        (AssemblerState { phase: next_phase, pending: s.pending.push(x) }, None)
    } else {
        (AssemblerState { phase: next_phase, pending: Seq::empty() }, Some(s.pending.push(x)))
    }
}

/// Frames emitted, and the final state, after feeding all of `xs`.
pub open spec fn feed_all<T>(s: AssemblerState<T>, xs: Seq<T>, d: nat) -> (AssemblerState<T>, Seq<Seq<T>>)
    decreases xs.len(),
{
    if xs.len() == 0 {
        (s, Seq::empty())
    } else {
        let (s1, out) = feed_step(s, xs[0], d);
        let (s2, frames) = feed_all(s1, xs.drop_first(), d);
        match out {
            Some(f) => (s2, seq![f] + frames),
            None => (s2, frames),
        }
    }
}

/// All frames one after the other.
pub open spec fn concat_frames<T>(frames: Seq<Seq<T>>) -> Seq<T>
    decreases frames.len(),
{
    if frames.len() == 0 {
        Seq::empty()
    } else {
        frames[0] + concat_frames(frames.drop_first())
    }
}

/// Accumulates samples into frames of [`FRAME_SAMPLES`], keeping one
/// sample out of every `decimation`.
pub struct FrameAssembler<T> {
    decimation: usize,
    phase: usize,
    pending: Vec<T>,
}

impl<T: Copy> FrameAssembler<T> {
    pub closed spec fn decimation_spec(&self) -> nat {
        self.decimation as nat
    }

    pub closed spec fn state(&self) -> AssemblerState<T> {
        AssemblerState { phase: self.phase as nat, pending: self.pending@ }
    }

    pub closed spec fn wf(&self) -> bool {
        &&& self.decimation >= 1
        &&& self.phase < self.decimation
        &&& self.pending@.len() < FRAME_SAMPLES
    }

    /// A fresh assembler: phase 0, nothing pending.
    pub fn new(decimation: usize) -> (a: Self)
        requires
            decimation >= 1,
        ensures
            a.wf(),
            a.decimation_spec() == decimation,
            a.state() == (AssemblerState::<T> { phase: 0, pending: Seq::empty() }),
    {
        FrameAssembler { decimation, phase: 0, pending: Vec::new() }
    }

    /// Number of samples in the frame under construction.
    pub fn pending_len(&self) -> (n: usize)
        ensures
            n == self.state().pending.len(),
    {
        self.pending.len()
    }

    /// Feed one sample; returns the frame it completes, if it does.
    pub fn feed(&mut self, x: T) -> (out: Option<Vec<T>>)
        requires
            old(self).wf(),
        ensures
            final(self).wf(),
            final(self).decimation_spec() == old(self).decimation_spec(),
            (final(self).state(), match out { Some(f) => Some(f@), None => None })
                == feed_step(old(self).state(), x, old(self).decimation_spec()),
    {
        let phase = self.phase;
        self.phase = (phase + 1) % self.decimation;
        if phase != 0 {
            return None;
        }
        self.pending.push(x);
        if self.pending.len() < FRAME_SAMPLES {
            return None;
        }
        let mut full: Vec<T> = Vec::new();
        std::mem::swap(&mut full, &mut self.pending);
        Some(full)
    }

    /// Feed a run of samples; returns the frames completed, in order.
    pub fn feed_slice(&mut self, xs: &[T]) -> (frames: Vec<Vec<T>>)
        requires
            old(self).wf(),
        ensures
            final(self).wf(),
            final(self).decimation_spec() == old(self).decimation_spec(),
            (final(self).state(), frames@.map_values(|f: Vec<T>| f@))
                == feed_all(old(self).state(), xs@, old(self).decimation_spec()),
    {
        let mut frames: Vec<Vec<T>> = Vec::new();
        let mut i: usize = 0;
        let ghost s0 = self.state();
        let ghost d = self.decimation_spec();
        while i < xs.len()
            invariant
                self.wf(),
                self.decimation_spec() == d,
                i <= xs@.len(),
                ({
                    let (s_mid, f_mid) = feed_all(s0, xs@.subrange(0, i as int), d);
                    s_mid == self.state() && f_mid == frames@.map_values(|f: Vec<T>| f@)
                }),
            decreases xs@.len() - i,
        {
            proof {
                lemma_feed_all_snoc(s0, xs@.subrange(0, i as int), xs@[i as int], d);
                assert(xs@.subrange(0, i + 1) == xs@.subrange(0, i as int).push(xs@[i as int]));
            }
            let out = self.feed(xs[i]);
            match out {
                Some(f) => {
                    frames.push(f);
                },
                None => {},
            }
            proof {
                assert(frames@.map_values(|f: Vec<T>| f@) =~= frames@.map_values(|f: Vec<T>| f@));
            }
            i += 1;
        }
        proof {
            assert(xs@.subrange(0, xs@.len() as int) == xs@);
        }
        frames
    }
}

/// Feeding `xs` followed by `x` is feeding `xs`, then one more step.
pub proof fn lemma_feed_all_snoc<T>(s: AssemblerState<T>, xs: Seq<T>, x: T, d: nat)
    ensures
        ({
            let (s1, f1) = feed_all(s, xs, d);
            let (s2, out) = feed_step(s1, x, d);
            feed_all(s, xs.push(x), d) == (s2, match out { Some(f) => f1.push(f), None => f1 })
        }),
    decreases xs.len(),
{
    let (s1, f1) = feed_all(s, xs, d);
    let (s2, out) = feed_step(s1, x, d);
    let ys = xs.push(x);
    if xs.len() == 0 {
        assert(ys.drop_first() =~= Seq::<T>::empty());
        assert(ys[0] == x);
        assert(feed_all(s2, ys.drop_first(), d) == (s2, Seq::<Seq<T>>::empty()));
        match out {
            Some(f) => {
                assert(seq![f] + Seq::<Seq<T>>::empty() =~= Seq::<Seq<T>>::empty().push(f));
            },
            None => {},
        }
    } else {
        let (sa, oa) = feed_step(s, xs[0], d);
        assert(ys.drop_first() =~= xs.drop_first().push(x));
        assert(ys[0] == xs[0]);
        lemma_feed_all_snoc(sa, xs.drop_first(), x, d);
        let (sb, fb) = feed_all(sa, xs.drop_first(), d);
        assert(sb == s1);
        let (sc, fc) = feed_all(sa, ys.drop_first(), d);
        assert(sc == s2);
        assert(fc == match out { Some(f) => fb.push(f), None => fb });
        match oa {
            Some(fa) => {
                assert(f1 == seq![fa] + fb);
                match out {
                    Some(f) => {
                        assert(seq![fa] + fb.push(f) =~= (seq![fa] + fb).push(f));
                    },
                    None => {},
                }
            },
            None => {
                assert(f1 == fb);
            },
        }
    }
}

/// Framing loses and reorders nothing: after feeding any run of samples
/// to an assembler, the frames emitted, followed by the partial frame
/// still pending, are exactly what was pending before followed by the
/// decimated samples. Every frame emitted is full, and the partial frame
/// left behind is shorter than a frame.
pub proof fn law_frames_are_decimated_stream<T>(s: AssemblerState<T>, xs: Seq<T>, d: nat)
    requires
        d >= 1,
        s.phase < d,
        s.pending.len() < FRAME_SAMPLES,
    ensures
        ({
            let (fin, frames) = feed_all(s, xs, d);
            &&& concat_frames(frames) + fin.pending == s.pending + decimated(xs, s.phase, d)
            &&& forall|i: int| 0 <= i < frames.len() ==> (#[trigger] frames[i]).len() == FRAME_SAMPLES
            &&& fin.pending.len() < FRAME_SAMPLES
            &&& fin.phase < d
        }),
    decreases xs.len(),
{
    if xs.len() == 0 {
        assert(s.pending + Seq::<T>::empty() =~= s.pending);
        assert(concat_frames(Seq::<Seq<T>>::empty()) + s.pending =~= s.pending);
    } else {
        let x = xs[0];
        let rest = xs.drop_first();
        let (s1, out) = feed_step(s, x, d);
        let p1 = ((s.phase + 1) % d) as nat;
        assert(s1.phase == p1);
        law_frames_are_decimated_stream(s1, rest, d);
        let (fin, fr) = feed_all(s1, rest, d);
        let dec_rest = decimated(rest, p1, d);
        assert(concat_frames(fr) + fin.pending == s1.pending + dec_rest);
        if s.phase != 0 {
            assert(decimated(xs, s.phase, d) =~= dec_rest);
        } else {
            assert(decimated(xs, s.phase, d) =~= seq![x] + dec_rest);
            match out {
                Some(f) => {
                    let frames = seq![f] + fr;
                    assert(frames.drop_first() =~= fr);
                    assert(concat_frames(frames) == f + concat_frames(fr));
                    assert(s1.pending =~= Seq::<T>::empty());
                    assert(concat_frames(frames) + fin.pending =~= f + (concat_frames(fr) + fin.pending));
                    assert(f + (Seq::<T>::empty() + dec_rest) =~= s.pending + (seq![x] + dec_rest));
                    assert forall|i: int| 0 <= i < frames.len() implies (#[trigger] frames[i]).len() == FRAME_SAMPLES by {
                        if i > 0 {
                            assert(frames[i] == fr[i - 1]);
                        }
                    }
                },
                None => {
                    assert(s1.pending == s.pending.push(x));
                    assert(s.pending.push(x) + dec_rest =~= s.pending + (seq![x] + dec_rest));
                },
            }
        }
    }
}

} // verus!
